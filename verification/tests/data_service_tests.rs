use sagacraft_rs::data_service::DataService;
use sagacraft_rs::services::Service;
use sagacraft_rs::strmap::StrMap;
use serde_json::Value;

fn doc(text: &str) -> Value {
    serde_json::from_str(text).unwrap()
}

#[test]
fn entities_are_filed_by_number() {
    let mut d = DataService::new();
    assert!(d.get_room(1).is_none());
    d.add_room(1, doc(r#"{"name": "Hall"}"#));
    d.add_room(2, doc(r#"{"name": "Yard"}"#));
    d.add_room(1, doc(r#"{"name": "Great Hall"}"#));
    assert_eq!(d.get_room(1), Some(&doc(r#"{"name": "Great Hall"}"#)));
    assert_eq!(d.get_all_rooms().len(), 2);
    d.remove_room(1);
    d.remove_room(9);
    assert!(d.get_room(1).is_none());
    assert_eq!(d.get_all_rooms().len(), 1);
    assert!(d.get_item(2).is_none());

    d.add_entity("spells", 7, doc(r#"{"name": "Light"}"#));
    assert_eq!(d.get_entity("spells", 7), Some(&doc(r#"{"name": "Light"}"#)));
    assert!(d.get_entity("spells", 8).is_none());
    assert!(d.get_entity("curses", 7).is_none());
    d.remove_entity("spells", 7);
    assert!(d.get_entity("spells", 7).is_none());
}

#[test]
fn items_and_monsters_are_found_by_place() {
    let mut d = DataService::new();
    d.add_item(1, doc(r#"{"name": "Key", "location": 3}"#));
    d.add_item(2, doc(r#"{"name": "Lamp", "location": 4}"#));
    d.add_item(3, doc(r#"{"name": "Coin", "location": 3}"#));
    d.add_item(4, doc(r#"{"name": "Ghost", "location": "3"}"#));
    d.add_item(5, doc(r#"{"name": "Dust"}"#));
    let found: Vec<String> = d
        .find_items_by_location(3)
        .iter()
        .map(|v| v["name"].as_str().unwrap().to_string())
        .collect();
    assert_eq!(found, vec!["Key".to_string(), "Coin".to_string()]);
    assert_eq!(d.find_items_by_location(9).len(), 0);
    d.remove_item(1);
    assert_eq!(d.find_items_by_location(3).len(), 1);
    assert_eq!(d.get_all_items().len(), 4);

    d.add_monster(1, doc(r#"{"name": "Rat", "room_id": 2}"#));
    d.add_monster(2, doc(r#"{"name": "Bat", "room_id": 2.5}"#));
    assert_eq!(d.find_monsters_by_room(2).len(), 1);
    assert_eq!(d.get_monster(2), Some(&doc(r#"{"name": "Bat", "room_id": 2.5}"#)));
    d.remove_monster(1);
    assert_eq!(d.find_monsters_by_room(2).len(), 0);
    assert_eq!(d.get_all_monsters().len(), 1);
    assert_eq!(d.find_by("rooms", "level", 1).len(), 0);
}

#[test]
fn data_is_exported_imported_and_cleared() {
    let mut d = DataService::new();
    d.add_room(1, doc(r#"{"name": "Hall"}"#));
    d.add_item(5, doc(r#"{"name": "Key"}"#));
    d.add_entity("spells", 7, doc("1"));
    let out = d.export_data();
    assert_eq!(out.len(), 3);
    assert_eq!(out.get("rooms").unwrap().len(), 1);
    assert_eq!(out.get("items").unwrap()[0], (5, doc(r#"{"name": "Key"}"#)));
    assert!(out.get("monsters").unwrap().is_empty());

    let mut other = DataService::new();
    other.add_monster(3, doc("{}"));
    let mut partial = StrMap::new();
    partial.insert("rooms".to_string(), vec![(9, doc(r#"{"name": "Cave"}"#))]);
    partial.insert("spells".to_string(), vec![(1, doc("2"))]);
    other.import_data(partial);
    assert_eq!(other.get_room(9), Some(&doc(r#"{"name": "Cave"}"#)));
    assert_eq!(other.get_all_monsters().len(), 1);
    assert!(other.get_entity("spells", 1).is_none());

    d.clear_all();
    assert!(d.get_all_rooms().is_empty());
    assert!(d.get_all_items().is_empty());
    assert!(d.get_entity("spells", 7).is_none());
    d.add_room(2, doc("{}"));
    assert_eq!(d.get_all_rooms().len(), 1);
}

#[test]
fn the_service_comes_up_and_goes_down() {
    let mut d = DataService::new();
    assert_eq!(d.name(), "DataService");
    d.add_room(1, doc("{}"));
    assert_eq!(d.initialize(&StrMap::new()), Ok(()));
    assert_eq!(d.get_all_rooms().len(), 1);
    assert_eq!(d.shutdown(), Ok(()));
    assert!(d.get_entity("rooms", 1).is_none());
}
