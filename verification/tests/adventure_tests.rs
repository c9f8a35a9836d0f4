use sagacraft_rs::adventure::{Adventure, AdventureError, AdventureItem, AdventureRoom};
use sagacraft_rs::strmap::StrMap;

fn validation_message(adv: &Adventure) -> String {
    match adv.validate().unwrap_err() {
        AdventureError::Validation(msg) => msg,
        _ => panic!("expected validation error"),
    }
}

#[test]
fn demo_validates() {
    Adventure::demo().validate().unwrap();
}

#[test]
fn validate_requires_start_room() {
    let mut adv = Adventure::demo();
    adv.start_room = "missing".to_string();
    let err = adv.validate().unwrap_err();
    match err {
        AdventureError::Validation(msg) => assert!(msg.contains("start_room")),
        _ => panic!("expected validation error"),
    }
}

#[test]
fn into_game_state_sets_player_location() {
    let adv = Adventure::demo();
    let state = adv.into_game_state("Tester").unwrap();
    assert_eq!(state.player.location, "village");
    assert!(state.world.contains_key("forest"));
}

#[test]
fn validation_names_each_flaw() {
    let mut adv = Adventure::demo();
    adv.id = "  ".to_string();
    assert_eq!(validation_message(&adv), "adventure.id is required");

    let mut adv = Adventure::demo();
    adv.title = String::new();
    assert_eq!(validation_message(&adv), "adventure.title is required");

    let mut adv = Adventure::demo();
    adv.start_room = " ".to_string();
    assert_eq!(validation_message(&adv), "adventure.start_room is required");

    let mut adv = Adventure::demo();
    adv.rooms.clear();
    assert_eq!(validation_message(&adv), "adventure.rooms must not be empty");

    let mut adv = Adventure::demo();
    adv.rooms[1].id = "".to_string();
    assert_eq!(validation_message(&adv), "room.id is required");

    let mut adv = Adventure::demo();
    adv.rooms[1].id = "village".to_string();
    assert_eq!(validation_message(&adv), "duplicate room id: village");

    let mut adv = Adventure::demo();
    adv.start_room = "missing".to_string();
    assert_eq!(validation_message(&adv), "start_room does not exist: missing");

    let mut adv = Adventure::demo();
    adv.rooms[0].exits.insert(" ".to_string(), "forest".to_string());
    assert_eq!(validation_message(&adv), "room 'village' has an empty exit direction");

    let mut adv = Adventure::demo();
    adv.rooms[0].exits.insert("east".to_string(), "".to_string());
    assert_eq!(validation_message(&adv), "room 'village' exit 'east' has empty destination");

    let mut adv = Adventure::demo();
    adv.rooms[1].exits.insert("west".to_string(), "swamp".to_string());
    assert_eq!(
        validation_message(&adv),
        "room 'forest' exit 'west' points to unknown room 'swamp'"
    );
}

#[test]
fn error_message_names_the_kind() {
    let e = AdventureError::Validation("room.id is required".to_string());
    assert_eq!(e.message(), "validation error: room.id is required");
    let e = AdventureError::Io(std::io::Error::new(std::io::ErrorKind::NotFound, "gone"));
    assert_eq!(e.message(), "io error: gone");
    let bad = serde_json::from_str::<serde_json::Value>("{").unwrap_err();
    let text = format!("{}", bad);
    assert_eq!(AdventureError::Json(bad).message(), format!("json error: {}", text));
}

#[test]
fn default_adventure_is_not_sound()  {
    let adv = Adventure::default();
    assert_eq!(validation_message(&adv), "adventure.id is required");
}

#[test]
fn game_state_unfolds_the_document() {
    let mut adv = Adventure::demo();
    adv.player_start_inventory.push(AdventureItem {
        id: "lamp".to_string(),
        name: "Brass Lamp".to_string(),
        description: "It flickers.".to_string(),
    });
    let mut exits = StrMap::new();
    exits.insert("up".to_string(), "village".to_string());
    adv.rooms.push(AdventureRoom {
        id: "cellar".to_string(),
        title: "Cellar".to_string(),
        description: "Dark.".to_string(),
        exits,
        items: vec![],
    });
    let state = adv.into_game_state("Tester").unwrap();
    assert_eq!(state.player.name, "Tester");
    assert!(!state.is_over);
    assert_eq!(state.world.len(), 3);
    assert_eq!(state.player.inventory.len(), 1);
    assert_eq!(state.player.inventory[0].name, "Brass Lamp");
    let village = state.world.get("village").unwrap();
    assert_eq!(village.title, "Quiet Village");
    assert_eq!(village.items.len(), 1);
    assert_eq!(village.items[0].name, "Ancient Key");
    assert_eq!(village.exits.get("north").unwrap(), "forest");
    let cellar = state.world.get("cellar").unwrap();
    assert_eq!(cellar.exits.get("up").unwrap(), "village");
}

#[test]
fn unsound_document_gives_no_game_state() {
    let mut adv = Adventure::demo();
    adv.rooms[0].exits.insert("down".to_string(), "nowhere".to_string());
    assert!(adv.into_game_state("Tester").is_err());
}
