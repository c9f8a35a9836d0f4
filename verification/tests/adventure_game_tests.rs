use sagacraft_rs::adventure::AdventureError;
use sagacraft_rs::adventure_game::{
    AdventureGame, GameState, Item, ItemType, Monster, MonsterStatus, Player, Room,
};
use sagacraft_rs::chain::{
    read_input, BasicWorldSystem, CombatSystem, Input, InventorySystem, System,
};
use sagacraft_rs::quests::QuestSystem;

const DOC: &str = r#"{
  "title": "The Crypt",
  "intro": "It is cold.",
  "start_room": 1,
  "rooms": [
    {"id": 1, "name": "Hall", "description": "A wide hall.", "exits": {"north": 2, "east": 9, "bad": "x"}},
    {"id": 2, "name": "Crypt", "description": "Bones.", "exits": {"south": 1}, "is_dark": true},
    {"name": "Nowhere"}
  ],
  "items": [
    {"id": 10, "name": "Rusty Sword", "description": "Old.", "type": "weapon", "is_weapon": true,
     "weapon_type": 5, "weapon_dice": 2, "weapon_sides": 4, "location": 1, "weight": 3, "value": 7},
    {"id": 11, "name": "Stone Altar", "location": 1, "is_takeable": false},
    {"id": 12, "name": "Golden Sword", "type": "treasure", "location": 2},
    {"id": 13, "name": "Odd Thing", "type": "gizmo"}
  ],
  "monsters": [
    {"id": 20, "name": "Giant Rat", "description": "Big.", "room_id": 1, "hardiness": 4,
     "friendliness": "hostile", "weapon_id": 10, "armor_worn": 1, "gold": 3},
    {"id": 21, "name": "Old Troll", "room_id": 1, "hardiness": 50, "friendliness": "friendly"},
    {"id": 22, "name": "Ghost"}
  ],
  "effects": [{"kind": "fog"}],
  "quests": [
    {"id": 1, "title": "Rat Hunt", "description": "Kill the rat.",
     "objectives": [{"type": "kill_monster", "target_id": 20, "description": "Slay it"},
                    {"type": "dance", "description": "Celebrate"}]},
    {"id": 2, "title": "Walk"}
  ]
}"#;

fn loaded() -> AdventureGame {
    let mut game = AdventureGame::new("crypt.json".to_string());
    game.load_adventure(DOC).unwrap();
    game
}

fn words(list: &[&str]) -> Vec<String> {
    list.iter().map(|s| s.to_string()).collect()
}

#[test]
fn loading_reads_the_document_with_defaults() {
    let mut game = AdventureGame::new("crypt.json".to_string());
    let banner = game.load_adventure(DOC).unwrap();
    let rule = "=".repeat(60);
    let expected = format!("\n{}\n{:^60}\n{}\n\nIt is cold.\n\n", rule, "The Crypt", rule);
    assert_eq!(banner, expected);
    assert_eq!(game.adventure_title, "The Crypt");
    assert_eq!(game.adventure_intro, "It is cold.");
    assert_eq!(game.adventure_file, "crypt.json");
    assert_eq!(game.player.current_room, 1);

    assert_eq!(game.rooms.len(), 3);
    let hall = game.rooms.get(1).unwrap();
    assert_eq!(hall.name, "Hall");
    assert_eq!(hall.description, "A wide hall.");
    assert!(!hall.is_dark);
    assert_eq!(hall.exits.get("north"), Some(&2));
    assert_eq!(hall.exits.get("east"), Some(&9));
    assert_eq!(hall.exits.get("bad"), Some(&0));
    assert!(game.rooms.get(2).unwrap().is_dark);
    let nowhere = game.rooms.get(0).unwrap();
    assert_eq!(nowhere.name, "Nowhere");
    assert_eq!(nowhere.description, "");
    assert!(nowhere.exits.is_empty());

    let sword = game.items.get(10).unwrap();
    assert_eq!(sword.item_type, ItemType::Weapon);
    assert!(sword.is_weapon);
    assert_eq!((sword.weapon_type, sword.weapon_dice, sword.weapon_sides), (5, 2, 4));
    assert_eq!((sword.weight, sword.value, sword.location), (3, 7, 1));
    let altar = game.items.get(11).unwrap();
    assert_eq!(altar.item_type, ItemType::Normal);
    assert!(!altar.is_takeable);
    assert_eq!((altar.weight, altar.value), (1, 0));
    assert_eq!((altar.weapon_dice, altar.weapon_sides), (1, 6));
    assert!(!altar.is_weapon && !altar.is_armor && !altar.is_wearable);
    assert_eq!(game.items.get(12).unwrap().item_type, ItemType::Treasure);
    let odd = game.items.get(13).unwrap();
    assert_eq!(odd.item_type, ItemType::Normal);
    assert!(odd.is_takeable);
    assert_eq!(odd.location, 0);

    let rat = game.monsters.get(20).unwrap();
    assert_eq!(rat.friendliness, MonsterStatus::Hostile);
    assert_eq!((rat.hardiness, rat.agility, rat.courage), (4, 10, 100));
    assert_eq!(rat.current_health, Some(4));
    assert_eq!(rat.weapon_id, Some(10));
    assert_eq!((rat.armor_worn, rat.gold), (1, 3));
    assert!(!rat.is_dead);
    assert_eq!(game.monsters.get(21).unwrap().friendliness, MonsterStatus::Friendly);
    let ghost = game.monsters.get(22).unwrap();
    assert_eq!(ghost.friendliness, MonsterStatus::Neutral);
    assert_eq!((ghost.room_id, ghost.hardiness), (1, 10));
    assert_eq!(ghost.weapon_id, None);

    assert_eq!(game.effects.len(), 1);
    assert_eq!(game.quests.len(), 2);
}

#[test]
fn loading_defaults_for_an_empty_document() {
    let mut game = AdventureGame::new("x".to_string());
    game.player.current_room = 7;
    let banner = game.load_adventure("{}").unwrap();
    let rule = "=".repeat(60);
    assert_eq!(banner, format!("\n{}\n{:^60}\n{}\n\n", rule, "Untitled Adventure", rule));
    assert_eq!(game.adventure_title, "Untitled Adventure");
    assert_eq!(game.adventure_intro, "");
    assert_eq!(game.player.current_room, 1);
    assert!(game.rooms.is_empty());
}

#[test]
fn later_records_replace_earlier_ones() {
    let mut game = AdventureGame::new("x".to_string());
    game.load_adventure(r#"{"rooms": [{"id": 1, "name": "A"}, {"id": 1, "name": "B"}]}"#).unwrap();
    assert_eq!(game.rooms.len(), 1);
    assert_eq!(game.rooms.get(1).unwrap().name, "B");
    game.load_adventure(r#"{"rooms": [{"id": 2, "name": "C"}], "start_room": 2}"#).unwrap();
    assert_eq!(game.rooms.len(), 2);
    assert_eq!(game.player.current_room, 2);
}

#[test]
fn text_that_is_not_json_is_an_error() {
    let mut game = AdventureGame::new("x".to_string());
    let err = game.load_adventure("{ not json").unwrap_err();
    assert!(matches!(err, AdventureError::Json(_)));
    assert!(err.message().starts_with("json error: "));
    assert!(game.rooms.is_empty());
    assert_eq!(game.adventure_title, "");
}

#[test]
fn long_titles_are_not_padded() {
    let mut game = AdventureGame::new("x".to_string());
    let title = "T".repeat(61);
    let banner = game.load_adventure(&format!(r#"{{"title": "{}"}}"#, title)).unwrap();
    let rule = "=".repeat(60);
    assert_eq!(banner, format!("\n{}\n{}\n{}\n\n", rule, title, rule));
    let banner = game.load_adventure(r#"{"title": "odd"}"#).unwrap();
    assert_eq!(banner, format!("\n{}\n{:^60}\n{}\n\n", rule, "odd", rule));
}

#[test]
fn look_describes_the_room() {
    let game = loaded();
    assert_eq!(
        game.look(),
        "\nHall\n----\nA wide hall.\n\nObvious exits: bad, east, north\n\nYou see:\n  - Rusty Sword\n  - Stone Altar\n\nPresent:\n  - Giant Rat (hostile)\n  - Old Troll (friendly)\n  - Ghost\n"
    );
    let mut game = loaded();
    game.player.current_room = 0;
    // room 0 shares its number with the inventory, so what is carried by
    // no one in particular lies there
    assert_eq!(
        game.look(),
        "\nNowhere\n-------\n\n\nNo obvious exits.\n\nYou see:\n  - Odd Thing\n"
    );
    game.player.current_room = 77;
    assert_eq!(game.look(), "You are in a void.\n");
}

#[test]
fn underline_counts_bytes() {
    let mut game = AdventureGame::new("x".to_string());
    game.rooms.insert(1, Room::new(1, "Café".to_string(), "d".to_string()));
    assert_eq!(game.look(), "\nCafé\n-----\nd\n\nNo obvious exits.\n");
}

#[test]
fn moves_follow_exits() {
    let mut game = loaded();
    assert!(game.move_player("north"));
    assert_eq!(game.player.current_room, 2);
    assert_eq!(game.turn_count, 1);
    assert!(game.move_player("SOUTH"));
    assert_eq!(game.player.current_room, 1);
    assert_eq!(game.turn_count, 2);
    // no such exit
    assert!(!game.move_player("west"));
    // the exit leads to a room that does not exist
    assert!(!game.move_player("east"));
    assert_eq!(game.player.current_room, 1);
    assert_eq!(game.turn_count, 2);
    // the player stands in no room
    game.player.current_room = 50;
    assert!(!game.move_player("north"));
    let hall = game.rooms.get(1).unwrap();
    assert_eq!(hall.get_exit("North"), Some(2));
    assert_eq!(hall.get_exit("up"), None);
    assert!(game.get_current_room().is_none());
}

#[test]
fn take_and_drop_move_items() {
    let mut game = loaded();
    assert_eq!(game.get_items_in_room(1).len(), 2);
    // cannot be taken
    assert!(!game.take_item("altar"));
    // lies elsewhere
    assert!(!game.take_item("golden"));
    assert!(game.take_item("SWORD"));
    assert_eq!(game.player.inventory, vec![10]);
    assert_eq!(game.items.get(10).unwrap().location, 0);
    assert_eq!(game.get_items_in_room(1).len(), 1);
    assert!(game.move_player("north"));
    assert!(!game.drop_item("altar"));
    assert!(game.drop_item("rusty"));
    assert!(game.player.inventory.is_empty());
    assert_eq!(game.items.get(10).unwrap().location, 2);
    let here: Vec<i32> = game.get_items_in_room(2).iter().map(|i| i.id).collect();
    assert_eq!(here, vec![10, 12]);
    // the first match in ascending order of number is taken
    assert!(game.take_item("sword"));
    assert_eq!(game.player.inventory, vec![10]);
}

#[test]
fn dropping_removes_every_copy_of_the_number() {
    let mut game = loaded();
    game.player.inventory = vec![13, 10, 13, 99];
    assert!(game.drop_item("odd"));
    assert_eq!(game.player.inventory, vec![10, 99]);
    assert_eq!(game.items.get(13).unwrap().location, 1);
}

#[test]
fn monsters_in_room_are_alive() {
    let mut game = loaded();
    assert_eq!(game.get_monsters_in_room(1).len(), 3);
    game.monsters.get_mut(21).unwrap().is_dead = true;
    let names: Vec<String> = game.get_monsters_in_room(1).iter().map(|m| m.name.clone()).collect();
    assert_eq!(names, vec!["Giant Rat".to_string(), "Ghost".to_string()]);
    assert_eq!(game.get_monsters_in_room(2).len(), 0);
}

#[test]
fn first_responder_wins() {
    let mut game = loaded();
    let mut systems = vec![Any::World(BasicWorldSystem), Any::Inventory(InventorySystem), Any::Combat(CombatSystem)];
    assert_eq!(game.process_command(&mut systems, "north"), vec!["You move north.".to_string()]);
    assert_eq!(game.process_command(&mut systems, "go south"), vec!["You move south.".to_string()]);
    assert_eq!(game.process_command(&mut systems, "go west"), vec!["You can't go west.".to_string()]);
    assert_eq!(game.process_command(&mut systems, "go"), vec!["Go where?".to_string()]);
    assert_eq!(game.process_command(&mut systems, "w"), vec!["You can't go that way.".to_string()]);
    assert_eq!(game.process_command(&mut systems, "i"), vec!["Your inventory is empty.".to_string()]);
    assert_eq!(game.process_command(&mut systems, "take  sword"), vec!["Taken.".to_string()]);
    assert_eq!(game.process_command(&mut systems, "take altar"), vec!["You can't take that.".to_string()]);
    assert_eq!(game.process_command(&mut systems, "get"), vec!["Take what?".to_string()]);
    assert_eq!(game.process_command(&mut systems, "inventory"), vec!["Inventory:\n  - Rusty Sword".to_string()]);
    assert_eq!(game.process_command(&mut systems, "drop"), vec!["Drop what?".to_string()]);
    assert_eq!(game.process_command(&mut systems, "drop lamp"), vec!["You don't have that.".to_string()]);
    assert_eq!(game.process_command(&mut systems, "drop sword"), vec!["Dropped.".to_string()]);
    assert_eq!(game.process_command(&mut systems, "dance now"), vec!["Unknown command: dance now".to_string()]);
    assert_eq!(game.process_command(&mut systems, "   "), vec!["Unknown command:    ".to_string()]);
    assert_eq!(game.process_command(&mut systems, "look"), vec![game.look()]);
    let mut none: Vec<Any> = Vec::new();
    assert_eq!(game.process_command(&mut none, "look"), vec!["Unknown command: look".to_string()]);
}

enum Any {
    World(BasicWorldSystem),
    Inventory(InventorySystem),
    Combat(CombatSystem),
    Quests(QuestSystem),
    Echo(u32),
}

impl System for Any {
    fn on_command(&mut self, command: &str, args: &Vec<String>, game: &mut AdventureGame) -> Option<String> {
        match self {
            Any::World(s) => s.on_command(command, args, game),
            Any::Inventory(s) => s.on_command(command, args, game),
            Any::Combat(s) => s.on_command(command, args, game),
            Any::Quests(s) => s.on_command(command, args, game),
            Any::Echo(count) => {
                *count += 1;
                if command == "echo" {
                    Some(args.join(" "))
                } else {
                    None
                }
            }
        }
    }
}

#[test]
fn systems_behind_the_responder_are_not_asked() {
    let mut game = loaded();
    let mut systems = vec![Any::Echo(0), Any::World(BasicWorldSystem), Any::Echo(0)];
    assert_eq!(game.process_command(&mut systems, "echo a  b"), vec!["a b".to_string()]);
    assert_eq!(game.process_command(&mut systems, "north"), vec!["You move north.".to_string()]);
    assert_eq!(game.process_command(&mut systems, "sing"), vec!["Unknown command: sing".to_string()]);
    match (&systems[0], &systems[2]) {
        (Any::Echo(first), Any::Echo(last)) => {
            assert_eq!(*first, 3);
            assert_eq!(*last, 1);
        }
        _ => unreachable!(),
    }
}

#[test]
fn combat_attacks_and_tells_status() {
    let mut game = loaded();
    let mut combat = CombatSystem;
    assert_eq!(combat.on_command("attack", &words(&[]), &mut game), Some("Attack what?".to_string()));
    assert_eq!(
        combat.on_command("attack", &words(&["troll"]), &mut game),
        Some("You attack the Old Troll for 5 damage. It has 45 health left.".to_string())
    );
    assert_eq!(game.monsters.get(21).unwrap().current_health, Some(50));
    assert_eq!(
        combat.on_command("fight", &words(&["RAT"]), &mut game),
        Some("You defeat the Giant Rat!".to_string())
    );
    assert!(game.monsters.get(20).unwrap().is_dead);
    assert_eq!(
        combat.on_command("attack", &words(&["rat"]), &mut game),
        Some("There's no rat here to attack.".to_string())
    );
    game.monsters.get_mut(22).unwrap().current_health = None;
    assert_eq!(
        combat.on_command("attack", &words(&["ghost"]), &mut game),
        Some("There's no ghost here to attack.".to_string())
    );
    assert_eq!(
        combat.on_command("status", &words(&[]), &mut game),
        Some("Player: Adventurer\nHealth: 12/12\nGold: 200\nLocation: Room 1".to_string())
    );
    game.player.current_health = None;
    game.player.gold = -5;
    assert_eq!(
        combat.on_command("stats", &words(&[]), &mut game),
        Some("Player: Adventurer\nHealth: 0/12\nGold: -5\nLocation: Room 1".to_string())
    );
    assert_eq!(combat.on_command("look", &words(&[]), &mut game), None);
}

#[test]
fn quest_commands_work_on_the_adventures_quests() {
    let mut game = loaded();
    let mut systems = vec![Any::Quests(QuestSystem::new())];
    assert_eq!(
        game.process_command(&mut systems, "quests"),
        vec!["Active Quests:\n\nAvailable Quests:\n- Rat Hunt: Kill the rat.\n- Walk: \n".to_string()]
    );
    assert_eq!(
        game.process_command(&mut systems, "accept"),
        vec!["Usage: accept <quest_id>. Use 'quests' to see available quests.".to_string()]
    );
    assert_eq!(game.process_command(&mut systems, "accept 9"), vec!["Error: Quest not found".to_string()]);
    assert_eq!(game.process_command(&mut systems, "accept 1"), vec!["Accepted quest: Rat Hunt".to_string()]);
    assert_eq!(
        game.process_command(&mut systems, "quests"),
        vec!["Active Quests:\n- Rat Hunt: Kill the rat.\n  Current Stage: Main Quest\n    - Slay it (0/1)\n    - Celebrate (0/1)\n\nAvailable Quests:\n- Walk: \n".to_string()]
    );
    assert_eq!(
        game.process_command(&mut systems, "complete"),
        vec!["Usage: complete <quest_id>. Use 'quests' to see active quests.".to_string()]
    );
    assert_eq!(
        game.process_command(&mut systems, "complete 1"),
        vec!["Quest '1' not found or not completable.".to_string()]
    );
    assert_eq!(game.process_command(&mut systems, "accept 2"), vec!["Accepted quest: Walk".to_string()]);
    // a quest whose only stage has no objective is finished at once
    assert_eq!(game.process_command(&mut systems, "complete 2"), vec!["Completed quest: 2".to_string()]);
    assert_eq!(game.process_command(&mut systems, "hum"), vec!["Unknown command: hum".to_string()]);
    match &systems[0] {
        Any::Quests(q) => {
            let hunt = q.tracker.get_quest("1").unwrap();
            let objectives = &hunt.stages[0].objectives;
            assert_eq!(objectives[0].objective_id, "obj_0");
            assert_eq!(objectives[0].target, "20");
            assert_eq!(objectives[1].objective_id, "obj_1");
            assert_eq!(objectives[1].target, "0");
            assert!(q.tracker.completed_quests.contains("2"));
        }
        _ => unreachable!(),
    }
}

#[test]
fn dice_stay_in_range() {
    let mut sword = Item::new(1, "Sword".to_string(), "d".to_string(), ItemType::Weapon, 1, 1);
    assert_eq!(sword.get_damage(), 0);
    sword.is_weapon = true;
    sword.weapon_dice = 3;
    sword.weapon_sides = 4;
    for _ in 0..200 {
        let d = sword.get_damage();
        assert!((3..=12).contains(&d));
        assert_eq!(sword.damage().map(|d| (3..=12).contains(&d)), Some(true));
    }
    sword.weapon_sides = 1;
    assert_eq!(sword.get_damage(), 3);
    sword.weapon_dice = 0;
    assert_eq!(sword.get_damage(), 0);
    sword.weapon_dice = 2;
    sword.weapon_sides = 0;
    assert_eq!(sword.damage(), None);
    sword.weapon_dice = i32::MAX;
    sword.weapon_sides = 2;
    assert_eq!(sword.damage(), None);
}

#[test]
fn constructors_set_the_defaults() {
    let item = Item::new(3, "Lamp".to_string(), "Bright".to_string(), ItemType::Normal, 2, 9);
    assert!(item.is_takeable && !item.is_weapon && !item.is_armor && !item.is_wearable);
    assert_eq!((item.weapon_type, item.weapon_dice, item.weapon_sides, item.location), (0, 1, 6, 0));
    let m = Monster::new(1, "Orc".to_string(), "d".to_string(), 4, 9, 8, MonsterStatus::Hostile, 70);
    assert_eq!(m.current_health, Some(9));
    assert!(!m.is_dead);
    assert_eq!((m.weapon_id, m.armor_worn, m.gold), (None, 0, 0));
    let p = Player::new();
    assert_eq!(p.name, "Adventurer");
    assert_eq!((p.hardiness, p.agility, p.charisma, p.gold, p.current_room), (12, 12, 12, 200, 1));
    assert_eq!(p.weapon_ability.len(), 5);
    for kind in 1..=5 {
        assert_eq!(p.weapon_ability.get(kind), Some(&5));
    }
    assert_eq!(p.current_health, Some(12));
    let r = Room::new(4, "Den".to_string(), "d".to_string());
    assert!(r.exits.is_empty() && !r.is_dark);
}

#[test]
fn small_game_state_knows_rooms_by_number() {
    let mut s = GameState::new("Tester");
    assert_eq!(s.player.name, "Tester");
    assert!(s.world.contains_key("1"));
    assert!(s.world.contains_key("2"));
    assert_eq!(s.current_room().name, "Quiet Village");
    s.current_room_mut().is_dark = true;
    assert!(s.world.get("1").unwrap().is_dark);
    s.player.current_room = 2;
    assert_eq!(s.current_room().name, "Whispering Forest");
}

#[test]
fn the_session_ends_on_quit() {
    assert_eq!(read_input("quit\n"), Input::Quit);
    assert_eq!(read_input("  Q "), Input::Quit);
    assert_eq!(read_input("EXIT"), Input::Quit);
    assert_eq!(read_input("help"), Input::Help);
    assert_eq!(read_input(" H\n"), Input::Help);
    assert_eq!(read_input("  Take  Ancient KEY \n"), Input::Command("take  ancient key".to_string()));
    assert_eq!(read_input("quit now"), Input::Command("quit now".to_string()));
    assert_eq!(read_input(""), Input::Command(String::new()));
}

#[test]
fn replaying_commands_gives_the_same_game() {
    let script = [
        "look", "take sword", "north", "look", "drop rusty", "south", "attack rat", "status",
        "inventory", "go east", "sing",
    ];
    let mut outputs = Vec::new();
    let mut games = Vec::new();
    for _ in 0..2 {
        let mut game = loaded();
        let mut systems = vec![
            Any::World(BasicWorldSystem),
            Any::Inventory(InventorySystem),
            Any::Combat(CombatSystem),
        ];
        let mut out = Vec::new();
        for line in script {
            out.push(game.process_command(&mut systems, line));
        }
        outputs.push(out);
        games.push(game);
    }
    assert_eq!(outputs[0], outputs[1]);
    assert_eq!(games[0].player, games[1].player);
    assert_eq!(games[0].rooms, games[1].rooms);
    assert_eq!(games[0].items, games[1].items);
    assert_eq!(games[0].monsters, games[1].monsters);
    assert_eq!(games[0].turn_count, games[1].turn_count);
    assert_eq!(games[0].turn_count, 2);
    assert!(games[0].monsters.get(20).unwrap().is_dead);
}

#[test]
fn exits_are_found_under_the_direction_as_given() {
    let doc = r#"{
      "title": "Stairs",
      "start_room": 1,
      "rooms": [
        {"id": 1, "name": "Landing", "exits": {"North": 2, "north": 3, "Up": 2, "down": 3}},
        {"id": 2, "name": "Attic", "exits": {}},
        {"id": 3, "name": "Cellar", "exits": {}}
      ]
    }"#;
    let mut game = AdventureGame::new("stairs.json".to_string());
    game.load_adventure(doc).unwrap();
    let landing = game.rooms.get(1).unwrap().clone();
    // the key as given comes first
    assert_eq!(landing.get_exit("North"), Some(2));
    assert_eq!(landing.get_exit("north"), Some(3));
    assert_eq!(landing.get_exit("Up"), Some(2));
    // then its lower-case form
    assert_eq!(landing.get_exit("NORTH"), Some(3));
    assert_eq!(landing.get_exit("DOWN"), Some(3));
    // a key with a capital is not found from another spelling
    assert_eq!(landing.get_exit("up"), None);
    assert_eq!(landing.get_exit("UP"), None);

    assert!(game.move_player("Up"));
    assert_eq!(game.player.current_room, 2);
    assert_eq!(game.turn_count, 1);
    game.player.current_room = 1;
    assert!(!game.move_player("up"));
    assert_eq!(game.player.current_room, 1);
    assert!(game.move_player("North"));
    assert_eq!(game.player.current_room, 2);
    game.player.current_room = 1;
    assert!(game.move_player("NORTH"));
    assert_eq!(game.player.current_room, 3);
    assert_eq!(game.turn_count, 3);
}

#[test]
fn a_move_that_fails_needs_no_turn_left() {
    let mut game = loaded();
    game.turn_count = i32::MAX;
    assert!(!game.move_player("west"));
    assert!(!game.move_player("WEST"));
    assert!(!game.move_player("east"));
    assert_eq!(game.player.current_room, 1);
    assert_eq!(game.turn_count, i32::MAX);
}
