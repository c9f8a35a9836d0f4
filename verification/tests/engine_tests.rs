use sagacraft_rs::adventure::Adventure;
use sagacraft_rs::command::{Command, Direction};
use sagacraft_rs::engine::{CoreSystem, Engine, EngineEvent, EngineOutput};
use sagacraft_rs::game_state::{GameState, Item, Player, Room};
use sagacraft_rs::systems::{BasicWorldSystem, InventorySystem, System};

fn run(engine: &mut Engine<CoreSystem>, line: &str) -> Vec<String> {
    let cmd = Command::parse(line).unwrap();
    engine.step(EngineEvent::Command(cmd)).lines
}

#[test]
fn moving_updates_location() {
    let mut engine = Engine::new("Tester");
    assert_eq!(engine.state.player.location, "village");
    let _ = engine.step(EngineEvent::Command(Command::Move(Direction::North)));
    assert_eq!(engine.state.player.location, "forest");
}

#[test]
fn quit_sets_game_over() {
    let mut engine = Engine::new("Tester");
    assert!(!engine.state.is_over);
    let _ = engine.step(EngineEvent::Command(Command::Quit));
    assert!(engine.state.is_over);
}

#[test]
fn world_has_two_rooms() {
    let s = GameState::new("Tester");
    assert!(s.world.contains_key("village"));
    assert!(s.world.contains_key("forest"));
}

#[test]
fn village_has_key_item() {
    let s = GameState::new("Tester");
    let room = s.world.get("village").unwrap();
    assert!(room.items.iter().any(|i| i.name == "Ancient Key"));
}

#[test]
fn look_prints_room_title() {
    let mut engine = Engine::new("Tester");
    let out = engine.step(EngineEvent::Command(Command::Look));
    assert!(out.lines.iter().any(|l| l.contains("Quiet Village")));
}

#[test]
fn take_moves_item_to_inventory() {
    let mut engine = Engine::new("Tester");
    let out = engine.step(EngineEvent::Command(Command::Take("Ancient Key".to_string())));
    assert!(out.lines.iter().any(|l| l.contains("You take")));
    assert!(engine.state.player.has_item_named("Ancient Key"));
}

#[test]
fn village_forest_scenario() {
    let mut engine = Engine::from_adventure("Tester", Adventure::demo()).unwrap();

    let seen = run(&mut engine, "look");
    assert_eq!(
        seen,
        vec![
            "Quiet Village".to_string(),
            "A small village with a single cobblestone path and a warm lantern glow.".to_string(),
            "You see:".to_string(),
            "- Ancient Key".to_string(),
            "Exits: north".to_string(),
        ]
    );

    let taken = run(&mut engine, "take Ancient Key");
    assert_eq!(taken, vec!["You take the Ancient Key.".to_string()]);
    assert!(engine.state.player.has_item_named("ancient key"));
    assert!(engine.state.world.get("village").unwrap().items.is_empty());
    let seen = run(&mut engine, "look");
    assert!(!seen.iter().any(|l| l.contains("Ancient Key")));

    let moved = run(&mut engine, "n");
    assert_eq!(moved, vec!["You travel north.".to_string()]);
    assert_eq!(engine.state.player.location, "forest");

    let dropped = run(&mut engine, "drop key");
    assert_eq!(dropped, vec!["You drop the Ancient Key.".to_string()]);
    assert!(engine.state.world.get("village").unwrap().items.is_empty());
    let forest = engine.state.world.get("forest").unwrap();
    assert_eq!(forest.items.len(), 1);
    assert_eq!(forest.items[0].name, "Ancient Key");
    assert!(!engine.state.player.has_item_named("Ancient Key"));
}

#[test]
fn movement_follows_exits_only() {
    let mut engine = Engine::new("Tester");
    let out = run(&mut engine, "south");
    assert_eq!(out, vec!["You can't go that way.".to_string()]);
    assert_eq!(engine.state.player.location, "village");
    let out = run(&mut engine, "go north");
    assert_eq!(out, vec!["You travel north.".to_string()]);
    let out = run(&mut engine, "s");
    assert_eq!(out, vec!["You travel south.".to_string()]);
    assert_eq!(engine.state.player.location, "village");
}

#[test]
fn inventory_and_failures_are_told() {
    let mut engine = Engine::new("Tester");
    assert_eq!(run(&mut engine, "i"), vec!["Your inventory is empty.".to_string()]);
    assert_eq!(run(&mut engine, "take sword"), vec!["You don't see that here.".to_string()]);
    assert_eq!(run(&mut engine, "drop sword"), vec!["You aren't carrying that.".to_string()]);
    let _ = run(&mut engine, "get ANCIENT KEY");
    assert_eq!(
        run(&mut engine, "inventory"),
        vec!["You are carrying:".to_string(), "- Ancient Key".to_string()]
    );
    assert_eq!(run(&mut engine, "dance"), vec!["I don't understand: dance".to_string()]);
    assert_eq!(run(&mut engine, "use key"), Vec::<String>::new());
}

#[test]
fn help_lists_the_commands() {
    let mut engine = Engine::new("Tester");
    let out = run(&mut engine, "help");
    assert_eq!(out.len(), 8);
    assert_eq!(out[0], "Commands:");
    assert_eq!(out[7], "  quit");
}

#[test]
fn replay_gives_the_same_state_and_output() {
    let script = ["look", "take ancient key", "n", "look", "drop Ancient Key", "s", "i", "quit"];
    let mut first = Engine::new("Tester");
    let mut second = Engine::new("Tester");
    let mut out1 = Vec::new();
    let mut out2 = Vec::new();
    for line in script {
        out1.push(run(&mut first, line));
    }
    for line in script {
        out2.push(run(&mut second, line));
    }
    assert_eq!(out1, out2);
    assert_eq!(first.state, second.state);
    assert!(first.state.is_over);
}

#[test]
fn systems_run_in_order_and_outputs_concatenate() {
    let mut engine: Engine<CoreSystem> = Engine::with_state(GameState::new("Tester"));
    engine.add_system(CoreSystem::World(BasicWorldSystem));
    engine.add_system(CoreSystem::World(BasicWorldSystem));
    engine.add_system(CoreSystem::Inventory(InventorySystem));
    let out = run(&mut engine, "quit");
    assert_eq!(out, vec!["Goodbye.".to_string(), "Goodbye.".to_string()]);
    assert_eq!(BasicWorldSystem.name(), "basic_world");
    assert_eq!(InventorySystem.name(), "inventory");
}

#[test]
fn engine_output_builders() {
    assert!(EngineOutput::new().is_empty());
    assert!(EngineOutput::none().is_empty());
    let mut out = EngineOutput::line("one");
    out.push("two".to_string());
    out.extend(EngineOutput::lines(["three", "four"]));
    assert_eq!(out.lines, vec!["one", "two", "three", "four"]);
    assert!(!out.is_empty());
}

#[test]
fn rooms_and_players_hold_items() {
    let mut room = Room::new("cave", "Cave", "Damp.")
        .with_exit("out", "village")
        .with_exit("out", "forest")
        .with_item(Item::new("a", "Torch", "Lit."))
        .with_item(Item::new("b", "torch", "Unlit."));
    assert_eq!(room.exits.len(), 1);
    assert_eq!(room.exits.get("out").unwrap(), "forest");
    let first = room.remove_item_named("TORCH").unwrap();
    assert_eq!(first.id, "a");
    assert_eq!(room.items.len(), 1);
    assert!(room.remove_item_named("lamp").is_none());
    room.add_item(first.clone());
    assert_eq!(room.items[1], first);

    let mut player = Player::new("Ann", "cave");
    assert!(!player.has_item_named("torch"));
    player.inventory.push(first);
    assert!(player.has_item_named("tOrCh"));
    assert_eq!(player.location, "cave");
}

#[test]
fn current_room_follows_the_player() {
    let mut state = GameState::new("Tester");
    assert_eq!(state.current_room().title, "Quiet Village");
    state.current_room_mut().add_item(Item::new("coin", "Coin", "Shiny."));
    assert_eq!(state.world.get("village").unwrap().items.len(), 2);
    state.player.location = "forest".to_string();
    assert_eq!(state.current_room().title, "Whispering Forest");
}

enum Staged {
    Core(CoreSystem),
    Ambient { heard: u32 },
}

impl System for Staged {
    fn name(&self) -> &'static str {
        match self {
            Staged::Core(s) => s.name(),
            Staged::Ambient { .. } => "ambient",
        }
    }

    fn on_event(&mut self, state: &mut GameState, event: &EngineEvent) -> EngineOutput {
        match self {
            Staged::Core(s) => s.on_event(state, event),
            Staged::Ambient { heard } => match event {
                EngineEvent::Command(Command::Move(_)) => {
                    *heard += 1;
                    if state.player.location == "forest" {
                        EngineOutput::lines(["The pines whisper.", "An owl calls."])
                    } else {
                        EngineOutput::line("A lantern creaks.")
                    }
                }
                _ => EngineOutput::none(),
            },
        }
    }
}

#[test]
fn every_system_reacts_to_an_event() {
    let mut engine: Engine<Staged> = Engine::with_state(GameState::new("Tester"));
    engine.add_system(Staged::Core(CoreSystem::Inventory(InventorySystem)));
    engine.add_system(Staged::Core(CoreSystem::World(BasicWorldSystem)));
    engine.add_system(Staged::Ambient { heard: 0 });
    let out = engine.step(EngineEvent::Command(Command::Move(Direction::North)));
    // the ambient system runs after the world system and sees the new room
    assert_eq!(
        out.lines,
        vec![
            "You travel north.".to_string(),
            "The pines whisper.".to_string(),
            "An owl calls.".to_string()
        ]
    );
    let out = engine.step(EngineEvent::Command(Command::Look));
    assert_eq!(out.lines[0], "Whispering Forest");
    let out = engine.step(EngineEvent::Command(Command::Move(Direction::East)));
    assert_eq!(
        out.lines,
        vec![
            "You can't go that way.".to_string(),
            "The pines whisper.".to_string(),
            "An owl calls.".to_string()
        ]
    );
    match &engine.systems[2] {
        Staged::Ambient { heard } => assert_eq!(*heard, 2),
        _ => unreachable!(),
    }
    assert_eq!(engine.systems[2].name(), "ambient");
}

#[test]
fn validity_can_be_tested() {
    let mut state = GameState::new("Tester");
    assert!(state.is_valid());
    state.player.location = "swamp".to_string();
    assert!(!state.is_valid());
    state.player.location = "forest".to_string();
    assert!(state.is_valid());
    state.current_room_mut().exits.insert("down".to_string(), "cellar".to_string());
    assert!(!state.is_valid());
    state.world.insert("cellar".to_string(), Room::new("cellar", "Cellar", "Dark."));
    assert!(state.is_valid());
}

#[test]
fn core_systems_are_named_after_their_part() {
    assert_eq!(CoreSystem::Inventory(InventorySystem).name(), "inventory");
    assert_eq!(CoreSystem::World(BasicWorldSystem).name(), "basic_world");
}

#[test]
fn dropping_finds_an_item_by_part_of_its_name() {
    let mut engine = Engine::new("Tester");
    engine.state.current_room_mut().add_item(Item::new("b", "Brass Key", "Shiny."));
    // taking asks for the whole name, in any letter case
    assert_eq!(run(&mut engine, "take KEY"), vec!["You don't see that here.".to_string()]);
    assert_eq!(run(&mut engine, "take brass"), vec!["You don't see that here.".to_string()]);
    assert_eq!(run(&mut engine, "take ANCIENT key"), vec!["You take the Ancient Key.".to_string()]);
    assert_eq!(run(&mut engine, "take brass key"), vec!["You take the Brass Key.".to_string()]);
    assert_eq!(engine.state.current_room().items.len(), 0);
    // dropping takes the first carried item whose name holds the words
    assert_eq!(run(&mut engine, "drop keys"), vec!["You aren't carrying that.".to_string()]);
    assert_eq!(run(&mut engine, "drop ss k"), vec!["You drop the Brass Key.".to_string()]);
    assert_eq!(run(&mut engine, "drop KEY"), vec!["You drop the Ancient Key.".to_string()]);
    assert_eq!(run(&mut engine, "drop key"), vec!["You aren't carrying that.".to_string()]);
    let village = engine.state.world.get("village").unwrap();
    assert_eq!(village.items.len(), 2);
    assert_eq!(village.items[0].name, "Brass Key");
    assert_eq!(village.items[1].name, "Ancient Key");
    // whole names are asked of the room and of the player themselves
    assert!(!engine.state.player.has_item_named("key"));
    assert!(engine.state.current_room_mut().remove_item_named("key").is_none());
    assert!(engine.state.current_room_mut().remove_item_named("brass key").is_some());
}
