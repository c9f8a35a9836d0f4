use sagacraft_rs::adventure::Adventure;
use sagacraft_rs::editor::{
    parse_args, parse_words, App, Args, Key, KeyOutcome, Mode, Modifiers, PlayerArgs, Request,
};

fn words(list: &[&str]) -> Vec<String> {
    list.iter().map(|s| s.to_string()).collect()
}

fn app() -> App {
    App::new_with_file("demo.json".to_string(), Adventure::demo())
}

fn typed(app: &mut App, line: &str) -> KeyOutcome {
    app.handle_key(Key::Char(':', Modifiers::Plain));
    for c in line.chars() {
        app.handle_key(Key::Char(c, Modifiers::Plain));
    }
    app.handle_key(Key::Enter)
}

#[test]
fn words_respect_quotes() {
    assert_eq!(parse_words("item add key").unwrap(), words(&["item", "add", "key"]));
    assert_eq!(
        parse_words("item add key \"Ancient Key\" 'A key.'").unwrap(),
        words(&["item", "add", "key", "Ancient Key", "A key."])
    );
    assert_eq!(parse_words("  a   b  ").unwrap(), words(&["a", "b"]));
    assert_eq!(parse_words("").unwrap(), Vec::<String>::new());
    assert_eq!(parse_words("say \"it's\"").unwrap(), words(&["say", "it's"]));
    assert_eq!(parse_words(r#"x "a \" b" y"#).unwrap(), words(&["x", "a \" b", "y"]));
    assert_eq!(parse_words(r#"a\b"#).unwrap(), words(&[r#"a\b"#]));
    assert_eq!(parse_words("pre\"fix ed\"post").unwrap(), words(&["prefix edpost"]));
    assert_eq!(parse_words("a \"\" b").unwrap(), words(&["a", "b"]));
    assert_eq!(parse_words("\"open").unwrap_err(), "unterminated quote");
    assert_eq!(parse_words("'end\\").unwrap_err(), "unterminated quote");
}

#[test]
fn rooms_are_added_deleted_and_edited() {
    let mut a = app();
    assert_eq!(a.exec_command("room add cave"), Request::Nothing);
    assert_eq!(a.status, "Added room 'cave'");
    assert_eq!(a.adventure.rooms.len(), 3);
    assert_eq!(a.adventure.rooms[2].title, "cave");
    assert_eq!(a.selected_room, 2);
    assert!(a.dirty);
    assert_eq!(a.adventure.start_room, "village");
    a.exec_command("room add cave");
    assert_eq!(a.status, "room id already exists: cave");
    a.exec_command("room add");
    assert_eq!(a.status, "usage: room add <id>");
    a.exec_command("room set title \"Dark Cave\"");
    assert_eq!(a.status, "Updated room title");
    assert_eq!(a.adventure.rooms[2].title, "Dark Cave");
    a.exec_command("room set desc Drip.");
    assert_eq!(a.adventure.rooms[2].description, "Drip.");
    a.exec_command("room set description Drop.");
    assert_eq!(a.adventure.rooms[2].description, "Drop.");
    a.exec_command("room set colour red");
    assert_eq!(a.status, "usage: room set title|desc <text>");
    a.exec_command("room set title");
    assert_eq!(a.status, "usage: room set title|desc <text>");
    a.exec_command("room del");
    assert_eq!(a.status, "Deleted room 'cave'");
    assert_eq!(a.adventure.rooms.len(), 2);
    assert_eq!(a.selected_room, 1);
    a.exec_command("room del village");
    assert_eq!(a.status, "Deleted room 'village'");
    assert_eq!(a.selected_room, 0);
    assert_eq!(a.adventure.rooms[0].id, "forest");
    a.exec_command("room del swamp");
    assert_eq!(a.status, "no such room: swamp");
    a.exec_command("room del forest");
    a.exec_command("room del");
    assert_eq!(a.status, "no room selected");
    a.exec_command("room set title x");
    assert_eq!(a.status, "no room selected");
    a.exec_command("room paint");
    assert_eq!(a.status, "usage: room add <id> | room del <id?> | room set title|desc <text>");
}

#[test]
fn the_first_room_becomes_the_start() {
    let mut a = App::new_with_file("new.json".to_string(), Adventure::default());
    a.exec_command("room add hall");
    assert_eq!(a.adventure.start_room, "hall");
    a.exec_command("room add yard");
    assert_eq!(a.adventure.start_room, "hall");
    a.exec_command("set start yard");
    assert_eq!(a.adventure.start_room, "yard");
    assert_eq!(a.status, "start_room set to 'yard'");
    a.exec_command("set start");
    assert_eq!(a.status, "usage: set start <room_id>");
    a.exec_command("set end yard");
    assert_eq!(a.status, "usage: set start <room_id>");
}

#[test]
fn exits_and_items_belong_to_the_selected_room() {
    let mut a = app();
    a.exec_command("exit set east forest");
    assert_eq!(a.status, "Set exit 'east' -> 'forest'");
    assert_eq!(a.adventure.rooms[0].exits.get("east").unwrap(), "forest");
    a.exec_command("exit set east");
    assert_eq!(a.status, "usage: exit set <dir> <dest_room_id>");
    a.exec_command("exit del north");
    assert_eq!(a.status, "Deleted exit 'north'");
    assert!(!a.adventure.rooms[0].exits.contains_key("north"));
    a.exec_command("exit del");
    assert_eq!(a.status, "usage: exit del <dir>");
    a.exec_command("exit");
    assert_eq!(a.status, "usage: exit set <dir> <dest> | exit del <dir>");

    a.exec_command("item add lamp \"Brass Lamp\" \"It glows.\"");
    assert_eq!(a.status, "Added item 'Brass Lamp'");
    assert_eq!(a.adventure.rooms[0].items.len(), 2);
    assert_eq!(a.adventure.rooms[0].items[1].description, "It glows.");
    a.exec_command("item add lamp");
    assert_eq!(a.status, "usage: item add <id> <name> <desc>");
    a.exec_command("item del \"ancient key\"");
    assert_eq!(a.status, "Deleted item 'Ancient Key'");
    assert_eq!(a.adventure.rooms[0].items.len(), 1);
    a.exec_command("item del sword");
    assert_eq!(a.status, "No such item in room");
    a.exec_command("item del");
    assert_eq!(a.status, "usage: item del <name>");
    a.exec_command("item");
    assert_eq!(a.status, "usage: item add <id> <name> <desc> | item del <name>");

    a.selected_room = 5;
    a.exec_command("exit set a b");
    assert_eq!(a.status, "no room selected");
    a.exec_command("item add a b c");
    assert_eq!(a.status, "no room selected");
    assert!(a.selected_room().is_none());
    a.clamp_selection();
    assert_eq!(a.selected_room, 1);
    assert_eq!(a.selected_room().unwrap().id, "forest");
    a.selected_room_mut().unwrap().title = "Woods".to_string();
    assert_eq!(a.adventure.rooms[1].title, "Woods");
}

#[test]
fn commands_ask_for_saving_and_leaving() {
    let mut a = app();
    assert_eq!(a.exec_command("   "), Request::Nothing);
    assert_eq!(a.status, "Press ':' for commands. 's' to save.");
    assert_eq!(a.exec_command("\"\""), Request::Nothing);
    assert_eq!(a.exec_command("'open"), Request::Nothing);
    assert_eq!(a.status, "Command parse error: unterminated quote");
    assert_eq!(a.exec_command("help"), Request::Nothing);
    assert_eq!(
        a.status,
        "Commands: w, q, wq, set start <room>, room add/del/set, exit set/del, item add/del"
    );
    assert_eq!(a.exec_command("fly"), Request::Nothing);
    assert_eq!(a.status, "Unknown command: fly");
    assert_eq!(a.exec_command("w"), Request::Save);
    assert_eq!(a.exec_command(" write "), Request::Save);
    assert_eq!(a.exec_command("wq"), Request::SaveAndQuit);
    assert!(!a.wants_to_quit());
    assert_eq!(a.exec_command("q"), Request::Nothing);
    assert!(a.wants_to_quit());

    let mut a = app();
    a.dirty = true;
    a.quit_confirm = true;
    a.save_finished(Err("disk full".to_string()));
    assert_eq!(a.status, "Save failed: disk full");
    assert!(a.dirty && a.quit_confirm);
    a.save_finished(Ok(()));
    assert_eq!(a.status, "Saved demo.json");
    assert!(!a.dirty && !a.quit_confirm);
    a.quit_requested();
    assert_eq!(a.status, "quit");
}

#[test]
fn keys_drive_the_editor() {
    let stay = KeyOutcome { quit: false, request: Request::Nothing };
    let leave = KeyOutcome { quit: true, request: Request::Nothing };
    let mut a = app();
    assert_eq!(a.handle_key(Key::Down), stay);
    assert_eq!(a.selected_room, 1);
    assert_eq!(a.handle_key(Key::Down), stay);
    assert_eq!(a.selected_room, 1);
    assert_eq!(a.handle_key(Key::Up), stay);
    assert_eq!(a.handle_key(Key::Up), stay);
    assert_eq!(a.selected_room, 0);
    assert_eq!(a.handle_key(Key::Other), stay);
    assert_eq!(a.handle_key(Key::Char('x', Modifiers::Plain)), stay);
    assert_eq!(
        a.handle_key(Key::Char('s', Modifiers::Plain)),
        KeyOutcome { quit: false, request: Request::Save }
    );
    assert_eq!(a.handle_key(Key::Char('c', Modifiers::Plain)), stay);
    assert_eq!(a.handle_key(Key::Char('c', Modifiers::Control)), leave);
    assert_eq!(a.handle_key(Key::Char('q', Modifiers::Plain)), leave);

    // unsaved changes need a second q
    assert_eq!(typed(&mut a, "room add cave"), stay);
    assert!(a.dirty);
    assert_eq!(a.mode, Mode::Normal);
    assert_eq!(a.handle_key(Key::Char('q', Modifiers::Plain)), stay);
    assert_eq!(a.status, "Unsaved changes. Press q again to quit, or save with s.");
    assert_eq!(a.handle_key(Key::Up), stay);
    assert!(!a.quit_confirm);
    assert_eq!(a.handle_key(Key::Char('q', Modifiers::Control)), stay);
    assert_eq!(a.handle_key(Key::Char('q', Modifiers::Shift)), leave);
}

#[test]
fn the_command_line_is_typed_and_edited() {
    let stay = KeyOutcome { quit: false, request: Request::Nothing };
    let mut a = app();
    a.handle_key(Key::Char(':', Modifiers::Plain));
    assert_eq!(a.mode, Mode::Command);
    a.handle_key(Key::Char('w', Modifiers::Plain));
    a.handle_key(Key::Char('Q', Modifiers::Shift));
    a.handle_key(Key::Char('x', Modifiers::Control));
    a.handle_key(Key::Char('y', Modifiers::Other));
    a.handle_key(Key::Up);
    assert_eq!(a.cmd, "wQ");
    assert_eq!(a.handle_key(Key::Backspace), stay);
    assert_eq!(a.cmd, "w");
    a.handle_key(Key::Char('é', Modifiers::Plain));
    a.handle_key(Key::Backspace);
    a.handle_key(Key::Char('q', Modifiers::Plain));
    assert_eq!(
        a.handle_key(Key::Enter),
        KeyOutcome { quit: false, request: Request::SaveAndQuit }
    );
    assert_eq!(a.cmd, "");
    assert_eq!(a.mode, Mode::Normal);

    a.handle_key(Key::Char(':', Modifiers::Plain));
    a.handle_key(Key::Backspace);
    a.handle_key(Key::Char('q', Modifiers::Plain));
    assert_eq!(a.handle_key(Key::Esc), stay);
    assert_eq!(a.mode, Mode::Normal);
    assert_eq!(a.cmd, "");
    assert_eq!(typed(&mut a, "quit"), KeyOutcome { quit: true, request: Request::Nothing });
}

#[test]
fn editor_arguments() {
    assert_eq!(Args::parse(words(&[])), Args::default());
    assert_eq!(
        Args::parse(words(&["--file", "a.json"])),
        Args { file: Some("a.json".to_string()), new: None, show_help: false }
    );
    assert_eq!(
        Args::parse(words(&["-f", "a.json", "--new", "b.json"])),
        Args { file: Some("a.json".to_string()), new: Some("b.json".to_string()), show_help: false }
    );
    assert_eq!(
        Args::parse(words(&["x.json", "y.json"])),
        Args { file: Some("x.json".to_string()), new: None, show_help: false }
    );
    assert_eq!(
        Args::parse(words(&["--new", "n.json", "x.json"])),
        Args { file: None, new: Some("n.json".to_string()), show_help: false }
    );
    assert!(Args::parse(words(&["--file"])).show_help);
    assert!(Args::parse(words(&["a", "--new"])).show_help);
    assert_eq!(
        Args::parse(words(&["-h", "--file", "a.json"])),
        Args { file: None, new: None, show_help: true }
    );
    assert_eq!(
        Args::parse(words(&["--file", "--help"])),
        Args { file: Some("--help".to_string()), new: None, show_help: false }
    );
}

#[test]
fn the_editor_finds_its_file() {
    assert_eq!(
        Args::parse(words(&["-f", "a.json", "--new", "b.json"])).target(),
        ("a.json".to_string(), true)
    );
    assert_eq!(Args::parse(words(&["x.json"])).target(), ("x.json".to_string(), false));
    assert_eq!(Args::parse(words(&["--new", "n.json"])).target(), ("n.json".to_string(), true));
    assert_eq!(
        Args::parse(words(&[])).target(),
        ("rust/adventures/demo_adventure.json".to_string(), false)
    );
}

#[test]
fn player_arguments() {
    assert_eq!(
        parse_args(words(&[])),
        PlayerArgs::Play("adventures/infinite_archive.json".to_string())
    );
    assert_eq!(parse_args(words(&["-a", "x.json"])), PlayerArgs::Play("x.json".to_string()));
    assert_eq!(
        parse_args(words(&["--adventure", "x.json", "junk", "-a", "y.json"])),
        PlayerArgs::Play("y.json".to_string())
    );
    assert_eq!(parse_args(words(&["--adventure"])), PlayerArgs::Help);
    assert_eq!(parse_args(words(&["x", "--help"])), PlayerArgs::Help);
    assert_eq!(parse_args(words(&["-h"])), PlayerArgs::Help);
}
