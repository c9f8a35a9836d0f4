use sagacraft_rs::command::{Command, Direction, ParseError};

#[test]
fn parses_movement_shortcuts() {
    assert_eq!(Command::parse("n").unwrap(), Command::Move(Direction::North));
    assert_eq!(Command::parse("south").unwrap(), Command::Move(Direction::South));
}

#[test]
fn parses_take_with_original_casing() {
    assert_eq!(
        Command::parse("take Ancient Key").unwrap(),
        Command::Take("Ancient Key".to_string())
    );
}

#[test]
fn empty_is_error() {
    assert_eq!(Command::parse("  ").unwrap_err(), ParseError::Empty);
}

#[test]
fn upper_case_verb_keeps_argument_casing() {
    assert_eq!(
        Command::parse("TAKE Ancient Key").unwrap(),
        Command::Take("Ancient Key".to_string())
    );
}

#[test]
fn empty_string_is_empty_input() {
    assert_eq!(Command::parse("").unwrap_err(), ParseError::Empty);
    assert_eq!(Command::parse("\t \n").unwrap_err(), ParseError::Empty);
}

#[test]
fn verb_families() {
    assert_eq!(Command::parse("look").unwrap(), Command::Look);
    assert_eq!(Command::parse("L").unwrap(), Command::Look);
    assert_eq!(Command::parse("inventory").unwrap(), Command::Inventory);
    assert_eq!(Command::parse("inv").unwrap(), Command::Inventory);
    assert_eq!(Command::parse("i").unwrap(), Command::Inventory);
    assert_eq!(Command::parse("quit").unwrap(), Command::Quit);
    assert_eq!(Command::parse("exit").unwrap(), Command::Quit);
    assert_eq!(Command::parse("help").unwrap(), Command::Help);
    assert_eq!(Command::parse("?").unwrap(), Command::Help);
    assert_eq!(Command::parse("e").unwrap(), Command::Move(Direction::East));
    assert_eq!(Command::parse("West").unwrap(), Command::Move(Direction::West));
}

#[test]
fn go_and_move_need_a_direction() {
    assert_eq!(Command::parse("go north").unwrap(), Command::Move(Direction::North));
    assert_eq!(Command::parse("move W").unwrap(), Command::Move(Direction::West));
    assert_eq!(Command::parse("go   s  now").unwrap(), Command::Move(Direction::South));
    assert_eq!(Command::parse("go up").unwrap(), Command::Unknown("go up".to_string()));
    assert_eq!(Command::parse(" go ").unwrap(), Command::Unknown("go".to_string()));
}

#[test]
fn argument_commands_need_an_argument() {
    assert_eq!(Command::parse("take").unwrap(), Command::Unknown("take".to_string()));
    assert_eq!(Command::parse("get Lamp").unwrap(), Command::Take("Lamp".to_string()));
    assert_eq!(Command::parse("drop  Rusty Sword ").unwrap(), Command::Drop("Rusty Sword".to_string()));
    assert_eq!(Command::parse("drop").unwrap(), Command::Unknown("drop".to_string()));
    assert_eq!(Command::parse("use Key").unwrap(), Command::Use("Key".to_string()));
    assert_eq!(Command::parse("USE").unwrap(), Command::Unknown("USE".to_string()));
    assert_eq!(Command::parse("say Hello There").unwrap(), Command::Say("Hello There".to_string()));
    assert_eq!(Command::parse("say").unwrap(), Command::Unknown("say".to_string()));
}

#[test]
fn unknown_keeps_the_raw_text() {
    assert_eq!(Command::parse("  Dance Wildly ").unwrap(), Command::Unknown("Dance Wildly".to_string()));
}

#[test]
fn direction_names() {
    assert_eq!(Direction::North.to_string(), "north");
    assert_eq!(Direction::South.as_str(), "south");
    assert_eq!(Direction::East.as_str(), "east");
    assert_eq!(Direction::West.to_string(), "west");
}
