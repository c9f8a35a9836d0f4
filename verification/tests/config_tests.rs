use sagacraft_rs::config_service::{get_dotted, set_dotted, split_dots, ConfigService};
use sagacraft_rs::io_service::{
    file_name_of, listed_name, load_json, read_adventure_data, AdventureDataError, ReadOutcome,
};
use sagacraft_rs::json::{get_flag, get_int, get_list, get_text, narrow};
use serde_json::Value;

fn parse(text: &str) -> Value {
    serde_json::from_str(text).unwrap()
}

#[test]
fn dotted_get_set_roundtrip() {
    let mut s = ConfigService::new("/tmp/sagacraft_test_config_service_unused");
    s.set("engine.name", Value::String("X".to_string()));
    assert_eq!(s.get("engine.name", Value::Null), Value::String("X".to_string()));
}

#[test]
fn dotted_keys_reach_nested_members() {
    let root = parse(r#"{"engine": {"name": "SagaCraft", "ui": {"size": 12}}, "flat": true}"#);
    assert_eq!(get_dotted(&root, "engine.name"), Some(Value::from("SagaCraft")));
    assert_eq!(get_dotted(&root, "engine.ui.size"), Some(Value::from(12)));
    assert_eq!(get_dotted(&root, "flat"), Some(Value::from(true)));
    assert_eq!(get_dotted(&root, "engine.ui"), Some(parse(r#"{"size": 12}"#)));
    assert_eq!(get_dotted(&root, "engine.missing"), None);
    assert_eq!(get_dotted(&root, "flat.deeper"), None);
    assert_eq!(get_dotted(&root, ""), None);
    assert_eq!(get_dotted(&root, "engine..name"), None);
}

#[test]
fn setting_builds_the_path() {
    let root = parse(r#"{"a": 1, "b": {"keep": true}}"#);
    let root = set_dotted(root, "b.c.d", Value::from(5));
    assert_eq!(root, parse(r#"{"a": 1, "b": {"keep": true, "c": {"d": 5}}}"#));
    // what stands in the way and is no object is replaced
    let root = set_dotted(root, "a.x", Value::from("y"));
    assert_eq!(root, parse(r#"{"a": {"x": "y"}, "b": {"keep": true, "c": {"d": 5}}}"#));
    let root = set_dotted(root, "b", Value::Null);
    assert_eq!(root, parse(r#"{"a": {"x": "y"}, "b": null}"#));
    let root = set_dotted(Value::from(3), "k", Value::from(1));
    assert_eq!(root, parse(r#"{"k": 1}"#));
}

#[test]
fn keys_split_at_every_dot() {
    assert_eq!(split_dots("a.b"), vec!["a".to_string(), "b".to_string()]);
    assert_eq!(split_dots("abc"), vec!["abc".to_string()]);
    assert_eq!(split_dots(""), vec!["".to_string()]);
    assert_eq!(split_dots(".a."), vec!["".to_string(), "a".to_string(), "".to_string()]);
}

#[test]
fn plugin_settings_are_kept_apart() {
    let mut s = ConfigService::new("cfg");
    assert_eq!(s.config_dir(), "cfg");
    assert_eq!(s.get("engine.name", Value::from("none")), Value::from("none"));
    assert_eq!(s.get_plugin("quests", "limit", Value::from(3)), Value::from(3));
    s.set_plugin("quests", "limit", Value::from(7));
    s.set_plugin("quests", "ui.colour", Value::from("red"));
    s.set_plugin("combat", "limit", Value::from(1));
    assert_eq!(s.get_plugin("quests", "limit", Value::Null), Value::from(7));
    assert_eq!(s.get_plugin("quests", "ui.colour", Value::Null), Value::from("red"));
    assert_eq!(s.get_plugin("combat", "limit", Value::Null), Value::from(1));
    assert_eq!(s.get_plugin("combat", "ui.colour", Value::Null), Value::Null);
    assert_eq!(s.get("limit", Value::Null), Value::Null);
    s.set("limit", Value::from(9));
    assert_eq!(s.get("limit", Value::Null), Value::from(9));
    assert_eq!(s.config, parse(r#"{"limit": 9}"#));
}

#[test]
fn fields_are_read_with_defaults() {
    let v = parse(r#"{"name": "Hall", "size": 4, "dark": true, "list": [1, 2], "big": 4294967297, "half": 1.5}"#);
    assert_eq!(get_text(&v, "name", "none"), "Hall");
    assert_eq!(get_text(&v, "size", "none"), "none");
    assert_eq!(get_text(&v, "missing", "none"), "none");
    assert_eq!(get_int(&v, "size", 9), 4);
    assert_eq!(get_int(&v, "name", 9), 9);
    assert_eq!(get_int(&v, "half", 9), 9);
    assert_eq!(get_int(&v, "missing", -1), -1);
    assert!(get_flag(&v, "dark", false));
    assert!(get_flag(&v, "size", true));
    assert!(!get_flag(&v, "missing", false));
    assert_eq!(get_list(&v, "list").unwrap().len(), 2);
    assert!(get_list(&v, "name").is_none());
    assert!(get_list(&Value::from(1), "list").is_none());
    assert_eq!(get_int(&v, "big", 0), 4294967297);
    assert_eq!(narrow(4294967297), 1);
    assert_eq!(narrow(-5), -5);
    assert_eq!(narrow(2147483648), -2147483648);
}

#[test]
fn missing_files_are_no_data() {
    assert_eq!(load_json(ReadOutcome::NotFound), Ok(None));
    assert_eq!(load_json(ReadOutcome::Content("{ broken".to_string())), Ok(None));
    assert_eq!(load_json(ReadOutcome::Content("[1, 2]".to_string())), Ok(None));
    assert_eq!(
        load_json(ReadOutcome::Content(r#"{"turn": 3}"#.to_string())),
        Ok(Some(parse(r#"{"turn": 3}"#)))
    );
    assert_eq!(
        load_json(ReadOutcome::Failed("permission denied".to_string())),
        Err("permission denied".to_string())
    );
}

#[test]
fn adventure_data_must_be_an_object() {
    assert_eq!(read_adventure_data(r#"{"title": "T"}"#).unwrap(), parse(r#"{"title": "T"}"#));
    let e = read_adventure_data("[]").unwrap_err();
    assert!(matches!(e, AdventureDataError::NotAnObject));
    assert_eq!(e.message(), "Adventure JSON must be an object at the top level");
    let e = read_adventure_data("{").unwrap_err();
    assert!(matches!(e, AdventureDataError::NotJson(_)));
    let expected = serde_json::from_str::<Value>("{").unwrap_err().to_string();
    assert_eq!(e.message(), format!("parse json: {}", expected));
}

#[test]
fn only_json_files_are_listed() {
    assert_eq!(listed_name("cave.json"), Some("cave".to_string()));
    assert_eq!(listed_name("old.cave.json"), Some("old.cave".to_string()));
    assert_eq!(listed_name("cave.txt"), None);
    assert_eq!(listed_name("cave.JSON"), None);
    assert_eq!(listed_name("cave"), None);
    assert_eq!(listed_name(".json"), None);
    assert_eq!(listed_name("json"), None);
    assert_eq!(listed_name("cave.json."), None);
    assert_eq!(listed_name(""), None);
    for name in ["cave.json", "old.cave.json", "cave.txt", "cave", ".json", "a.", "x.json.bak"] {
        let path = std::path::Path::new(name);
        let expected = if path.extension().and_then(|s| s.to_str()) == Some("json") {
            path.file_stem().and_then(|s| s.to_str()).map(|s| s.to_string())
        } else {
            None
        };
        assert_eq!(listed_name(name), expected);
    }
    assert_eq!(file_name_of("slot1"), "slot1.json");
}

#[test]
fn only_objects_are_adopted_as_settings() {
    let mut s = ConfigService::new("cfg");
    s.adopt(parse(r#"{"engine": {"name": "SagaCraft"}}"#));
    assert_eq!(s.get("engine.name", Value::Null), Value::from("SagaCraft"));
    s.adopt(parse("[1, 2]"));
    assert_eq!(s.config, parse("{}"));
    assert!(s.adopt_plugin("quests", parse(r#"{"limit": 2}"#)));
    assert!(!s.adopt_plugin("combat", parse("3")));
    assert_eq!(s.get_plugin("quests", "limit", Value::Null), Value::from(2));
    assert_eq!(s.get_plugin("combat", "limit", Value::Null), Value::Null);
}
