use cli_parser::token::{normalized, starts_with_dash, starts_with_marker};
use cli_parser::{Command, Flag, Namespace};

#[test]
fn flag_name_gets_the_marker() {
    assert_eq!(Flag::new("test").id, "--test");
    assert_eq!(Flag::new("--test").id, "--test");
    assert_eq!(Flag::new("ip").id, "--ip");
}

#[test]
fn flag_name_edge_cases() {
    assert_eq!(Flag::new("").id, "--");
    assert_eq!(Flag::new("-").id, "---");
    assert_eq!(Flag::new("--").id, "--");
    assert_eq!(Flag::new("-v").id, "---v");
    assert_eq!(Flag::new("---v").id, "---v");
    assert_eq!(Flag::new("a--b").id, "--a--b");
    assert_eq!(Flag::new("é").id, "--é");
}

#[test]
fn normalizing_twice_changes_nothing() {
    for name in ["test", "--test", "", "-", "--", "-x", "x-", "ü"] {
        let once = normalized(name);
        assert!(once.starts_with("--"));
        assert_eq!(normalized(&once), once);
    }
}

#[test]
fn dash_and_marker_are_told_apart() {
    assert!(!starts_with_dash(""));
    assert!(starts_with_dash("-"));
    assert!(starts_with_dash("-a"));
    assert!(starts_with_dash("--a"));
    assert!(!starts_with_dash("a-"));
    assert!(!starts_with_dash("é-"));
    assert!(!starts_with_marker(""));
    assert!(!starts_with_marker("-"));
    assert!(!starts_with_marker("-a-"));
    assert!(starts_with_marker("--"));
    assert!(starts_with_marker("--a"));
    assert!(!starts_with_marker("a--"));
}

#[test]
fn new_flag_carries_no_value() {
    let flag = Flag::new("test").positional().required();
    assert_eq!(flag.id, "--test");
    assert_eq!(flag.positional_val, None);
    let copy = flag.clone();
    assert_eq!(copy.id, "--test");
    assert_eq!(copy.positional_val, None);
}

#[test]
fn cloned_flag_keeps_its_value() {
    let mut flag = Flag::new("test");
    flag.positional_val = Some("v".to_string());
    let copy = flag.clone();
    assert_eq!(copy.id, flag.id);
    assert_eq!(copy.positional_val, Some("v".to_string()));
}

#[test]
fn new_command_is_bare() {
    let command = Command::new("version");
    assert_eq!(command.id, "version");
    assert_eq!(command.positional_val, None);
    assert_eq!(command.parsed_flags.len(), 0);
    assert_eq!(command.missing_required(), None);
}

#[test]
fn command_name_is_kept_as_given() {
    assert_eq!(Command::new("--help").id, "--help");
    assert_eq!(Command::new("").id, "");
}

#[test]
fn missing_required_follows_registration_order() {
    let mut command = Command::new("run")
        .flag(Flag::new("optional"))
        .flag(Flag::new("second").required())
        .flag(Flag::new("first").required());
    assert_eq!(command.missing_required(), Some("--second".to_string()));
    command
        .parsed_flags
        .insert("--second".to_string(), Flag::new("second"));
    assert_eq!(command.missing_required(), Some("--first".to_string()));
    command
        .parsed_flags
        .insert("--first".to_string(), Flag::new("first"));
    assert_eq!(command.missing_required(), None);
}

#[test]
fn later_flag_of_the_same_name_replaces_the_earlier() {
    let command = Command::new("run")
        .flag(Flag::new("a").required())
        .flag(Flag::new("b").required())
        .flag(Flag::new("--a"));
    assert_eq!(command.missing_required(), Some("--b".to_string()));
}

#[test]
fn cloned_command_keeps_everything() {
    let mut command = Command::new("run")
        .positional()
        .flag(Flag::new("a").required())
        .flag(Flag::new("b"));
    command.positional_val = Some("x".to_string());
    command.parsed_flags.insert("--b".to_string(), Flag::new("b"));
    let copy = command.clone();
    assert_eq!(copy.id, "run");
    assert_eq!(copy.positional_val, Some("x".to_string()));
    assert_eq!(copy.parsed_flags.len(), 1);
    assert!(copy.parsed_flags.contains_key("--b"));
    assert_eq!(copy.missing_required(), Some("--a".to_string()));
}

#[test]
fn namespace_starts_empty() {
    let names: Namespace<Flag> = Namespace::new();
    assert_eq!(names.len(), 0);
    assert!(!names.contains_key(""));
    assert!(names.get("--a").is_none());
    assert!(names.entry(0).is_none());
}

#[test]
fn namespace_keeps_registration_order() {
    let mut names: Namespace<Flag> = Namespace::new();
    names.insert("b".to_string(), Flag::new("1"));
    names.insert("a".to_string(), Flag::new("2"));
    names.insert("c".to_string(), Flag::new("3"));
    assert_eq!(names.len(), 3);
    assert_eq!(names.entry(0).unwrap().0, "b");
    assert_eq!(names.entry(1).unwrap().0, "a");
    assert_eq!(names.entry(2).unwrap().0, "c");
    assert_eq!(names.entry(1).unwrap().1.id, "--2");
    assert!(names.entry(3).is_none());
}

#[test]
fn namespace_replaces_in_place() {
    let mut names: Namespace<Flag> = Namespace::new();
    names.insert("b".to_string(), Flag::new("1"));
    names.insert("a".to_string(), Flag::new("2"));
    names.insert("b".to_string(), Flag::new("3"));
    assert_eq!(names.len(), 2);
    assert_eq!(names.entry(0).unwrap().0, "b");
    assert_eq!(names.entry(0).unwrap().1.id, "--3");
    assert_eq!(names.get("b").unwrap().id, "--3");
    assert_eq!(names.get("a").unwrap().id, "--2");
    assert!(names.contains_key("a"));
    assert!(!names.contains_key("c"));
    assert!(names.get("c").is_none());
}

#[test]
fn namespace_names_are_exact() {
    let mut names: Namespace<Flag> = Namespace::new();
    names.insert("--a".to_string(), Flag::new("a"));
    assert!(!names.contains_key("a"));
    assert!(!names.contains_key("--A"));
    assert!(!names.contains_key("--a "));
    assert!(names.contains_key("--a"));
}

#[test]
fn cloned_namespace_is_independent() {
    let mut names: Namespace<Flag> = Namespace::new();
    names.insert("a".to_string(), Flag::new("1"));
    let mut copy = names.clone();
    copy.insert("b".to_string(), Flag::new("2"));
    assert_eq!(names.len(), 1);
    assert_eq!(copy.len(), 2);
    assert_eq!(copy.get("a").unwrap().id, "--1");
}
