use rockbuild::env::Env;

#[test]
fn set_then_get_gives_the_value() {
    let mut env = Env::new();
    assert!(env.get("CC").is_none());
    env.set("CC", "clang".to_string());
    assert_eq!(env.get("CC").map(|v| v.as_str()), Some("clang"));
    env.set("CC", "gcc".to_string());
    assert_eq!(env.get("CC").map(|v| v.as_str()), Some("gcc"));
    assert!(env.get("CXX").is_none());
}

#[test]
fn setting_one_name_leaves_the_others() {
    let mut env = Env::from_pairs(vec![("A".to_string(), "1".to_string()), ("B".to_string(), "2".to_string())]);
    env.set("A", "3".to_string());
    env.set("C", "4".to_string());
    assert_eq!(env.get("A").map(|v| v.as_str()), Some("3"));
    assert_eq!(env.get("B").map(|v| v.as_str()), Some("2"));
    assert_eq!(env.get("C").map(|v| v.as_str()), Some("4"));
}

#[test]
fn a_name_stands_for_its_first_pair() {
    let env = Env::from_pairs(vec![("A".to_string(), "1".to_string()), ("A".to_string(), "2".to_string())]);
    assert_eq!(env.get("A").map(|v| v.as_str()), Some("1"));
    assert_eq!(env.pairs().len(), 1);
}

#[test]
fn repeated_names_keep_one_pair() {
    let e = Env::from_pairs(vec![
        ("A".to_string(), "1".to_string()),
        ("B".to_string(), "2".to_string()),
        ("A".to_string(), "3".to_string()),
    ]);
    let names: Vec<&str> = e.pairs().iter().map(|(k, _)| k.as_str()).collect();
    assert_eq!(names, vec!["A", "B"]);
    assert_eq!(e.get("A").map(|s| s.as_str()), Some("1"));
}
