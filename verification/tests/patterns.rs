use rockbuild::env::Env;
use rockbuild::pattern::{expand_var, rock_glob_pattern, strip_verbatim_prefix};
use rockbuild::text::{chars_of, string_of};

fn env_of(pairs: &[(&str, &str)]) -> Env {
    Env::from_pairs(pairs.iter().map(|(k, v)| (k.to_string(), v.to_string())).collect())
}

#[test]
fn rock_glob_gives_its_pattern() {
    assert_eq!(rock_glob_pattern("@{RockGlob(src/*.c)}"), Some("src/*.c".to_string()));
    assert_eq!(rock_glob_pattern("@{RockGlob(a(b)c)}"), Some("a(b)c".to_string()));
}

#[test]
fn rock_glob_refuses_other_settings() {
    assert_eq!(rock_glob_pattern("src/main.c"), None);
    assert_eq!(rock_glob_pattern("@{RockGlob()}"), None);
    assert_eq!(rock_glob_pattern("@{RockGlob(a}b)}"), None);
    assert_eq!(rock_glob_pattern("@{RockGlob(src/*.c)} "), None);
    assert_eq!(rock_glob_pattern(" @{RockGlob(src/*.c)}"), None);
    assert_eq!(rock_glob_pattern("@{RockGlob(src/*.c)"), None);
}

#[test]
fn rock_glob_round_trip_on_a_value() {
    let p = "lib/**/*.s";
    assert_eq!(rock_glob_pattern(&format!("@{{RockGlob({})}}", p)), Some(p.to_string()));
}

#[test]
fn expand_var_replaces_every_occurrence_of_the_first_reference() {
    let env = env_of(&[("HOME", "/home/me"), ("X", "1")]);
    assert_eq!(expand_var("-I#{HOME}/inc -L#{HOME}/lib", &env), Some("-I/home/me/inc -L/home/me/lib".to_string()));
    assert_eq!(expand_var("#{X}#{HOME}", &env), Some("1#{HOME}".to_string()));
}

#[test]
fn expand_var_of_an_unset_variable_is_nothing() {
    let env = env_of(&[("X", "1")]);
    assert_eq!(expand_var("a#{NOPE}b", &env), None);
    assert_eq!(expand_var("#{NOPE}#{X}", &env), None);
}

#[test]
fn expand_var_without_a_reference_is_nothing() {
    let env = env_of(&[("X", "1")]);
    assert_eq!(expand_var("plain", &env), None);
    assert_eq!(expand_var("#{}", &env), None);
    assert_eq!(expand_var("#{X", &env), None);
    assert_eq!(expand_var("", &env), None);
}

#[test]
fn expand_var_skips_an_empty_name_for_a_later_reference() {
    let env = env_of(&[("X", "1")]);
    assert_eq!(expand_var("#{}#{X}", &env), Some("#{}1".to_string()));
}

#[test]
fn verbatim_prefix_is_removed_once() {
    assert_eq!(strip_verbatim_prefix("\\\\?\\C:\\work"), "C:\\work");
    assert_eq!(strip_verbatim_prefix("C:\\work"), "C:\\work");
    assert_eq!(strip_verbatim_prefix("\\\\?\\\\\\?\\x"), "\\\\?\\x");
}

#[test]
fn chars_round_trip() {
    let cs = chars_of("héllo");
    assert_eq!(cs.len(), 5);
    assert_eq!(string_of(&cs), "héllo");
}
