use rockbuild::env::Env;
use rockbuild::flags::{expand_flags, flag_path_settings_of};
use rockbuild::resolve::PathTable;

fn strs(xs: &[&str]) -> Vec<String> {
    xs.iter().map(|x| x.to_string()).collect()
}

fn env_of(pairs: &[(&str, &str)]) -> Env {
    Env::from_pairs(pairs.iter().map(|(k, v)| (k.to_string(), v.to_string())).collect())
}

#[test]
fn plain_items_get_the_prefix() {
    let env = Env::new();
    let table = PathTable::new();
    assert_eq!(expand_flags(&strs(&["DEBUG", "N=1"]), "-D", false, &env, &table), Some("-DDEBUG -DN=1".to_string()));
}

#[test]
fn expanded_items_do_not_get_the_prefix() {
    let env = env_of(&[("MODE", "-O2")]);
    let table = PathTable::new();
    assert_eq!(expand_flags(&strs(&["#{MODE}", "X"]), "-D", false, &env, &table), Some("-O2 -DX".to_string()));
}

#[test]
fn no_items_give_no_flags() {
    let env = Env::new();
    let table = PathTable::new();
    assert_eq!(expand_flags(&strs(&[]), "-D", false, &env, &table), None);
    assert_eq!(expand_flags(&strs(&[""]), "", false, &env, &table), None);
}

#[test]
fn empty_words_keep_their_spaces() {
    let env = Env::new();
    let table = PathTable::new();
    assert_eq!(expand_flags(&strs(&["a", "", "b"]), "", false, &env, &table), Some("a  b".to_string()));
    assert_eq!(expand_flags(&strs(&["", "a"]), "", false, &env, &table), Some("a".to_string()));
}

#[test]
fn path_items_give_the_paths_found() {
    let env = env_of(&[("ROOT", "/opt/x")]);
    let mut table = PathTable::new();
    table.add("inc".to_string(), strs(&["/p/inc"]));
    table.add("/opt/x/include".to_string(), strs(&["/opt/x/include"]));
    table.add("@{RockGlob(lib*)}".to_string(), strs(&["/p/lib1", "/p/lib2"]));
    let items = strs(&["inc", "#{ROOT}/include", "@{RockGlob(lib*)}", ""]);
    assert_eq!(flag_path_settings_of(&items, true, &env), strs(&["inc", "/opt/x/include", "@{RockGlob(lib*)}"]));
    assert_eq!(
        expand_flags(&items, "-I", true, &env, &table),
        Some("-I/p/inc /opt/x/include -I/p/lib1 -I/p/lib2".to_string())
    );
}

#[test]
fn plain_settings_ask_for_no_paths() {
    let env = Env::new();
    assert!(flag_path_settings_of(&strs(&["a", "b"]), false, &env).is_empty());
}
