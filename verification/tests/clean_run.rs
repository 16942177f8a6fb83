use rockbuild::clean::{clean, clean_files, RockRun, CleanStep};
use rockbuild::env::Env;
use rockbuild::json::JsonValue;
use rockbuild::options::expandOption;
use rockbuild::resolve::PathTable;
use rockbuild::rocks::{clean_order, depend_rock_settings, with_depend_rocks, Loader, RockMap};

fn s(x: &str) -> JsonValue {
    JsonValue::Str(x.to_string())
}

fn arr(xs: &[&str]) -> JsonValue {
    JsonValue::Array(xs.iter().map(|x| s(x)).collect())
}

fn obj(members: Vec<(&str, JsonValue)>) -> JsonValue {
    JsonValue::Object(members.into_iter().map(|(k, v)| (k.to_string(), v)).collect())
}

fn strs(xs: &[&str]) -> Vec<String> {
    xs.iter().map(|x| x.to_string()).collect()
}

fn project() -> RockMap {
    let mut rocks = RockMap::new();
    rocks.insert(
        "/p/rock.json".to_string(),
        obj(vec![("Type", s("Program")), ("Target", s("app")), ("DependRock", arr(&["/p/lib/rock.json", "/p/util/rock.json"]))]),
    );
    rocks.insert(
        "/p/lib/rock.json".to_string(),
        obj(vec![("Type", s("StaticLib")), ("Target", s("lib")), ("DependRock", arr(&["/p/util/rock.json"]))]),
    );
    rocks.insert("/p/util/rock.json".to_string(), obj(vec![("Type", s("Object")), ("CSource", s("u.c"))]));
    rocks
}

#[test]
fn rocks_are_cleaned_dependencies_first() {
    let rocks = project();
    assert_eq!(
        clean_order(&rocks, "/p/rock.json"),
        Some(strs(&["/p/util/rock.json", "/p/lib/rock.json", "/p/util/rock.json", "/p/rock.json"]))
    );
    assert_eq!(clean_order(&rocks, "/p/other.json"), Some(Vec::new()));
}

#[test]
fn a_dependency_cycle_has_no_order() {
    let mut rocks = RockMap::new();
    rocks.insert("/a".to_string(), obj(vec![("Type", s("Object")), ("DependRock", arr(&["/b"]))]));
    rocks.insert("/b".to_string(), obj(vec![("Type", s("Object")), ("DependRock", arr(&["/a"]))]));
    assert_eq!(clean_order(&rocks, "/a"), None);
    assert!(RockRun::new(&rocks, "/a").is_none());
}

#[test]
fn cleaning_removes_objects_and_target_files() {
    let j = obj(vec![
        ("Type", s("Program")),
        ("Target", s("app")),
        ("CSource", arr(&["a.c"])),
        ("CXXSource", arr(&["b.cpp"])),
        ("IsMap", JsonValue::Bool(true)),
        ("IsBinary", JsonValue::Bool(true)),
    ]);
    let mut table = PathTable::new();
    table.add("a.c".to_string(), strs(&["/p/a.c"]));
    table.add("b.cpp".to_string(), strs(&["/p/b.cpp"]));
    let o = expandOption(&j, &Env::new(), &table);
    assert_eq!(clean_files(&o, false), strs(&["/p/a.o", "/p/b.o", "app.map", "app.bin", "app.out"]));
    assert_eq!(clean_files(&o, true), strs(&["/p/a.o", "/p/b.o", "app.map", "app.bin", "app.exe"]));
}

#[test]
fn an_object_rock_has_no_target_file() {
    let j = obj(vec![("Type", s("Object")), ("IsAsm", JsonValue::Bool(true))]);
    let o = expandOption(&j, &Env::new(), &PathTable::new());
    assert_eq!(clean_files(&o, false), strs(&["unknow.asm"]));
}

#[test]
fn a_clean_steps_through_every_rock() {
    let rocks = project();
    let env = Env::new();
    let mut run = RockRun::new(&rocks, "/p/rock.json").unwrap();
    let mut table = PathTable::new();
    let mut removed: Vec<(String, Vec<String>)> = Vec::new();
    loop {
        match clean(&mut run, &rocks, &env, &table, false) {
            CleanStep::Prepare { rock: _, start_commands, settings } => {
                assert!(start_commands.is_empty());
                table = PathTable::new();
                for setting in settings {
                    let found = vec![format!("/p/util/{}", setting)];
                    table.add(setting, found);
                }
            },
            CleanStep::Remove { rock, option: _, files, stop_commands } => {
                assert!(stop_commands.is_empty());
                removed.push((rock, files));
            },
            CleanStep::MissingType { rock } => panic!("no type in {}", rock),
            CleanStep::Finished(result) => {
                assert_eq!(result, "Ok");
                break;
            },
        }
    }
    assert_eq!(
        removed,
        vec![
            ("/p/util/rock.json".to_string(), strs(&["/p/util/u.o"])),
            ("/p/lib/rock.json".to_string(), strs(&["lib.a"])),
            ("/p/util/rock.json".to_string(), strs(&["/p/util/u.o"])),
            ("/p/rock.json".to_string(), strs(&["app.out"])),
        ]
    );
}

#[test]
fn a_rock_without_type_stops_the_clean() {
    let mut rocks = RockMap::new();
    rocks.insert("/p/rock.json".to_string(), obj(vec![("Target", s("x")), ("CmdStart", s("echo start"))]));
    let mut run = RockRun::new(&rocks, "/p/rock.json").unwrap();
    let env = Env::new();
    let table = PathTable::new();
    match clean(&mut run, &rocks, &env, &table, false) {
        CleanStep::Prepare { rock, start_commands, settings } => {
            assert_eq!(rock, "/p/rock.json");
            assert_eq!(start_commands, strs(&["echo start"]));
            assert!(settings.is_empty());
        },
        _ => panic!("expected the rock to be prepared"),
    }
    assert!(matches!(clean(&mut run, &rocks, &env, &table, false), CleanStep::MissingType { .. }));
}

#[test]
fn loading_reads_dependencies_first_to_last() {
    let mut loader = Loader::new("/p/rock.json".to_string());
    assert_eq!(loader.next_rock().as_deref(), Some("/p/rock.json"));
    let root = obj(vec![("Type", s("Program")), ("DependRock", arr(&["@{RockGlob(*/rock.json)}"]))]);
    assert_eq!(depend_rock_settings(&root), strs(&["@{RockGlob(*/rock.json)}"]));
    let mut table = PathTable::new();
    table.add("@{RockGlob(*/rock.json)}".to_string(), strs(&["/p/a/rock.json", "/p/b/rock.json"]));
    loader.loaded("/p/rock.json".to_string(), root, &table);
    match loader.rocks.get("/p/rock.json") {
        Some(j) => assert_eq!(depend_rock_settings(j), strs(&["/p/a/rock.json", "/p/b/rock.json"])),
        None => panic!("root not recorded"),
    }
    assert_eq!(loader.next_rock().as_deref(), Some("/p/a/rock.json"));
    loader.loaded("/p/a/rock.json".to_string(), obj(vec![("Type", s("Object"))]), &table);
    assert_eq!(loader.next_rock().as_deref(), Some("/p/b/rock.json"));
    loader.loaded("/p/b/rock.json".to_string(), obj(vec![("Type", s("Object")), ("DependRock", s("x"))]), &table);
    assert_eq!(loader.next_rock(), None);
    assert_eq!(loader.rocks.entries.len(), 3);
}

#[test]
fn replacing_dependencies_keeps_other_members() {
    let j = obj(vec![("Type", s("Program")), ("DependRock", arr(&["x"]))]);
    let r = with_depend_rocks(j, strs(&["/a", "/b"]));
    assert_eq!(depend_rock_settings(&r), strs(&["/a", "/b"]));
    assert!(matches!(r.field("Type"), Some(JsonValue::Str(t)) if t == "Program"));
    let plain = with_depend_rocks(obj(vec![("Type", s("Object"))]), strs(&["/a"]));
    assert!(depend_rock_settings(&plain).is_empty());
}
