use rockbuild::env::Env;
use rockbuild::json::{JsonNumber, JsonValue};
use rockbuild::options::{expandOption, has_type, option_path_settings};
use rockbuild::resolve::PathTable;

fn s(x: &str) -> JsonValue {
    JsonValue::Str(x.to_string())
}

fn arr(xs: &[&str]) -> JsonValue {
    JsonValue::Array(xs.iter().map(|x| s(x)).collect())
}

fn obj(members: Vec<(&str, JsonValue)>) -> JsonValue {
    JsonValue::Object(members.into_iter().map(|(k, v)| (k.to_string(), v)).collect())
}

fn env_of(pairs: &[(&str, &str)]) -> Env {
    Env::from_pairs(pairs.iter().map(|(k, v)| (k.to_string(), v.to_string())).collect())
}

fn strs(xs: &[&str]) -> Vec<String> {
    xs.iter().map(|x| x.to_string()).collect()
}

#[test]
fn defaults_fill_what_is_not_set() {
    let j = obj(vec![("Type", s("Program"))]);
    assert!(has_type(&j));
    let o = expandOption(&j, &Env::new(), &PathTable::new());
    assert_eq!(o.Type, "Program");
    assert_eq!(o.Target, "unknow");
    assert_eq!(o.Version, "1.0.0");
    assert_eq!((o.Rebuild, o.IsMap, o.IsAsm, o.IsBinary, o.IsStrip, o.IsSilent), (false, false, false, false, true, false));
    assert_eq!(o.Jobs, 4);
    assert_eq!((o.AS.as_str(), o.CC.as_str(), o.CXX.as_str(), o.LD.as_str()), ("gcc", "gcc", "gcc", "gcc"));
    assert_eq!((o.AR.as_str(), o.STRIP.as_str(), o.OBJCOPY.as_str(), o.OBJDUMP.as_str()), ("ar", "strip", "objcopy", "objdump"));
    assert_eq!(o.CROSSCOMPILE, "");
    assert_eq!(o.DEFS, "-DTarget=unknow -DVersion=1.0.0");
    assert_eq!((o.AFLAGS.as_str(), o.CFLAGS.as_str(), o.LIBS.as_str(), o.INCLUDES.as_str()), ("", "", "", ""));
    assert!(o.CSource.is_empty() && o.Object.is_empty() && o.CmdStart.is_empty() && o.CmdStop.is_empty());
}

#[test]
fn a_missing_type_is_detected() {
    assert!(!has_type(&obj(vec![("Target", s("x"))])));
    assert!(!has_type(&obj(vec![("Type", JsonValue::Bool(true))])));
}

#[test]
fn the_environment_fills_what_the_rock_file_does_not_set() {
    let j = obj(vec![("Type", s("StaticLib")), ("CC", s("clang")), ("IsStrip", JsonValue::Bool(false))]);
    let env = env_of(&[("CC", "tcc"), ("CXX", "g++"), ("IsStrip", "true"), ("IsMap", "true"), ("IsAsm", "yes"), ("Jobs", "16"), ("DEFS", "-DX")]);
    let o = expandOption(&j, &env, &PathTable::new());
    assert_eq!(o.CC, "clang");
    assert_eq!(o.CXX, "g++");
    assert!(!o.IsStrip);
    assert!(o.IsMap);
    assert!(!o.IsAsm);
    assert_eq!(o.Jobs, 16);
    assert_eq!(o.DEFS, "-DX -DTarget=unknow -DVersion=1.0.0");
}

#[test]
fn rock_file_settings_come_first() {
    let j = obj(vec![
        ("Type", s("Program")),
        ("Target", s("app")),
        ("Version", s("2.1")),
        ("Jobs", JsonValue::Number(JsonNumber::PosInt(2))),
        ("CFLAGS", arr(&["-O2", "-g"])),
        ("DEFS", arr(&["A", "B=1"])),
        ("CmdStop", s("echo done")),
    ]);
    let o = expandOption(&j, &env_of(&[("Jobs", "9")]), &PathTable::new());
    assert_eq!(o.Target, "app");
    assert_eq!(o.Version, "2.1");
    assert_eq!(o.Jobs, 2);
    assert_eq!(o.CFLAGS, "-O2 -g");
    assert_eq!(o.DEFS, "-DA -DB=1");
    assert_eq!(o.CmdStop, strs(&["echo done"]));
}

#[test]
fn sources_and_libraries_come_from_the_path_table() {
    let j = obj(vec![
        ("Type", s("Program")),
        ("CSource", arr(&["@{RockGlob(*.c)}", "extra.c"])),
        ("ASMSource", s("start.s")),
        ("LIBS", arr(&["m", "#{LIBDIR}/libz.a"])),
        ("INCLUDES", arr(&["inc"])),
    ]);
    let env = env_of(&[("LIBDIR", "/usr/lib")]);
    assert_eq!(
        option_path_settings(&j, &env),
        strs(&["start.s", "@{RockGlob(*.c)}", "extra.c", "m", "/usr/lib/libz.a", "inc"])
    );
    let mut table = PathTable::new();
    table.add("start.s".to_string(), strs(&["/p/start.s"]));
    table.add("@{RockGlob(*.c)}".to_string(), strs(&["/p/a.c", "/p/b.c"]));
    table.add("extra.c".to_string(), strs(&["/p/extra.c"]));
    table.add("m".to_string(), strs(&["/p/m"]));
    table.add("/usr/lib/libz.a".to_string(), strs(&["/usr/lib/libz.a"]));
    table.add("inc".to_string(), strs(&["/p/inc"]));
    let o = expandOption(&j, &env, &table);
    assert_eq!(o.ASMSource, strs(&["/p/start.s"]));
    assert_eq!(o.CSource, strs(&["/p/a.c", "/p/b.c", "/p/extra.c"]));
    assert_eq!(o.LIBS, "-l/p/m /usr/lib/libz.a");
    assert_eq!(o.INCLUDES, "-I/p/inc");
}
