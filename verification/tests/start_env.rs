use rockbuild::env::Env;
use rockbuild::envs::{env_defaults, envs_commands, initEnvs, path_flag_settings, set_path_flag, EnvSetup, EnvStep};
use rockbuild::json::{JsonNumber, JsonValue};
use rockbuild::resolve::PathTable;

fn s(x: &str) -> JsonValue {
    JsonValue::Str(x.to_string())
}

fn arr(xs: &[&str]) -> JsonValue {
    JsonValue::Array(xs.iter().map(|x| s(x)).collect())
}

fn obj(members: Vec<(&str, JsonValue)>) -> JsonValue {
    JsonValue::Object(members.into_iter().map(|(k, v)| (k.to_string(), v)).collect())
}

fn get(env: &Env, k: &str) -> Option<String> {
    env.get(k).cloned()
}

fn strs(xs: &[&str]) -> Vec<String> {
    xs.iter().map(|x| x.to_string()).collect()
}

#[test]
fn defaults_are_written_when_nothing_is_set() {
    let root = obj(vec![("Type", s("Program"))]);
    let mut env = Env::new();
    env_defaults(&root, true, 8, &mut env);
    assert_eq!(get(&env, "IsStrip").as_deref(), Some("true"));
    assert_eq!(get(&env, "Jobs").as_deref(), Some("8"));
    assert_eq!(get(&env, "IsSilent").as_deref(), Some("false"));
    assert_eq!(get(&env, "Rebuild").as_deref(), Some("true"));
    assert_eq!(get(&env, "CROSSCOMPILE").as_deref(), Some(""));
    assert_eq!(get(&env, "AS").as_deref(), Some("gcc"));
    assert_eq!(get(&env, "AR").as_deref(), Some("ar"));
    assert_eq!(get(&env, "OBJDUMP").as_deref(), Some("objdump"));
    assert_eq!(get(&env, "CFLAGS").as_deref(), Some(""));
    assert_eq!(get(&env, "DEFS").as_deref(), Some(""));
    assert_eq!(get(&env, "LIBS"), None);
}

#[test]
fn existing_variables_are_kept_and_envs_settings_win() {
    let root = obj(vec![(
        "ENVS",
        obj(vec![
            ("CC", s("clang")),
            ("Jobs", JsonValue::Number(JsonNumber::PosInt(3))),
            ("IsSilent", JsonValue::Bool(true)),
            ("CFLAGS", arr(&["-O2", "-I#{HOME}/inc"])),
            ("DEFS", arr(&["A"])),
        ]),
    )]);
    let mut env = Env::from_pairs(vec![
        ("AS".to_string(), "nasm".to_string()),
        ("CC".to_string(), "tcc".to_string()),
        ("HOME".to_string(), "/h".to_string()),
        ("Rebuild".to_string(), "true".to_string()),
    ]);
    env_defaults(&root, false, 2, &mut env);
    assert_eq!(get(&env, "AS").as_deref(), Some("nasm"));
    assert_eq!(get(&env, "CC").as_deref(), Some("clang"));
    assert_eq!(get(&env, "Jobs").as_deref(), Some("3"));
    assert_eq!(get(&env, "IsSilent").as_deref(), Some("true"));
    assert_eq!(get(&env, "Rebuild").as_deref(), Some("false"));
    assert_eq!(get(&env, "CFLAGS").as_deref(), Some("-O2 -I/h/inc"));
    assert_eq!(get(&env, "DEFS").as_deref(), Some("-DA"));
}

#[test]
fn path_settings_are_set_in_stages() {
    let root = obj(vec![(
        "ENVS",
        obj(vec![("LIBS", arr(&["m"])), ("LIBPATH", arr(&["#{LIBS}"])), ("INCLUDES", s("inc"))]),
    )]);
    let mut env = Env::new();
    env_defaults(&root, false, 1, &mut env);
    assert_eq!(path_flag_settings(&root, 0, &env), strs(&["m"]));
    let mut table = PathTable::new();
    table.add("m".to_string(), strs(&["/l/m"]));
    set_path_flag(&root, 0, &mut env, &table);
    assert_eq!(get(&env, "LIBS").as_deref(), Some("-l/l/m"));
    assert_eq!(path_flag_settings(&root, 1, &env), strs(&["-l/l/m"]));
    let mut table = PathTable::new();
    table.add("-l/l/m".to_string(), strs(&["/x"]));
    set_path_flag(&root, 1, &mut env, &table);
    assert_eq!(get(&env, "LIBPATH").as_deref(), Some("/x"));
    assert_eq!(path_flag_settings(&root, 2, &env), strs(&["inc"]));
    set_path_flag(&root, 2, &mut env, &PathTable::new());
    assert_eq!(get(&env, "INCLUDES").as_deref(), Some(""));
}

#[test]
fn init_envs_steps_through_the_stages() {
    let root = obj(vec![("ENVS", obj(vec![("INCLUDES", arr(&["inc"])), ("CmdStart", s("echo hi"))]))]);
    assert_eq!(envs_commands(&root, "CmdStart"), strs(&["echo hi"]));
    assert!(envs_commands(&root, "CmdStop").is_empty());
    let mut setup = EnvSetup::new(Env::new());
    let empty = PathTable::new();
    match initEnvs(&mut setup, &root, true, &empty) {
        EnvStep::Resolve(settings) => assert!(settings.is_empty()),
        EnvStep::Done => panic!("finished too early"),
    }
    let jobs: u64 = setup.env.get("Jobs").unwrap().parse().unwrap();
    assert!(jobs >= 1);
    match initEnvs(&mut setup, &root, true, &empty) {
        EnvStep::Resolve(settings) => assert!(settings.is_empty()),
        EnvStep::Done => panic!("finished too early"),
    }
    match initEnvs(&mut setup, &root, true, &empty) {
        EnvStep::Resolve(settings) => assert_eq!(settings, strs(&["inc"])),
        EnvStep::Done => panic!("finished too early"),
    }
    let mut table = PathTable::new();
    table.add("inc".to_string(), strs(&["/p/inc"]));
    assert!(matches!(initEnvs(&mut setup, &root, true, &table), EnvStep::Done));
    assert_eq!(get(&setup.env, "INCLUDES").as_deref(), Some("-I/p/inc"));
    assert_eq!(get(&setup.env, "LIBS").as_deref(), Some(""));
    assert!(matches!(initEnvs(&mut setup, &root, true, &table), EnvStep::Done));
}

#[test]
fn the_start_rebuild_and_cpu_count_reach_a_rock() {
    let root = obj(vec![("Type", s("Program"))]);
    let rock = obj(vec![("Type", s("Object"))]);
    let mut env = Env::from_pairs(vec![("Rebuild".to_string(), "false".to_string())]);
    env_defaults(&root, true, 6, &mut env);
    for stage in 0..3 {
        set_path_flag(&root, stage, &mut env, &PathTable::new());
    }
    let o = rockbuild::options::expandOption(&rock, &env, &PathTable::new());
    assert!(o.Rebuild);
    assert_eq!(o.Jobs, 6);
    let mut env = Env::from_pairs(vec![("Jobs".to_string(), "many".to_string())]);
    env_defaults(&root, false, 6, &mut env);
    let o = rockbuild::options::expandOption(&rock, &env, &PathTable::new());
    assert!(!o.Rebuild);
    assert_eq!(o.Jobs, 4);
}
