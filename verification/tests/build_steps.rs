use rockbuild::clean::{clean_files, RockRun};
use rockbuild::compile::{
    build_objects, building, link_commands, must_compile, next_object_job, tool_command, BuildStep, LinkCommand, ObjectAction, ObjectBuild,
    ObjectEvent,
};
use rockbuild::env::Env;
use rockbuild::json::JsonValue;
use rockbuild::options::{expandOption, OptionData};
use rockbuild::resolve::PathTable;
use rockbuild::rocks::RockMap;

fn s(x: &str) -> JsonValue {
    JsonValue::Str(x.to_string())
}

fn arr(xs: &[&str]) -> JsonValue {
    JsonValue::Array(xs.iter().map(|x| s(x)).collect())
}

fn obj(members: Vec<(&str, JsonValue)>) -> JsonValue {
    JsonValue::Object(members.into_iter().map(|(k, v)| (k.to_string(), v)).collect())
}

fn strs(xs: &[&str]) -> Vec<String> {
    xs.iter().map(|x| x.to_string()).collect()
}

fn option(members: Vec<(&str, JsonValue)>) -> OptionData {
    expandOption(&obj(members), &Env::new(), &PathTable::new())
}

fn run(command: &str, args: &str) -> LinkCommand {
    LinkCommand::Run { command: command.to_string(), args: args.to_string() }
}

fn same(a: &[LinkCommand], b: &[LinkCommand]) -> bool {
    a.len() == b.len()
        && a.iter().zip(b.iter()).all(|(x, y)| match (x, y) {
            (LinkCommand::Run { command: c1, args: a1 }, LinkCommand::Run { command: c2, args: a2 }) => c1 == c2 && a1 == a2,
            (LinkCommand::Shell(l1), LinkCommand::Shell(l2)) => l1 == l2,
            _ => false,
        })
}

#[test]
fn tools_are_prefixed_or_found_in_the_cross_directory() {
    assert_eq!(tool_command(&"arm-none-eabi-".to_string(), &"gcc".to_string(), false), "arm-none-eabi-gcc");
    assert_eq!(tool_command(&"/opt/cross/bin".to_string(), &"gcc".to_string(), true), "/opt/cross/bin/gcc");
    assert_eq!(tool_command(&"".to_string(), &"gcc".to_string(), false), "gcc");
}

#[test]
fn sources_are_taken_assembler_first_and_last_first() {
    let mut o = option(vec![("Type", s("ShareLib")), ("CFLAGS", arr(&["-O2"])), ("INCLUDES", s("-Iinc"))]);
    o.ASMSource = strs(&["/p/s.s"]);
    o.CSource = strs(&["/p/a.c", "/p/b.c"]);
    o.CXXSource = strs(&["/p/x.cpp"]);
    let job = next_object_job(&mut o, false).unwrap();
    assert_eq!((job.source.as_str(), job.object.as_str(), job.command.as_str()), ("/p/s.s", "/p/s.o", "gcc"));
    assert_eq!(job.args, "-c -fPIC /p/s.s -o /p/s.o -DTarget=unknow -DVersion=1.0.0 -Iinc");
    let job = next_object_job(&mut o, false).unwrap();
    assert_eq!(job.source, "/p/b.c");
    assert_eq!(job.args, "-c -fPIC /p/b.c -o /p/b.o -O2 -DTarget=unknow -DVersion=1.0.0 -Iinc");
    assert_eq!(next_object_job(&mut o, false).unwrap().source, "/p/a.c");
    let job = next_object_job(&mut o, false).unwrap();
    assert_eq!((job.source.as_str(), job.object.as_str()), ("/p/x.cpp", "/p/x.o"));
    assert!(next_object_job(&mut o, false).is_none());
    assert_eq!(o.Object, strs(&["/p/s.o", "/p/b.o", "/p/a.o", "/p/x.o"]));
}

#[test]
fn at_most_jobs_compilers_run_at_once() {
    let mut o = option(vec![("Type", s("Object")), ("Jobs", JsonValue::Number(rockbuild::json::JsonNumber::PosInt(2)))]);
    o.CSource = strs(&["a.c", "b.c", "c.c"]);
    let mut st = ObjectBuild::new();
    assert!(matches!(build_objects(&mut st, &mut o, false, ObjectEvent::Begin), ObjectAction::Compile(_)));
    assert!(matches!(build_objects(&mut st, &mut o, false, ObjectEvent::Started), ObjectAction::Compile(_)));
    assert!(matches!(build_objects(&mut st, &mut o, false, ObjectEvent::Started), ObjectAction::Poll));
    assert_eq!(st.running, 2);
    assert!(matches!(build_objects(&mut st, &mut o, false, ObjectEvent::Running), ObjectAction::Poll));
    assert!(matches!(build_objects(&mut st, &mut o, false, ObjectEvent::Exited(true)), ObjectAction::Compile(_)));
    assert_eq!(st.running, 1);
    assert!(matches!(build_objects(&mut st, &mut o, false, ObjectEvent::UpToDate), ObjectAction::Poll));
    assert!(matches!(build_objects(&mut st, &mut o, false, ObjectEvent::Exited(true)), ObjectAction::Done));
    assert_eq!(o.Object, strs(&["c.o", "b.o", "a.o"]));
}

#[test]
fn a_failed_compiler_fails_the_build() {
    let mut o = option(vec![("Type", s("Object"))]);
    o.CSource = strs(&["a.c"]);
    let mut st = ObjectBuild::new();
    assert!(matches!(build_objects(&mut st, &mut o, false, ObjectEvent::Begin), ObjectAction::Compile(_)));
    assert!(matches!(build_objects(&mut st, &mut o, false, ObjectEvent::Started), ObjectAction::Poll));
    assert!(matches!(build_objects(&mut st, &mut o, false, ObjectEvent::Exited(false)), ObjectAction::Failed));
}

#[test]
fn no_jobs_build_nothing() {
    let mut o = option(vec![("Type", s("Object")), ("Jobs", JsonValue::Number(rockbuild::json::JsonNumber::PosInt(0)))]);
    o.CSource = strs(&["a.c"]);
    let mut st = ObjectBuild::new();
    assert!(matches!(build_objects(&mut st, &mut o, false, ObjectEvent::Begin), ObjectAction::Done));
    assert_eq!(o.CSource.len(), 1);
}

#[test]
fn a_program_is_linked_listed_stripped_and_converted() {
    let mut o = option(vec![
        ("Type", s("Program")),
        ("Target", s("app")),
        ("IsMap", JsonValue::Bool(true)),
        ("IsAsm", JsonValue::Bool(true)),
        ("IsBinary", JsonValue::Bool(true)),
        ("LDFLAGS", s("-static")),
        ("LIBS", arr(&[])),
    ]);
    o.Object = strs(&["b.o", "a.o"]);
    o.DependObject = strs(&["/l/x.o"]);
    o.LIBS = "-lm".to_string();
    let cmds = link_commands(&o, false, false);
    assert!(same(&cmds, &[
        run("gcc", "-o app.out b.o a.o /l/x.o -static -Wl,-Map=app.map -lm"),
        LinkCommand::Shell("objdump -D -S app.out > app.asm".to_string()),
        run("strip", "app.out"),
        run("objcopy", "-O binary app.out app.bin"),
    ]));
}

#[test]
fn a_cross_built_program_lists_the_base_name() {
    let mut o = option(vec![("Type", s("Program")), ("Target", s("fw")), ("IsAsm", JsonValue::Bool(true)), ("IsStrip", JsonValue::Bool(false))]);
    o.CROSSCOMPILE = "/x".to_string();
    let cmds = link_commands(&o, true, true);
    assert!(same(&cmds, &[run("/x/gcc", "-o fw.exe"), LinkCommand::Shell("/x/objdump -D -S fw > fw.asm".to_string())]));
}

#[test]
fn libraries_are_archived_or_linked_shared() {
    let mut o = option(vec![("Type", s("StaticLib")), ("Target", s("core")), ("IsMap", JsonValue::Bool(true))]);
    o.Object = strs(&["a.o"]);
    assert!(same(&link_commands(&o, false, false), &[run("ar", "r core.a a.o")]));
    let mut o = option(vec![("Type", s("ShareLib")), ("Target", s("ui")), ("IsMap", JsonValue::Bool(true)), ("IsAsm", JsonValue::Bool(true))]);
    o.Object = strs(&["a.o"]);
    assert!(same(&link_commands(&o, false, false), &[
        run("gcc", "-shared -o ui.so a.o -Wl,-Map=ui.map"),
        LinkCommand::Shell("objdump -D -S ui.so > ui.asm".to_string()),
        run("strip", "ui.so"),
    ]));
    let o = option(vec![("Type", s("Object"))]);
    assert!(link_commands(&o, false, false).is_empty());
}

#[test]
fn a_build_steps_through_every_rock() {
    let mut rocks = RockMap::new();
    rocks.insert("/p/rock.json".to_string(), obj(vec![("Type", s("Program")), ("DependRock", arr(&["/p/lib.json"])), ("CmdStop", s("echo end"))]));
    rocks.insert("/p/lib.json".to_string(), obj(vec![("Type", s("StaticLib")), ("CSource", s("l.c"))]));
    let mut run = RockRun::new(&rocks, "/p/rock.json").unwrap();
    let env = Env::new();
    let mut table = PathTable::new();
    let mut built: Vec<String> = Vec::new();
    loop {
        match building(&mut run, &rocks, &env, &table) {
            BuildStep::Prepare { settings, .. } => {
                table = PathTable::new();
                for setting in settings {
                    let found = vec![format!("/p/{}", setting)];
                    table.add(setting, found);
                }
            },
            BuildStep::Build { rock, option, stop_commands } => {
                if rock == "/p/rock.json" {
                    assert_eq!(stop_commands, strs(&["echo end"]));
                } else {
                    assert_eq!(option.CSource, strs(&["/p/l.c"]));
                }
                built.push(rock);
            },
            BuildStep::Finished(result) => {
                assert_eq!(result, "Ok");
                break;
            },
            _ => panic!("unexpected step"),
        }
    }
    assert_eq!(built, strs(&["/p/lib.json", "/p/rock.json"]));
}

#[test]
fn an_unknown_type_stops_the_build() {
    let mut rocks = RockMap::new();
    rocks.insert("/p/rock.json".to_string(), obj(vec![("Type", s("Firmware"))]));
    let mut run = RockRun::new(&rocks, "/p/rock.json").unwrap();
    let env = Env::new();
    let table = PathTable::new();
    assert!(matches!(building(&mut run, &rocks, &env, &table), BuildStep::Prepare { .. }));
    match building(&mut run, &rocks, &env, &table) {
        BuildStep::UnsupportedType { rock, option } => {
            assert_eq!(rock, "/p/rock.json");
            assert_eq!(option.Type, "Firmware");
        },
        _ => panic!("expected the type to be refused"),
    }
}

#[test]
fn clean_removes_what_the_build_writes() {
    for typ in ["Program", "StaticLib", "ShareLib"] {
        let mut o = option(vec![("Type", s(typ)), ("Target", s("app"))]);
        o.ASMSource = strs(&["/p/s.s"]);
        o.CSource = strs(&["/p/a.c"]);
        o.CXXSource = strs(&["/p/x.cpp"]);
        let files = clean_files(&o, false);
        let mut built = o;
        while let Some(job) = next_object_job(&mut built, false) {
            assert!(files.contains(&job.object));
        }
        let target = files.last().unwrap().clone();
        match &link_commands(&built, false, false)[0] {
            LinkCommand::Run { args, .. } => {
                let flag = match typ {
                    "Program" => "-o ",
                    "StaticLib" => "r ",
                    _ => "-shared -o ",
                };
                assert!(args.starts_with(&format!("{}{}", flag, target)));
            },
            LinkCommand::Shell(_) => panic!("the target is made by a tool"),
        }
    }
}

#[test]
fn a_job_runs_unless_its_object_is_newer() {
    assert!(must_compile(true, true, false));
    assert!(must_compile(false, false, false));
    assert!(must_compile(false, true, true));
    assert!(!must_compile(false, true, false));
}

#[test]
fn objects_and_clean_files_spare_sources() {
    let mut o = option(vec![("Type", s("Program")), ("Target", s("app"))]);
    o.CSource = strs(&["/p/a.c", "/p/b.c"]);
    o.ASMSource = strs(&["/p/s.S"]);
    let files = clean_files(&o, false);
    for src in ["/p/a.c", "/p/b.c", "/p/s.S"] {
        assert!(!files.iter().any(|f| f == src));
    }
    assert_eq!(files, strs(&["/p/s.o", "/p/a.o", "/p/b.o", "app.out"]));
    let o = option(vec![("Type", s("ShareLib")), ("Target", s("libx.so")), ("IsMap", JsonValue::Bool(true)),
        ("IsBinary", JsonValue::Bool(true))]);
    assert_eq!(clean_files(&o, false), strs(&["libx.so.map", "libx.so.bin", "libx.so"]));
}
