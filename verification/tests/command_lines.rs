use rockbuild::commands::{command_of, shell_invocation, split_args, RockCommand};

fn strs(xs: &[&str]) -> Vec<String> {
    xs.iter().map(|x| x.to_string()).collect()
}

#[test]
fn arguments_split_at_each_space() {
    assert_eq!(split_args("-c a.c -o a.o"), strs(&["-c", "a.c", "-o", "a.o"]));
    assert_eq!(split_args(" a  b "), strs(&["", "a", "", "b", ""]));
    assert_eq!(split_args(""), strs(&[""]));
}

#[test]
fn arguments_split_as_std_splits_them() {
    for text in ["r lib.a x.o y.o", "  ", "one", "a\tb c"] {
        let expected: Vec<String> = text.split(' ').map(|x| x.to_string()).collect();
        assert_eq!(split_args(text), expected);
        assert_eq!(split_args(text).join(" "), text);
    }
}

#[test]
fn commands_run_through_the_platform_shell() {
    assert_eq!(shell_invocation("make all", false), ("sh".to_string(), strs(&["-c", "make all"])));
    assert_eq!(shell_invocation("dir /W", true), ("cmd".to_string(), strs(&["/C", "dir /W"])));
}

#[test]
fn commands_are_named_by_the_first_argument() {
    use_command(&["rock"], "help", false);
    use_command(&["rock", "build", "r.json"], "build", false);
    use_command(&["rock", "rebuild", "r.json"], "rebuild", true);
    use_command(&["rock", "clean", "r.json"], "clean", true);
    use_command(&["rock", "version"], "help", false);
}

fn use_command(args: &[&str], name: &str, rebuild: bool) {
    let c = command_of(&strs(args));
    let got = match c {
        RockCommand::Build => "build",
        RockCommand::Rebuild => "rebuild",
        RockCommand::Clean => "clean",
        RockCommand::Help => "help",
    };
    assert_eq!(got, name);
    assert_eq!(c.starts_rebuilt(), rebuild);
}
