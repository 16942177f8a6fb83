use rockbuild::clean::removeObjFile;
use rockbuild::paths::{getAbsDir, getAbsPath, target_names, Canonical};

fn strs(xs: &[&str]) -> Vec<String> {
    xs.iter().map(|x| x.to_string()).collect()
}

#[test]
fn absolute_paths_stay_and_relative_ones_take_their_canonical_form() {
    assert_eq!(getAbsPath("/a/b", Canonical::Absolute, false), "/a/b");
    assert_eq!(getAbsPath("b", Canonical::Resolved("/a/b".to_string()), false), "/a/b");
    assert_eq!(getAbsPath("missing", Canonical::Failed, false), "missing");
}

#[test]
fn on_windows_the_verbatim_prefix_goes() {
    assert_eq!(getAbsPath("b", Canonical::Resolved("\\\\?\\C:\\a\\b".to_string()), true), "C:\\a\\b");
    assert_eq!(getAbsPath("\\\\?\\C:\\x", Canonical::Absolute, true), "C:\\x");
    assert_eq!(getAbsPath("\\\\?\\x", Canonical::Failed, true), "\\\\?\\x");
}

#[test]
fn the_directory_is_the_parent_of_the_absolute_path() {
    assert_eq!(getAbsDir("/a/b/rock.json", Canonical::Absolute, false), Some("/a/b".to_string()));
    assert_eq!(getAbsDir("rock.json", Canonical::Resolved("/p/rock.json".to_string()), false), Some("/p".to_string()));
    assert_eq!(getAbsDir("/", Canonical::Absolute, false), None);
}

#[test]
fn object_files_replace_the_extension() {
    assert_eq!(removeObjFile(&strs(&["/p/a.c", "/p/b.cpp", "/p/noext", "/p/x.tar.s"])), strs(&["/p/a.o", "/p/b.o", "/p/noext.o", "/p/x.tar.o"]));
    assert!(removeObjFile(&Vec::new()).is_empty());
}

#[test]
fn a_target_without_extension_gets_its_type_suffix() {
    let n = |t: &str, ty: &str, w: bool| target_names(&t.to_string(), &ty.to_string(), w);
    assert_eq!(n("app", "Program", false), ("app".to_string(), "app.out".to_string()));
    assert_eq!(n("app", "Program", true), ("app".to_string(), "app.exe".to_string()));
    assert_eq!(n("core", "StaticLib", false), ("core".to_string(), "core.a".to_string()));
    assert_eq!(n("core", "StaticLib", true), ("core".to_string(), "core.a".to_string()));
    assert_eq!(n("ui", "ShareLib", false), ("ui".to_string(), "ui.so".to_string()));
    assert_eq!(n("ui", "ShareLib", true), ("ui".to_string(), "ui.dll".to_string()));
    assert_eq!(n("objs", "Object", false), ("objs".to_string(), "objs".to_string()));
}

#[test]
fn a_target_with_an_extension_keeps_it() {
    let n = |t: &str, ty: &str| target_names(&t.to_string(), &ty.to_string(), false);
    assert_eq!(n("app.bin", "Program"), ("app.bin".to_string(), "app.bin".to_string()));
    assert_eq!(n("x.\"y\".y", "Program"), ("x.y".to_string(), "x.\"y\".y".to_string()));
}

#[test]
fn making_a_path_absolute_twice_changes_nothing_more() {
    let once = getAbsPath("src/a.c", Canonical::Resolved("/p/src/a.c".to_string()), false);
    assert_eq!(getAbsPath(&once, Canonical::Absolute, false), once);
    let missing = getAbsPath("nope.c", Canonical::Failed, false);
    assert_eq!(getAbsPath(&missing, Canonical::Failed, false), missing);
}
