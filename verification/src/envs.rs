//! The environment that a build or clean starts from: each
//! setting of the root rock file's `ENVS` member is written into the
//! environment, and a setting that neither `ENVS` nor the environment gives
//! takes its default.
//!
//! The library, library path and include settings name files, so they are
//! set in three stages, each after the file system has resolved the path
//! settings that its items ask for.
use vstd::prelude::*;
use crate::env::Env;
use crate::flags::{expand_flags, expand_flags_spec, flag_path_settings, flag_path_settings_of, flag_words};
use crate::json::{views, JsonValue, valueToVec};
use crate::resolve::PathTable;
use crate::options::{env_or_empty, json_bool, json_str, json_u64, setting_bool, setting_str, setting_u64};
use crate::scalar::{bool_text, decimal, format_bool, format_u64, parse_bool_spec, parse_u64_spec,
    law_bool_text_round_trip, law_u64_text_round_trip};

verus! {

/// The number of CPUs of this machine (`num_cpus::get`), which is at least 1.
#[verifier::external_body]
fn cpu_count() -> (n: u64)
    ensures
        n >= 1,
{
    num_cpus::get() as u64
}

/// The `ENVS` member of the root rock file.
pub open spec fn envs_of(root: JsonValue) -> Option<JsonValue> {
    root.spec_field("ENVS"@)
}

/// The member `key` of the `ENVS` settings.
pub open spec fn envs_field(root: JsonValue, key: Seq<char>) -> Option<JsonValue> {
    match envs_of(root) {
        Some(c) => c.spec_field(key),
        None => None,
    }
}

/// The strings of the list member `key` of the `ENVS` settings.
pub open spec fn envs_strings(root: JsonValue, key: Seq<char>) -> Seq<Seq<char>> {
    match envs_field(root, key) {
        Some(v) => v.spec_strings(),
        None => Seq::empty(),
    }
}

/// Sets `key` to `value`, or, when there is no value, to `default` unless
/// the environment already has `key`.
pub open spec fn set_or_keep(env: Map<Seq<char>, Seq<char>>, key: Seq<char>, value: Option<Seq<char>>, default: Seq<char>) -> Map<Seq<char>, Seq<char>> {
    match value {
        Some(v) => env.insert(key, v),
        None => if env.contains_key(key) { env } else { env.insert(key, default) },
    }
}

/// A boolean `ENVS` setting.
pub open spec fn set_bool_setting(env: Map<Seq<char>, Seq<char>>, root: JsonValue, key: Seq<char>, default: bool) -> Map<Seq<char>, Seq<char>> {
    let value = match envs_field(root, key) {
        Some(v) => match v.spec_as_bool() {
            Some(b) => Some(bool_text(b)),
            None => None,
        },
        None => None,
    };
    set_or_keep(env, key, value, bool_text(default))
}

/// A count `ENVS` setting.
pub open spec fn set_u64_setting(env: Map<Seq<char>, Seq<char>>, root: JsonValue, key: Seq<char>, default: u64) -> Map<Seq<char>, Seq<char>> {
    let value = match envs_field(root, key) {
        Some(v) => match v.spec_as_u64() {
            Some(n) => Some(decimal(n as nat)),
            None => None,
        },
        None => None,
    };
    set_or_keep(env, key, value, decimal(default as nat))
}

/// A string `ENVS` setting.
pub open spec fn set_str_setting(env: Map<Seq<char>, Seq<char>>, root: JsonValue, key: Seq<char>, default: Seq<char>) -> Map<Seq<char>, Seq<char>> {
    let value = match envs_field(root, key) {
        Some(v) => v.spec_as_str(),
        None => None,
    };
    set_or_keep(env, key, value, default)
}

/// A flag `ENVS` setting, read
/// with the environment as it stands.
pub open spec fn set_flags_setting(
    env: Map<Seq<char>, Seq<char>>,
    root: JsonValue,
    key: Seq<char>,
    prefix: Seq<char>,
    is_glob: bool,
    table: Seq<(String, Vec<String>)>,
) -> Map<Seq<char>, Seq<char>> {
    set_or_keep(env, key, expand_flags_spec(envs_strings(root, key), prefix, is_glob, env, table), ""@)
}

/// The environment after every setting but the three that name files, in
/// the order they are written.
pub open spec fn env_defaults_spec(root: JsonValue, rebuild: bool, cpus: u64, env: Map<Seq<char>, Seq<char>>) -> Map<Seq<char>, Seq<char>> {
    let none = Seq::<(String, Vec<String>)>::empty();
    let e = set_bool_setting(env, root, "IsStrip"@, true);
    let e = set_u64_setting(e, root, "Jobs"@, cpus);
    let e = set_bool_setting(e, root, "IsSilent"@, false);
    let e = e.insert("Rebuild"@, bool_text(rebuild));
    let e = set_str_setting(e, root, "CROSSCOMPILE"@, ""@);
    let e = set_str_setting(e, root, "AS"@, "gcc"@);
    let e = set_str_setting(e, root, "CC"@, "gcc"@);
    let e = set_str_setting(e, root, "CXX"@, "gcc"@);
    let e = set_str_setting(e, root, "LD"@, "gcc"@);
    let e = set_str_setting(e, root, "AR"@, "ar"@);
    let e = set_str_setting(e, root, "STRIP"@, "strip"@);
    let e = set_str_setting(e, root, "OBJCOPY"@, "objcopy"@);
    let e = set_str_setting(e, root, "OBJDUMP"@, "objdump"@);
    let e = set_flags_setting(e, root, "AFLAGS"@, ""@, false, none);
    let e = set_flags_setting(e, root, "CFLAGS"@, ""@, false, none);
    let e = set_flags_setting(e, root, "CXXFLAGS"@, ""@, false, none);
    let e = set_flags_setting(e, root, "LDFLAGS"@, ""@, false, none);
    set_flags_setting(e, root, "DEFS"@, "-D"@, false, none)
}

/// The setting set at a stage: libraries, then library paths, then
/// include paths.
pub open spec fn stage_setting(stage: int) -> Seq<char> {
    if stage == 0 {
        "LIBS"@
    } else if stage == 1 {
        "LIBPATH"@
    } else {
        "INCLUDES"@
    }
}

/// The prefix of the flags of a stage's setting.
pub open spec fn stage_prefix(stage: int) -> Seq<char> {
    if stage == 0 {
        "-l"@
    } else if stage == 1 {
        "-L"@
    } else {
        "-I"@
    }
}

/// The start environment once every setting is written: the settings of
/// `env_defaults_spec`, then libraries, library paths and include paths,
/// each with its path settings read from its own table.
pub open spec fn start_env_spec(
    root: JsonValue,
    rebuild: bool,
    cpus: u64,
    env: Map<Seq<char>, Seq<char>>,
    libs: Seq<(String, Vec<String>)>,
    lib_paths: Seq<(String, Vec<String>)>,
    includes: Seq<(String, Vec<String>)>,
) -> Map<Seq<char>, Seq<char>> {
    let e = env_defaults_spec(root, rebuild, cpus, env);
    let e = set_flags_setting(e, root, "LIBS"@, "-l"@, true, libs);
    let e = set_flags_setting(e, root, "LIBPATH"@, "-L"@, true, lib_paths);
    set_flags_setting(e, root, "INCLUDES"@, "-I"@, true, includes)
}

/// The commands of the list member `key` (`CmdStart` or `CmdStop`) of the
/// `ENVS` settings.
pub fn envs_commands(root: &JsonValue, key: &str) -> (r: Vec<String>)
    ensures
        views(r@) == envs_strings(*root, key@),
{
    match root.field("ENVS") {
        Some(c) => match c.field(key) {
            Some(v) => valueToVec(v),
            None => {
                let r: Vec<String> = Vec::new();
                assert(views(r@) =~= Seq::<Seq<char>>::empty());
                r
            },
        },
        None => {
            let r: Vec<String> = Vec::new();
            assert(views(r@) =~= Seq::<Seq<char>>::empty());
            r
        },
    }
}

/// Sets `key` to `value`, or to `default` when there is no value and the
/// environment lacks `key`.
fn set_or_keep_env(env: &mut Env, key: &str, value: Option<String>, default: &str)
    ensures
        final(env)@ == set_or_keep(old(env)@, key@, match value { Some(v) => Some(v@), None => None }, default@),
{
    match value {
        Some(v) => env.set(key, v),
        None => {
            if env.get(key).is_none() {
                env.set(key, default.to_owned());
            }
        },
    }
}

/// The member `key` of the `ENVS` settings.
fn envs_member<'a>(root: &'a JsonValue, key: &str) -> (r: Option<&'a JsonValue>)
    ensures
        match r {
            Some(v) => envs_field(*root, key@) == Some(*v),
            None => envs_field(*root, key@) is None,
        },
{
    match root.field("ENVS") {
        Some(c) => c.field(key),
        None => None,
    }
}

fn set_bool_env(env: &mut Env, root: &JsonValue, key: &str, default: bool)
    ensures
        final(env)@ == set_bool_setting(old(env)@, *root, key@, default),
{
    let value = match envs_member(root, key) {
        Some(v) => match v.as_bool() {
            Some(b) => Some(format_bool(b)),
            None => None,
        },
        None => None,
    };
    set_or_keep_env(env, key, value, format_bool(default).as_str());
}

fn set_u64_env(env: &mut Env, root: &JsonValue, key: &str, default: u64)
    ensures
        final(env)@ == set_u64_setting(old(env)@, *root, key@, default),
{
    let value = match envs_member(root, key) {
        Some(v) => match v.as_u64() {
            Some(n) => Some(format_u64(n)),
            None => None,
        },
        None => None,
    };
    set_or_keep_env(env, key, value, format_u64(default).as_str());
}

fn set_str_env(env: &mut Env, root: &JsonValue, key: &str, default: &str)
    ensures
        final(env)@ == set_str_setting(old(env)@, *root, key@, default@),
{
    let value = match envs_member(root, key) {
        Some(v) => match v.as_str() {
            Some(s) => Some(s.clone()),
            None => None,
        },
        None => None,
    };
    set_or_keep_env(env, key, value, default);
}

fn set_flags_env(env: &mut Env, root: &JsonValue, key: &str, prefix: &str, is_glob: bool, table: &PathTable)
    ensures
        final(env)@ == set_flags_setting(old(env)@, *root, key@, prefix@, is_glob, table.entries@),
{
    let items = envs_commands(root, key);
    let value = expand_flags(&items, prefix, is_glob, env, table);
    set_or_keep_env(env, key, value, "");
}

/// How many settings name files; they are set in stages `0..PATH_FLAG_STAGES`.
pub const PATH_FLAG_STAGES: usize = 3;

/// The setting and flag prefix of a stage.
fn stage_key(stage: usize) -> (r: (&'static str, &'static str))
    requires
        stage < PATH_FLAG_STAGES,
    ensures
        stage_setting(stage as int) == r.0@ && stage_prefix(stage as int) == r.1@,
{
    if stage == 0 {
        ("LIBS", "-l")
    } else if stage == 1 {
        ("LIBPATH", "-L")
    } else {
        ("INCLUDES", "-I")
    }
}

/// Writes every `ENVS` setting but the three that name files, given the
/// number of CPUs that `Jobs` defaults to.
pub fn env_defaults(root: &JsonValue, rebuild: bool, cpus: u64, env: &mut Env)
    ensures
        final(env)@ == env_defaults_spec(*root, rebuild, cpus, old(env)@),
{
    let none = PathTable::new();
    assert(none.entries@ =~= Seq::<(String, Vec<String>)>::empty());
    set_bool_env(env, root, "IsStrip", true);
    set_u64_env(env, root, "Jobs", cpus);
    set_bool_env(env, root, "IsSilent", false);
    env.set("Rebuild", format_bool(rebuild));
    set_str_env(env, root, "CROSSCOMPILE", "");
    set_str_env(env, root, "AS", "gcc");
    set_str_env(env, root, "CC", "gcc");
    set_str_env(env, root, "CXX", "gcc");
    set_str_env(env, root, "LD", "gcc");
    set_str_env(env, root, "AR", "ar");
    set_str_env(env, root, "STRIP", "strip");
    set_str_env(env, root, "OBJCOPY", "objcopy");
    set_str_env(env, root, "OBJDUMP", "objdump");
    set_flags_env(env, root, "AFLAGS", "", false, &none);
    set_flags_env(env, root, "CFLAGS", "", false, &none);
    set_flags_env(env, root, "CXXFLAGS", "", false, &none);
    set_flags_env(env, root, "LDFLAGS", "", false, &none);
    set_flags_env(env, root, "DEFS", "-D", false, &none);
}

/// Writes every `ENVS` setting but the three that name files, with `Jobs`
/// defaulting to the number of CPUs of this machine.
pub fn init_env_defaults(root: &JsonValue, rebuild: bool, env: &mut Env)
    ensures
        exists|cpus: u64| cpus >= 1 && final(env)@ == env_defaults_spec(*root, rebuild, cpus, old(env)@),
{
    let cpus = cpu_count();
    env_defaults(root, rebuild, cpus, env);
}

/// The path settings that the items of a stage's setting ask to resolve,
/// read with the environment as it stands.
pub fn path_flag_settings(root: &JsonValue, stage: usize, env: &Env) -> (r: Vec<String>)
    requires
        stage < PATH_FLAG_STAGES,
    ensures
        views(r@) == flag_path_settings(envs_strings(*root, stage_setting(stage as int)), true, env@),
{
    let (key, _prefix) = stage_key(stage);
    flag_path_settings_of(&envs_commands(root, key), true, env)
}

/// Writes a stage's setting, with its path settings read from `table`.
pub fn set_path_flag(root: &JsonValue, stage: usize, env: &mut Env, table: &PathTable)
    requires
        stage < PATH_FLAG_STAGES,
    ensures
        final(env)@ == set_flags_setting(
            old(env)@,
            *root,
            stage_setting(stage as int),
            stage_prefix(stage as int),
            true,
            table.entries@,
        ),
{
    let (key, prefix) = stage_key(stage);
    set_flags_env(env, root, key, prefix, true, table);
}

/// The boolean that the `ENVS` member `key` holds, if it holds one.
pub open spec fn envs_bool(root: JsonValue, key: Seq<char>) -> Option<bool> {
    match envs_field(root, key) {
        Some(v) => v.spec_as_bool(),
        None => None,
    }
}

/// The count that the `ENVS` member `key` holds, if it holds one.
pub open spec fn envs_u64(root: JsonValue, key: Seq<char>) -> Option<u64> {
    match envs_field(root, key) {
        Some(v) => v.spec_as_u64(),
        None => None,
    }
}

/// A boolean that the start environment writes is what a rock file that
/// does not set it reads: the `ENVS` value, else the environment's own
/// value as it reads, else the start default.
pub proof fn law_start_env_bool_read_back(
    root: JsonValue,
    j: JsonValue,
    env: Map<Seq<char>, Seq<char>>,
    key: Seq<char>,
    start_default: bool,
    rock_default: bool,
)
    requires
        json_bool(j, key) is None,
    ensures
        setting_bool(j, key, rock_default, set_bool_setting(env, root, key, start_default)) == match envs_bool(root, key) {
            Some(b) => b,
            None => if env.contains_key(key) {
                match parse_bool_spec(env[key]) {
                    Some(b) => b,
                    None => rock_default,
                }
            } else {
                start_default
            },
        },
{
    law_bool_text_round_trip(start_default);
    if let Some(b) = envs_bool(root, key) {
        law_bool_text_round_trip(b);
    }
}

/// A count that the start environment writes is what a rock file that
/// does not set it reads: the `ENVS` value, else the environment's own
/// value as it reads, else the start default.
pub proof fn law_start_env_u64_read_back(
    root: JsonValue,
    j: JsonValue,
    env: Map<Seq<char>, Seq<char>>,
    key: Seq<char>,
    start_default: u64,
    rock_default: u64,
)
    requires
        json_u64(j, key) is None,
    ensures
        setting_u64(j, key, rock_default, set_u64_setting(env, root, key, start_default)) == match envs_u64(root, key) {
            Some(n) => n,
            None => if env.contains_key(key) {
                match parse_u64_spec(env[key]) {
                    Some(n) => n,
                    None => rock_default,
                }
            } else {
                start_default
            },
        },
{
    law_u64_text_round_trip(start_default);
    if let Some(n) = envs_u64(root, key) {
        law_u64_text_round_trip(n);
    }
}

/// A string that the start environment writes is what a rock file that
/// does not set it reads: the `ENVS` value, else the environment's own
/// value, else the start default.
pub proof fn law_start_env_str_read_back(
    root: JsonValue,
    j: JsonValue,
    env: Map<Seq<char>, Seq<char>>,
    key: Seq<char>,
    start_default: Seq<char>,
    rock_default: Seq<char>,
)
    requires
        json_str(j, key) is None,
    ensures
        setting_str(j, key, rock_default, set_str_setting(env, root, key, start_default)) == match envs_field(root, key) {
            Some(v) => match v.spec_as_str() {
                Some(s) => s,
                None => if env.contains_key(key) { env[key] } else { start_default },
            },
            None => if env.contains_key(key) { env[key] } else { start_default },
        },
{
}

/// Writing one setting leaves every other name as it was.
proof fn lemma_set_or_keep_other(
    e: Map<Seq<char>, Seq<char>>,
    key: Seq<char>,
    value: Option<Seq<char>>,
    default: Seq<char>,
    k: Seq<char>,
)
    requires
        k != key,
    ensures
        set_or_keep(e, key, value, default).contains_key(k) == e.contains_key(k),
        e.contains_key(k) ==> set_or_keep(e, key, value, default)[k] == e[k],
{
}

/// Writing a string setting leaves every other name as it was.
proof fn lemma_str_setting_other(e: Map<Seq<char>, Seq<char>>, root: JsonValue, key: Seq<char>, default: Seq<char>, k: Seq<char>)
    requires
        k != key,
    ensures
        set_str_setting(e, root, key, default).contains_key(k) == e.contains_key(k),
        e.contains_key(k) ==> set_str_setting(e, root, key, default)[k] == e[k],
{
    let value = match envs_field(root, key) {
        Some(v) => v.spec_as_str(),
        None => None,
    };
    lemma_set_or_keep_other(e, key, value, default, k);
}

/// Writing a flag setting leaves every other name as it was.
proof fn lemma_flags_setting_other(
    e: Map<Seq<char>, Seq<char>>,
    root: JsonValue,
    key: Seq<char>,
    prefix: Seq<char>,
    is_glob: bool,
    table: Seq<(String, Vec<String>)>,
    k: Seq<char>,
)
    requires
        k != key,
    ensures
        set_flags_setting(e, root, key, prefix, is_glob, table).contains_key(k) == e.contains_key(k),
        e.contains_key(k) ==> set_flags_setting(e, root, key, prefix, is_glob, table)[k] == e[k],
{
    let value = expand_flags_spec(envs_strings(root, key), prefix, is_glob, e, table);
    lemma_set_or_keep_other(e, key, value, ""@, k);
}

/// The names written after `Rebuild` are neither `Rebuild` nor `Jobs`.
proof fn lemma_later_names(k: Seq<char>)
    requires
        k == "CROSSCOMPILE"@ || k == "AS"@ || k == "CC"@ || k == "CXX"@ || k == "LD"@ || k == "AR"@
            || k == "STRIP"@ || k == "OBJCOPY"@ || k == "OBJDUMP"@ || k == "AFLAGS"@ || k == "CFLAGS"@
            || k == "CXXFLAGS"@ || k == "LDFLAGS"@ || k == "DEFS"@ || k == "LIBS"@ || k == "LIBPATH"@
            || k == "INCLUDES"@,
    ensures
        k != "Rebuild"@,
        k != "Jobs"@,
{
    reveal_strlit("Rebuild");
    reveal_strlit("Jobs");
    reveal_strlit("CROSSCOMPILE");
    reveal_strlit("AS");
    reveal_strlit("CC");
    reveal_strlit("CXX");
    reveal_strlit("LD");
    reveal_strlit("AR");
    reveal_strlit("STRIP");
    reveal_strlit("OBJCOPY");
    reveal_strlit("OBJDUMP");
    reveal_strlit("AFLAGS");
    reveal_strlit("CFLAGS");
    reveal_strlit("CXXFLAGS");
    reveal_strlit("LDFLAGS");
    reveal_strlit("DEFS");
    reveal_strlit("LIBS");
    reveal_strlit("LIBPATH");
    reveal_strlit("INCLUDES");
    if k.len() == 7 {
        assert(k[0] != 'R');
    }
    if k.len() == 4 {
        assert(k[0] != 'J');
    }
}

/// What the string and flag settings do to `Rebuild` and `Jobs`: nothing.
proof fn lemma_tail_keeps(e: Map<Seq<char>, Seq<char>>, root: JsonValue, k: Seq<char>)
    requires
        k == "Rebuild"@ || k == "Jobs"@,
    ensures
        ({
            let e1 = set_str_setting(e, root, "CROSSCOMPILE"@, ""@);
            let e1 = set_str_setting(e1, root, "AS"@, "gcc"@);
            let e1 = set_str_setting(e1, root, "CC"@, "gcc"@);
            let e1 = set_str_setting(e1, root, "CXX"@, "gcc"@);
            let e1 = set_str_setting(e1, root, "LD"@, "gcc"@);
            let e1 = set_str_setting(e1, root, "AR"@, "ar"@);
            let e1 = set_str_setting(e1, root, "STRIP"@, "strip"@);
            let e1 = set_str_setting(e1, root, "OBJCOPY"@, "objcopy"@);
            let e1 = set_str_setting(e1, root, "OBJDUMP"@, "objdump"@);
            let e1 = set_flags_setting(e1, root, "AFLAGS"@, ""@, false, Seq::empty());
            let e1 = set_flags_setting(e1, root, "CFLAGS"@, ""@, false, Seq::empty());
            let e1 = set_flags_setting(e1, root, "CXXFLAGS"@, ""@, false, Seq::empty());
            let e1 = set_flags_setting(e1, root, "LDFLAGS"@, ""@, false, Seq::empty());
            let e1 = set_flags_setting(e1, root, "DEFS"@, "-D"@, false, Seq::empty());
            &&& e1.contains_key(k) == e.contains_key(k)
            &&& e.contains_key(k) ==> e1[k] == e[k]
        }),
{
    lemma_later_names("CROSSCOMPILE"@);
    lemma_later_names("AS"@);
    lemma_later_names("CC"@);
    lemma_later_names("CXX"@);
    lemma_later_names("LD"@);
    lemma_later_names("AR"@);
    lemma_later_names("STRIP"@);
    lemma_later_names("OBJCOPY"@);
    lemma_later_names("OBJDUMP"@);
    lemma_later_names("AFLAGS"@);
    lemma_later_names("CFLAGS"@);
    lemma_later_names("CXXFLAGS"@);
    lemma_later_names("LDFLAGS"@);
    lemma_later_names("DEFS"@);
    let e1 = set_str_setting(e, root, "CROSSCOMPILE"@, ""@);
    lemma_str_setting_other(e, root, "CROSSCOMPILE"@, ""@, k);
    let e2 = set_str_setting(e1, root, "AS"@, "gcc"@);
    lemma_str_setting_other(e1, root, "AS"@, "gcc"@, k);
    let e3 = set_str_setting(e2, root, "CC"@, "gcc"@);
    lemma_str_setting_other(e2, root, "CC"@, "gcc"@, k);
    let e4 = set_str_setting(e3, root, "CXX"@, "gcc"@);
    lemma_str_setting_other(e3, root, "CXX"@, "gcc"@, k);
    let e5 = set_str_setting(e4, root, "LD"@, "gcc"@);
    lemma_str_setting_other(e4, root, "LD"@, "gcc"@, k);
    let e6 = set_str_setting(e5, root, "AR"@, "ar"@);
    lemma_str_setting_other(e5, root, "AR"@, "ar"@, k);
    let e7 = set_str_setting(e6, root, "STRIP"@, "strip"@);
    lemma_str_setting_other(e6, root, "STRIP"@, "strip"@, k);
    let e8 = set_str_setting(e7, root, "OBJCOPY"@, "objcopy"@);
    lemma_str_setting_other(e7, root, "OBJCOPY"@, "objcopy"@, k);
    let e9 = set_str_setting(e8, root, "OBJDUMP"@, "objdump"@);
    lemma_str_setting_other(e8, root, "OBJDUMP"@, "objdump"@, k);
    let e10 = set_flags_setting(e9, root, "AFLAGS"@, ""@, false, Seq::empty());
    lemma_flags_setting_other(e9, root, "AFLAGS"@, ""@, false, Seq::empty(), k);
    let e11 = set_flags_setting(e10, root, "CFLAGS"@, ""@, false, Seq::empty());
    lemma_flags_setting_other(e10, root, "CFLAGS"@, ""@, false, Seq::empty(), k);
    let e12 = set_flags_setting(e11, root, "CXXFLAGS"@, ""@, false, Seq::empty());
    lemma_flags_setting_other(e11, root, "CXXFLAGS"@, ""@, false, Seq::empty(), k);
    let e13 = set_flags_setting(e12, root, "LDFLAGS"@, ""@, false, Seq::empty());
    lemma_flags_setting_other(e12, root, "LDFLAGS"@, ""@, false, Seq::empty(), k);
    lemma_flags_setting_other(e13, root, "DEFS"@, "-D"@, false, Seq::empty(), k);
}

/// The settings that name files leave `Rebuild` and `Jobs` as they were.
proof fn lemma_stages_keep(
    e: Map<Seq<char>, Seq<char>>,
    root: JsonValue,
    libs: Seq<(String, Vec<String>)>,
    lib_paths: Seq<(String, Vec<String>)>,
    includes: Seq<(String, Vec<String>)>,
    k: Seq<char>,
)
    requires
        k == "Rebuild"@ || k == "Jobs"@,
    ensures
        ({
            let e1 = set_flags_setting(e, root, "LIBS"@, "-l"@, true, libs);
            let e1 = set_flags_setting(e1, root, "LIBPATH"@, "-L"@, true, lib_paths);
            let e1 = set_flags_setting(e1, root, "INCLUDES"@, "-I"@, true, includes);
            &&& e1.contains_key(k) == e.contains_key(k)
            &&& e.contains_key(k) ==> e1[k] == e[k]
        }),
{
    lemma_later_names("LIBS"@);
    lemma_later_names("LIBPATH"@);
    lemma_later_names("INCLUDES"@);
    let e1 = set_flags_setting(e, root, "LIBS"@, "-l"@, true, libs);
    lemma_flags_setting_other(e, root, "LIBS"@, "-l"@, true, libs, k);
    let e2 = set_flags_setting(e1, root, "LIBPATH"@, "-L"@, true, lib_paths);
    lemma_flags_setting_other(e1, root, "LIBPATH"@, "-L"@, true, lib_paths, k);
    lemma_flags_setting_other(e2, root, "INCLUDES"@, "-I"@, true, includes, k);
}

/// The length and a few characters of each name the start environment
/// writes, enough to tell any two of them apart.
proof fn lemma_name_facts()
    ensures
        "IsStrip"@.len() == 7 && "IsStrip"@[0] == 'I' && "IsStrip"@[1] == 's',
        "Jobs"@.len() == 4 && "Jobs"@[0] == 'J',
        "IsSilent"@.len() == 8 && "IsSilent"@[0] == 'I' && "IsSilent"@[1] == 's',
        "Rebuild"@.len() == 7 && "Rebuild"@[0] == 'R',
        "CROSSCOMPILE"@.len() == 12,
        "AS"@.len() == 2 && "AS"@[0] == 'A' && "AS"@[1] == 'S',
        "CC"@.len() == 2 && "CC"@[0] == 'C',
        "CXX"@.len() == 3,
        "LD"@.len() == 2 && "LD"@[0] == 'L',
        "AR"@.len() == 2 && "AR"@[0] == 'A' && "AR"@[1] == 'R',
        "STRIP"@.len() == 5,
        "OBJCOPY"@.len() == 7 && "OBJCOPY"@[0] == 'O',
        "OBJDUMP"@.len() == 7 && "OBJDUMP"@[0] == 'O',
        "AFLAGS"@.len() == 6 && "AFLAGS"@[0] == 'A',
        "CFLAGS"@.len() == 6 && "CFLAGS"@[0] == 'C',
        "CXXFLAGS"@.len() == 8 && "CXXFLAGS"@[0] == 'C',
        "LDFLAGS"@.len() == 7 && "LDFLAGS"@[0] == 'L' && "LDFLAGS"@[1] == 'D',
        "DEFS"@.len() == 4 && "DEFS"@[0] == 'D',
        "LIBS"@.len() == 4 && "LIBS"@[0] == 'L',
        "LIBPATH"@.len() == 7 && "LIBPATH"@[0] == 'L' && "LIBPATH"@[1] == 'I',
        "INCLUDES"@.len() == 8 && "INCLUDES"@[0] == 'I' && "INCLUDES"@[1] == 'N',
{
    reveal_strlit("IsStrip");
    reveal_strlit("Jobs");
    reveal_strlit("IsSilent");
    reveal_strlit("Rebuild");
    reveal_strlit("CROSSCOMPILE");
    reveal_strlit("AS");
    reveal_strlit("CC");
    reveal_strlit("CXX");
    reveal_strlit("LD");
    reveal_strlit("AR");
    reveal_strlit("STRIP");
    reveal_strlit("OBJCOPY");
    reveal_strlit("OBJDUMP");
    reveal_strlit("AFLAGS");
    reveal_strlit("CFLAGS");
    reveal_strlit("CXXFLAGS");
    reveal_strlit("LDFLAGS");
    reveal_strlit("DEFS");
    reveal_strlit("LIBS");
    reveal_strlit("LIBPATH");
    reveal_strlit("INCLUDES");
}

/// Writing a boolean setting leaves every other name as it was.
proof fn lemma_bool_setting_other(e: Map<Seq<char>, Seq<char>>, root: JsonValue, key: Seq<char>, default: bool, k: Seq<char>)
    requires
        k != key,
    ensures
        set_bool_setting(e, root, key, default).contains_key(k) == e.contains_key(k),
        e.contains_key(k) ==> set_bool_setting(e, root, key, default)[k] == e[k],
{
}

/// Writing a count setting leaves every other name as it was.
proof fn lemma_u64_setting_other(e: Map<Seq<char>, Seq<char>>, root: JsonValue, key: Seq<char>, default: u64, k: Seq<char>)
    requires
        k != key,
    ensures
        set_u64_setting(e, root, key, default).contains_key(k) == e.contains_key(k),
        e.contains_key(k) ==> set_u64_setting(e, root, key, default)[k] == e[k],
{
}

/// Writing a flag setting, when the `ENVS` settings give no items for `k`:
/// `k` keeps its value if it is the setting's own name and was set, gets
/// nothing if it is and was not, and is left alone otherwise.
proof fn lemma_flags_step(
    e: Map<Seq<char>, Seq<char>>,
    root: JsonValue,
    key: Seq<char>,
    prefix: Seq<char>,
    is_glob: bool,
    table: Seq<(String, Vec<String>)>,
    k: Seq<char>,
)
    requires
        envs_strings(root, k).len() == 0,
    ensures
        k == key ==> set_flags_setting(e, root, key, prefix, is_glob, table).contains_key(k)
            && set_flags_setting(e, root, key, prefix, is_glob, table)[k] == env_or_empty(e, k),
        k != key ==> set_flags_setting(e, root, key, prefix, is_glob, table).contains_key(k) == e.contains_key(k),
        k != key && e.contains_key(k) ==> set_flags_setting(e, root, key, prefix, is_glob, table)[k] == e[k],
{
    if k == key {
        assert(flag_words(envs_strings(root, key), prefix, is_glob, e, table).len() == 0);
        reveal_strlit("");
        assert(""@ =~= Seq::<char>::empty());
    } else {
        lemma_flags_setting_other(e, root, key, prefix, is_glob, table, k);
    }
}

/// A flag setting that the `ENVS` settings give no items for keeps the
/// value the environment had: the start environment changes neither the
/// user's compiler and linker flags nor the library, library path and
/// include settings, and sets a missing one to nothing.
pub proof fn law_start_env_keeps_unset_flags(
    root: JsonValue,
    rebuild: bool,
    cpus: u64,
    env: Map<Seq<char>, Seq<char>>,
    libs: Seq<(String, Vec<String>)>,
    lib_paths: Seq<(String, Vec<String>)>,
    includes: Seq<(String, Vec<String>)>,
    key: Seq<char>,
)
    requires
        key == "AFLAGS"@ || key == "CFLAGS"@ || key == "CXXFLAGS"@ || key == "LDFLAGS"@ || key == "DEFS"@
            || key == "LIBS"@ || key == "LIBPATH"@ || key == "INCLUDES"@,
        envs_strings(root, key).len() == 0,
    ensures
        start_env_spec(root, rebuild, cpus, env, libs, lib_paths, includes).contains_key(key),
        start_env_spec(root, rebuild, cpus, env, libs, lib_paths, includes)[key] == env_or_empty(env, key),
{
    lemma_name_facts();
    let none = Seq::<(String, Vec<String>)>::empty();
    let e1 = set_bool_setting(env, root, "IsStrip"@, true);
    lemma_bool_setting_other(env, root, "IsStrip"@, true, key);
    let e2 = set_u64_setting(e1, root, "Jobs"@, cpus);
    lemma_u64_setting_other(e1, root, "Jobs"@, cpus, key);
    let e3 = set_bool_setting(e2, root, "IsSilent"@, false);
    lemma_bool_setting_other(e2, root, "IsSilent"@, false, key);
    let e4 = e3.insert("Rebuild"@, bool_text(rebuild));
    let e5 = set_str_setting(e4, root, "CROSSCOMPILE"@, ""@);
    lemma_str_setting_other(e4, root, "CROSSCOMPILE"@, ""@, key);
    let e6 = set_str_setting(e5, root, "AS"@, "gcc"@);
    lemma_str_setting_other(e5, root, "AS"@, "gcc"@, key);
    let e7 = set_str_setting(e6, root, "CC"@, "gcc"@);
    lemma_str_setting_other(e6, root, "CC"@, "gcc"@, key);
    let e8 = set_str_setting(e7, root, "CXX"@, "gcc"@);
    lemma_str_setting_other(e7, root, "CXX"@, "gcc"@, key);
    let e9 = set_str_setting(e8, root, "LD"@, "gcc"@);
    lemma_str_setting_other(e8, root, "LD"@, "gcc"@, key);
    let e10 = set_str_setting(e9, root, "AR"@, "ar"@);
    lemma_str_setting_other(e9, root, "AR"@, "ar"@, key);
    let e11 = set_str_setting(e10, root, "STRIP"@, "strip"@);
    lemma_str_setting_other(e10, root, "STRIP"@, "strip"@, key);
    let e12 = set_str_setting(e11, root, "OBJCOPY"@, "objcopy"@);
    lemma_str_setting_other(e11, root, "OBJCOPY"@, "objcopy"@, key);
    let e13 = set_str_setting(e12, root, "OBJDUMP"@, "objdump"@);
    lemma_str_setting_other(e12, root, "OBJDUMP"@, "objdump"@, key);
    assert(e13.contains_key(key) == env.contains_key(key));
    assert(env_or_empty(e13, key) == env_or_empty(env, key));
    let e14 = set_flags_setting(e13, root, "AFLAGS"@, ""@, false, none);
    lemma_flags_step(e13, root, "AFLAGS"@, ""@, false, none, key);
    let e15 = set_flags_setting(e14, root, "CFLAGS"@, ""@, false, none);
    lemma_flags_step(e14, root, "CFLAGS"@, ""@, false, none, key);
    let e16 = set_flags_setting(e15, root, "CXXFLAGS"@, ""@, false, none);
    lemma_flags_step(e15, root, "CXXFLAGS"@, ""@, false, none, key);
    let e17 = set_flags_setting(e16, root, "LDFLAGS"@, ""@, false, none);
    lemma_flags_step(e16, root, "LDFLAGS"@, ""@, false, none, key);
    let e18 = set_flags_setting(e17, root, "DEFS"@, "-D"@, false, none);
    lemma_flags_step(e17, root, "DEFS"@, "-D"@, false, none, key);
    assert(e18 == env_defaults_spec(root, rebuild, cpus, env));
    let e19 = set_flags_setting(e18, root, "LIBS"@, "-l"@, true, libs);
    lemma_flags_step(e18, root, "LIBS"@, "-l"@, true, libs, key);
    let e20 = set_flags_setting(e19, root, "LIBPATH"@, "-L"@, true, lib_paths);
    lemma_flags_step(e19, root, "LIBPATH"@, "-L"@, true, lib_paths, key);
    lemma_flags_step(e20, root, "INCLUDES"@, "-I"@, true, includes, key);
}

/// The `rebuild` that a build or clean starts with reaches every rock file
/// that does not set `Rebuild` itself.
pub proof fn law_rebuild_reaches_every_rock(
    root: JsonValue,
    j: JsonValue,
    rebuild: bool,
    cpus: u64,
    env: Map<Seq<char>, Seq<char>>,
    libs: Seq<(String, Vec<String>)>,
    lib_paths: Seq<(String, Vec<String>)>,
    includes: Seq<(String, Vec<String>)>,
)
    requires
        json_bool(j, "Rebuild"@) is None,
    ensures
        setting_bool(j, "Rebuild"@, false, start_env_spec(root, rebuild, cpus, env, libs, lib_paths, includes)) == rebuild,
{
    lemma_stages_keep(env_defaults_spec(root, rebuild, cpus, env), root, libs, lib_paths, includes, "Rebuild"@);
    let e = set_bool_setting(env, root, "IsStrip"@, true);
    let e = set_u64_setting(e, root, "Jobs"@, cpus);
    let e = set_bool_setting(e, root, "IsSilent"@, false);
    let e = e.insert("Rebuild"@, bool_text(rebuild));
    lemma_tail_keeps(e, root, "Rebuild"@);
    law_bool_text_round_trip(rebuild);
}

/// A rock file that does not set `Jobs` runs as many compilers at once as
/// the `ENVS` settings say, else as the environment says when it reads as a
/// count (the rock file's default 4 when it does not), else as there are
/// CPUs.
pub proof fn law_jobs_default_to_cpus(
    root: JsonValue,
    j: JsonValue,
    rebuild: bool,
    cpus: u64,
    env: Map<Seq<char>, Seq<char>>,
    libs: Seq<(String, Vec<String>)>,
    lib_paths: Seq<(String, Vec<String>)>,
    includes: Seq<(String, Vec<String>)>,
)
    requires
        json_u64(j, "Jobs"@) is None,
    ensures
        setting_u64(j, "Jobs"@, 4, start_env_spec(root, rebuild, cpus, env, libs, lib_paths, includes)) == match envs_u64(root, "Jobs"@) {
            Some(n) => n,
            None => if env.contains_key("Jobs"@) {
                match parse_u64_spec(env["Jobs"@]) {
                    Some(n) => n,
                    None => 4,
                }
            } else {
                cpus
            },
        },
{
    reveal_strlit("Jobs");
    reveal_strlit("IsStrip");
    assert("IsStrip"@ != "Jobs"@) by {
        assert("IsStrip"@.len() != "Jobs"@.len());
    }
    reveal_strlit("IsSilent");
    reveal_strlit("Rebuild");
    assert("IsSilent"@ != "Jobs"@) by {
        assert("IsSilent"@.len() != "Jobs"@.len());
    }
    assert("Rebuild"@ != "Jobs"@) by {
        assert("Rebuild"@.len() != "Jobs"@.len());
    }
    let e = set_bool_setting(env, root, "IsStrip"@, true);
    let e = set_u64_setting(e, root, "Jobs"@, cpus);
    let e = set_bool_setting(e, root, "IsSilent"@, false);
    let e = e.insert("Rebuild"@, bool_text(rebuild));
    lemma_tail_keeps(e, root, "Jobs"@);
    lemma_stages_keep(env_defaults_spec(root, rebuild, cpus, env), root, libs, lib_paths, includes, "Jobs"@);
    law_u64_text_round_trip(cpus);
    if let Some(n) = envs_u64(root, "Jobs"@) {
        law_u64_text_round_trip(n);
    }
}

/// The start environment being set, and how far the setting has come:
/// stage 0 has written nothing yet; stage `k + 1` has written the settings
/// of stage `k` and before.
pub struct EnvSetup {
    pub env: Env,
    pub stage: usize,
}

/// What to do next in setting the start environment.
pub enum EnvStep {
    /// Resolve each of these path settings, then ask for the next step with
    /// the paths found.
    Resolve(Vec<String>),
    /// The environment is set.
    Done,
}

impl EnvSetup {
    /// A setup that starts from the environment `env`.
    pub fn new(env: Env) -> (r: EnvSetup)
        ensures
            r.env@ == env@,
            r.stage == 0,
    {
        EnvSetup { env, stage: 0 }
    }
}

/// One step of setting the start environment from the root rock file
/// (`root`): the first step writes every setting but the three that name
/// files, each later step one of those three, with its path settings read
/// from `table`.  Each step but the last asks for the path settings of the
/// next one.
#[allow(non_snake_case)]
pub fn initEnvs(setup: &mut EnvSetup, root: &JsonValue, rebuild: bool, table: &PathTable) -> (r: EnvStep)
    ensures
        old(setup).stage == 0 ==> {
            &&& exists|cpus: u64| cpus >= 1 && final(setup).env@ == env_defaults_spec(*root, rebuild, cpus, old(setup).env@)
            &&& final(setup).stage == 1
            &&& r matches EnvStep::Resolve(settings)
                && views(settings@) == flag_path_settings(envs_strings(*root, stage_setting(0)), true, final(setup).env@)
        },
        1 <= old(setup).stage <= PATH_FLAG_STAGES ==> {
            let k = old(setup).stage - 1;
            &&& final(setup).env@ == set_flags_setting(old(setup).env@, *root, stage_setting(k), stage_prefix(k), true, table.entries@)
            &&& final(setup).stage == old(setup).stage + 1
            &&& old(setup).stage < PATH_FLAG_STAGES ==> (r matches EnvStep::Resolve(settings)
                && views(settings@) == flag_path_settings(envs_strings(*root, stage_setting(k + 1)), true, final(setup).env@))
            &&& old(setup).stage == PATH_FLAG_STAGES ==> r is Done
        },
        old(setup).stage > PATH_FLAG_STAGES ==> r is Done && final(setup).env@ == old(setup).env@
            && final(setup).stage == old(setup).stage,
{
    if setup.stage == 0 {
        init_env_defaults(root, rebuild, &mut setup.env);
        setup.stage = 1;
        return EnvStep::Resolve(path_flag_settings(root, 0, &setup.env));
    }
    if setup.stage > PATH_FLAG_STAGES {
        return EnvStep::Done;
    }
    let k = setup.stage - 1;
    set_path_flag(root, k, &mut setup.env, table);
    setup.stage = setup.stage + 1;
    if k + 1 < PATH_FLAG_STAGES {
        EnvStep::Resolve(path_flag_settings(root, k + 1, &setup.env))
    } else {
        EnvStep::Done
    }
}

} // verus!
