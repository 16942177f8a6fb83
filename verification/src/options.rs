//! The options of one rock file: what its JSON settings, the
//! environment and the defaults make of it.
use vstd::prelude::*;
use crate::env::Env;
use crate::flags::{expand_flags, expand_flags_spec, flag_path_settings, flag_path_settings_of, flag_words};
use crate::json::{views, JsonValue, field_strings};
use crate::resolve::{PathTable, table_paths};
use crate::scalar::{parse_bool, parse_bool_spec, parse_u64, parse_u64_spec};
use crate::text::push_str;

verus! {

/// Everything a rock file asks for, with defaults filled in.
#[allow(non_snake_case)]
#[derive(Debug)]
pub struct OptionData {
    pub Target: String,
    pub Version: String,
    pub Type: String,
    pub DependRock: Vec<String>,
    pub ASMSource: Vec<String>,
    pub CSource: Vec<String>,
    pub CXXSource: Vec<String>,
    pub DependObject: Vec<String>,
    pub Object: Vec<String>,
    pub CmdStart: Vec<String>,
    pub CmdStop: Vec<String>,
    pub Rebuild: bool,
    pub IsMap: bool,
    pub IsAsm: bool,
    pub IsBinary: bool,
    pub IsStrip: bool,
    pub IsSilent: bool,
    pub Jobs: u64,
    pub CROSSCOMPILE: String,
    pub AS: String,
    pub CC: String,
    pub CXX: String,
    pub LD: String,
    pub AR: String,
    pub STRIP: String,
    pub OBJCOPY: String,
    pub OBJDUMP: String,
    pub AFLAGS: String,
    pub CFLAGS: String,
    pub CXXFLAGS: String,
    pub LDFLAGS: String,
    pub DEFS: String,
    pub LIBS: String,
    pub LIBPATH: String,
    pub INCLUDES: String,
}

/// The boolean member `key` of `j`, if it is one.
pub open spec fn json_bool(j: JsonValue, key: Seq<char>) -> Option<bool> {
    match j.spec_field(key) {
        Some(v) => v.spec_as_bool(),
        None => None,
    }
}

/// The count member `key` of `j`, if it is one.
pub open spec fn json_u64(j: JsonValue, key: Seq<char>) -> Option<u64> {
    match j.spec_field(key) {
        Some(v) => v.spec_as_u64(),
        None => None,
    }
}

/// The string member `key` of `j`, if it is one.
pub open spec fn json_str(j: JsonValue, key: Seq<char>) -> Option<Seq<char>> {
    match j.spec_field(key) {
        Some(v) => v.spec_as_str(),
        None => None,
    }
}

/// The strings of the list member `key` of `j` (none when it is missing).
pub open spec fn json_strings(j: JsonValue, key: Seq<char>) -> Seq<Seq<char>> {
    match j.spec_field(key) {
        Some(v) => v.spec_strings(),
        None => Seq::empty(),
    }
}

/// A boolean setting: the rock file's value, else the environment's when it
/// reads as a boolean, else the default.
pub open spec fn setting_bool(j: JsonValue, key: Seq<char>, default: bool, env: Map<Seq<char>, Seq<char>>) -> bool {
    match json_bool(j, key) {
        Some(b) => b,
        None => if env.contains_key(key) {
            match parse_bool_spec(env[key]) {
                Some(b) => b,
                None => default,
            }
        } else {
            default
        },
    }
}

/// A count setting: the rock file's value, else the environment's when it
/// reads as a count, else the default.
pub open spec fn setting_u64(j: JsonValue, key: Seq<char>, default: u64, env: Map<Seq<char>, Seq<char>>) -> u64 {
    match json_u64(j, key) {
        Some(n) => n,
        None => if env.contains_key(key) {
            match parse_u64_spec(env[key]) {
                Some(n) => n,
                None => default,
            }
        } else {
            default
        },
    }
}

/// A string setting: the rock file's value, else the environment's, else
/// the default.
pub open spec fn setting_str(j: JsonValue, key: Seq<char>, default: Seq<char>, env: Map<Seq<char>, Seq<char>>) -> Seq<char> {
    match json_str(j, key) {
        Some(s) => s,
        None => if env.contains_key(key) { env[key] } else { default },
    }
}

/// The paths found for each of the path settings, in order.
pub open spec fn resolved_paths(settings: Seq<Seq<char>>, table: Seq<(String, Vec<String>)>) -> Seq<Seq<char>>
    decreases settings.len(),
{
    if settings.len() == 0 {
        Seq::empty()
    } else {
        resolved_paths(settings.drop_last(), table) + table_paths(table, settings.last())
    }
}

/// A boolean setting.
pub fn setting_bool_of(j: &JsonValue, key: &str, default: bool, env: &Env) -> (r: bool)
    ensures
        r == setting_bool(*j, key@, default, env@),
{
    match j.field(key) {
        Some(v) => match v.as_bool() {
            Some(b) => return b,
            None => {},
        },
        None => {},
    }
    match env.get(key) {
        Some(y) => match parse_bool(y.as_str()) {
            Some(b) => b,
            None => default,
        },
        None => default,
    }
}

/// A count setting.
pub fn setting_u64_of(j: &JsonValue, key: &str, default: u64, env: &Env) -> (r: u64)
    ensures
        r == setting_u64(*j, key@, default, env@),
{
    match j.field(key) {
        Some(v) => match v.as_u64() {
            Some(n) => return n,
            None => {},
        },
        None => {},
    }
    match env.get(key) {
        Some(y) => match parse_u64(y.as_str()) {
            Some(n) => n,
            None => default,
        },
        None => default,
    }
}

/// A string setting.
pub fn setting_str_of(j: &JsonValue, key: &str, default: &str, env: &Env) -> (r: String)
    ensures
        r@ == setting_str(*j, key@, default@, env@),
{
    match j.field(key) {
        Some(v) => match v.as_str() {
            Some(s) => return s.clone(),
            None => {},
        },
        None => {},
    }
    match env.get(key) {
        Some(y) => y.clone(),
        None => default.to_owned(),
    }
}

/// The paths found for each of the path settings, in order.
pub fn resolve_all(settings: &Vec<String>, table: &PathTable) -> (r: Vec<String>)
    ensures
        views(r@) == resolved_paths(views(settings@), table.entries@),
{
    let mut r: Vec<String> = Vec::new();
    let mut i: usize = 0;
    while i < settings.len()
        invariant
            i <= settings.len(),
            views(r@) == resolved_paths(views(settings@).take(i as int), table.entries@),
        decreases settings.len() - i,
    {
        let found = table.paths(settings[i].as_str());
        assert(views(settings@).take(i + 1).drop_last() =~= views(settings@).take(i as int));
        assert(views(settings@).take(i + 1).last() == settings@[i as int]@);
        let ghost r0 = r@;
        let mut k: usize = 0;
        while k < found.len()
            invariant
                k <= found.len(),
                views(r@) == views(r0) + views(found@).take(k as int),
            decreases found.len() - k,
        {
            let ghost r1 = r@;
            r.push(found[k].clone());
            assert(views(r@) =~= views(r1).push(found@[k as int]@));
            assert(views(found@)[k as int] == found@[k as int]@);
            assert(views(r@) =~= views(r0) + views(found@).take(k + 1));
            k = k + 1;
        }
        assert(views(found@).take(found.len() as int) =~= views(found@));
        i = i + 1;
    }
    assert(views(settings@).take(settings.len() as int) =~= views(settings@));
    r
}

/// The value if there is one, else the default.
pub open spec fn or_default(o: Option<Seq<char>>, default: Seq<char>) -> Seq<char> {
    match o {
        Some(s) => s,
        None => default,
    }
}

/// A flag setting: the flags its items give, else the string setting.
pub open spec fn flags_setting(
    j: JsonValue,
    key: Seq<char>,
    prefix: Seq<char>,
    is_glob: bool,
    env: Map<Seq<char>, Seq<char>>,
    table: Seq<(String, Vec<String>)>,
) -> Seq<char> {
    or_default(expand_flags_spec(json_strings(j, key), prefix, is_glob, env, table), setting_str(j, key, ""@, env))
}

/// The defines: those the `DEFS` items give; else the `DEFS` string setting
/// followed by `-DTarget=..` and `-DVersion=..` defines.
pub open spec fn defs_setting(
    j: JsonValue,
    target: Seq<char>,
    version: Seq<char>,
    env: Map<Seq<char>, Seq<char>>,
    table: Seq<(String, Vec<String>)>,
) -> Seq<char> {
    match expand_flags_spec(json_strings(j, "DEFS"@), "-D"@, false, env, table) {
        Some(x) => x,
        None => {
            let d = setting_str(j, "DEFS"@, ""@, env);
            let defines = "-DTarget="@ + target + " -DVersion="@ + version;
            if d.len() > 0 {
                d + " "@ + defines
            } else {
                defines
            }
        },
    }
}

/// Whether the rock file names its `Type`, which every rock file must.
pub open spec fn has_type_spec(j: JsonValue) -> bool {
    json_str(j, "Type"@) is Some
}

/// Whether the rock file names its `Type`.
pub fn has_type(j: &JsonValue) -> (r: bool)
    ensures
        r == has_type_spec(*j),
{
    match j.field("Type") {
        Some(v) => v.as_str().is_some(),
        None => false,
    }
}

/// The path settings that expanding the options of `j` resolves, in order:
/// the object and source lists, then the items of the library, library path
/// and include settings.
pub open spec fn option_path_settings_spec(j: JsonValue, env: Map<Seq<char>, Seq<char>>) -> Seq<Seq<char>> {
    json_strings(j, "DependObject"@) + json_strings(j, "ASMSource"@) + json_strings(j, "CSource"@)
        + json_strings(j, "CXXSource"@) + flag_path_settings(json_strings(j, "LIBS"@), true, env)
        + flag_path_settings(json_strings(j, "LIBPATH"@), true, env)
        + flag_path_settings(json_strings(j, "INCLUDES"@), true, env)
}

/// Appends all of `b` to `a`.
pub(crate) fn append_all(a: &mut Vec<String>, b: Vec<String>)
    ensures
        views(final(a)@) == views(old(a)@) + views(b@),
{
    let mut b = b;
    let ghost a0 = a@;
    let ghost b0 = b@;
    a.append(&mut b);
    assert(views(a@) =~= views(a0) + views(b0));
}

/// The path settings that expanding the options of `j` resolves.
pub fn option_path_settings(j: &JsonValue, env: &Env) -> (r: Vec<String>)
    ensures
        views(r@) == option_path_settings_spec(*j, env@),
{
    let mut r = field_strings(j, "DependObject");
    append_all(&mut r, field_strings(j, "ASMSource"));
    append_all(&mut r, field_strings(j, "CSource"));
    append_all(&mut r, field_strings(j, "CXXSource"));
    append_all(&mut r, flag_path_settings_of(&field_strings(j, "LIBS"), true, env));
    append_all(&mut r, flag_path_settings_of(&field_strings(j, "LIBPATH"), true, env));
    append_all(&mut r, flag_path_settings_of(&field_strings(j, "INCLUDES"), true, env));
    r
}

/// A flag setting (the flags of its items, else the string setting).
fn flags_setting_of(j: &JsonValue, key: &str, prefix: &str, is_glob: bool, env: &Env, table: &PathTable) -> (r: String)
    ensures
        r@ == flags_setting(*j, key@, prefix@, is_glob, env@, table.entries@),
{
    match expand_flags(&field_strings(j, key), prefix, is_glob, env, table) {
        Some(x) => x,
        None => setting_str_of(j, key, "", env),
    }
}

/// The defines setting.
fn defs_setting_of(j: &JsonValue, target: &String, version: &String, env: &Env, table: &PathTable) -> (r: String)
    ensures
        r@ == defs_setting(*j, target@, version@, env@, table.entries@),
{
    match expand_flags(&field_strings(j, "DEFS"), "-D", false, env, table) {
        Some(x) => x,
        None => {
            let mut d = setting_str_of(j, "DEFS", "", env);
            if !d.as_str().is_empty() {
                push_str(&mut d, " -DTarget=");
            } else {
                push_str(&mut d, "-DTarget=");
            }
            push_str(&mut d, target.as_str());
            push_str(&mut d, " -DVersion=");
            push_str(&mut d, version.as_str());
            proof {
                let d0 = setting_str(*j, "DEFS"@, ""@, env@);
                reveal_strlit(" -DTarget=");
                reveal_strlit("-DTarget=");
                reveal_strlit(" ");
                if d0.len() > 0 {
                    assert(d@ =~= d0 + " "@ + ("-DTarget="@ + target@ + " -DVersion="@ + version@));
                } else {
                    assert(d0 =~= Seq::<char>::empty());
                    assert(d@ =~= "-DTarget="@ + target@ + " -DVersion="@ + version@);
                }
            }
            d
        },
    }
}

/// Whether `o` holds the options that the rock file `j` asks for, with the
/// environment `env` and the path settings read from `table`: each setting
/// from the rock file, else from the environment, else its default.
pub open spec fn expanded_option(
    o: OptionData,
    j: JsonValue,
    env: Map<Seq<char>, Seq<char>>,
    table: Seq<(String, Vec<String>)>,
) -> bool {
    &&& o.Type@ == json_str(j, "Type"@)->0
    &&& o.Target@ == or_default(json_str(j, "Target"@), "unknow"@)
    &&& o.Version@ == or_default(json_str(j, "Version"@), "1.0.0"@)
    &&& o.DependRock@.len() == 0
    &&& o.Object@.len() == 0
    &&& o.CmdStart@.len() == 0
    &&& views(o.DependObject@) == resolved_paths(json_strings(j, "DependObject"@), table)
    &&& views(o.ASMSource@) == resolved_paths(json_strings(j, "ASMSource"@), table)
    &&& views(o.CSource@) == resolved_paths(json_strings(j, "CSource"@), table)
    &&& views(o.CXXSource@) == resolved_paths(json_strings(j, "CXXSource"@), table)
    &&& views(o.CmdStop@) == json_strings(j, "CmdStop"@)
    &&& o.Rebuild == setting_bool(j, "Rebuild"@, false, env)
    &&& o.IsMap == setting_bool(j, "IsMap"@, false, env)
    &&& o.IsAsm == setting_bool(j, "IsAsm"@, false, env)
    &&& o.IsBinary == setting_bool(j, "IsBinary"@, false, env)
    &&& o.IsStrip == setting_bool(j, "IsStrip"@, true, env)
    &&& o.IsSilent == setting_bool(j, "IsSilent"@, false, env)
    &&& o.Jobs == setting_u64(j, "Jobs"@, 4, env)
    &&& o.CROSSCOMPILE@ == setting_str(j, "CROSSCOMPILE"@, ""@, env)
    &&& o.AS@ == setting_str(j, "AS"@, "gcc"@, env)
    &&& o.AR@ == setting_str(j, "AR"@, "ar"@, env)
    &&& o.CC@ == setting_str(j, "CC"@, "gcc"@, env)
    &&& o.CXX@ == setting_str(j, "CXX"@, "gcc"@, env)
    &&& o.LD@ == setting_str(j, "LD"@, "gcc"@, env)
    &&& o.STRIP@ == setting_str(j, "STRIP"@, "strip"@, env)
    &&& o.OBJCOPY@ == setting_str(j, "OBJCOPY"@, "objcopy"@, env)
    &&& o.OBJDUMP@ == setting_str(j, "OBJDUMP"@, "objdump"@, env)
    &&& o.AFLAGS@ == flags_setting(j, "AFLAGS"@, ""@, false, env, table)
    &&& o.CFLAGS@ == flags_setting(j, "CFLAGS"@, ""@, false, env, table)
    &&& o.CXXFLAGS@ == flags_setting(j, "CXXFLAGS"@, ""@, false, env, table)
    &&& o.LDFLAGS@ == flags_setting(j, "LDFLAGS"@, ""@, false, env, table)
    &&& o.DEFS@ == defs_setting(j, o.Target@, o.Version@, env, table)
    &&& o.LIBS@ == flags_setting(j, "LIBS"@, "-l"@, true, env, table)
    &&& o.LIBPATH@ == flags_setting(j, "LIBPATH"@, "-L"@, true, env, table)
    &&& o.INCLUDES@ == flags_setting(j, "INCLUDES"@, "-I"@, true, env, table)
}

/// The value of `key` in the environment, or nothing when it is unset.
pub open spec fn env_or_empty(env: Map<Seq<char>, Seq<char>>, key: Seq<char>) -> Seq<char> {
    if env.contains_key(key) { env[key] } else { Seq::empty() }
}

/// A flag setting that the rock file gives no items for (no member, or one
/// that is neither a string nor an array of strings) is inherited from the
/// environment, or empty when the environment does not set it: the
/// assembler, C, C++ and linker flags, the libraries, the library paths and
/// the include paths alike.
pub proof fn law_unset_flags_come_from_the_environment(
    o: OptionData,
    j: JsonValue,
    env: Map<Seq<char>, Seq<char>>,
    table: Seq<(String, Vec<String>)>,
)
    requires
        expanded_option(o, j, env, table),
    ensures
        json_strings(j, "AFLAGS"@).len() == 0 ==> o.AFLAGS@ == env_or_empty(env, "AFLAGS"@),
        json_strings(j, "CFLAGS"@).len() == 0 ==> o.CFLAGS@ == env_or_empty(env, "CFLAGS"@),
        json_strings(j, "CXXFLAGS"@).len() == 0 ==> o.CXXFLAGS@ == env_or_empty(env, "CXXFLAGS"@),
        json_strings(j, "LDFLAGS"@).len() == 0 ==> o.LDFLAGS@ == env_or_empty(env, "LDFLAGS"@),
        json_strings(j, "LIBS"@).len() == 0 ==> o.LIBS@ == env_or_empty(env, "LIBS"@),
        json_strings(j, "LIBPATH"@).len() == 0 ==> o.LIBPATH@ == env_or_empty(env, "LIBPATH"@),
        json_strings(j, "INCLUDES"@).len() == 0 ==> o.INCLUDES@ == env_or_empty(env, "INCLUDES"@),
{
    lemma_no_items_no_flags(j, "AFLAGS"@, ""@, false, env, table);
    lemma_no_items_no_flags(j, "CFLAGS"@, ""@, false, env, table);
    lemma_no_items_no_flags(j, "CXXFLAGS"@, ""@, false, env, table);
    lemma_no_items_no_flags(j, "LDFLAGS"@, ""@, false, env, table);
    lemma_no_items_no_flags(j, "LIBS"@, "-l"@, true, env, table);
    lemma_no_items_no_flags(j, "LIBPATH"@, "-L"@, true, env, table);
    lemma_no_items_no_flags(j, "INCLUDES"@, "-I"@, true, env, table);
}

/// A setting without items gives no flags, and has no string of its own.
proof fn lemma_no_items_no_flags(
    j: JsonValue,
    key: Seq<char>,
    prefix: Seq<char>,
    is_glob: bool,
    env: Map<Seq<char>, Seq<char>>,
    table: Seq<(String, Vec<String>)>,
)
    ensures
        json_strings(j, key).len() == 0 ==> flags_setting(j, key, prefix, is_glob, env, table) == env_or_empty(env, key),
{
    if json_strings(j, key).len() == 0 {
        assert(flag_words(json_strings(j, key), prefix, is_glob, env, table).len() == 0);
        assert(json_str(j, key) is None);
        reveal_strlit("");
        assert(""@ =~= Seq::<char>::empty());
    }
}

/// The options of a rock file, read from its settings, the
/// environment and the defaults, with path settings read from `table`.
#[allow(non_snake_case)]
pub fn expandOption(j: &JsonValue, env: &Env, table: &PathTable) -> (r: OptionData)
    requires
        has_type_spec(*j),
    ensures
        expanded_option(r, *j, env@, table.entries@),
{
    let typ = match j.field("Type") {
        Some(v) => match v.as_str() {
            Some(s) => s.clone(),
            None => String::new(),
        },
        None => String::new(),
    };
    let target = match j.field("Target") {
        Some(v) => match v.as_str() {
            Some(s) => s.clone(),
            None => "unknow".to_owned(),
        },
        None => "unknow".to_owned(),
    };
    let version = match j.field("Version") {
        Some(v) => match v.as_str() {
            Some(s) => s.clone(),
            None => "1.0.0".to_owned(),
        },
        None => "1.0.0".to_owned(),
    };
    let depend_object = resolve_all(&field_strings(j, "DependObject"), table);
    let asm_source = resolve_all(&field_strings(j, "ASMSource"), table);
    let c_source = resolve_all(&field_strings(j, "CSource"), table);
    let cxx_source = resolve_all(&field_strings(j, "CXXSource"), table);
    let cmd_stop = field_strings(j, "CmdStop");
    let defs = defs_setting_of(j, &target, &version, env, table);
    OptionData {
        Target: target,
        Version: version,
        Type: typ,
        DependRock: Vec::new(),
        ASMSource: asm_source,
        CSource: c_source,
        CXXSource: cxx_source,
        DependObject: depend_object,
        Object: Vec::new(),
        CmdStart: Vec::new(),
        CmdStop: cmd_stop,
        Rebuild: setting_bool_of(j, "Rebuild", false, env),
        IsMap: setting_bool_of(j, "IsMap", false, env),
        IsAsm: setting_bool_of(j, "IsAsm", false, env),
        IsBinary: setting_bool_of(j, "IsBinary", false, env),
        IsStrip: setting_bool_of(j, "IsStrip", true, env),
        IsSilent: setting_bool_of(j, "IsSilent", false, env),
        Jobs: setting_u64_of(j, "Jobs", 4, env),
        CROSSCOMPILE: setting_str_of(j, "CROSSCOMPILE", "", env),
        AS: setting_str_of(j, "AS", "gcc", env),
        AR: setting_str_of(j, "AR", "ar", env),
        CC: setting_str_of(j, "CC", "gcc", env),
        CXX: setting_str_of(j, "CXX", "gcc", env),
        LD: setting_str_of(j, "LD", "gcc", env),
        STRIP: setting_str_of(j, "STRIP", "strip", env),
        OBJCOPY: setting_str_of(j, "OBJCOPY", "objcopy", env),
        OBJDUMP: setting_str_of(j, "OBJDUMP", "objdump", env),
        AFLAGS: flags_setting_of(j, "AFLAGS", "", false, env, table),
        CFLAGS: flags_setting_of(j, "CFLAGS", "", false, env, table),
        CXXFLAGS: flags_setting_of(j, "CXXFLAGS", "", false, env, table),
        LDFLAGS: flags_setting_of(j, "LDFLAGS", "", false, env, table),
        DEFS: defs,
        LIBS: flags_setting_of(j, "LIBS", "-l", true, env, table),
        LIBPATH: flags_setting_of(j, "LIBPATH", "-L", true, env, table),
        INCLUDES: flags_setting_of(j, "INCLUDES", "-I", true, env, table),
    }
}

} // verus!
