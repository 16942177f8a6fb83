//! Path names: absolute forms and their directories, extensions, and the
//! build target's file name with its platform suffix.
use vstd::prelude::*;
use crate::pattern::{law_replace_absent, replace_all, replace_all_chars, strip_verbatim_prefix, strip_verbatim_prefix_spec};
use crate::text::{chars_of, occurs_at, string_of, str_eq, push_str};

verus! {

/// The extension of a path under std's path rules (`Path::extension`): the
/// part of its file name after the last `.`, if any.
pub uninterp spec fn path_extension(path: Seq<char>) -> Option<Seq<char>>;

/// A path with its extension set under std's path rules
/// (`PathBuf::set_extension`).
pub uninterp spec fn path_with_extension(path: Seq<char>, ext: Seq<char>) -> Seq<char>;

/// How `{:?}` writes an `OsStr`: quoted, with escapes.
pub uninterp spec fn os_str_debug(s: Seq<char>) -> Seq<char>;

/// Whether `c` is printed as itself inside a quoted debug string.
pub open spec fn plain_debug_char(c: char) -> bool {
    ' ' <= c && c <= '~' && c != '"' && c != '\\' && c != '\''
}

/// Whether `s` holds no `.`.
pub open spec fn has_no_dot(s: Seq<char>) -> bool {
    forall|i: int| 0 <= i < s.len() ==> s[i] != '.'
}

/// `std::path::Path::extension`: the extension of `path`'s file name, if
/// it has one.  What counts as the file name and its extension is std's
/// rule for the platform the crate is built for; the contract names the
/// result, and states only what the documentation gives for every
/// platform: a path with no `.` has no extension.
#[verifier::external_body]
fn extension_of(path: &str) -> (r: Option<String>)
    ensures
        match r {
            Some(e) => path_extension(path@) == Some(e@),
            None => path_extension(path@) is None,
        },
        has_no_dot(path@) ==> r is None,
{
    std::path::Path::new(path).extension().map(|e| e.to_string_lossy().into_owned())
}

/// Whether `s` holds no path separator of any platform (`/` or `\`).
pub open spec fn has_no_separator(s: Seq<char>) -> bool {
    forall|i: int| 0 <= i < s.len() ==> s[i] != '/' && s[i] != '\\'
}

/// `std::path::PathBuf::set_extension`: `path` with its extension replaced
/// by (or, when it has none, extended with) `ext`; a path without a file
/// name is left as it is.  The call panics on an extension that holds a
/// path separator, which `requires` rules out.  The contract names the
/// result and states what the documentation gives for a non-empty
/// extension without a `.`: the result is the path unchanged (no file
/// name) or has `ext` as its extension, and it has `ext` as its extension
/// whenever the path had one (a path with an extension has a file name).
/// The rest of the result (what the stem is) is left to the name.
#[verifier::external_body]
pub(crate) fn with_extension(path: &str, ext: &str) -> (r: String)
    requires
        has_no_separator(ext@),
    ensures
        r@ == path_with_extension(path@, ext@),
        ext@.len() > 0 && has_no_dot(ext@) ==> r@ == path@ || path_extension(r@) == Some(ext@),
        ext@.len() > 0 && has_no_dot(ext@) && path_extension(path@) is Some ==> path_extension(r@) == Some(ext@),
{
    let mut p = std::path::PathBuf::from(path);
    p.set_extension(ext);
    p.to_string_lossy().into_owned()
}

/// `{:?}` of an `OsStr` (the `Debug` impl): the text in double quotes, with
/// quotes, backslashes and unprintable characters escaped.  The contract
/// names the result, states that it opens and closes with a double quote,
/// and that text made only of printable ASCII other than quotes and
/// backslashes is written as itself in double quotes; how other characters
/// are escaped is left to the name.
#[verifier::external_body]
fn debug_os_str(s: &str) -> (r: String)
    ensures
        r@ == os_str_debug(s@),
        r@.len() >= 2 && r@[0] == '"' && r@[r@.len() - 1] == '"',
        (forall|i: int| 0 <= i < s@.len() ==> plain_debug_char(#[trigger] s@[i])) ==> r@ == seq!['"'] + s@ + seq!['"'],
{
    format!("{:?}", std::path::Path::new(s).as_os_str())
}

/// The parent of a path under std's path rules (`Path::parent`): the path
/// without its last component; none for a root or an empty path.
pub uninterp spec fn path_parent(path: Seq<char>) -> Option<Seq<char>>;

/// `std::path::Path::parent`: `path` without its last component, if it has
/// one.  The contract names the result and states nothing more of it.
#[verifier::external_body]
fn parent_of(path: &str) -> (r: Option<String>)
    ensures
        match r {
            Some(p) => path_parent(path@) == Some(p@),
            None => path_parent(path@) is None,
        },
{
    std::path::Path::new(path).parent().map(|p| p.to_string_lossy().into_owned())
}

/// What the file system made of a path when asked for its absolute form.
pub enum Canonical {
    /// The path was absolute already.
    Absolute,
    /// The path was relative; this is its canonical absolute form.
    Resolved(String),
    /// The path was relative and could not be resolved (it does not exist).
    Failed,
}

/// The absolute form of `path`: the path itself when it is absolute, its
/// canonical form when it is relative, with the verbatim prefix `\\?\`
/// removed on Windows; a relative path that could not be resolved is kept
/// as it is.
pub open spec fn abs_path_spec(path: Seq<char>, canonical: Canonical, windows: bool) -> Seq<char> {
    match canonical {
        Canonical::Failed => path,
        Canonical::Resolved(c) => if windows { strip_verbatim_prefix_spec(c@) } else { c@ },
        Canonical::Absolute => if windows { strip_verbatim_prefix_spec(path) } else { path },
    }
}

/// The absolute form of `path`, given what the file system made of it.
#[allow(non_snake_case)]
pub fn getAbsPath(path: &str, canonical: Canonical, windows: bool) -> (r: String)
    ensures
        r@ == abs_path_spec(path@, canonical, windows),
{
    match canonical {
        Canonical::Failed => path.to_owned(),
        Canonical::Resolved(c) => if windows { strip_verbatim_prefix(c.as_str()) } else { c },
        Canonical::Absolute => if windows { strip_verbatim_prefix(path) } else { path.to_owned() },
    }
}

/// Making a path absolute twice gives what making it absolute once gave
/// (off Windows), when the file system answers the second time as it must:
/// a relative path it could not resolve is still one it cannot resolve,
/// and any other first answer left an absolute path.
pub proof fn law_abs_path_idempotent(path: Seq<char>, first: Canonical, second: Canonical)
    requires
        first is Failed ==> second is Failed,
        !(first is Failed) ==> second is Absolute,
    ensures
        abs_path_spec(abs_path_spec(path, first, false), second, false) == abs_path_spec(path, first, false),
{
}

/// The directory of `path`: the parent of its absolute form; none when the
/// absolute form has no parent.
#[allow(non_snake_case)]
pub fn getAbsDir(path: &str, canonical: Canonical, windows: bool) -> (r: Option<String>)
    ensures
        match r {
            Some(d) => path_parent(abs_path_spec(path@, canonical, windows)) == Some(d@),
            None => path_parent(abs_path_spec(path@, canonical, windows)) is None,
        },
{
    let abs = getAbsPath(path, canonical, windows);
    parent_of(abs.as_str())
}

/// Whether `s` holds no double quote.
pub open spec fn has_no_quote(s: Seq<char>) -> bool {
    forall|i: int| 0 <= i < s.len() ==> s[i] != '"'
}

/// The suffix that a target of the given type gets when it has no extension.
pub open spec fn target_suffix(typ: Seq<char>, windows: bool) -> Seq<char> {
    if typ == "Program"@ {
        if windows { ".exe"@ } else { ".out"@ }
    } else if typ == "StaticLib"@ {
        ".a"@
    } else if typ == "ShareLib"@ {
        if windows { ".dll"@ } else { ".so"@ }
    } else {
        Seq::empty()
    }
}

/// The target's name without its extension, and the target's file name.
///
/// A target with an extension keeps it as its file name; its base name is
/// the target with every `.` followed by the debug-quoted extension taken
/// out.  A target without one gets the suffix of its type.
pub open spec fn target_names_spec(target: Seq<char>, typ: Seq<char>, windows: bool) -> (Seq<char>, Seq<char>) {
    match path_extension(target) {
        Some(x) => (replace_all(target, seq!['.'] + os_str_debug(x), Seq::empty()), target),
        None => (target, target + target_suffix(typ, windows)),
    }
}

/// The target's base name and file name.
pub fn target_names(target: &String, typ: &String, windows: bool) -> (r: (String, String))
    ensures
        (r.0@, r.1@) == target_names_spec(target@, typ@, windows),
        has_no_dot(target@) ==> r.0@ == target@ && r.1@ == target@ + target_suffix(typ@, windows),
        has_no_quote(target@) ==> r.0@ == target@,
{
    match extension_of(target.as_str()) {
        Some(x) => {
            let quoted = debug_os_str(x.as_str());
            let mut pat: Vec<char> = Vec::new();
            pat.push('.');
            let q = chars_of(quoted.as_str());
            let mut k: usize = 0;
            while k < q.len()
                invariant
                    k <= q.len(),
                    pat@ == seq!['.'] + q@.take(k as int),
                decreases q.len() - k,
            {
                pat.push(q[k]);
                assert(pat@ =~= seq!['.'] + q@.take(k + 1));
                k = k + 1;
            }
            assert(q@.take(q.len() as int) =~= q@);
            let none: Vec<char> = Vec::new();
            let base = replace_all_chars(&chars_of(target.as_str()), &pat, &none);
            assert(none@ =~= Seq::<char>::empty());
            proof {
                if has_no_quote(target@) {
                    assert(pat@[1] == '"');
                    assert forall|i: int| 0 <= i implies !occurs_at(target@, pat@, i) by {
                        if occurs_at(target@, pat@, i) {
                            assert(target@.subrange(i, i + pat@.len())[1] == pat@[1]);
                            assert(target@[i + 1] == '"');
                        }
                    }
                    law_replace_absent(target@, pat@, none@);
                }
            }
            (string_of(&base), target.clone())
        },
        None => {
            let mut with_suffix = target.clone();
            if str_eq(typ.as_str(), "Program") {
                if windows {
                    push_str(&mut with_suffix, ".exe");
                } else {
                    push_str(&mut with_suffix, ".out");
                }
            } else if str_eq(typ.as_str(), "StaticLib") {
                push_str(&mut with_suffix, ".a");
            } else if str_eq(typ.as_str(), "ShareLib") {
                if windows {
                    push_str(&mut with_suffix, ".dll");
                } else {
                    push_str(&mut with_suffix, ".so");
                }
            } else {
                assert(with_suffix@ =~= target@ + Seq::<char>::empty());
            }
            (target.clone(), with_suffix)
        },
    }
}

} // verus!
