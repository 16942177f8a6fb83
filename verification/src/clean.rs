//! What cleaning a rock removes, and the order in which the rocks are cleaned.
use vstd::prelude::*;
use crate::env::Env;
use crate::json::{views, field_strings, JsonValue};
use crate::options::{append_all, OptionData, expandOption, expanded_option, has_type, has_type_spec, json_strings,
    option_path_settings, option_path_settings_spec};
use crate::resolve::PathTable;
use crate::compile::{link_steps, spaced, object_args, opt_flags, path_joined, share_lib_steps, step_if, text_if, tool_spec, LinkStep};
use crate::rocks::{RockMap, acyclic, chain_deeper_than, clean_order, post_order, lemma_post_order_read};
use crate::paths::{has_no_dot, has_no_quote, target_suffix, path_extension, path_with_extension, target_names, target_names_spec, with_extension};
use crate::text::{str_eq, push_str};

verus! {

/// The object files of some sources.
pub open spec fn object_files(sources: Seq<Seq<char>>) -> Seq<Seq<char>> {
    sources.map_values(|s: Seq<char>| path_with_extension(s, "o"@))
}

/// Whether the object file `obj` made for `source` is the source itself
/// (a path without a file name) or has the extension `o`, and has it
/// whenever the source has an extension.
pub open spec fn object_of(source: Seq<char>, obj: Seq<char>) -> bool {
    &&& obj == source || path_extension(obj) == Some("o"@)
    &&& path_extension(source) is Some ==> path_extension(obj) == Some("o"@)
}

/// The object files that cleaning removes for some sources: each source
/// path with the extension `o`.  None of them is a source whose extension
/// is another than `o`.
#[allow(non_snake_case)]
pub fn removeObjFile(sources: &Vec<String>) -> (r: Vec<String>)
    ensures
        views(r@) == object_files(views(sources@)),
        forall|i: int| 0 <= i < r@.len() ==> object_of(sources@[i]@, #[trigger] r@[i]@),
        forall|i: int, j: int| 0 <= i < r@.len() && 0 <= j < sources@.len()
            && path_extension(sources@[j]@) is Some && path_extension(sources@[j]@) != Some("o"@)
            ==> #[trigger] r@[i]@ != #[trigger] sources@[j]@,
{
    let mut r: Vec<String> = Vec::new();
    let mut i: usize = 0;
    while i < sources.len()
        invariant
            i <= sources.len(),
            views(r@) == views(sources@).take(i as int).map_values(|s: Seq<char>| path_with_extension(s, "o"@)),
            r@.len() == i,
            forall|k: int| 0 <= k < i ==> object_of(sources@[k]@, #[trigger] r@[k]@),
        decreases sources.len() - i,
    {
        let ghost r0 = r@;
        proof { reveal_strlit("o"); }
        r.push(with_extension(sources[i].as_str(), "o"));
        assert(object_of(sources@[i as int]@, r@[i as int]@));
        assert(views(r@) =~= views(r0).push(path_with_extension(sources@[i as int]@, "o"@)));
        assert(views(sources@)[i as int] == sources@[i as int]@);
        assert(views(r@) =~= views(sources@).take(i + 1).map_values(|s: Seq<char>| path_with_extension(s, "o"@)));
        i = i + 1;
    }
    assert(views(sources@).take(sources.len() as int) =~= views(sources@));
    assert forall|i: int, j: int| 0 <= i < r@.len() && 0 <= j < sources@.len()
        && path_extension(sources@[j]@) is Some && path_extension(sources@[j]@) != Some("o"@)
        implies #[trigger] r@[i]@ != #[trigger] sources@[j]@ by {
        assert(object_of(sources@[i]@, r@[i]@));
    }
    r
}

/// One file when the flag is set, none otherwise.
pub open spec fn file_if(flag: bool, file: Seq<char>) -> Seq<Seq<char>> {
    if flag { seq![file] } else { Seq::empty() }
}

/// Whether the type is one that builds a target file.
pub open spec fn builds_target(typ: Seq<char>) -> bool {
    typ == "Program"@ || typ == "StaticLib"@ || typ == "ShareLib"@
}

/// The files that cleaning a rock with these options removes, in order: the
/// object file of each assembler, C and C++ source; the map, assembly
/// listing and raw binary of the target when they are made; the target
/// itself when the type builds one.
pub open spec fn clean_files_spec(o: OptionData, windows: bool) -> Seq<Seq<char>> {
    let (base, file) = target_names_spec(o.Target@, o.Type@, windows);
    object_files(views(o.ASMSource@)) + object_files(views(o.CSource@)) + object_files(views(o.CXXSource@))
        + file_if(o.IsMap, base + ".map"@) + file_if(o.IsAsm, base + ".asm"@)
        + file_if(o.IsBinary, base + ".bin"@) + file_if(builds_target(o.Type@), file)
}

/// Appends `base` with `suffix` when the flag is set.
fn push_if(files: &mut Vec<String>, flag: bool, base: &String, suffix: &str)
    ensures
        views(final(files)@) == views(old(files)@) + file_if(flag, base@ + suffix@),
{
    let ghost f0 = files@;
    if flag {
        let mut f = base.clone();
        push_str(&mut f, suffix);
        files.push(f);
        assert(views(files@) =~= views(f0) + file_if(flag, base@ + suffix@));
    } else {
        assert(views(files@) =~= views(f0) + file_if(flag, base@ + suffix@));
    }
}

/// The files that cleaning a rock removes.
pub fn clean_files(o: &OptionData, windows: bool) -> (r: Vec<String>)
    ensures
        views(r@) == clean_files_spec(*o, windows),
        has_no_quote(o.Target@) ==> target_names_spec(o.Target@, o.Type@, windows).0 == o.Target@,
        has_no_dot(o.Target@) ==> target_names_spec(o.Target@, o.Type@, windows)
            == (o.Target@, o.Target@ + target_suffix(o.Type@, windows)),
        forall|k: int| 0 <= k < all_sources(*o).len() ==> object_of(all_sources(*o)[k], #[trigger] r@[k]@),
        forall|k: int, j: int| 0 <= k < all_sources(*o).len() && 0 <= j < all_sources(*o).len()
            && path_extension(all_sources(*o)[j]) is Some && path_extension(all_sources(*o)[j]) != Some("o"@)
            ==> #[trigger] r@[k]@ != #[trigger] all_sources(*o)[j],
{
    let (base, file) = target_names(&o.Target, &o.Type, windows);
    let a = removeObjFile(&o.ASMSource);
    let c = removeObjFile(&o.CSource);
    let x = removeObjFile(&o.CXXSource);
    let ghost (a0, c0, x0) = (a@, c@, x@);
    let mut r = a;
    append_all(&mut r, c);
    append_all(&mut r, x);
    proof {
        let srcs = all_sources(*o);
        assert(views(r@) == views(a0) + views(c0) + views(x0));
        assert(views(a0).len() == o.ASMSource@.len());
        assert(views(c0).len() == o.CSource@.len());
        assert(views(x0).len() == o.CXXSource@.len());
        assert(r@.len() == views(r@).len());
        assert(srcs.len() == r@.len());
        assert forall|k: int| 0 <= k < srcs.len() implies object_of(srcs[k], #[trigger] r@[k]@) by {
            assert(r@[k]@ == views(r@)[k]);
            let na = o.ASMSource@.len() as int;
            let nc = o.CSource@.len() as int;
            if k < na {
                assert(views(r@)[k] == views(a0)[k]);
                assert(object_of(o.ASMSource@[k]@, a0[k]@));
                assert(srcs[k] == o.ASMSource@[k]@);
            } else if k < na + nc {
                assert(views(r@)[k] == views(c0)[k - na]);
                assert(object_of(o.CSource@[k - na]@, c0[k - na]@));
                assert(srcs[k] == o.CSource@[k - na]@);
            } else {
                assert(views(r@)[k] == views(x0)[k - na - nc]);
                assert(object_of(o.CXXSource@[k - na - nc]@, x0[k - na - nc]@));
                assert(srcs[k] == o.CXXSource@[k - na - nc]@);
            }
        }
    }
    let ghost r1 = r@;
    push_if(&mut r, o.IsMap, &base, ".map");
    push_if(&mut r, o.IsAsm, &base, ".asm");
    push_if(&mut r, o.IsBinary, &base, ".bin");
    let builds = str_eq(o.Type.as_str(), "Program") || str_eq(o.Type.as_str(), "StaticLib")
        || str_eq(o.Type.as_str(), "ShareLib");
    let ghost r0 = r@;
    if builds {
        r.push(file);
    }
    assert(views(r@) =~= views(r0) + file_if(builds_target(o.Type@), target_names_spec(o.Target@, o.Type@, windows).1));
    proof {
        let srcs = all_sources(*o);
        assert(views(r1).len() == srcs.len());
        assert(r1.len() == srcs.len());
        assert forall|k: int| 0 <= k < srcs.len() implies r@[k]@ == r1[k]@ by {
            assert(views(r@)[k] == views(r1)[k]);
        }
        assert forall|k: int| 0 <= k < srcs.len() implies object_of(srcs[k], #[trigger] r@[k]@) by {
            assert(object_of(srcs[k], r1[k]@));
        }
        assert forall|k: int, j: int| 0 <= k < srcs.len() && 0 <= j < srcs.len()
            && path_extension(srcs[j]) is Some && path_extension(srcs[j]) != Some("o"@)
            implies #[trigger] r@[k]@ != #[trigger] srcs[j] by {
            assert(object_of(srcs[k], r@[k]@));
        }
    }
    r
}

/// The assembler, C and C++ sources, in that order.
pub open spec fn all_sources(o: OptionData) -> Seq<Seq<char>> {
    views(o.ASMSource@) + views(o.CSource@) + views(o.CXXSource@)
}

/// Cleaning removes the object file that compiling each source makes
/// (the `object` of its job, see `next_object_job`): that of every
/// assembler, C and C++ source.
pub proof fn law_clean_removes_objects(o: OptionData, windows: bool)
    ensures
        forall|i: int| 0 <= i < o.ASMSource@.len() ==>
            clean_files_spec(o, windows).contains(path_with_extension(#[trigger] o.ASMSource@[i]@, "o"@)),
        forall|i: int| 0 <= i < o.CSource@.len() ==>
            clean_files_spec(o, windows).contains(path_with_extension(#[trigger] o.CSource@[i]@, "o"@)),
        forall|i: int| 0 <= i < o.CXXSource@.len() ==>
            clean_files_spec(o, windows).contains(path_with_extension(#[trigger] o.CXXSource@[i]@, "o"@)),
{
    let a = object_files(views(o.ASMSource@));
    let c = object_files(views(o.CSource@));
    let x = object_files(views(o.CXXSource@));
    let all = clean_files_spec(o, windows);
    assert forall|i: int| 0 <= i < o.ASMSource@.len() implies
        all.contains(path_with_extension(#[trigger] o.ASMSource@[i]@, "o"@)) by {
        assert(all[i] == a[i]);
    }
    assert forall|i: int| 0 <= i < o.CSource@.len() implies
        all.contains(path_with_extension(#[trigger] o.CSource@[i]@, "o"@)) by {
        assert(all[a.len() + i] == c[i]);
    }
    assert forall|i: int| 0 <= i < o.CXXSource@.len() implies
        all.contains(path_with_extension(#[trigger] o.CXXSource@[i]@, "o"@)) by {
        assert(all[a.len() + c.len() + i] == x[i]);
    }
}

/// The arguments that come before the target file in the command that makes
/// it: `-o ` for a program, `r ` for a static library, `-shared -o ` for a
/// shared library.
pub open spec fn target_flag(typ: Seq<char>) -> Seq<char> {
    if typ == "Program"@ {
        "-o "@
    } else if typ == "StaticLib"@ {
        "r "@
    } else {
        "-shared -o "@
    }
}

proof fn lemma_prefix(p: Seq<char>, r: Seq<char>)
    ensures
        (p + r).take(p.len() as int) == p,
{
    assert((p + r).take(p.len() as int) =~= p);
}

/// What follows the target file in the arguments of the command that makes
/// it.
spec fn target_args_rest(o: OptionData, windows: bool) -> Seq<char> {
    let base = target_names_spec(o.Target@, o.Type@, windows).0;
    if o.Type@ == "Program"@ {
        object_args(o) + opt_flags(o.LDFLAGS@) + text_if(o.IsMap, " -Wl,-Map="@ + o.Target@ + ".map"@)
            + opt_flags(o.LIBPATH@) + opt_flags(o.LIBS@)
    } else if o.Type@ == "StaticLib"@ {
        object_args(o) + opt_flags(o.LIBPATH@) + opt_flags(o.LIBS@)
    } else {
        object_args(o) + opt_flags(o.LDFLAGS@) + text_if(o.IsMap, " -Wl,-Map="@ + base + ".map"@)
            + opt_flags(o.LIBPATH@) + opt_flags(o.LIBS@)
    }
}

/// The tool that makes the target: the archiver for a static library, the
/// linker otherwise.
spec fn target_tool(o: OptionData, cross_is_dir: bool) -> Seq<char> {
    if o.Type@ == "StaticLib"@ {
        tool_spec(o.CROSSCOMPILE@, o.AR@, cross_is_dir)
    } else {
        tool_spec(o.CROSSCOMPILE@, o.LD@, cross_is_dir)
    }
}

proof fn lemma_head<A>(x: A, a: Seq<A>, b: Seq<A>, c: Seq<A>)
    ensures
        (seq![x] + a + b + c).len() > 0,
        (seq![x] + a + b + c)[0] == x,
{
    assert((seq![x] + a + b + c)[0] == (seq![x] + a + b)[0]);
    assert((seq![x] + a + b)[0] == (seq![x] + a)[0]);
}

/// The first command that finishes a program.
proof fn lemma_first_program_step(o: OptionData, windows: bool, cross_is_dir: bool)
    requires
        o.Type@ == "Program"@,
    ensures
        link_steps(o, windows, cross_is_dir).len() > 0,
        link_steps(o, windows, cross_is_dir)[0] == LinkStep::Run(target_tool(o, cross_is_dir),
            (target_flag(o.Type@) + target_names_spec(o.Target@, o.Type@, windows).1) + target_args_rest(o, windows)),
{
    reveal_strlit("Program");
    reveal_strlit("StaticLib");
    assert("Program"@.len() != "StaticLib"@.len());
    let (base, file) = target_names_spec(o.Target@, o.Type@, windows);
    let cross = o.CROSSCOMPILE@;
    let args = "-o "@ + file + object_args(o) + opt_flags(o.LDFLAGS@)
        + text_if(o.IsMap, " -Wl,-Map="@ + o.Target@ + ".map"@) + opt_flags(o.LIBPATH@) + opt_flags(o.LIBS@);
    assert(args =~= (target_flag(o.Type@) + file) + target_args_rest(o, windows));
    let listing = if cross_is_dir {
        path_joined(cross, o.OBJDUMP@) + " -D -S "@ + base + " > "@ + o.Target@ + ".asm"@
    } else {
        cross + o.OBJDUMP@ + " -D -S "@ + file + " > "@ + base + ".asm"@
    };
    lemma_head(LinkStep::Run(tool_spec(cross, o.LD@, cross_is_dir), args),
        step_if(o.IsAsm, LinkStep::Shell(listing)),
        step_if(o.IsStrip, LinkStep::Run(tool_spec(cross, o.STRIP@, cross_is_dir), file)),
        step_if(o.IsBinary, LinkStep::Run(tool_spec(cross, o.OBJCOPY@, cross_is_dir), "-O binary "@ + file + " "@ + base + ".bin"@)));
}

/// The first command that finishes a shared library.
proof fn lemma_first_share_lib_step(o: OptionData, windows: bool, cross_is_dir: bool)
    requires
        o.Type@ == "ShareLib"@,
    ensures
        link_steps(o, windows, cross_is_dir).len() > 0,
        link_steps(o, windows, cross_is_dir)[0] == LinkStep::Run(target_tool(o, cross_is_dir),
            (target_flag(o.Type@) + target_names_spec(o.Target@, o.Type@, windows).1) + target_args_rest(o, windows)),
{
    reveal_strlit("Program");
    reveal_strlit("StaticLib");
    reveal_strlit("ShareLib");
    assert("Program"@.len() != "ShareLib"@.len());
    assert("ShareLib"@[1] != "StaticLib"@[1]);
    let (base, file) = target_names_spec(o.Target@, o.Type@, windows);
    let cross = o.CROSSCOMPILE@;
    let args = "-shared -o "@ + file + object_args(o) + opt_flags(o.LDFLAGS@)
        + text_if(o.IsMap, " -Wl,-Map="@ + base + ".map"@) + opt_flags(o.LIBPATH@) + opt_flags(o.LIBS@);
    assert(args =~= (target_flag(o.Type@) + file) + target_args_rest(o, windows));
    let listing = if cross_is_dir {
        path_joined(cross, o.OBJDUMP@) + " -D -S "@ + file + " > "@ + base + ".asm"@
    } else {
        cross + o.OBJDUMP@ + " -D -S "@ + file + " > "@ + base + ".asm"@
    };
    lemma_head(LinkStep::Run(tool_spec(cross, o.LD@, cross_is_dir), args),
        step_if(o.IsAsm, LinkStep::Shell(listing)),
        step_if(o.IsStrip, LinkStep::Run(tool_spec(cross, o.STRIP@, cross_is_dir), file)),
        Seq::empty());
    assert(share_lib_steps(o, windows, cross_is_dir) =~= seq![LinkStep::Run(tool_spec(cross, o.LD@, cross_is_dir), args)]
        + step_if(o.IsAsm, LinkStep::Shell(listing))
        + step_if(o.IsStrip, LinkStep::Run(tool_spec(cross, o.STRIP@, cross_is_dir), file)) + Seq::empty());
}

/// The first command that finishes a rock that builds a target runs a tool
/// on arguments that begin with the type's flag and the target file.
proof fn lemma_first_link_step(o: OptionData, windows: bool, cross_is_dir: bool)
    requires
        builds_target(o.Type@),
    ensures
        link_steps(o, windows, cross_is_dir).len() > 0,
        link_steps(o, windows, cross_is_dir)[0] == LinkStep::Run(target_tool(o, cross_is_dir),
            (target_flag(o.Type@) + target_names_spec(o.Target@, o.Type@, windows).1) + target_args_rest(o, windows)),
{
    if o.Type@ == "Program"@ {
        lemma_first_program_step(o, windows, cross_is_dir);
    } else if o.Type@ == "StaticLib"@ {
        let file = target_names_spec(o.Target@, o.Type@, windows).1;
        let args = "r "@ + file + object_args(o) + opt_flags(o.LIBPATH@) + opt_flags(o.LIBS@);
        assert(args =~= (target_flag(o.Type@) + file) + target_args_rest(o, windows));
    } else {
        lemma_first_share_lib_step(o, windows, cross_is_dir);
    }
}

/// Cleaning a rock whose type makes a target removes the target file that
/// building it writes: the file after `-o` of a program or shared library,
/// the archive of a static library.
pub proof fn law_clean_removes_built_target(o: OptionData, windows: bool, cross_is_dir: bool)
    requires
        builds_target(o.Type@),
    ensures
        link_steps(o, windows, cross_is_dir).len() > 0,
        ({
            let file = clean_files_spec(o, windows).last();
            let flag = target_flag(o.Type@);
            match link_steps(o, windows, cross_is_dir)[0] {
                LinkStep::Run(_, args) => args.take((flag + file).len() as int) == flag + file,
                LinkStep::Shell(_) => false,
            }
        }),
{
    let file = target_names_spec(o.Target@, o.Type@, windows).1;
    assert(clean_files_spec(o, windows).last() == file);
    let flag = target_flag(o.Type@);
    lemma_first_link_step(o, windows, cross_is_dir);
    lemma_prefix(flag + file, target_args_rest(o, windows));
}

/// The command that makes a target takes every object of the rock and
/// every object it depends on, in order, right after the target file: the
/// archiver's arguments for a static library, the linker's for a program
/// or a shared library.
#[verifier::spinoff_prover]
pub proof fn law_link_takes_every_object(o: OptionData, windows: bool, cross_is_dir: bool)
    requires
        builds_target(o.Type@),
    ensures
        link_steps(o, windows, cross_is_dir).len() > 0,
        match link_steps(o, windows, cross_is_dir)[0] {
            LinkStep::Run(_, args) => exists|rest: Seq<char>| args == target_flag(o.Type@)
                + target_names_spec(o.Target@, o.Type@, windows).1
                + spaced(views(o.Object@)) + spaced(views(o.DependObject@)) + rest,
            LinkStep::Shell(_) => false,
        },
{
    let file = target_names_spec(o.Target@, o.Type@, windows).1;
    lemma_first_link_step(o, windows, cross_is_dir);
    let tail = lemma_rest_begins_with_objects(o, windows);
    let args = (target_flag(o.Type@) + file) + target_args_rest(o, windows);
    assert(args =~= target_flag(o.Type@) + file + spaced(views(o.Object@)) + spaced(views(o.DependObject@)) + tail);
    assert(link_steps(o, windows, cross_is_dir)[0] == LinkStep::Run(target_tool(o, cross_is_dir), args));
}

/// What follows the target file begins with the objects.
proof fn lemma_rest_begins_with_objects(o: OptionData, windows: bool) -> (tail: Seq<char>)
    ensures
        target_args_rest(o, windows) == spaced(views(o.Object@)) + spaced(views(o.DependObject@)) + tail,
{
    let base = target_names_spec(o.Target@, o.Type@, windows).0;
    let tail = if o.Type@ == "Program"@ {
        opt_flags(o.LDFLAGS@) + text_if(o.IsMap, " -Wl,-Map="@ + o.Target@ + ".map"@)
            + opt_flags(o.LIBPATH@) + opt_flags(o.LIBS@)
    } else if o.Type@ == "StaticLib"@ {
        opt_flags(o.LIBPATH@) + opt_flags(o.LIBS@)
    } else {
        opt_flags(o.LDFLAGS@) + text_if(o.IsMap, " -Wl,-Map="@ + base + ".map"@)
            + opt_flags(o.LIBPATH@) + opt_flags(o.LIBS@)
    };
    assert(target_args_rest(o, windows) =~= spaced(views(o.Object@)) + spaced(views(o.DependObject@)) + tail);
    tail
}

/// The listing that building a program or shared library writes is among
/// the files that cleaning it removes: the shell command of the listing
/// step sends its output (after ` > `) to the target's base name with
/// `.asm`, and the clean removes that file.  For a program whose tools sit
/// in a cross-compile directory the listing goes to the target with `.asm`,
/// so there the base name must be the whole target.
pub proof fn law_clean_removes_the_listing(o: OptionData, windows: bool, cross_is_dir: bool)
    requires
        o.IsAsm,
        o.Type@ == "Program"@ || o.Type@ == "ShareLib"@,
        o.Type@ == "Program"@ && cross_is_dir ==> target_names_spec(o.Target@, o.Type@, windows).0 == o.Target@,
    ensures
        ({
            let out = target_names_spec(o.Target@, o.Type@, windows).0 + ".asm"@;
            let steps = link_steps(o, windows, cross_is_dir);
            &&& clean_files_spec(o, windows).contains(out)
            &&& exists|k: int, command: Seq<char>| 0 <= k < steps.len()
                && steps[k] == LinkStep::Shell(command + " > "@ + out)
        }),
{
    reveal_strlit("Program");
    reveal_strlit("StaticLib");
    reveal_strlit("ShareLib");
    assert("Program"@.len() != "ShareLib"@.len());
    assert("Program"@.len() != "StaticLib"@.len());
    assert("ShareLib"@[1] != "StaticLib"@[1]);
    let (base, file) = target_names_spec(o.Target@, o.Type@, windows);
    let out = base + ".asm"@;
    let objs = object_files(views(o.ASMSource@)) + object_files(views(o.CSource@)) + object_files(views(o.CXXSource@));
    let all = clean_files_spec(o, windows);
    let at = objs.len() + if o.IsMap { 1int } else { 0int };
    assert(all[at] == out);
    let cross = o.CROSSCOMPILE@;
    let steps = link_steps(o, windows, cross_is_dir);
    if o.Type@ == "Program"@ {
        let command = if cross_is_dir {
            path_joined(cross, o.OBJDUMP@) + " -D -S "@ + base
        } else {
            cross + o.OBJDUMP@ + " -D -S "@ + file
        };
        let listing = if cross_is_dir {
            path_joined(cross, o.OBJDUMP@) + " -D -S "@ + base + " > "@ + o.Target@ + ".asm"@
        } else {
            cross + o.OBJDUMP@ + " -D -S "@ + file + " > "@ + base + ".asm"@
        };
        assert(listing =~= command + " > "@ + out);
        assert(steps[1] == LinkStep::Shell(listing));
    } else {
        let command = if cross_is_dir {
            path_joined(cross, o.OBJDUMP@) + " -D -S "@ + file
        } else {
            cross + o.OBJDUMP@ + " -D -S "@ + file
        };
        let listing = if cross_is_dir {
            path_joined(cross, o.OBJDUMP@) + " -D -S "@ + file + " > "@ + base + ".asm"@
        } else {
            cross + o.OBJDUMP@ + " -D -S "@ + file + " > "@ + base + ".asm"@
        };
        assert(listing =~= command + " > "@ + out);
        assert(steps[1] == LinkStep::Shell(listing));
    }
}

/// The map that linking a program or shared library writes is among the
/// files that cleaning it removes: the linker is asked for the map
/// `-Wl,-Map=` of the target's base name with `.map` (of the whole target,
/// for a program, so there the base name must be the whole target), and the
/// clean removes that file.
#[verifier::spinoff_prover]
pub proof fn law_clean_removes_the_map(o: OptionData, windows: bool, cross_is_dir: bool)
    requires
        o.IsMap,
        o.Type@ == "Program"@ || o.Type@ == "ShareLib"@,
        o.Type@ == "Program"@ ==> target_names_spec(o.Target@, o.Type@, windows).0 == o.Target@,
    ensures
        ({
            let out = target_names_spec(o.Target@, o.Type@, windows).0 + ".map"@;
            let steps = link_steps(o, windows, cross_is_dir);
            &&& clean_files_spec(o, windows).contains(out)
            &&& steps.len() > 0
            &&& exists|command: Seq<char>, before: Seq<char>, after: Seq<char>|
                steps[0] == LinkStep::Run(command, before + " -Wl,-Map="@ + out + after)
        }),
{
    lemma_clean_has_map(o, windows);
    lemma_link_asks_for_map(o, windows, cross_is_dir);
}

/// Cleaning a rock that asks for a map removes the base name with `.map`.
proof fn lemma_clean_has_map(o: OptionData, windows: bool)
    requires
        o.IsMap,
    ensures
        clean_files_spec(o, windows).contains(target_names_spec(o.Target@, o.Type@, windows).0 + ".map"@),
{
    let base = target_names_spec(o.Target@, o.Type@, windows).0;
    let objs = object_files(views(o.ASMSource@)) + object_files(views(o.CSource@)) + object_files(views(o.CXXSource@));
    assert(clean_files_spec(o, windows)[objs.len() as int] == base + ".map"@);
}

/// The linker of a program or shared library that asks for a map is given
/// the map option.
proof fn lemma_link_asks_for_map(o: OptionData, windows: bool, cross_is_dir: bool)
    requires
        o.IsMap,
        o.Type@ == "Program"@ || o.Type@ == "ShareLib"@,
        o.Type@ == "Program"@ ==> target_names_spec(o.Target@, o.Type@, windows).0 == o.Target@,
    ensures
        link_steps(o, windows, cross_is_dir).len() > 0,
        exists|command: Seq<char>, before: Seq<char>, after: Seq<char>|
            link_steps(o, windows, cross_is_dir)[0] == LinkStep::Run(command,
                before + " -Wl,-Map="@ + (target_names_spec(o.Target@, o.Type@, windows).0 + ".map"@) + after),
{
    let (base, file) = target_names_spec(o.Target@, o.Type@, windows);
    let out = base + ".map"@;
    lemma_first_link_step(o, windows, cross_is_dir);
    let (b, after) = lemma_rest_holds_map(o, windows);
    let before = (target_flag(o.Type@) + file) + b;
    let args = (target_flag(o.Type@) + file) + target_args_rest(o, windows);
    assert(args =~= before + " -Wl,-Map="@ + out + after);
    assert(link_steps(o, windows, cross_is_dir)[0] == LinkStep::Run(target_tool(o, cross_is_dir), before + " -Wl,-Map="@ + out + after));
}

/// What follows the target file holds the map option of a program or
/// shared library that asks for a map.
proof fn lemma_rest_holds_map(o: OptionData, windows: bool) -> (r: (Seq<char>, Seq<char>))
    requires
        o.IsMap,
        o.Type@ == "Program"@ || o.Type@ == "ShareLib"@,
        o.Type@ == "Program"@ ==> target_names_spec(o.Target@, o.Type@, windows).0 == o.Target@,
    ensures
        target_args_rest(o, windows) == r.0 + " -Wl,-Map="@ + (target_names_spec(o.Target@, o.Type@, windows).0 + ".map"@) + r.1,
{
    reveal_strlit("Program");
    reveal_strlit("StaticLib");
    assert("Program"@.len() != "StaticLib"@.len());
    if o.Type@ == "ShareLib"@ {
        reveal_strlit("ShareLib");
        assert("ShareLib"@[1] != "StaticLib"@[1]);
    }
    let base = target_names_spec(o.Target@, o.Type@, windows).0;
    let before = object_args(o) + opt_flags(o.LDFLAGS@);
    let after = opt_flags(o.LIBPATH@) + opt_flags(o.LIBS@);
    assert(target_args_rest(o, windows) =~= before + " -Wl,-Map="@ + (base + ".map"@) + after);
    (before, after)
}

/// The raw binary that building a program writes is among the files that
/// cleaning it removes: the converter's last argument is the target's base
/// name with `.bin`, and the clean removes that file.
#[verifier::spinoff_prover]
pub proof fn law_clean_removes_the_binary(o: OptionData, windows: bool, cross_is_dir: bool)
    requires
        o.IsBinary,
        o.Type@ == "Program"@,
    ensures
        ({
            let out = target_names_spec(o.Target@, o.Type@, windows).0 + ".bin"@;
            let steps = link_steps(o, windows, cross_is_dir);
            &&& clean_files_spec(o, windows).contains(out)
            &&& exists|k: int, command: Seq<char>, before: Seq<char>| 0 <= k < steps.len()
                && steps[k] == LinkStep::Run(command, before + " "@ + out)
        }),
{
    let (base, file) = target_names_spec(o.Target@, o.Type@, windows);
    let out = base + ".bin"@;
    let objs = object_files(views(o.ASMSource@)) + object_files(views(o.CSource@)) + object_files(views(o.CXXSource@));
    let at = objs.len() + (if o.IsMap { 1int } else { 0int }) + (if o.IsAsm { 1int } else { 0int });
    assert(clean_files_spec(o, windows)[at] == out);
    let cross = o.CROSSCOMPILE@;
    let steps = link_steps(o, windows, cross_is_dir);
    let k = 1 + (if o.IsAsm { 1int } else { 0int }) + (if o.IsStrip { 1int } else { 0int });
    let command = tool_spec(cross, o.OBJCOPY@, cross_is_dir);
    let before = "-O binary "@ + file;
    assert(steps[k] == LinkStep::Run(command, "-O binary "@ + file + " "@ + base + ".bin"@));
    assert("-O binary "@ + file + " "@ + base + ".bin"@ =~= before + " "@ + out);
}

/// A walk over a project's rock files for a clean or a build: the rock
/// files in the order they are handled, dependencies first, how many are
/// done, and whether the next one is prepared.
pub struct RockRun {
    pub order: Vec<String>,
    pub next: usize,
    pub prepared: bool,
}

impl RockRun {
    /// Every rock file to clean was read, and no more are done than there are.
    pub open spec fn wf(&self, rocks: Map<Seq<char>, JsonValue>) -> bool {
        &&& self.next <= self.order@.len()
        &&& forall|i: int| 0 <= i < self.order@.len() ==> rocks.contains_key(#[trigger] self.order@[i]@)
    }

    /// The walk over the project whose root rock file is `root`; `None`
    /// exactly when a chain of dependencies that starts at the root is longer
    /// than the number of rock files, which takes a dependency cycle.
    pub fn new(rocks: &RockMap, root: &str) -> (r: Option<RockRun>)
        ensures
            r is None <==> chain_deeper_than(rocks@, root@, rocks.entries@.len() as nat),
            acyclic(rocks@) ==> r is Some,
            match r {
                Some(run) => {
                    &&& post_order(rocks@, root@, rocks.entries@.len() as nat) == Some(views(run.order@))
                    &&& run.next == 0
                    &&& !run.prepared
                    &&& run.wf(rocks@)
                },
                None => post_order(rocks@, root@, rocks.entries@.len() as nat) is None,
            },
    {
        match clean_order(rocks, root) {
            Some(order) => {
                proof {
                    lemma_post_order_read(rocks@, root@, rocks.entries@.len() as nat);
                    let s = views(order@);
                    assert(post_order(rocks@, root@, rocks.entries@.len() as nat)->0 == s);
                    assert forall|i: int| 0 <= i < order@.len() implies rocks@.contains_key(#[trigger] order@[i]@) by {
                        assert(views(order@)[i] == order@[i]@);
                        assert(rocks@.contains_key(views(order@)[i]));
                    }
                }
                Some(RockRun { order, next: 0, prepared: false })
            },
            None => None,
        }
    }
}

/// What to do next in a clean.
pub enum CleanStep {
    /// Change to the directory of `rock`, run `start_commands` there, then
    /// resolve each of `settings` and ask for the next step with the paths
    /// found.
    Prepare { rock: String, start_commands: Vec<String>, settings: Vec<String> },
    /// Report `rock` and its options, remove each of `files` (a file that
    /// cannot be removed is passed over), then run `stop_commands`.
    Remove { rock: String, option: OptionData, files: Vec<String>, stop_commands: Vec<String> },
    /// `rock` does not name its `Type`; the clean cannot go on.
    MissingType { rock: String },
    /// Every rock file is clean; the result of the clean.
    Finished(String),
}

/// One step of cleaning a project: each rock
/// file, dependencies first, has its start commands run, its object files
/// and target files removed and its stop commands run.  `env` is the
/// environment that the clean started with, `table` holds the paths found
/// for the settings that the last `Prepare` asked for.
pub fn clean(run: &mut RockRun, rocks: &RockMap, env: &Env, table: &PathTable, windows: bool) -> (r: CleanStep)
    requires
        old(run).wf(rocks@),
    ensures
        final(run).wf(rocks@),
        final(run).order == old(run).order,
        old(run).next == old(run).order@.len() ==> {
            &&& r matches CleanStep::Finished(s) && s@ == "Ok"@
            &&& final(run).next == old(run).next
            &&& final(run).prepared == old(run).prepared
        },
        old(run).next < old(run).order@.len() ==> {
            let name = old(run).order@[old(run).next as int]@;
            let j = rocks@[name];
            &&& !old(run).prepared ==> {
                &&& r matches CleanStep::Prepare { rock, start_commands, settings }
                &&& rock@ == name
                &&& views(start_commands@) == json_strings(j, "CmdStart"@)
                &&& views(settings@) == if has_type_spec(j) { option_path_settings_spec(j, env@) } else { Seq::empty() }
                &&& final(run).next == old(run).next
                &&& final(run).prepared
            }
            &&& old(run).prepared && !has_type_spec(j) ==> {
                &&& r matches CleanStep::MissingType { rock }
                &&& rock@ == name
                &&& final(run).next == old(run).next
                &&& final(run).prepared
            }
            &&& old(run).prepared && has_type_spec(j) ==> {
                &&& r matches CleanStep::Remove { rock, option, files, stop_commands }
                &&& rock@ == name
                &&& expanded_option(option, j, env@, table.entries@)
                &&& views(files@) == clean_files_spec(option, windows)
                &&& has_no_quote(option.Target@) ==> target_names_spec(option.Target@, option.Type@, windows).0 == option.Target@
                &&& forall|k: int, i: int| 0 <= k < all_sources(option).len() && 0 <= i < all_sources(option).len()
                    && path_extension(all_sources(option)[i]) is Some && path_extension(all_sources(option)[i]) != Some("o"@)
                    ==> #[trigger] files@[k]@ != #[trigger] all_sources(option)[i]
                &&& views(stop_commands@) == json_strings(j, "CmdStop"@)
                &&& final(run).next == old(run).next + 1
                &&& !final(run).prepared
            }
        },
{
    if run.next >= run.order.len() {
        return CleanStep::Finished("Ok".to_owned());
    }
    let name = run.order[run.next].clone();
    assert(rocks@.contains_key(run.order@[run.next as int]@));
    let j = match rocks.get(name.as_str()) {
        Some(j) => j,
        None => {
            return CleanStep::Finished("Ok".to_owned());
        },
    };
    if !run.prepared {
        run.prepared = true;
        let settings = if has_type(j) {
            option_path_settings(j, env)
        } else {
            let none: Vec<String> = Vec::new();
            assert(views(none@) =~= Seq::<Seq<char>>::empty());
            none
        };
        return CleanStep::Prepare { rock: name, start_commands: field_strings(j, "CmdStart"), settings };
    }
    if !has_type(j) {
        return CleanStep::MissingType { rock: name };
    }
    let option = expandOption(j, env, table);
    let files = clean_files(&option, windows);
    let stop_commands = field_strings(j, "CmdStop");
    run.next = run.next + 1;
    run.prepared = false;
    CleanStep::Remove { rock: name, option, files, stop_commands }
}

} // verus!
