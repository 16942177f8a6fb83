//! What building a rock runs: one compiler invocation per source, then the
//! commands that link, archive, list, strip or convert the target.
use vstd::prelude::*;
use crate::clean::{builds_target, object_of, RockRun};
use crate::env::Env;
use crate::json::{views, field_strings};
use crate::options::{OptionData, expandOption, expanded_option, has_type, has_type_spec, json_strings,
    option_path_settings, option_path_settings_spec};
use crate::resolve::PathTable;
use crate::rocks::RockMap;
use crate::paths::{has_no_quote, path_with_extension, with_extension, target_names, target_names_spec};
use crate::text::{push_char, push_str, str_eq};

verus! {

/// A path with one more component under std's path rules
/// (`PathBuf::push`).
pub uninterp spec fn path_joined(base: Seq<char>, part: Seq<char>) -> Seq<char>;

/// `std::path::PathBuf::push`: `base` with `part` appended as a further
/// component (or replacing it, when `part` is absolute).  The contract
/// names the result and states nothing more of it.
#[verifier::external_body]
fn join_path(base: &str, part: &str) -> (r: String)
    ensures
        r@ == path_joined(base@, part@),
{
    let mut p = std::path::PathBuf::from(base);
    p.push(part);
    p.to_string_lossy().into_owned()
}

/// The program that runs a tool: the tool inside the cross-compile
/// directory when `CROSSCOMPILE` names a directory, else the tool's name
/// after the cross-compile prefix.
pub open spec fn tool_spec(cross: Seq<char>, tool: Seq<char>, cross_is_dir: bool) -> Seq<char> {
    if cross_is_dir { path_joined(cross, tool) } else { cross + tool }
}

/// The program that runs a tool.
pub fn tool_command(cross: &String, tool: &String, cross_is_dir: bool) -> (r: String)
    ensures
        r@ == tool_spec(cross@, tool@, cross_is_dir),
{
    if cross_is_dir {
        join_path(cross.as_str(), tool.as_str())
    } else {
        let mut r = cross.clone();
        push_str(&mut r, tool.as_str());
        r
    }
}

/// ` flags` when the flags are not empty, else nothing.
pub open spec fn opt_flags(flags: Seq<char>) -> Seq<char> {
    if flags.len() > 0 { seq![' '] + flags } else { Seq::empty() }
}

/// Appends ` flags` when the flags are not empty.
fn push_flags(args: &mut String, flags: &String)
    ensures
        final(args)@ == old(args)@ + opt_flags(flags@),
{
    if !flags.as_str().is_empty() {
        push_char(args, ' ');
        push_str(args, flags.as_str());
        assert(final(args)@ =~= old(args)@ + opt_flags(flags@));
    } else {
        assert(final(args)@ =~= old(args)@ + opt_flags(flags@));
    }
}

/// The kind of a source: assembler, C or C++.
pub enum SourceKind {
    Asm,
    C,
    Cxx,
}

/// A compiler invocation for one source.
pub struct ObjectJob {
    pub source: String,
    pub object: String,
    pub command: String,
    pub args: String,
}

/// The arguments that compile `source` into `object`: `-c`, `-fPIC` for a
/// shared library, the source, `-o` and the object, then the flags of the
/// source's kind, the defines, (for C) the library paths, and the include
/// paths, each when not empty.
pub open spec fn compile_args_spec(o: OptionData, kind: SourceKind, source: Seq<char>, object: Seq<char>) -> Seq<char> {
    let pic = if o.Type@ == "ShareLib"@ { " -fPIC"@ } else { Seq::empty() };
    let head = "-c"@ + pic + seq![' '] + source + " -o "@ + object;
    match kind {
        SourceKind::Asm => head + opt_flags(o.AFLAGS@) + opt_flags(o.DEFS@) + opt_flags(o.INCLUDES@),
        SourceKind::C => head + opt_flags(o.CFLAGS@) + opt_flags(o.DEFS@) + opt_flags(o.LIBPATH@) + opt_flags(o.INCLUDES@),
        SourceKind::Cxx => head + opt_flags(o.CXXFLAGS@) + opt_flags(o.DEFS@) + opt_flags(o.INCLUDES@),
    }
}

/// Whether `part` occurs in `s` after a space.
pub open spec fn has_spaced(s: Seq<char>, part: Seq<char>) -> bool {
    exists|before: Seq<char>, after: Seq<char>| s == before + seq![' '] + part + after
}

/// The flags of a kind of source: `AFLAGS` for assembler, `CFLAGS` for C,
/// `CXXFLAGS` for C++.
pub open spec fn kind_flags(o: OptionData, kind: SourceKind) -> Seq<char> {
    match kind {
        SourceKind::Asm => o.AFLAGS@,
        SourceKind::C => o.CFLAGS@,
        SourceKind::Cxx => o.CXXFLAGS@,
    }
}

/// How compile arguments begin: `-c`, and `-fPIC` for a shared library.
pub open spec fn compile_start(typ: Seq<char>) -> Seq<char> {
    if typ == "ShareLib"@ { "-c -fPIC "@ } else { "-c "@ }
}

/// A compiler invocation compiles (`-c`) the source into the object file
/// (`-o`), position-independent (`-fPIC`) for a shared library, and is
/// handed the flags of the source's kind, the defines and the include
/// paths, and for a C source the library paths, each one that is set.
pub proof fn law_compile_args_carry_the_settings(o: OptionData, kind: SourceKind, source: Seq<char>, object: Seq<char>)
    ensures
        ({
            let a = compile_args_spec(o, kind, source, object);
            &&& exists|after: Seq<char>| a == compile_start(o.Type@) + source + " -o "@ + object + after
            &&& kind_flags(o, kind).len() > 0 ==> has_spaced(a, kind_flags(o, kind))
            &&& o.DEFS@.len() > 0 ==> has_spaced(a, o.DEFS@)
            &&& o.INCLUDES@.len() > 0 ==> has_spaced(a, o.INCLUDES@)
            &&& (kind is C && o.LIBPATH@.len() > 0) ==> has_spaced(a, o.LIBPATH@)
        }),
{
    lemma_compile_head(o, kind, source, object);
    lemma_compile_has_kind_flags(o, kind, source, object);
    lemma_compile_has_defs(o, kind, source, object);
    lemma_compile_has_includes(o, kind, source, object);
    lemma_compile_has_lib_paths(o, kind, source, object);
}

#[verifier::spinoff_prover]
proof fn lemma_compile_has_kind_flags(o: OptionData, kind: SourceKind, source: Seq<char>, object: Seq<char>)
    ensures
        kind_flags(o, kind).len() > 0 ==> has_spaced(compile_args_spec(o, kind, source, object), kind_flags(o, kind)),
{
    let (head, _) = lemma_compile_parts(o, kind, source, object);
    let a = compile_args_spec(o, kind, source, object);
    let f = kind_flags(o, kind);
    let t = compile_tail(o, kind);
    if f.len() > 0 {
        assert(a =~= head + seq![' '] + f + t);
    }
}

#[verifier::spinoff_prover]
proof fn lemma_compile_has_defs(o: OptionData, kind: SourceKind, source: Seq<char>, object: Seq<char>)
    ensures
        o.DEFS@.len() > 0 ==> has_spaced(compile_args_spec(o, kind, source, object), o.DEFS@),
{
    let (head, _) = lemma_compile_parts(o, kind, source, object);
    let a = compile_args_spec(o, kind, source, object);
    let f = opt_flags(kind_flags(o, kind));
    if o.DEFS@.len() > 0 {
        if kind is C {
            assert(a =~= (head + f) + seq![' '] + o.DEFS@ + (opt_flags(o.LIBPATH@) + opt_flags(o.INCLUDES@)));
        } else {
            assert(a =~= (head + f) + seq![' '] + o.DEFS@ + opt_flags(o.INCLUDES@));
        }
    }
}

#[verifier::spinoff_prover]
proof fn lemma_compile_has_includes(o: OptionData, kind: SourceKind, source: Seq<char>, object: Seq<char>)
    ensures
        o.INCLUDES@.len() > 0 ==> has_spaced(compile_args_spec(o, kind, source, object), o.INCLUDES@),
{
    let (head, _) = lemma_compile_parts(o, kind, source, object);
    let a = compile_args_spec(o, kind, source, object);
    let f = opt_flags(kind_flags(o, kind));
    if o.INCLUDES@.len() > 0 {
        if kind is C {
            assert(a =~= (head + f + opt_flags(o.DEFS@) + opt_flags(o.LIBPATH@)) + seq![' '] + o.INCLUDES@ + Seq::<char>::empty());
        } else {
            assert(a =~= (head + f + opt_flags(o.DEFS@)) + seq![' '] + o.INCLUDES@ + Seq::<char>::empty());
        }
    }
}

#[verifier::spinoff_prover]
proof fn lemma_compile_has_lib_paths(o: OptionData, kind: SourceKind, source: Seq<char>, object: Seq<char>)
    ensures
        kind is C && o.LIBPATH@.len() > 0 ==> has_spaced(compile_args_spec(o, kind, source, object), o.LIBPATH@),
{
    let (head, _) = lemma_compile_parts(o, kind, source, object);
    let a = compile_args_spec(o, kind, source, object);
    let f = opt_flags(kind_flags(o, kind));
    if kind is C && o.LIBPATH@.len() > 0 {
        assert(a =~= (head + f + opt_flags(o.DEFS@)) + seq![' '] + o.LIBPATH@ + opt_flags(o.INCLUDES@));
    }
}

/// What follows a kind's own flags in the compile arguments.
spec fn compile_tail(o: OptionData, kind: SourceKind) -> Seq<char> {
    match kind {
        SourceKind::C => opt_flags(o.DEFS@) + opt_flags(o.LIBPATH@) + opt_flags(o.INCLUDES@),
        _ => opt_flags(o.DEFS@) + opt_flags(o.INCLUDES@),
    }
}

/// The compile arguments are the head (`-c`, `-fPIC`, source, `-o`,
/// object) and then the flags.
proof fn lemma_compile_parts(o: OptionData, kind: SourceKind, source: Seq<char>, object: Seq<char>) -> (r: (Seq<char>, Seq<char>))
    ensures
        r.0 == "-c"@ + (if o.Type@ == "ShareLib"@ { " -fPIC"@ } else { Seq::<char>::empty() }) + seq![' '] + source + " -o "@ + object,
        compile_args_spec(o, kind, source, object) == r.0 + opt_flags(kind_flags(o, kind)) + compile_tail(o, kind),
        r.1 == Seq::<char>::empty(),
{
    let pic = if o.Type@ == "ShareLib"@ { " -fPIC"@ } else { Seq::<char>::empty() };
    let head = "-c"@ + pic + seq![' '] + source + " -o "@ + object;
    let a = compile_args_spec(o, kind, source, object);
    match kind {
        SourceKind::C => {
            assert(a =~= head + opt_flags(kind_flags(o, kind)) + (opt_flags(o.DEFS@) + opt_flags(o.LIBPATH@) + opt_flags(o.INCLUDES@)));
        },
        _ => {
            assert(a =~= head + opt_flags(kind_flags(o, kind)) + (opt_flags(o.DEFS@) + opt_flags(o.INCLUDES@)));
        },
    }
    (head, Seq::empty())
}

/// The compile arguments begin with `-c`, `-fPIC` for a shared library,
/// the source, `-o` and the object.
proof fn lemma_compile_head(o: OptionData, kind: SourceKind, source: Seq<char>, object: Seq<char>)
    ensures
        exists|after: Seq<char>| compile_args_spec(o, kind, source, object) == compile_start(o.Type@) + source + " -o "@ + object + after,
{
    reveal_strlit("-c");
    reveal_strlit(" -fPIC");
    reveal_strlit("-c -fPIC ");
    reveal_strlit("-c ");
    let (head, _) = lemma_compile_parts(o, kind, source, object);
    let start = compile_start(o.Type@);
    let pic = if o.Type@ == "ShareLib"@ { " -fPIC"@ } else { Seq::<char>::empty() };
    assert("-c"@ + pic + seq![' '] =~= start);
    let after = opt_flags(kind_flags(o, kind)) + compile_tail(o, kind);
    assert(compile_args_spec(o, kind, source, object) =~= start + source + " -o "@ + object + after);
}

/// The tool that compiles a kind of source.
pub open spec fn kind_tool(o: OptionData, kind: SourceKind) -> Seq<char> {
    match kind {
        SourceKind::Asm => o.AS@,
        SourceKind::C => o.CC@,
        SourceKind::Cxx => o.CXX@,
    }
}

/// The job for one source.
pub open spec fn job_matches(job: ObjectJob, o: OptionData, kind: SourceKind, source: Seq<char>, cross_is_dir: bool) -> bool {
    &&& job.source@ == source
    &&& job.object@ == path_with_extension(source, "o"@)
    &&& job.command@ == tool_spec(o.CROSSCOMPILE@, kind_tool(o, kind), cross_is_dir)
    &&& job.args@ == compile_args_spec(o, kind, source, path_with_extension(source, "o"@))
}

/// The compile arguments for one source.
fn compile_args(o: &OptionData, kind: &SourceKind, source: &String, object: &String) -> (r: String)
    ensures
        r@ == compile_args_spec(*o, *kind, source@, object@),
{
    let mut args = "-c".to_owned();
    if str_eq(o.Type.as_str(), "ShareLib") {
        push_str(&mut args, " -fPIC");
    }
    push_char(&mut args, ' ');
    push_str(&mut args, source.as_str());
    push_str(&mut args, " -o ");
    push_str(&mut args, object.as_str());
    let ghost head = args@;
    proof {
        let pic = if o.Type@ == "ShareLib"@ { " -fPIC"@ } else { Seq::<char>::empty() };
        assert(head =~= "-c"@ + pic + seq![' '] + source@ + " -o "@ + object@);
    }
    match kind {
        SourceKind::Asm => {
            push_flags(&mut args, &o.AFLAGS);
            push_flags(&mut args, &o.DEFS);
            push_flags(&mut args, &o.INCLUDES);
        },
        SourceKind::C => {
            push_flags(&mut args, &o.CFLAGS);
            push_flags(&mut args, &o.DEFS);
            push_flags(&mut args, &o.LIBPATH);
            push_flags(&mut args, &o.INCLUDES);
        },
        SourceKind::Cxx => {
            push_flags(&mut args, &o.CXXFLAGS);
            push_flags(&mut args, &o.DEFS);
            push_flags(&mut args, &o.INCLUDES);
        },
    }
    args
}

/// The next source still to compile, with its kind: the last assembler
/// source, else the last C source, else the last C++ source.
pub open spec fn next_source(o: OptionData) -> Option<(SourceKind, Seq<char>)> {
    if o.ASMSource@.len() > 0 {
        Some((SourceKind::Asm, o.ASMSource@.last()@))
    } else if o.CSource@.len() > 0 {
        Some((SourceKind::C, o.CSource@.last()@))
    } else if o.CXXSource@.len() > 0 {
        Some((SourceKind::Cxx, o.CXXSource@.last()@))
    } else {
        None
    }
}

/// `a` and `b` agree on everything but the source and object lists.
pub open spec fn same_settings(a: OptionData, b: OptionData) -> bool {
    &&& a.Target == b.Target && a.Version == b.Version && a.Type == b.Type && a.DependRock == b.DependRock
    &&& a.DependObject == b.DependObject && a.CmdStart == b.CmdStart && a.CmdStop == b.CmdStop
    &&& a.Rebuild == b.Rebuild && a.IsMap == b.IsMap && a.IsAsm == b.IsAsm && a.IsBinary == b.IsBinary
    &&& a.IsStrip == b.IsStrip && a.IsSilent == b.IsSilent && a.Jobs == b.Jobs
    &&& a.CROSSCOMPILE == b.CROSSCOMPILE && a.AS == b.AS && a.CC == b.CC && a.CXX == b.CXX && a.LD == b.LD
    &&& a.AR == b.AR && a.STRIP == b.STRIP && a.OBJCOPY == b.OBJCOPY && a.OBJDUMP == b.OBJDUMP
    &&& a.AFLAGS == b.AFLAGS && a.CFLAGS == b.CFLAGS && a.CXXFLAGS == b.CXXFLAGS && a.LDFLAGS == b.LDFLAGS
    &&& a.DEFS == b.DEFS && a.LIBS == b.LIBS && a.LIBPATH == b.LIBPATH && a.INCLUDES == b.INCLUDES
}

/// `job` compiles the next source of `before`, and `after` is `before` with
/// that source taken off its list and its object file added to the objects.
pub open spec fn took_next_job(before: OptionData, after: OptionData, job: ObjectJob, cross_is_dir: bool) -> bool {
    match next_source(before) {
        Some((kind, source)) => {
            &&& job_matches(job, before, kind, source, cross_is_dir)
            &&& same_settings(after, before)
            &&& after.ASMSource@ == if kind is Asm { before.ASMSource@.drop_last() } else { before.ASMSource@ }
            &&& after.CSource@ == if kind is C { before.CSource@.drop_last() } else { before.CSource@ }
            &&& after.CXXSource@ == if kind is Cxx { before.CXXSource@.drop_last() } else { before.CXXSource@ }
            &&& views(after.Object@) == views(before.Object@).push(path_with_extension(source, "o"@))
        },
        None => false,
    }
}

/// How many sources are still to compile.
pub open spec fn sources_left(o: OptionData) -> nat {
    o.ASMSource@.len() + o.CSource@.len() + o.CXXSource@.len()
}

/// Each job takes one source off the lists and adds its object file last
/// to the objects: the sources left and the object files made add up to
/// the same count before and after, and fewer sources are left.
pub proof fn law_job_moves_one_source(before: OptionData, after: OptionData, job: ObjectJob, cross_is_dir: bool)
    requires
        took_next_job(before, after, job, cross_is_dir),
    ensures
        sources_left(after) + after.Object@.len() == sources_left(before) + before.Object@.len(),
        sources_left(after) < sources_left(before),
        after.Object@.len() > 0 && after.Object@.last()@ == job.object@,
        job.object@ == path_with_extension(job.source@, "o"@),
{
    assert(views(after.Object@).len() == after.Object@.len());
    assert(views(after.Object@).last() == after.Object@.last()@);
}

/// Each source is compiled by the tool of its kind: an assembler source by
/// `AS`, a C source by `CC`, a C++ source by `CXX`, each found inside the
/// cross-compile directory or named after the cross-compile prefix.  The
/// job compiles the last source of the first list that is not empty, in
/// the order assembler, C, C++.
pub proof fn law_job_runs_the_tool_of_its_source(before: OptionData, after: OptionData, job: ObjectJob, cross_is_dir: bool)
    requires
        took_next_job(before, after, job, cross_is_dir),
    ensures
        ({
            let cross = before.CROSSCOMPILE@;
            let tool = if before.ASMSource@.len() > 0 {
                before.AS@
            } else if before.CSource@.len() > 0 {
                before.CC@
            } else {
                before.CXX@
            };
            let source = if before.ASMSource@.len() > 0 {
                before.ASMSource@.last()@
            } else if before.CSource@.len() > 0 {
                before.CSource@.last()@
            } else {
                before.CXXSource@.last()@
            };
            &&& job.command@ == if cross_is_dir { path_joined(cross, tool) } else { cross + tool }
            &&& job.source@ == source
        }),
{
}

/// The job for the next source still to compile (see `next_source`).  The
/// source is taken off its list and its object file added to the objects.
/// Nothing when no source is left.
pub fn next_object_job(o: &mut OptionData, cross_is_dir: bool) -> (r: Option<ObjectJob>)
    ensures
        next_source(*old(o)) is Some ==> (r matches Some(job) && took_next_job(*old(o), *final(o), job, cross_is_dir)),
        next_source(*old(o)) is None ==> r is None && *final(o) == *old(o),
        r matches Some(job) ==> object_of(job.source@, job.object@),
{
    let (source, kind) = if o.ASMSource.len() > 0 {
        (o.ASMSource.pop().unwrap(), SourceKind::Asm)
    } else if o.CSource.len() > 0 {
        (o.CSource.pop().unwrap(), SourceKind::C)
    } else if o.CXXSource.len() > 0 {
        (o.CXXSource.pop().unwrap(), SourceKind::Cxx)
    } else {
        return None;
    };
    proof { reveal_strlit("o"); }
    let object = with_extension(source.as_str(), "o");
    let tool = match kind {
        SourceKind::Asm => &o.AS,
        SourceKind::C => &o.CC,
        SourceKind::Cxx => &o.CXX,
    };
    let command = tool_command(&o.CROSSCOMPILE, tool, cross_is_dir);
    let args = compile_args(o, &kind, &source, &object);
    let ghost objects = o.Object@;
    o.Object.push(object.clone());
    assert(views(o.Object@) =~= views(objects).push(object@));
    Some(ObjectJob { source, object, command, args })
}

/// Whether a compile job runs: always on a rebuild, when its object file is
/// missing, and when the object file is no newer than its source
/// (`object_not_newer`, asked only of an object file that exists).
pub fn must_compile(rebuild: bool, object_exists: bool, object_not_newer: bool) -> (r: bool)
    ensures
        r == (rebuild || !object_exists || object_not_newer),
{
    rebuild || !object_exists || object_not_newer
}

/// What happened to the last action of an object build.
pub enum ObjectEvent {
    /// Nothing has been asked yet.
    Begin,
    /// The compile job's process was started; it is tracked last.
    Started,
    /// The job's object file was newer than its source; nothing was started.
    UpToDate,
    /// The process checked is still running; it is tracked last again.
    Running,
    /// The process checked has exited, successfully or not; it is no longer
    /// tracked.
    Exited(bool),
    /// The process checked could not be queried; it is no longer tracked.
    Unknown,
}

/// What to do next in an object build.
pub enum ObjectAction {
    /// Start the compiler for this job unless its object file is newer than
    /// its source.
    Compile(ObjectJob),
    /// Take the last tracked process off the list and check whether it has
    /// exited; keep tracking it if it has not.
    Poll,
    /// Every object file is built.
    Done,
    /// A compiler exited with failure.
    Failed,
}

/// What the last action asked for.
#[derive(PartialEq, Eq, Structural)]
pub enum Asked {
    Nothing,
    Compile,
    Poll,
}

/// An object build in progress: how many compilers are tracked, whether
/// they are being checked and how many checks are left in this round, and
/// what the last action asked for.
pub struct ObjectBuild {
    pub running: u64,
    pub polling: bool,
    pub polls_left: u64,
    pub asked: Asked,
}

impl ObjectBuild {
    /// A build with nothing started.
    pub fn new() -> (r: ObjectBuild)
        ensures
            r.running == 0,
            !r.polling,
            r.asked == Asked::Nothing,
    {
        ObjectBuild { running: 0, polling: false, polls_left: 0, asked: Asked::Nothing }
    }

    /// No more compilers are tracked than `jobs` allows; a compile was
    /// asked for only below that number, and a check only of a tracked
    /// compiler within a round.
    pub open spec fn wf(&self, jobs: u64) -> bool {
        &&& self.running <= jobs
        &&& self.asked == Asked::Compile ==> self.running < jobs
        &&& self.asked == Asked::Poll ==> self.running > 0 && self.polls_left > 0 && self.polling
    }

    /// The compilers tracked once the event of the last action is taken in.
    pub open spec fn tracked_after(&self, event: ObjectEvent) -> u64 {
        match self.asked {
            Asked::Compile => if event is Started { (self.running + 1) as u64 } else { self.running },
            Asked::Poll => if event is Exited || event is Unknown { (self.running - 1) as u64 } else { self.running },
            Asked::Nothing => self.running,
        }
    }

    /// The checks left in this round once the event is taken in.
    pub open spec fn polls_after(&self) -> u64 {
        if self.asked == Asked::Poll { (self.polls_left - 1) as u64 } else { self.polls_left }
    }

    /// Whether the event reports a failed compiler.
    pub open spec fn failed_by(&self, event: ObjectEvent) -> bool {
        self.asked == Asked::Poll && event == ObjectEvent::Exited(false)
    }
}

/// One step of building the object files of a rock: while fewer compilers
/// run than `Jobs` allows, the next source is compiled; when no source is
/// left or `Jobs` compilers run, up to `Jobs` checks are made of the last
/// tracked compiler; the build fails as soon as a compiler fails and is
/// done when no source is left and no compiler runs.
pub fn build_objects(st: &mut ObjectBuild, o: &mut OptionData, cross_is_dir: bool, event: ObjectEvent) -> (r: ObjectAction)
    requires
        old(st).wf(old(o).Jobs),
    ensures
        final(st).wf(final(o).Jobs),
        final(o).Jobs == old(o).Jobs,
        old(st).failed_by(event) ==> r is Failed && *final(o) == *old(o),
        !old(st).failed_by(event) ==> ({
            let running = old(st).tracked_after(event);
            let checking = old(st).polling && old(st).polls_after() > 0 && running > 0;
            let sources_left = next_source(*old(o)) is Some;
            &&& final(st).running == running
            &&& checking ==> r is Poll && final(st).polls_left == old(st).polls_after() && *final(o) == *old(o)
                && final(st).asked == Asked::Poll && final(st).polling
            &&& !checking && running < old(o).Jobs && sources_left ==> (r matches ObjectAction::Compile(job)
                && took_next_job(*old(o), *final(o), job, cross_is_dir) && final(st).asked == Asked::Compile)
            &&& !checking && !(running < old(o).Jobs && sources_left) && running == 0 ==> r is Done && *final(o) == *old(o)
                && final(st).asked == Asked::Nothing
            &&& !checking && !(running < old(o).Jobs && sources_left) && running > 0 ==> r is Poll
                && final(st).polls_left == old(o).Jobs && *final(o) == *old(o)
                && final(st).asked == Asked::Poll && final(st).polling
        }),
{
    let jobs = o.Jobs;
    match st.asked {
        Asked::Compile => {
            if let ObjectEvent::Started = event {
                st.running = st.running + 1;
            }
        },
        Asked::Poll => {
            match event {
                ObjectEvent::Exited(ok) => {
                    if !ok {
                        st.asked = Asked::Nothing;
                        st.polling = false;
                        return ObjectAction::Failed;
                    }
                    st.running = st.running - 1;
                },
                ObjectEvent::Unknown => {
                    st.running = st.running - 1;
                },
                _ => {},
            }
            st.polls_left = st.polls_left - 1;
        },
        Asked::Nothing => {},
    }
    if st.polling {
        if st.polls_left > 0 && st.running > 0 {
            st.asked = Asked::Poll;
            return ObjectAction::Poll;
        }
        st.polling = false;
    }
    if st.running < jobs {
        match next_object_job(o, cross_is_dir) {
            Some(job) => {
                st.asked = Asked::Compile;
                return ObjectAction::Compile(job);
            },
            None => {},
        }
    }
    if st.running == 0 {
        st.asked = Asked::Nothing;
        return ObjectAction::Done;
    }
    st.polling = true;
    st.polls_left = jobs;
    st.asked = Asked::Poll;
    ObjectAction::Poll
}

/// A command that finishes a target.
pub enum LinkCommand {
    /// Run a program with arguments separated by spaces.
    Run { command: String, args: String },
    /// Run a command line through the shell.
    Shell(String),
}

/// What a `LinkCommand` stands for.
pub enum LinkStep {
    Run(Seq<char>, Seq<char>),
    Shell(Seq<char>),
}

impl LinkCommand {
    pub open spec fn step(&self) -> LinkStep {
        match self {
            LinkCommand::Run { command, args } => LinkStep::Run(command@, args@),
            LinkCommand::Shell(line) => LinkStep::Shell(line@),
        }
    }
}

/// The steps of a list of commands.
pub open spec fn steps_of(cmds: Seq<LinkCommand>) -> Seq<LinkStep> {
    cmds.map_values(|c: LinkCommand| c.step())
}

/// Each path after a space.
pub open spec fn spaced(paths: Seq<Seq<char>>) -> Seq<char>
    decreases paths.len(),
{
    if paths.len() == 0 {
        Seq::empty()
    } else {
        spaced(paths.drop_last()) + seq![' '] + paths.last()
    }
}

/// The step when the flag is set, none otherwise.
pub open spec fn step_if(flag: bool, step: LinkStep) -> Seq<LinkStep> {
    if flag { seq![step] } else { Seq::empty() }
}

/// The text when the flag is set, none otherwise.
pub open spec fn text_if(flag: bool, text: Seq<char>) -> Seq<char> {
    if flag { text } else { Seq::empty() }
}

/// The objects and the objects the rock depends on, each after a space.
pub open spec fn object_args(o: OptionData) -> Seq<char> {
    spaced(views(o.Object@)) + spaced(views(o.DependObject@))
}

/// The commands that finish a program: link it, then, as asked, write its
/// disassembly, strip it and convert it to a raw binary.
pub open spec fn program_steps(o: OptionData, windows: bool, cross_is_dir: bool) -> Seq<LinkStep> {
    let (base, file) = target_names_spec(o.Target@, o.Type@, windows);
    let cross = o.CROSSCOMPILE@;
    let link_args = "-o "@ + file + object_args(o) + opt_flags(o.LDFLAGS@)
        + text_if(o.IsMap, " -Wl,-Map="@ + o.Target@ + ".map"@) + opt_flags(o.LIBPATH@) + opt_flags(o.LIBS@);
    let listing = if cross_is_dir {
        path_joined(cross, o.OBJDUMP@) + " -D -S "@ + base + " > "@ + o.Target@ + ".asm"@
    } else {
        cross + o.OBJDUMP@ + " -D -S "@ + file + " > "@ + base + ".asm"@
    };
    seq![LinkStep::Run(tool_spec(cross, o.LD@, cross_is_dir), link_args)]
        + step_if(o.IsAsm, LinkStep::Shell(listing))
        + step_if(o.IsStrip, LinkStep::Run(tool_spec(cross, o.STRIP@, cross_is_dir), file))
        + step_if(o.IsBinary, LinkStep::Run(tool_spec(cross, o.OBJCOPY@, cross_is_dir), "-O binary "@ + file + " "@ + base + ".bin"@))
}

/// The command that finishes a static library: archive the objects.
pub open spec fn static_lib_steps(o: OptionData, windows: bool, cross_is_dir: bool) -> Seq<LinkStep> {
    let file = target_names_spec(o.Target@, o.Type@, windows).1;
    let args = "r "@ + file + object_args(o) + opt_flags(o.LIBPATH@) + opt_flags(o.LIBS@);
    seq![LinkStep::Run(tool_spec(o.CROSSCOMPILE@, o.AR@, cross_is_dir), args)]
}

/// The commands that finish a shared library: link it, then, as asked,
/// write its disassembly and strip it.
pub open spec fn share_lib_steps(o: OptionData, windows: bool, cross_is_dir: bool) -> Seq<LinkStep> {
    let (base, file) = target_names_spec(o.Target@, o.Type@, windows);
    let cross = o.CROSSCOMPILE@;
    let link_args = "-shared -o "@ + file + object_args(o) + opt_flags(o.LDFLAGS@)
        + text_if(o.IsMap, " -Wl,-Map="@ + base + ".map"@) + opt_flags(o.LIBPATH@) + opt_flags(o.LIBS@);
    let listing = if cross_is_dir {
        path_joined(cross, o.OBJDUMP@) + " -D -S "@ + file + " > "@ + base + ".asm"@
    } else {
        cross + o.OBJDUMP@ + " -D -S "@ + file + " > "@ + base + ".asm"@
    };
    seq![LinkStep::Run(tool_spec(cross, o.LD@, cross_is_dir), link_args)]
        + step_if(o.IsAsm, LinkStep::Shell(listing))
        + step_if(o.IsStrip, LinkStep::Run(tool_spec(cross, o.STRIP@, cross_is_dir), file))
}

/// The commands that finish a rock's target, by its type; none for object
/// rocks and unknown types.
pub open spec fn link_steps(o: OptionData, windows: bool, cross_is_dir: bool) -> Seq<LinkStep> {
    if o.Type@ == "Program"@ {
        program_steps(o, windows, cross_is_dir)
    } else if o.Type@ == "StaticLib"@ {
        static_lib_steps(o, windows, cross_is_dir)
    } else if o.Type@ == "ShareLib"@ {
        share_lib_steps(o, windows, cross_is_dir)
    } else {
        Seq::empty()
    }
}

/// Appends each path after a space.
fn push_spaced(s: &mut String, paths: &Vec<String>)
    ensures
        final(s)@ == old(s)@ + spaced(views(paths@)),
{
    let mut i: usize = 0;
    let ghost s0 = s@;
    while i < paths.len()
        invariant
            i <= paths.len(),
            s@ == s0 + spaced(views(paths@).take(i as int)),
        decreases paths.len() - i,
    {
        push_char(s, ' ');
        push_str(s, paths[i].as_str());
        assert(views(paths@).take(i + 1).drop_last() =~= views(paths@).take(i as int));
        assert(views(paths@).take(i + 1).last() == paths@[i as int]@);
        assert(s@ =~= s0 + spaced(views(paths@).take(i + 1)));
        i = i + 1;
    }
    assert(views(paths@).take(paths.len() as int) =~= views(paths@));
}

/// The link arguments shared by programs and shared libraries, after the
/// output file: objects, linker flags, the map option, library paths and
/// libraries.
fn link_tail(s: &mut String, o: &OptionData, map_base: &String)
    ensures
        final(s)@ == old(s)@ + object_args(*o) + opt_flags(o.LDFLAGS@)
            + text_if(o.IsMap, " -Wl,-Map="@ + map_base@ + ".map"@) + opt_flags(o.LIBPATH@) + opt_flags(o.LIBS@),
{
    let ghost s0 = s@;
    push_spaced(s, &o.Object);
    push_spaced(s, &o.DependObject);
    push_flags(s, &o.LDFLAGS);
    let ghost s1 = s@;
    if o.IsMap {
        push_str(s, " -Wl,-Map=");
        push_str(s, map_base.as_str());
        push_str(s, ".map");
        assert(s@ =~= s1 + text_if(o.IsMap, " -Wl,-Map="@ + map_base@ + ".map"@));
    } else {
        assert(s@ =~= s1 + text_if(o.IsMap, " -Wl,-Map="@ + map_base@ + ".map"@));
    }
    push_flags(s, &o.LIBPATH);
    push_flags(s, &o.LIBS);
    assert(s@ =~= s0 + object_args(*o) + opt_flags(o.LDFLAGS@)
        + text_if(o.IsMap, " -Wl,-Map="@ + map_base@ + ".map"@) + opt_flags(o.LIBPATH@) + opt_flags(o.LIBS@));
}

/// The disassembly command line.
fn listing_line(o: &OptionData, base: &String, file: &String, cross_is_dir: bool, program: bool) -> (r: String)
    ensures
        program && cross_is_dir ==> r@ == path_joined(o.CROSSCOMPILE@, o.OBJDUMP@) + " -D -S "@ + base@ + " > "@ + o.Target@ + ".asm"@,
        !program && cross_is_dir ==> r@ == path_joined(o.CROSSCOMPILE@, o.OBJDUMP@) + " -D -S "@ + file@ + " > "@ + base@ + ".asm"@,
        !cross_is_dir ==> r@ == o.CROSSCOMPILE@ + o.OBJDUMP@ + " -D -S "@ + file@ + " > "@ + base@ + ".asm"@,
{
    if cross_is_dir {
        let mut line = join_path(o.CROSSCOMPILE.as_str(), o.OBJDUMP.as_str());
        push_str(&mut line, " -D -S ");
        if program {
            push_str(&mut line, base.as_str());
            push_str(&mut line, " > ");
            push_str(&mut line, o.Target.as_str());
        } else {
            push_str(&mut line, file.as_str());
            push_str(&mut line, " > ");
            push_str(&mut line, base.as_str());
        }
        push_str(&mut line, ".asm");
        line
    } else {
        let mut line = o.CROSSCOMPILE.clone();
        push_str(&mut line, o.OBJDUMP.as_str());
        push_str(&mut line, " -D -S ");
        push_str(&mut line, file.as_str());
        push_str(&mut line, " > ");
        push_str(&mut line, base.as_str());
        push_str(&mut line, ".asm");
        line
    }
}

/// The commands that finish a rock's target once its objects are built.
pub fn link_commands(o: &OptionData, windows: bool, cross_is_dir: bool) -> (r: Vec<LinkCommand>)
    ensures
        steps_of(r@) == link_steps(*o, windows, cross_is_dir),
        builds_target(o.Type@) && has_no_quote(o.Target@) ==> target_names_spec(o.Target@, o.Type@, windows).0 == o.Target@,
{
    let is_program = str_eq(o.Type.as_str(), "Program");
    let is_static = str_eq(o.Type.as_str(), "StaticLib");
    let is_shared = str_eq(o.Type.as_str(), "ShareLib");
    let mut r: Vec<LinkCommand> = Vec::new();
    if !is_program && !is_static && !is_shared {
        assert(steps_of(r@) =~= link_steps(*o, windows, cross_is_dir));
        return r;
    }
    let (base, file) = target_names(&o.Target, &o.Type, windows);
    if is_static {
        let mut args = "r ".to_owned();
        push_str(&mut args, file.as_str());
        push_spaced(&mut args, &o.Object);
        push_spaced(&mut args, &o.DependObject);
        push_flags(&mut args, &o.LIBPATH);
        push_flags(&mut args, &o.LIBS);
        assert(args@ =~= "r "@ + file@ + object_args(*o) + opt_flags(o.LIBPATH@) + opt_flags(o.LIBS@));
        let command = tool_command(&o.CROSSCOMPILE, &o.AR, cross_is_dir);
        let ghost step = LinkStep::Run(command@, args@);
        r.push(LinkCommand::Run { command, args });
        assert(steps_of(r@) =~= seq![step]);
        assert(link_steps(*o, windows, cross_is_dir) == static_lib_steps(*o, windows, cross_is_dir)) by {
            reveal_strlit("Program");
            reveal_strlit("StaticLib");
            assert("Program"@.len() != "StaticLib"@.len());
        }
        return r;
    }
    let mut args = if is_program { "-o ".to_owned() } else { "-shared -o ".to_owned() };
    push_str(&mut args, file.as_str());
    let map_base = if is_program { o.Target.clone() } else { base.clone() };
    link_tail(&mut args, o, &map_base);
    let command = tool_command(&o.CROSSCOMPILE, &o.LD, cross_is_dir);
    let ghost step = LinkStep::Run(command@, args@);
    r.push(LinkCommand::Run { command, args });
    assert(steps_of(r@) =~= seq![step]);
    let ghost r1 = steps_of(r@);
    if o.IsAsm {
        r.push(LinkCommand::Shell(listing_line(o, &base, &file, cross_is_dir, is_program)));
    }
    let ghost r2 = steps_of(r@);
    proof {
        let (b, f) = target_names_spec(o.Target@, o.Type@, windows);
        let cross = o.CROSSCOMPILE@;
        let listing = if is_program {
            if cross_is_dir {
                path_joined(cross, o.OBJDUMP@) + " -D -S "@ + b + " > "@ + o.Target@ + ".asm"@
            } else {
                cross + o.OBJDUMP@ + " -D -S "@ + f + " > "@ + b + ".asm"@
            }
        } else {
            if cross_is_dir {
                path_joined(cross, o.OBJDUMP@) + " -D -S "@ + f + " > "@ + b + ".asm"@
            } else {
                cross + o.OBJDUMP@ + " -D -S "@ + f + " > "@ + b + ".asm"@
            }
        };
        assert(r2 =~= r1 + step_if(o.IsAsm, LinkStep::Shell(listing)));
    }
    if o.IsStrip {
        r.push(LinkCommand::Run { command: tool_command(&o.CROSSCOMPILE, &o.STRIP, cross_is_dir), args: file.clone() });
    }
    let ghost r3 = steps_of(r@);
    assert(r3 =~= r2 + step_if(o.IsStrip, LinkStep::Run(tool_spec(o.CROSSCOMPILE@, o.STRIP@, cross_is_dir), file@)));
    if is_program && o.IsBinary {
        let mut bin_args = "-O binary ".to_owned();
        push_str(&mut bin_args, file.as_str());
        push_char(&mut bin_args, ' ');
        push_str(&mut bin_args, base.as_str());
        push_str(&mut bin_args, ".bin");
        assert(bin_args@ =~= "-O binary "@ + file@ + " "@ + base@ + ".bin"@) by {
            reveal_strlit(" ");
        }
        r.push(LinkCommand::Run { command: tool_command(&o.CROSSCOMPILE, &o.OBJCOPY, cross_is_dir), args: bin_args });
    }
    if is_program {
        assert(steps_of(r@) =~= r3 + step_if(o.IsBinary, LinkStep::Run(tool_spec(o.CROSSCOMPILE@, o.OBJCOPY@, cross_is_dir),
            "-O binary "@ + file@ + " "@ + base@ + ".bin"@)));
        assert(link_steps(*o, windows, cross_is_dir) == program_steps(*o, windows, cross_is_dir));
    } else {
        assert(link_steps(*o, windows, cross_is_dir) == share_lib_steps(*o, windows, cross_is_dir)) by {
            reveal_strlit("Program");
            reveal_strlit("StaticLib");
            reveal_strlit("ShareLib");
            assert("Program"@.len() != "ShareLib"@.len());
            assert("ShareLib"@[1] != "StaticLib"@[1]);
        }
    }
    assert(steps_of(r@) =~= link_steps(*o, windows, cross_is_dir));
    r
}

/// Whether a rock of this type can be built.
pub open spec fn buildable(typ: Seq<char>) -> bool {
    typ == "Program"@ || typ == "StaticLib"@ || typ == "ShareLib"@ || typ == "Object"@
}

/// What to do next in a build.
pub enum BuildStep {
    /// Change to the directory of `rock`, run `start_commands` there, then
    /// resolve each of `settings` and ask for the next step with the paths
    /// found.
    Prepare { rock: String, start_commands: Vec<String>, settings: Vec<String> },
    /// Report `rock` and its options unless they ask for silence, build the
    /// object files (`build_objects`), run the `link_commands`, stopping at
    /// the first failure, then run `stop_commands`.
    Build { rock: String, option: OptionData, stop_commands: Vec<String> },
    /// `rock` has a type that cannot be built; report it and its options
    /// unless they ask for silence, and stop.
    UnsupportedType { rock: String, option: OptionData },
    /// `rock` does not name its `Type`; the build cannot go on.
    MissingType { rock: String },
    /// Every rock file is built; the result of the build.
    Finished(String),
}

/// One step of building a project: each rock file, dependencies first, has
/// its start commands run, its object files built, its target finished and
/// its stop commands run.  `env` is the environment that the build started
/// with, `table` holds the paths found for the settings that the last
/// `Prepare` asked for.
pub fn building(run: &mut RockRun, rocks: &RockMap, env: &Env, table: &PathTable) -> (r: BuildStep)
    requires
        old(run).wf(rocks@),
    ensures
        final(run).wf(rocks@),
        final(run).order == old(run).order,
        old(run).next == old(run).order@.len() ==> {
            &&& r matches BuildStep::Finished(s) && s@ == "Ok"@
            &&& final(run).next == old(run).next
            &&& final(run).prepared == old(run).prepared
        },
        old(run).next < old(run).order@.len() ==> {
            let name = old(run).order@[old(run).next as int]@;
            let j = rocks@[name];
            &&& !old(run).prepared ==> {
                &&& r matches BuildStep::Prepare { rock, start_commands, settings }
                &&& rock@ == name
                &&& views(start_commands@) == json_strings(j, "CmdStart"@)
                &&& views(settings@) == if has_type_spec(j) { option_path_settings_spec(j, env@) } else { Seq::empty() }
                &&& final(run).next == old(run).next
                &&& final(run).prepared
            }
            &&& old(run).prepared && !has_type_spec(j) ==> {
                &&& r matches BuildStep::MissingType { rock }
                &&& rock@ == name
                &&& final(run).next == old(run).next
                &&& final(run).prepared
            }
            &&& old(run).prepared && has_type_spec(j) && !buildable(json_str_type(j)) ==> {
                &&& r matches BuildStep::UnsupportedType { rock, option }
                &&& rock@ == name
                &&& expanded_option(option, j, env@, table.entries@)
                &&& final(run).next == old(run).next
                &&& final(run).prepared
            }
            &&& old(run).prepared && has_type_spec(j) && buildable(json_str_type(j)) ==> {
                &&& r matches BuildStep::Build { rock, option, stop_commands }
                &&& rock@ == name
                &&& expanded_option(option, j, env@, table.entries@)
                &&& views(stop_commands@) == json_strings(j, "CmdStop"@)
                &&& final(run).next == old(run).next + 1
                &&& !final(run).prepared
            }
        },
{
    if run.next >= run.order.len() {
        return BuildStep::Finished("Ok".to_owned());
    }
    let name = run.order[run.next].clone();
    assert(rocks@.contains_key(run.order@[run.next as int]@));
    let j = match rocks.get(name.as_str()) {
        Some(j) => j,
        None => {
            return BuildStep::Finished("Ok".to_owned());
        },
    };
    if !run.prepared {
        run.prepared = true;
        let settings = if has_type(j) {
            option_path_settings(j, env)
        } else {
            let none: Vec<String> = Vec::new();
            assert(views(none@) =~= Seq::<Seq<char>>::empty());
            none
        };
        return BuildStep::Prepare { rock: name, start_commands: field_strings(j, "CmdStart"), settings };
    }
    if !has_type(j) {
        return BuildStep::MissingType { rock: name };
    }
    let option = expandOption(j, env, table);
    let t = option.Type.as_str();
    if !(str_eq(t, "Program") || str_eq(t, "StaticLib") || str_eq(t, "ShareLib") || str_eq(t, "Object")) {
        return BuildStep::UnsupportedType { rock: name, option };
    }
    let stop_commands = field_strings(j, "CmdStop");
    run.next = run.next + 1;
    run.prepared = false;
    BuildStep::Build { rock: name, option, stop_commands }
}

/// The type that a rock file names.
pub open spec fn json_str_type(j: crate::json::JsonValue) -> Seq<char> {
    crate::options::json_str(j, "Type"@)->0
}

} // verus!
