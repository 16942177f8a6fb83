//! How commands are handed to the system: the arguments of a tool
//! invocation, and the shell that runs a command line.
use vstd::prelude::*;
use crate::json::views;
use crate::text::{chars_of, push_char, str_eq};

verus! {

/// The pieces of `s` between spaces (`str::split(' ')`): every space ends a
/// piece, so neighbouring spaces give empty pieces, and there is always at
/// least one piece.
pub open spec fn split_spaces(s: Seq<char>) -> Seq<Seq<char>>
    decreases s.len(),
{
    if s.len() == 0 {
        seq![Seq::empty()]
    } else {
        let p = split_spaces(s.drop_last());
        if s.last() == ' ' {
            p.push(Seq::empty())
        } else {
            p.update(p.len() - 1, p.last().push(s.last()))
        }
    }
}

/// There is always at least one piece.
proof fn lemma_split_spaces_nonempty(s: Seq<char>)
    ensures
        split_spaces(s).len() >= 1,
    decreases s.len(),
{
    if s.len() > 0 {
        lemma_split_spaces_nonempty(s.drop_last());
    }
}

/// Pieces joined with a space between each two.
pub open spec fn join_spaces(ps: Seq<Seq<char>>) -> Seq<char>
    decreases ps.len(),
{
    if ps.len() == 0 {
        Seq::empty()
    } else if ps.len() == 1 {
        ps[0]
    } else {
        join_spaces(ps.drop_last()) + seq![' '] + ps.last()
    }
}

/// Extending the last piece extends the joined text.
proof fn lemma_join_extend_last(ps: Seq<Seq<char>>, c: char)
    requires
        ps.len() >= 1,
    ensures
        join_spaces(ps.update(ps.len() - 1, ps.last().push(c))) == join_spaces(ps).push(c),
{
    let q = ps.update(ps.len() - 1, ps.last().push(c));
    if ps.len() >= 2 {
        assert(q.drop_last() =~= ps.drop_last());
        assert(join_spaces(q) =~= join_spaces(ps).push(c));
    }
}

/// Joining the pieces of a text with spaces gives the text back.
pub proof fn law_split_join(s: Seq<char>)
    ensures
        join_spaces(split_spaces(s)) == s,
    decreases s.len(),
{
    if s.len() > 0 {
        let t = s.drop_last();
        law_split_join(t);
        lemma_split_spaces_nonempty(t);
        let p = split_spaces(t);
        if s.last() == ' ' {
            assert(p.push(Seq::<char>::empty()).drop_last() =~= p);
            assert(join_spaces(p.push(Seq::<char>::empty())) =~= t + seq![' ']);
        } else {
            lemma_join_extend_last(p, s.last());
        }
        assert(t.push(s.last()) =~= s);
    }
}

/// The arguments of a tool invocation: its argument text split at each space.
pub fn split_args(args: &str) -> (r: Vec<String>)
    ensures
        views(r@) == split_spaces(args@),
{
    let cs = chars_of(args);
    let mut done: Vec<String> = Vec::new();
    let mut cur = String::new();
    let mut i: usize = 0;
    assert(cs@.take(0) =~= Seq::<char>::empty());
    while i < cs.len()
        invariant
            i <= cs.len(),
            views(done@).push(cur@) == split_spaces(cs@.take(i as int)),
        decreases cs.len() - i,
    {
        proof { lemma_split_spaces_nonempty(cs@.take(i as int)); }
        assert(cs@.take(i + 1).drop_last() =~= cs@.take(i as int));
        assert(cs@.take(i + 1).last() == cs@[i as int]);
        let ghost d0 = views(done@);
        let ghost c0 = cur@;
        if cs[i] == ' ' {
            let piece = cur;
            done.push(piece);
            cur = String::new();
            assert(views(done@) =~= d0.push(c0));
            assert(views(done@).push(cur@) =~= d0.push(c0).push(Seq::<char>::empty()));
        } else {
            push_char(&mut cur, cs[i]);
            assert(views(done@).push(cur@) =~= d0.push(c0).update(d0.len() as int, c0.push(cs@[i as int])));
        }
        i = i + 1;
    }
    assert(cs@.take(cs.len() as int) =~= args@);
    let ghost d0 = views(done@);
    done.push(cur);
    assert(views(done@) =~= d0.push(cur@));
    done
}

/// The shell that runs a command line, and its arguments: `cmd /C` on
/// Windows, `sh -c` elsewhere.
pub fn shell_invocation(command: &str, windows: bool) -> (r: (String, Vec<String>))
    ensures
        windows ==> r.0@ == "cmd"@ && views(r.1@) == seq!["/C"@, command@],
        !windows ==> r.0@ == "sh"@ && views(r.1@) == seq!["-c"@, command@],
{
    let mut args: Vec<String> = Vec::new();
    if windows {
        args.push("/C".to_owned());
        args.push(command.to_owned());
        assert(views(args@) =~= seq!["/C"@, command@]);
        ("cmd".to_owned(), args)
    } else {
        args.push("-c".to_owned());
        args.push(command.to_owned());
        assert(views(args@) =~= seq!["-c"@, command@]);
        ("sh".to_owned(), args)
    }
}

/// What the `rock` command is asked to do.
pub enum RockCommand {
    /// Build every rock, dependencies first.
    Build,
    /// Build every rock, recompiling every source.
    Rebuild,
    /// Remove the object and target files of every rock.
    Clean,
    /// Print the usage.
    Help,
}

/// The command that the arguments name (the first is the program's own
/// name): `build`, `rebuild` or `clean`; anything else, or no command at
/// all, asks for the usage.
pub open spec fn command_spec(arguments: Seq<Seq<char>>) -> RockCommand {
    if arguments.len() <= 1 {
        RockCommand::Help
    } else if arguments[1] == "build"@ {
        RockCommand::Build
    } else if arguments[1] == "rebuild"@ {
        RockCommand::Rebuild
    } else if arguments[1] == "clean"@ {
        RockCommand::Clean
    } else {
        RockCommand::Help
    }
}

/// The command that the arguments name.
pub fn command_of(arguments: &Vec<String>) -> (r: RockCommand)
    ensures
        r == command_spec(views(arguments@)),
{
    if arguments.len() <= 1 {
        return RockCommand::Help;
    }
    let a = arguments[1].as_str();
    assert(views(arguments@)[1] == arguments@[1]@);
    if str_eq(a, "build") {
        RockCommand::Build
    } else if str_eq(a, "rebuild") {
        RockCommand::Rebuild
    } else if str_eq(a, "clean") {
        RockCommand::Clean
    } else {
        RockCommand::Help
    }
}

impl RockCommand {
    /// Whether the environment that the command starts from has `Rebuild`
    /// set: a rebuild recompiles every source, and a clean starts as a
    /// rebuild does; a build does not.
    pub fn starts_rebuilt(&self) -> (r: bool)
        ensures
            r == (*self is Rebuild || *self is Clean),
    {
        match self {
            RockCommand::Rebuild => true,
            RockCommand::Clean => true,
            _ => false,
        }
    }
}

} // verus!
