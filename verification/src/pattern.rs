//! The small grammars of rock files: `@{RockGlob(..)}` path patterns and
//! `#{NAME}` references to environment variables.
use vstd::prelude::*;
use crate::env::Env;
use crate::text::{chars_of, string_of, string_of_range, matches_at, occurs_at, push_char};

verus! {

/// `s` with every occurrence of `p` replaced by `w`, scanning from the left
/// and never letting two replaced occurrences overlap (`str::replace`).
pub open spec fn replace_all(s: Seq<char>, p: Seq<char>, w: Seq<char>) -> Seq<char>
    decreases s.len(),
{
    if s.len() == 0 {
        Seq::empty()
    } else if p.len() > 0 && occurs_at(s, p, 0) {
        w + replace_all(s.skip(p.len() as int), p, w)
    } else {
        seq![s[0]] + replace_all(s.drop_first(), p, w)
    }
}

/// `s` with every occurrence of the non-empty `p` replaced by `w`.
pub fn replace_all_chars(s: &Vec<char>, p: &Vec<char>, w: &Vec<char>) -> (r: Vec<char>)
    requires
        p.len() > 0,
    ensures
        r@ == replace_all(s@, p@, w@),
{
    let mut r: Vec<char> = Vec::new();
    let mut i: usize = 0;
    assert(s@.skip(0) =~= s@);
    while i < s.len()
        invariant
            p.len() > 0,
            i <= s.len(),
            r@ + replace_all(s@.skip(i as int), p@, w@) == replace_all(s@, p@, w@),
        decreases s.len() - i,
    {
        let ghost rest = s@.skip(i as int);
        if matches_at(s, p, i) {
            assert(occurs_at(rest, p@, 0)) by {
                assert(rest.subrange(0, p@.len() as int) =~= s@.subrange(i as int, i + p@.len()));
            }
            assert(rest.skip(p@.len() as int) =~= s@.skip(i + p@.len()));
            let mut k: usize = 0;
            let ghost r0 = r@;
            while k < w.len()
                invariant
                    k <= w.len(),
                    r@ == r0 + w@.take(k as int),
                decreases w.len() - k,
            {
                r.push(w[k]);
                assert(w@.take(k + 1) =~= w@.take(k as int).push(w@[k as int]));
                k = k + 1;
            }
            assert(w@.take(w.len() as int) =~= w@);
            assert(r0 + (w@ + replace_all(rest.skip(p@.len() as int), p@, w@)) =~= r@ + replace_all(rest.skip(p@.len() as int), p@, w@));
            i = i + p.len();
        } else {
            assert(!occurs_at(rest, p@, 0)) by {
                if occurs_at(rest, p@, 0) {
                    assert(rest.subrange(0, p@.len() as int) =~= s@.subrange(i as int, i + p@.len()));
                }
            }
            assert(rest.drop_first() =~= s@.skip(i + 1));
            let ghost r0 = r@;
            r.push(s[i]);
            assert(r0 + (seq![rest[0]] + replace_all(rest.drop_first(), p@, w@)) =~= r@ + replace_all(rest.drop_first(), p@, w@));
            i = i + 1;
        }
    }
    assert(s@.skip(i as int).len() == 0);
    assert(r@ + replace_all(s@.skip(i as int), p@, w@) =~= r@);
    r
}

/// `s[i..=j]` is a reference `#{NAME}`: `#`, `{`, a non-empty name
/// without `}`, then `}`.
pub open spec fn is_var_ref(s: Seq<char>, i: int, j: int) -> bool {
    &&& 0 <= i
    &&& i + 2 < j < s.len()
    &&& s[i] == '#'
    &&& s[i + 1] == '{'
    &&& s[j] == '}'
    &&& forall|k: int| i + 2 <= k < j ==> s[k] != '}'
}

/// `s[i..=j]` is a reference and none starts further left.
pub open spec fn is_leftmost_var_ref(s: Seq<char>, i: int, j: int) -> bool {
    &&& is_var_ref(s, i, j)
    &&& forall|i2: int, j2: int| #![trigger is_var_ref(s, i2, j2)] i2 < i ==> !is_var_ref(s, i2, j2)
}

/// The leftmost reference `#{NAME}` in `s`, as the indices of its `#` and `}`.
pub open spec fn first_var_ref(s: Seq<char>) -> Option<(int, int)> {
    if exists|i: int, j: int| is_leftmost_var_ref(s, i, j) {
        Some(choose|i: int, j: int| is_leftmost_var_ref(s, i, j))
    } else {
        None
    }
}

/// A reference that starts at `i` ends at the first `}` after its `{`, so
/// there is at most one leftmost reference.
pub proof fn lemma_leftmost_var_ref_unique(s: Seq<char>, i: int, j: int, i2: int, j2: int)
    requires
        is_leftmost_var_ref(s, i, j),
        is_leftmost_var_ref(s, i2, j2),
    ensures
        i == i2 && j == j2,
{
    if i < i2 {
        assert(!is_var_ref(s, i, j));
    } else if i2 < i {
        assert(!is_var_ref(s, i2, j2));
    } else if j < j2 {
        assert(s[j] != '}');
    } else if j2 < j {
        assert(s[j2] != '}');
    }
}

/// The leftmost reference `#{NAME}` in `cs`: the indices of its `#` and `}`.
pub fn find_var_ref(cs: &Vec<char>) -> (r: Option<(usize, usize)>)
    ensures
        match r {
            Some((i, j)) => first_var_ref(cs@) == Some((i as int, j as int)),
            None => first_var_ref(cs@) is None,
        },
{
    let n = cs.len();
    let mut i: usize = 0;
    while n >= 3 && i < n - 3
        invariant
            n == cs.len(),
            forall|i2: int, j2: int| #![trigger is_var_ref(cs@, i2, j2)] i2 < i ==> !is_var_ref(cs@, i2, j2),
        decreases n - i,
    {
        if cs[i] == '#' && cs[i + 1] == '{' {
            let mut j: usize = i + 2;
            while j < n && cs[j] != '}'
                invariant
                    n == cs.len(),
                    i + 2 <= j <= n,
                    forall|k: int| i + 2 <= k < j ==> cs@[k] != '}',
                decreases n - j,
            {
                j = j + 1;
            }
            if j < n && j > i + 2 {
                assert(is_leftmost_var_ref(cs@, i as int, j as int));
                proof {
                    let (a, b) = choose|a: int, b: int| is_leftmost_var_ref(cs@, a, b);
                    lemma_leftmost_var_ref_unique(cs@, i as int, j as int, a, b);
                }
                return Some((i, j));
            }
            assert forall|j2: int| !is_var_ref(cs@, i as int, j2) by {
                if is_var_ref(cs@, i as int, j2) {
                    if j2 < j {
                        assert(cs@[j2] != '}');
                    } else {
                        assert(cs@[i + 2] != '}');
                    }
                }
            }
        }
        i = i + 1;
    }
    assert forall|i2: int, j2: int| !is_var_ref(cs@, i2, j2) by {
        if is_var_ref(cs@, i2, j2) && i2 >= i {
            assert(j2 < n);
        }
    }
    None
}

/// What `cfg` becomes with its leftmost reference `#{NAME}` expanded: every
/// occurrence of that reference text is replaced by the value of `NAME`.
/// Nothing when `cfg` holds no reference or `NAME` is not set.
pub open spec fn expand_var_spec(cfg: Seq<char>, env: Map<Seq<char>, Seq<char>>) -> Option<Seq<char>> {
    match first_var_ref(cfg) {
        Some((i, j)) => {
            let name = cfg.subrange(i + 2, j);
            if env.contains_key(name) {
                Some(replace_all(cfg, cfg.subrange(i, j + 1), env[name]))
            } else {
                None
            }
        },
        None => None,
    }
}

/// Expands the leftmost `#{NAME}` of `cfg` from the environment.
pub fn expand_var(cfg: &str, env: &Env) -> (r: Option<String>)
    ensures
        match r {
            Some(v) => expand_var_spec(cfg@, env@) == Some(v@),
            None => expand_var_spec(cfg@, env@) is None,
        },
{
    let cs = chars_of(cfg);
    match find_var_ref(&cs) {
        Some((i, j)) => {
            let name = string_of_range(&cs, i + 2, j);
            match env.get(name.as_str()) {
                Some(value) => {
                    let mut pat: Vec<char> = Vec::new();
                    let mut k: usize = i;
                    while k <= j
                        invariant
                            i <= k <= j + 1,
                            j < cs.len(),
                            pat@ == cs@.subrange(i as int, k as int),
                        decreases j + 1 - k,
                    {
                        pat.push(cs[k]);
                        assert(pat@ =~= cs@.subrange(i as int, k + 1));
                        k = k + 1;
                    }
                    let with = chars_of(value.as_str());
                    let out = replace_all_chars(&cs, &pat, &with);
                    Some(string_of(&out))
                },
                None => None,
            }
        },
        None => None,
    }
}

/// The opening of a glob setting: `@{RockGlob(`.
pub open spec fn rock_glob_open() -> Seq<char> {
    seq!['@', '{', 'R', 'o', 'c', 'k', 'G', 'l', 'o', 'b', '(']
}

/// The pattern `P` of a setting written `@{RockGlob(P)}` as the whole string,
/// where `P` is non-empty and holds no `}`.
pub open spec fn rock_glob_pattern_spec(s: Seq<char>) -> Option<Seq<char>> {
    if s.len() >= 14 && s.take(11) == rock_glob_open() && s[s.len() - 2] == ')' && s[s.len() - 1] == '}'
        && forall|k: int| 11 <= k < s.len() - 2 ==> s[k] != '}' {
        Some(s.subrange(11, s.len() - 2))
    } else {
        None
    }
}

/// The glob pattern of a setting `@{RockGlob(P)}`; nothing for a plain path.
pub fn rock_glob_pattern(cfg: &str) -> (r: Option<String>)
    ensures
        match r {
            Some(p) => rock_glob_pattern_spec(cfg@) == Some(p@),
            None => rock_glob_pattern_spec(cfg@) is None,
        },
{
    let cs = chars_of(cfg);
    let n = cs.len();
    if n < 14 {
        return None;
    }
    let mut open: Vec<char> = Vec::new();
    open.push('@'); open.push('{'); open.push('R'); open.push('o'); open.push('c'); open.push('k');
    open.push('G'); open.push('l'); open.push('o'); open.push('b'); open.push('(');
    assert(open@ =~= rock_glob_open());
    if !matches_at(&cs, &open, 0) {
        assert(cs@.subrange(0, 11) =~= cs@.take(11));
        return None;
    }
    assert(cs@.subrange(0, 11) =~= cs@.take(11));
    if cs[n - 2] != ')' || cs[n - 1] != '}' {
        return None;
    }
    let mut k: usize = 11;
    while k < n - 2
        invariant
            n == cs.len(),
            cs@ == cfg@,
            n >= 14,
            11 <= k <= n - 2,
            forall|m: int| 11 <= m < k ==> cs@[m] != '}',
        decreases n - 2 - k,
    {
        if cs[k] == '}' {
            assert(!(forall|m: int| 11 <= m < cs@.len() - 2 ==> cs@[m] != '}'));
            return None;
        }
        k = k + 1;
    }
    Some(string_of_range(&cs, 11, n - 2))
}

/// A glob setting written from a pattern gives that pattern back.
pub proof fn law_rock_glob_round_trip(p: Seq<char>)
    requires
        p.len() > 0,
        forall|k: int| 0 <= k < p.len() ==> p[k] != '}',
    ensures
        rock_glob_pattern_spec(rock_glob_open() + p + seq![')', '}']) == Some(p),
{
    let s = rock_glob_open() + p + seq![')', '}'];
    assert(s.take(11) =~= rock_glob_open());
    assert(s.subrange(11, s.len() - 2) =~= p);
    assert forall|k: int| 11 <= k < s.len() - 2 implies s[k] != '}' by {
        assert(s[k] == p[k - 11]);
    }
}

/// Replacing a text that does not occur changes nothing.
pub proof fn law_replace_absent(s: Seq<char>, p: Seq<char>, w: Seq<char>)
    requires
        p.len() > 0,
        forall|i: int| 0 <= i ==> !occurs_at(s, p, i),
    ensures
        replace_all(s, p, w) == s,
    decreases s.len(),
{
    if s.len() > 0 {
        assert forall|i: int| 0 <= i implies !occurs_at(s.drop_first(), p, i) by {
            if occurs_at(s.drop_first(), p, i) {
                assert(s.subrange(i + 1, i + 1 + p.len()) =~= s.drop_first().subrange(i, i + p.len()));
                assert(occurs_at(s, p, i + 1));
            }
        }
        law_replace_absent(s.drop_first(), p, w);
        assert(!occurs_at(s, p, 0));
        assert(seq![s[0]] + s.drop_first() =~= s);
    }
}

/// The path prefix `\\?\` that marks a verbatim Windows path.
pub open spec fn verbatim_prefix() -> Seq<char> {
    seq!['\\', '\\', '?', '\\']
}

/// `s` without a leading verbatim prefix `\\?\` (only the first is removed).
pub open spec fn strip_verbatim_prefix_spec(s: Seq<char>) -> Seq<char> {
    if occurs_at(s, verbatim_prefix(), 0) {
        s.skip(4)
    } else {
        s
    }
}

/// Removes a leading verbatim prefix `\\?\` from a Windows path.
pub fn strip_verbatim_prefix(path: &str) -> (r: String)
    ensures
        r@ == strip_verbatim_prefix_spec(path@),
{
    let cs = chars_of(path);
    let mut prefix: Vec<char> = Vec::new();
    prefix.push('\\'); prefix.push('\\'); prefix.push('?'); prefix.push('\\');
    assert(prefix@ =~= verbatim_prefix());
    if matches_at(&cs, &prefix, 0) {
        string_of_range(&cs, 4, cs.len())
    } else {
        string_of(&cs)
    }
}

} // verus!
