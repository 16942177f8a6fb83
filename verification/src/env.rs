//! The process environment, as a value: names mapped to values.
use vstd::prelude::*;
use crate::keyed::{first_key_index, find_key, keyed_value, lemma_same_keys, lemma_push_key, lemma_first_key_index};

verus! {

/// Environment variables.  Each name stands for its first entry.
pub struct Env {
    vars: Vec<(String, String)>,
}

/// The map that a list of `(name, value)` pairs denotes: each name maps to
/// the value of its first pair.
pub open spec fn pairs_map(pairs: Seq<(String, String)>) -> Map<Seq<char>, Seq<char>> {
    Map::new(
        |k: Seq<char>| first_key_index(pairs, k) is Some,
        |k: Seq<char>| keyed_value(pairs, k)->0@,
    )
}

impl View for Env {
    type V = Map<Seq<char>, Seq<char>>;

    closed spec fn view(&self) -> Map<Seq<char>, Seq<char>> {
        pairs_map(self.vars@)
    }
}

/// Whether no name occurs in two pairs.
pub open spec fn unique_names(pairs: Seq<(String, String)>) -> bool {
    forall|i: int, j: int| 0 <= i < j < pairs.len() ==> pairs[i].0@ != pairs[j].0@
}

/// Appending a pair adds its name, with its value, unless the name is
/// there already.
proof fn lemma_pairs_map_push(a: Seq<(String, String)>, e: (String, String))
    ensures
        pairs_map(a.push(e)) == if first_key_index(a, e.0@) is Some {
            pairs_map(a)
        } else {
            pairs_map(a).insert(e.0@, e.1@)
        },
{
    let b = a.push(e);
    assert forall|k: Seq<char>| #![auto] true implies first_key_index(b, k) == match first_key_index(a, k) {
        Some(i) => Some(i),
        None => if e.0@ == k { Some(a.len() as int) } else { None },
    } by {
        lemma_push_key(a, e, k);
    }
    assert forall|k: Seq<char>| #![auto] first_key_index(a, k) is Some implies keyed_value(b, k) == keyed_value(a, k) by {
        lemma_first_key_index(a, k);
    }
    if first_key_index(a, e.0@) is Some {
        assert(pairs_map(b) =~= pairs_map(a));
    } else {
        assert(keyed_value(b, e.0@) == Some(e.1));
        assert(pairs_map(b) =~= pairs_map(a).insert(e.0@, e.1@));
    }
}

/// Sets `name` to `value` in a list of pairs, keeping names unique.
fn set_pair(vars: &mut Vec<(String, String)>, name: &str, value: String)
    ensures
        pairs_map(final(vars)@) == pairs_map(old(vars)@).insert(name@, value@),
        unique_names(old(vars)@) ==> unique_names(final(vars)@),
{
    let ghost old_vars = vars@;
    match find_key(vars, name) {
        Some(i) => {
            let key = vars[i].0.clone();
            vars.set(i, (key, value));
            assert forall|k: Seq<char>| #![auto] true implies first_key_index(vars@, k) == first_key_index(old_vars, k) by {
                lemma_same_keys(vars@, old_vars, k);
            }
            assert forall|k: Seq<char>| #![auto] k != name@ && first_key_index(old_vars, k) is Some
                implies keyed_value(vars@, k) == keyed_value(old_vars, k) by {
                lemma_first_key_index(old_vars, k);
                lemma_first_key_index(old_vars, name@);
                lemma_same_keys(vars@, old_vars, k);
            }
            assert(keyed_value(vars@, name@) == Some(value)) by {
                lemma_same_keys(vars@, old_vars, name@);
            }
            assert forall|a: int, b: int| 0 <= a < b < vars@.len() implies vars@[a].0@ == old_vars[a].0@
                && vars@[b].0@ == old_vars[b].0@ by {}
        },
        None => {
            proof { lemma_first_key_index(old_vars, name@); }
            vars.push((name.to_owned(), value));
            proof { lemma_pairs_map_push(old_vars, vars@.last()); }
            assert(old_vars.push(vars@.last()) =~= vars@);
        },
    }
    assert(pairs_map(vars@) =~= pairs_map(old_vars).insert(name@, value@));
}

impl Env {
    /// No name occurs in two pairs.
    #[verifier::type_invariant]
    spec fn names_unique(self) -> bool {
        unique_names(self.vars@)
    }

    /// An environment with no variables.
    pub fn new() -> (r: Env)
        ensures
            r@ == Map::<Seq<char>, Seq<char>>::empty(),
    {
        let r = Env { vars: Vec::new() };
        assert(r@ =~= Map::<Seq<char>, Seq<char>>::empty());
        r
    }

    /// The environment that a list of pairs gives: a name that occurs more
    /// than once takes the value of its first pair.
    pub fn from_pairs(pairs: Vec<(String, String)>) -> (r: Env)
        ensures
            r@ == pairs_map(pairs@),
    {
        let mut vars: Vec<(String, String)> = Vec::new();
        let mut i: usize = 0;
        while i < pairs.len()
            invariant
                i <= pairs.len(),
                pairs_map(vars@) == pairs_map(pairs@.take(i as int)),
                unique_names(vars@),
            decreases pairs.len() - i,
        {
            let ghost v0 = vars@;
            let e = (pairs[i].0.clone(), pairs[i].1.clone());
            assert(pairs@.take(i + 1) =~= pairs@.take(i as int).push(pairs@[i as int]));
            proof {
                lemma_pairs_map_push(pairs@.take(i as int), pairs@[i as int]);
                lemma_first_key_index(v0, e.0@);
                lemma_first_key_index(pairs@.take(i as int), e.0@);
            }
            if find_key(&vars, e.0.as_str()).is_none() {
                vars.push(e);
                proof { lemma_pairs_map_push(v0, e); }
                assert(v0.push(e) =~= vars@);
            }
            i = i + 1;
        }
        assert(pairs@.take(pairs.len() as int) =~= pairs@);
        Env { vars }
    }

    /// Pairs that give this environment, each name in one pair only.
    pub fn pairs(&self) -> (r: &Vec<(String, String)>)
        ensures
            pairs_map(r@) == self@,
            unique_names(r@),
    {
        proof { use_type_invariant(self); }
        &self.vars
    }

    /// The value of `name`, if it is set.
    pub fn get(&self, name: &str) -> (r: Option<&String>)
        ensures
            match r {
                Some(v) => self@.contains_key(name@) && self@[name@] == v@,
                None => !self@.contains_key(name@),
            },
    {
        match find_key(&self.vars, name) {
            Some(i) => Some(&self.vars[i].1),
            None => None,
        }
    }

    /// Sets `name` to `value`.
    pub fn set(&mut self, name: &str, value: String)
        ensures
            final(self)@ == old(self)@.insert(name@, value@),
    {
        proof { use_type_invariant(&*self); }
        let mut vars: Vec<(String, String)> = Vec::new();
        std::mem::swap(&mut vars, &mut self.vars);
        set_pair(&mut vars, name, value);
        self.vars = vars;
    }
}

/// After a name is set, reading it gives the value written, and reading any
/// other name gives what it gave before.
pub proof fn law_get_after_set(
    before: Map<Seq<char>, Seq<char>>,
    after: Map<Seq<char>, Seq<char>>,
    name: Seq<char>,
    value: Seq<char>,
    other: Seq<char>,
)
    requires
        after == before.insert(name, value),
    ensures
        after.contains_key(name) && after[name] == value,
        other != name ==> after.contains_key(other) == before.contains_key(other),
        other != name && before.contains_key(other) ==> after[other] == before[other],
{
}

} // verus!
