//! The rock files of a project: the root rock file and, through their
//! `DependRock` members, the rock files that it depends on.
use vstd::prelude::*;
use crate::json::{views, array_strings, JsonValue};
use crate::keyed::{first_key_index, find_key, keyed_value, lemma_same_keys, lemma_push_key, lemma_first_key_index};
use crate::options::{resolve_all, resolved_paths};
use crate::resolve::PathTable;

verus! {

/// The items of a rock file's `DependRock` member, when it is an array.
pub open spec fn depend_rock_items(j: JsonValue) -> Option<Seq<JsonValue>> {
    match j.spec_field("DependRock"@) {
        Some(JsonValue::Array(items)) => Some(items@),
        _ => None,
    }
}

/// The rock files that a rock file depends on: the strings of its
/// `DependRock` array.
pub open spec fn depend_rocks(j: JsonValue) -> Seq<Seq<char>> {
    match depend_rock_items(j) {
        Some(items) => array_strings(items),
        None => Seq::empty(),
    }
}

/// The rock files that a rock file depends on.
pub fn depend_rock_settings(j: &JsonValue) -> (r: Vec<String>)
    ensures
        views(r@) == depend_rocks(*j),
{
    match j.field("DependRock") {
        Some(v) => match v.as_array() {
            Some(items) => crate::json::array_to_strings(items),
            None => {
                let r: Vec<String> = Vec::new();
                assert(views(r@) =~= Seq::<Seq<char>>::empty());
                r
            },
        },
        None => {
            let r: Vec<String> = Vec::new();
            assert(views(r@) =~= Seq::<Seq<char>>::empty());
            r
        },
    }
}

/// `j` with its `DependRock` array replaced by an array of the given paths;
/// any other value is returned as it was.
pub fn with_depend_rocks(j: JsonValue, paths: Vec<String>) -> (r: JsonValue)
    ensures
        depend_rock_items(j) is Some ==> {
            &&& depend_rock_items(r) matches Some(items)
            &&& items.len() == paths@.len()
            &&& forall|i: int| 0 <= i < items.len() ==> (#[trigger] items[i] is Str && items[i]->Str_0@ == paths@[i]@)
            &&& forall|k: Seq<char>| k != "DependRock"@ ==> #[trigger] r.spec_field(k) == j.spec_field(k)
        },
        depend_rock_items(j) is None ==> r == j,
{
    let is_array = match j.field("DependRock") {
        Some(v) => v.as_array().is_some(),
        None => false,
    };
    if !is_array {
        return j;
    }
    match j {
        JsonValue::Object(members) => {
            let mut members = members;
            let ghost old_members = members@;
            let mut items: Vec<JsonValue> = Vec::new();
            let mut k: usize = 0;
            while k < paths.len()
                invariant
                    k <= paths.len(),
                    items@.len() == k,
                    forall|i: int| 0 <= i < k ==> (#[trigger] items@[i] is Str && items@[i]->Str_0@ == paths@[i]@),
                decreases paths.len() - k,
            {
                items.push(JsonValue::Str(paths[k].clone()));
                k = k + 1;
            }
            match find_key(&members, "DependRock") {
                Some(i) => {
                    let key = members[i].0.clone();
                    members.set(i, (key, JsonValue::Array(items)));
                    let r = JsonValue::Object(members);
                    assert forall|k: Seq<char>| k != "DependRock"@ implies #[trigger] r.spec_field(k) == keyed_value(old_members, k) by {
                        lemma_same_keys(members@, old_members, k);
                        lemma_first_key_index(old_members, k);
                        lemma_first_key_index(old_members, "DependRock"@);
                    }
                    assert(first_key_index(members@, "DependRock"@) == Some(i as int)) by {
                        lemma_same_keys(members@, old_members, "DependRock"@);
                    }
                    r
                },
                None => JsonValue::Object(members),
            }
        },
        _ => j,
    }
}

/// The rock files read so far, each under its path.
pub struct RockMap {
    pub entries: Vec<(String, JsonValue)>,
}

/// The map that a list of entries denotes: each path maps to the value of
/// its first entry.
pub open spec fn rock_map(entries: Seq<(String, JsonValue)>) -> Map<Seq<char>, JsonValue> {
    Map::new(
        |k: Seq<char>| first_key_index(entries, k) is Some,
        |k: Seq<char>| keyed_value(entries, k)->0,
    )
}

impl View for RockMap {
    type V = Map<Seq<char>, JsonValue>;

    open spec fn view(&self) -> Map<Seq<char>, JsonValue> {
        rock_map(self.entries@)
    }
}

impl RockMap {
    /// No rock files.
    pub fn new() -> (r: RockMap)
        ensures
            r@ == Map::<Seq<char>, JsonValue>::empty(),
            r.entries@.len() == 0,
    {
        let r = RockMap { entries: Vec::new() };
        assert(r@ =~= Map::<Seq<char>, JsonValue>::empty());
        r
    }

    /// The rock file read from `path`.
    pub fn get(&self, path: &str) -> (r: Option<&JsonValue>)
        ensures
            match r {
                Some(j) => self@.contains_key(path@) && self@[path@] == *j,
                None => !self@.contains_key(path@),
            },
    {
        match find_key(&self.entries, path) {
            Some(i) => Some(&self.entries[i].1),
            None => None,
        }
    }

    /// Records the rock file read from `path`, in place of any earlier one.
    pub fn insert(&mut self, path: String, j: JsonValue)
        ensures
            final(self)@ == old(self)@.insert(path@, j),
    {
        let ghost old_entries = self.entries@;
        match find_key(&self.entries, path.as_str()) {
            Some(i) => {
                let key = self.entries[i].0.clone();
                self.entries.set(i, (key, j));
                assert forall|k: Seq<char>| #![auto] true implies first_key_index(self.entries@, k) == first_key_index(old_entries, k) by {
                    lemma_same_keys(self.entries@, old_entries, k);
                }
                assert forall|k: Seq<char>| #![auto] k != path@ && first_key_index(old_entries, k) is Some
                    implies keyed_value(self.entries@, k) == keyed_value(old_entries, k) by {
                    lemma_first_key_index(old_entries, k);
                    lemma_first_key_index(old_entries, path@);
                    lemma_same_keys(self.entries@, old_entries, k);
                }
                assert(keyed_value(self.entries@, path@) == Some(j)) by {
                    lemma_same_keys(self.entries@, old_entries, path@);
                }
            },
            None => {
                let ghost p = path@;
                self.entries.push((path, j));
                assert forall|k: Seq<char>| #![auto] true implies first_key_index(self.entries@, k) == match first_key_index(old_entries, k) {
                    Some(i) => Some(i),
                    None => if p == k { Some(old_entries.len() as int) } else { None },
                } by {
                    lemma_push_key(old_entries, self.entries@.last(), k);
                    assert(old_entries.push(self.entries@.last()) =~= self.entries@);
                }
                assert forall|k: Seq<char>| #![auto] first_key_index(old_entries, k) is Some
                    implies keyed_value(self.entries@, k) == keyed_value(old_entries, k) by {
                    lemma_first_key_index(old_entries, k);
                }
                assert(keyed_value(self.entries@, p) == Some(j));
            },
        }
        assert(self@ =~= old(self)@.insert(path@, j));
    }
}

/// The reading of a project's rock files, one file at a time.
///
/// Each step takes the next rock file off `pending`; once it is read and the
/// path settings of its `DependRock` array resolved, the array is replaced by
/// the paths found, the file is recorded under its path, and those paths are
/// read next, first to last, before anything that was pending already.
/// Taking a file with `next_rock` and recording it with `loaded` keeps
/// every dependency of a file read either read or pending (`in_reach`), so
/// once nothing is pending every dependency of every file read was read.
pub struct Loader {
    /// Rock files still to read; the last is read next.
    pub pending: Vec<String>,
    /// Rock files read so far.
    pub rocks: RockMap,
}

/// Every dependency of a rock file that was read has been read too, or is
/// still to read, or is `taken` (the file being read).
pub open spec fn deps_in_reach(
    rocks: Map<Seq<char>, JsonValue>,
    pending: Seq<Seq<char>>,
    taken: Option<Seq<char>>,
) -> bool {
    forall|k: Seq<char>, d: Seq<char>|
        #![trigger rocks.contains_key(k), depend_rocks(rocks[k]).contains(d)]
        rocks.contains_key(k) && depend_rocks(rocks[k]).contains(d)
            ==> rocks.contains_key(d) || pending.contains(d) || taken == Some(d)
}

/// Reversing a sequence keeps what it contains.
proof fn lemma_reverse_contains<A>(s: Seq<A>, x: A)
    requires
        s.contains(x),
    ensures
        s.reverse().contains(x),
{
    let i = choose|i: int| 0 <= i < s.len() && s[i] == x;
    assert(s.reverse()[s.len() - 1 - i] == x);
}

impl Loader {
    /// Whether every dependency of a rock file read so far has been read too
    /// or is still to read, but for `taken`.
    pub open spec fn in_reach(&self, taken: Option<Seq<char>>) -> bool {
        deps_in_reach(self.rocks@, views(self.pending@), taken)
    }

    /// A loader that starts at the root rock file.
    pub fn new(root: String) -> (r: Loader)
        ensures
            views(r.pending@) == seq![root@],
            r.rocks@ == Map::<Seq<char>, JsonValue>::empty(),
            r.rocks.entries@.len() == 0,
            r.in_reach(None),
    {
        let mut pending: Vec<String> = Vec::new();
        pending.push(root);
        let r = Loader { pending, rocks: RockMap::new() };
        assert(views(r.pending@) =~= seq![root@]);
        r
    }

    /// The next rock file to read, if any is left.
    pub fn next_rock(&mut self) -> (r: Option<String>)
        ensures
            final(self).rocks == old(self).rocks,
            old(self).pending@.len() == 0 ==> r is None && final(self).pending@ == old(self).pending@,
            old(self).pending@.len() > 0 ==> r == Some(old(self).pending@.last())
                && final(self).pending@ == old(self).pending@.drop_last(),
            old(self).in_reach(None) ==> final(self).in_reach(match r {
                Some(p) => Some(p@),
                None => None,
            }),
    {
        let ghost p0 = views(self.pending@);
        let r = self.pending.pop();
        proof {
            if p0.len() > 0 {
                assert(views(self.pending@) =~= p0.drop_last());
                assert forall|d: Seq<char>| p0.contains(d) implies views(self.pending@).contains(d) || d == p0.last() by {
                    let i = choose|i: int| 0 <= i < p0.len() && p0[i] == d;
                    if i < p0.len() - 1 {
                        assert(views(self.pending@)[i] == d);
                    }
                }
            }
        }
        r
    }

    /// Records the rock file read from `path`; its `DependRock` array now
    /// holds the paths that `table` gives for its items, which are read next.
    pub fn loaded(&mut self, path: String, j: JsonValue, table: &PathTable)
        ensures
            depend_rock_items(j) is None ==> {
                &&& final(self).rocks@ == old(self).rocks@.insert(path@, j)
                &&& final(self).pending@ == old(self).pending@
            },
            depend_rock_items(j) is Some ==> final(self).rocks@.dom() == old(self).rocks@.dom().insert(path@),
            depend_rock_items(j) is Some ==> forall|k: Seq<char>| k != path@ && #[trigger] old(self).rocks@.contains_key(k)
                ==> final(self).rocks@[k] == old(self).rocks@[k],
            depend_rock_items(j) is Some ==> depend_rocks(final(self).rocks@[path@]) == resolved_paths(depend_rocks(j), table.entries@),
            depend_rock_items(j) is Some ==> (depend_rock_items(final(self).rocks@[path@]) matches Some(items)
                && items.len() == resolved_paths(depend_rocks(j), table.entries@).len()
                && forall|i: int| 0 <= i < items.len() ==> #[trigger] items[i] is Str),
            depend_rock_items(j) is Some ==> forall|k: Seq<char>| k != "DependRock"@
                ==> #[trigger] final(self).rocks@[path@].spec_field(k) == j.spec_field(k),
            depend_rock_items(j) is Some ==> views(final(self).pending@)
                == views(old(self).pending@) + resolved_paths(depend_rocks(j), table.entries@).reverse(),
            old(self).in_reach(Some(path@)) ==> final(self).in_reach(None),
    {
        let ghost pv = path@;
        let ghost r0 = self.rocks@;
        let ghost q0 = views(self.pending@);
        let is_array = match j.field("DependRock") {
            Some(v) => v.as_array().is_some(),
            None => false,
        };
        if !is_array {
            self.rocks.insert(path, j);
            proof {
                assert(depend_rocks(j) =~= Seq::<Seq<char>>::empty());
                assert(self.rocks@[pv] == j);
            }
            return;
        }
        let found = resolve_all(&depend_rock_settings(&j), table);
        let ghost j0 = j;
        let updated = with_depend_rocks(j, found.clone());
        proof {
            let items = depend_rock_items(updated)->0;
            assert(array_strings(items) =~= views(found@)) by {
                lemma_all_strings(items, views(found@));
            }
        }
        let ghost rocks0 = self.rocks@;
        self.rocks.insert(path, updated);
        assert(self.rocks@.dom() =~= rocks0.dom().insert(pv));
        assert(self.rocks@[pv] == updated);
        let ghost p0 = self.pending@;
        let ghost rocks1 = self.rocks@;
        let mut k: usize = found.len();
        while k > 0
            invariant
                k <= found.len(),
                self.rocks@ == rocks1,
                views(self.pending@) == views(p0) + views(found@).skip(k as int).reverse(),
            decreases k,
        {
            k = k - 1;
            let ghost before = self.pending@;
            self.pending.push(found[k].clone());
            assert(views(self.pending@) =~= views(before).push(found@[k as int]@));
            assert(views(found@).skip(k as int).reverse() =~= views(found@).skip(k + 1).reverse().push(views(found@)[k as int]));
        }
        assert(views(found@).skip(0) =~= views(found@));
        proof {
            if deps_in_reach(r0, q0, Some(pv)) {
                let q1 = views(self.pending@);
                assert forall|k: Seq<char>, d: Seq<char>|
                    self.rocks@.contains_key(k) && depend_rocks(self.rocks@[k]).contains(d)
                    implies self.rocks@.contains_key(d) || q1.contains(d) by {
                    if k == pv {
                        lemma_reverse_contains(views(found@), d);
                        let i = choose|i: int| 0 <= i < views(found@).reverse().len() && views(found@).reverse()[i] == d;
                        assert(q1[q0.len() + i] == d);
                    } else {
                        assert(r0.contains_key(k));
                        if q0.contains(d) {
                            let i = choose|i: int| 0 <= i < q0.len() && q0[i] == d;
                            assert(q1[i] == d);
                        }
                    }
                }
            }
        }
    }
}

/// The rock files to visit for `name`, dependencies first:
/// for a rock file that was read, those of each of its dependencies in
/// order, then the file itself; nothing for one that was not read.  Each
/// step down a dependency uses up one unit of `depth`; `None` when the
/// dependencies go deeper than that.
pub open spec fn post_order(m: Map<Seq<char>, JsonValue>, name: Seq<char>, depth: nat) -> Option<Seq<Seq<char>>>
    decreases depth, 0nat, 0nat,
{
    if !m.contains_key(name) {
        Some(Seq::empty())
    } else if depth == 0 {
        None
    } else {
        match post_order_all(m, depend_rocks(m[name]), (depth - 1) as nat) {
            Some(s) => Some(s.push(name)),
            None => None,
        }
    }
}

/// The rock files to visit for each of `names`, in order.
pub open spec fn post_order_all(m: Map<Seq<char>, JsonValue>, names: Seq<Seq<char>>, depth: nat) -> Option<Seq<Seq<char>>>
    decreases depth, 1nat, names.len(),
{
    if names.len() == 0 {
        Some(Seq::empty())
    } else {
        match (post_order_all(m, names.drop_last(), depth), post_order(m, names.last(), depth)) {
            (Some(a), Some(b)) => Some(a + b),
            _ => None,
        }
    }
}

/// Every rock file visited was read.
pub proof fn lemma_post_order_read(m: Map<Seq<char>, JsonValue>, name: Seq<char>, depth: nat)
    ensures
        post_order(m, name, depth) is Some ==> forall|i: int| 0 <= i < post_order(m, name, depth)->0.len()
            ==> m.contains_key(#[trigger] post_order(m, name, depth)->0[i]),
    decreases depth, 0nat, 0nat,
{
    if m.contains_key(name) && depth > 0 {
        lemma_post_order_all_read(m, depend_rocks(m[name]), (depth - 1) as nat);
    }
}

/// Every rock file visited was read.
pub proof fn lemma_post_order_all_read(m: Map<Seq<char>, JsonValue>, names: Seq<Seq<char>>, depth: nat)
    ensures
        post_order_all(m, names, depth) is Some ==> forall|i: int| 0 <= i < post_order_all(m, names, depth)->0.len()
            ==> m.contains_key(#[trigger] post_order_all(m, names, depth)->0[i]),
    decreases depth, 1nat, names.len(),
{
    if names.len() > 0 {
        lemma_post_order_all_read(m, names.drop_last(), depth);
        lemma_post_order_read(m, names.last(), depth);
        if let (Some(a), Some(b)) = (post_order_all(m, names.drop_last(), depth), post_order(m, names.last(), depth)) {
            assert forall|i: int| 0 <= i < (a + b).len() implies m.contains_key(#[trigger] (a + b)[i]) by {
                if i >= a.len() {
                    assert((a + b)[i] == b[i - a.len()]);
                }
            }
        }
    }
}

/// A rock file that was read is visited last of all the files visited for it.
pub proof fn law_rock_visited_last(m: Map<Seq<char>, JsonValue>, name: Seq<char>, depth: nat)
    requires
        m.contains_key(name),
        post_order(m, name, depth) is Some,
    ensures
        post_order(m, name, depth)->0.len() > 0,
        post_order(m, name, depth)->0.last() == name,
{
}

/// Each rock file that was read among `names` is visited for them.
proof fn lemma_post_order_all_visits(m: Map<Seq<char>, JsonValue>, names: Seq<Seq<char>>, depth: nat, i: int)
    requires
        0 <= i < names.len(),
        m.contains_key(names[i]),
        post_order_all(m, names, depth) is Some,
    ensures
        post_order_all(m, names, depth)->0.contains(names[i]),
    decreases names.len(),
{
    let a = post_order_all(m, names.drop_last(), depth);
    let b = post_order(m, names.last(), depth);
    if i == names.len() - 1 {
        let bs = b->0;
        assert(bs.last() == names[i]);
        assert((a->0 + bs)[a->0.len() + bs.len() - 1] == names[i]);
    } else {
        assert(names.drop_last()[i] == names[i]);
        lemma_post_order_all_visits(m, names.drop_last(), depth, i);
        let k = choose|k: int| 0 <= k < a->0.len() && a->0[k] == names[i];
        assert((a->0 + b->0)[k] == names[i]);
    }
}

/// Each dependency of a rock file that was read is visited before it.
pub proof fn law_dependency_visited_first(m: Map<Seq<char>, JsonValue>, name: Seq<char>, depth: nat, i: int)
    requires
        m.contains_key(name),
        post_order(m, name, depth) is Some,
        0 <= i < depend_rocks(m[name]).len(),
        m.contains_key(depend_rocks(m[name])[i]),
    ensures
        post_order(m, name, depth)->0.drop_last().contains(depend_rocks(m[name])[i]),
{
    let deps = depend_rocks(m[name]);
    lemma_post_order_all_visits(m, deps, (depth - 1) as nat, i);
    let s = post_order_all(m, deps, (depth - 1) as nat)->0;
    assert(post_order(m, name, depth)->0.drop_last() =~= s);
}

/// A chain of dependencies: rock files that were read, each depending on
/// the next.
pub open spec fn is_dependency_chain(m: Map<Seq<char>, JsonValue>, c: Seq<Seq<char>>) -> bool {
    &&& forall|i: int| 0 <= i < c.len() ==> m.contains_key(#[trigger] c[i])
    &&& forall|i: int| 0 <= i < c.len() - 1 ==> #[trigger] depend_rocks(m[c[i]]).contains(c[i + 1])
}

/// No rock file depends on itself, directly or through others: no chain of
/// dependencies comes back to a rock file it has passed.
pub open spec fn acyclic(m: Map<Seq<char>, JsonValue>) -> bool {
    forall|c: Seq<Seq<char>>| #[trigger] is_dependency_chain(m, c) ==> c.no_duplicates()
}

/// When the rock files to visit for some of `names` go deeper than
/// `depth`, one of the names does.
proof fn lemma_all_too_deep(m: Map<Seq<char>, JsonValue>, names: Seq<Seq<char>>, depth: nat) -> (i: int)
    requires
        post_order_all(m, names, depth) is None,
    ensures
        0 <= i < names.len(),
        post_order(m, names[i], depth) is None,
    decreases names.len(),
{
    if post_order(m, names.last(), depth) is None {
        names.len() - 1
    } else {
        let i = lemma_all_too_deep(m, names.drop_last(), depth);
        assert(names.drop_last()[i] == names[i]);
        i
    }
}

/// When the rock files to visit for `name` go deeper than `depth`, a chain
/// of `depth + 1` dependencies starts at `name`.
proof fn lemma_too_deep_chain(m: Map<Seq<char>, JsonValue>, name: Seq<char>, depth: nat) -> (c: Seq<Seq<char>>)
    requires
        post_order(m, name, depth) is None,
    ensures
        is_dependency_chain(m, c),
        c.len() == depth + 1,
        c[0] == name,
    decreases depth,
{
    if depth == 0 {
        seq![name]
    } else {
        let deps = depend_rocks(m[name]);
        let i = lemma_all_too_deep(m, deps, (depth - 1) as nat);
        let rest = lemma_too_deep_chain(m, deps[i], (depth - 1) as nat);
        let c = seq![name] + rest;
        assert forall|k: int| 0 <= k < c.len() implies m.contains_key(#[trigger] c[k]) by {
            if k > 0 {
                assert(c[k] == rest[k - 1]);
            }
        }
        assert forall|k: int| 0 <= k < c.len() - 1 implies #[trigger] depend_rocks(m[c[k]]).contains(c[k + 1]) by {
            if k == 0 {
                assert(c[1] == deps[i]);
                assert(deps.contains(deps[i]));
            } else {
                assert(c[k] == rest[k - 1]);
                assert(c[k + 1] == rest[k]);
                assert(depend_rocks(m[rest[k - 1]]).contains(rest[k - 1 + 1]));
            }
        }
        c
    }
}

/// When one of `names` has rock files to visit deeper than `depth`, so do
/// the names together.
proof fn lemma_one_too_deep(m: Map<Seq<char>, JsonValue>, names: Seq<Seq<char>>, depth: nat, i: int)
    requires
        0 <= i < names.len(),
        post_order(m, names[i], depth) is None,
    ensures
        post_order_all(m, names, depth) is None,
    decreases names.len(),
{
    if i < names.len() - 1 {
        assert(names.drop_last()[i] == names[i]);
        lemma_one_too_deep(m, names.drop_last(), depth, i);
    }
}

/// A chain of `depth + 1` dependencies that starts at `c[0]` takes the rock
/// files to visit for `c[0]` deeper than `depth`.
proof fn lemma_chain_too_deep(m: Map<Seq<char>, JsonValue>, c: Seq<Seq<char>>, depth: nat)
    requires
        is_dependency_chain(m, c),
        c.len() == depth + 1,
    ensures
        post_order(m, c[0], depth) is None,
    decreases depth,
{
    assert(m.contains_key(c[0]));
    if depth > 0 {
        let rest = c.drop_first();
        assert forall|k: int| 0 <= k < rest.len() implies m.contains_key(#[trigger] rest[k]) by {
            assert(rest[k] == c[k + 1]);
        }
        assert forall|k: int| 0 <= k < rest.len() - 1 implies #[trigger] depend_rocks(m[rest[k]]).contains(rest[k + 1]) by {
            assert(rest[k] == c[k + 1]);
            assert(rest[k + 1] == c[k + 1 + 1]);
            assert(depend_rocks(m[c[k + 1]]).contains(c[k + 1 + 1]));
        }
        lemma_chain_too_deep(m, rest, (depth - 1) as nat);
        let deps = depend_rocks(m[c[0]]);
        assert(deps.contains(c[0int + 1]));
        let i = choose|i: int| 0 <= i < deps.len() && deps[i] == c[1];
        lemma_one_too_deep(m, deps, (depth - 1) as nat, i);
    }
}

/// Whether a chain of `depth + 1` dependencies starts at `root`.
pub open spec fn chain_deeper_than(m: Map<Seq<char>, JsonValue>, root: Seq<char>, depth: nat) -> bool {
    exists|c: Seq<Seq<char>>| #[trigger] is_dependency_chain(m, c) && c.len() == depth + 1 && c[0] == root
}

/// The rock files to visit go deeper than `depth` exactly when a chain of
/// `depth + 1` dependencies starts at the root.
pub proof fn law_order_fails_only_on_long_chains(m: Map<Seq<char>, JsonValue>, root: Seq<char>, depth: nat)
    ensures
        post_order(m, root, depth) is None <==> chain_deeper_than(m, root, depth),
{
    if post_order(m, root, depth) is None {
        let c = lemma_too_deep_chain(m, root, depth);
        assert(is_dependency_chain(m, c) && c.len() == depth + 1 && c[0] == root);
    }
    if chain_deeper_than(m, root, depth) {
        let c = choose|c: Seq<Seq<char>>| #[trigger] is_dependency_chain(m, c) && c.len() == depth + 1 && c[0] == root;
        lemma_chain_too_deep(m, c, depth);
    }
}

/// A project without dependency cycles has an order to visit its rock files
/// in, once the depth allowed reaches the number of rock files.
pub proof fn law_acyclic_projects_have_an_order(m: Map<Seq<char>, JsonValue>, root: Seq<char>, depth: nat)
    requires
        m.dom().finite(),
        depth >= m.dom().len(),
        acyclic(m),
    ensures
        post_order(m, root, depth) is Some,
{
    if post_order(m, root, depth) is None {
        let c = lemma_too_deep_chain(m, root, depth);
        assert(c.no_duplicates());
        c.unique_seq_to_set();
        assert(c.to_set().subset_of(m.dom())) by {
            assert forall|x: Seq<char>| c.to_set().contains(x) implies m.dom().contains(x) by {
                let k = choose|k: int| 0 <= k < c.len() && c[k] == x;
                assert(m.contains_key(c[k]));
            }
        }
        vstd::set_lib::lemma_len_subset(c.to_set(), m.dom());
    }
}

/// The rock files recorded are finitely many, no more than the entries.
proof fn lemma_rock_map_size(entries: Seq<(String, JsonValue)>)
    ensures
        rock_map(entries).dom().finite(),
        rock_map(entries).dom().len() <= entries.len(),
{
    let keys = entries.map_values(|e: (String, JsonValue)| e.0@);
    assert(rock_map(entries).dom().subset_of(keys.to_set())) by {
        assert forall|k: Seq<char>| rock_map(entries).dom().contains(k) implies keys.to_set().contains(k) by {
            lemma_first_key_index(entries, k);
            let i = first_key_index(entries, k)->0;
            assert(keys[i] == k);
        }
    }
    vstd::seq_lib::seq_to_set_is_finite(keys);
    keys.lemma_cardinality_of_set();
    vstd::set_lib::lemma_len_subset(rock_map(entries).dom(), keys.to_set());
}

/// Appends the rock files to visit for `name`; `false` when the
/// dependencies go deeper than `depth`.
fn post_order_into(rocks: &RockMap, name: &str, depth: usize, out: &mut Vec<String>) -> (ok: bool)
    ensures
        ok == post_order(rocks@, name@, depth as nat) is Some,
        ok ==> views(final(out)@) == views(old(out)@) + post_order(rocks@, name@, depth as nat)->0,
    decreases depth, 0nat, 0nat,
{
    match rocks.get(name) {
        None => {
            assert(views(out@) =~= views(out@) + Seq::<Seq<char>>::empty());
            true
        },
        Some(j) => {
            if depth == 0 {
                return false;
            }
            let deps = depend_rock_settings(j);
            assert(deps@.take(deps.len() as int) =~= deps@);
            let ok = post_order_all_into(rocks, &deps, deps.len(), depth - 1, out);
            if !ok {
                return false;
            }
            let ghost o = out@;
            out.push(name.to_owned());
            assert(views(out@) =~= views(o).push(name@));
            assert(deps@.take(deps.len() as int) =~= deps@);
            true
        },
    }
}

/// Appends the rock files to visit for `names[..n]`.
fn post_order_all_into(rocks: &RockMap, names: &Vec<String>, n: usize, depth: usize, out: &mut Vec<String>) -> (ok: bool)
    requires
        n <= names.len(),
    ensures
        ok == post_order_all(rocks@, views(names@.take(n as int)), depth as nat) is Some,
        ok ==> views(final(out)@) == views(old(out)@) + post_order_all(rocks@, views(names@.take(n as int)), depth as nat)->0,
    decreases depth, 1nat, n,
{
    if n == 0 {
        assert(views(names@.take(0)) =~= Seq::<Seq<char>>::empty());
        assert(views(out@) =~= views(out@) + Seq::<Seq<char>>::empty());
        return true;
    }
    assert(views(names@.take(n as int)).drop_last() =~= views(names@.take(n - 1)));
    assert(views(names@.take(n as int)).last() == names@[n - 1]@);
    let ghost o0 = out@;
    if !post_order_all_into(rocks, names, n - 1, depth, out) {
        return false;
    }
    let ghost o1 = out@;
    let ok = post_order_into(rocks, names[n - 1].as_str(), depth, out);
    if ok {
        assert(views(out@) =~= views(o0) + post_order_all(rocks@, views(names@.take(n as int)), depth as nat)->0);
    }
    ok
}

/// The rock files to clean, dependencies first: each rock file that the
/// root depends on, directly or not, once for every way it is reached, and
/// the root last.  `None` exactly when a chain of dependencies that starts
/// at the root is longer than the number of rock files, which never happens
/// without a dependency cycle.
pub fn clean_order(rocks: &RockMap, root: &str) -> (r: Option<Vec<String>>)
    ensures
        match r {
            Some(s) => post_order(rocks@, root@, rocks.entries@.len() as nat) == Some(views(s@)),
            None => post_order(rocks@, root@, rocks.entries@.len() as nat) is None,
        },
        r is None <==> chain_deeper_than(rocks@, root@, rocks.entries@.len() as nat),
        acyclic(rocks@) ==> r is Some,
{
    proof {
        law_order_fails_only_on_long_chains(rocks@, root@, rocks.entries@.len() as nat);
        lemma_rock_map_size(rocks.entries@);
        if acyclic(rocks@) {
            law_acyclic_projects_have_an_order(rocks@, root@, rocks.entries@.len() as nat);
        }
    }
    let mut out: Vec<String> = Vec::new();
    if post_order_into(rocks, root, rocks.entries.len(), &mut out) {
        assert(views(out@) =~= Seq::<Seq<char>>::empty() + views(out@));
        Some(out)
    } else {
        None
    }
}

/// An array of strings holds exactly those strings.
proof fn lemma_all_strings(items: Seq<JsonValue>, strs: Seq<Seq<char>>)
    requires
        items.len() == strs.len(),
        forall|i: int| 0 <= i < items.len() ==> (#[trigger] items[i] is Str && items[i]->Str_0@ == strs[i]),
    ensures
        array_strings(items) == strs,
    decreases items.len(),
{
    if items.len() > 0 {
        assert forall|i: int| 0 <= i < items.drop_last().len() implies (#[trigger] items.drop_last()[i] is Str
            && items.drop_last()[i]->Str_0@ == strs.drop_last()[i]) by {
            assert(items.drop_last()[i] == items[i]);
        }
        lemma_all_strings(items.drop_last(), strs.drop_last());
        assert(items.last() is Str);
        assert(strs =~= strs.drop_last().push(strs.last()));
    }
}

} // verus!
