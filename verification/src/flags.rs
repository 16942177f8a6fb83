//! Tool flags built from list settings.
//!
//! Each item of a flag setting is first expanded for a `#{NAME}` reference.
//! A plain flag setting contributes the expanded item, or else the prefix and
//! the item as written; a path flag setting (libraries, library paths,
//! include paths) contributes the paths found for the expanded item, or else
//! the prefix and each path found for the item as written.  The words are
//! joined with spaces.
use vstd::prelude::*;
use crate::env::Env;
use crate::json::{views, JsonValue};
use crate::pattern::{expand_var, expand_var_spec};
use crate::resolve::{PathTable, table_paths};
use crate::text::{push_char, push_str};

verus! {

/// The words that one item contributes.
pub open spec fn item_words(
    item: Seq<char>,
    prefix: Seq<char>,
    is_glob: bool,
    env: Map<Seq<char>, Seq<char>>,
    table: Seq<(String, Vec<String>)>,
) -> Seq<Seq<char>> {
    match expand_var_spec(item, env) {
        Some(x) => if !is_glob {
            seq![x]
        } else if x.len() > 0 {
            table_paths(table, x)
        } else {
            Seq::empty()
        },
        None => if !is_glob {
            seq![prefix + item]
        } else if item.len() > 0 {
            table_paths(table, item).map_values(|y: Seq<char>| prefix + y)
        } else {
            Seq::empty()
        },
    }
}

/// The words that all items contribute, in order.
pub open spec fn flag_words(
    items: Seq<Seq<char>>,
    prefix: Seq<char>,
    is_glob: bool,
    env: Map<Seq<char>, Seq<char>>,
    table: Seq<(String, Vec<String>)>,
) -> Seq<Seq<char>>
    decreases items.len(),
{
    if items.len() == 0 {
        Seq::empty()
    } else {
        flag_words(items.drop_last(), prefix, is_glob, env, table) + item_words(items.last(), prefix, is_glob, env, table)
    }
}

/// `acc` followed by `w`, with a space between them when `acc` is not empty.
pub open spec fn append_word(acc: Seq<char>, w: Seq<char>) -> Seq<char> {
    if acc.len() > 0 {
        acc + seq![' '] + w
    } else {
        w
    }
}

/// Words joined from the left by `append_word`.
pub open spec fn join_words(ws: Seq<Seq<char>>) -> Seq<char>
    decreases ws.len(),
{
    if ws.len() == 0 {
        Seq::empty()
    } else {
        append_word(join_words(ws.drop_last()), ws.last())
    }
}

/// The flags of a setting: the joined words, or nothing when they join to
/// an empty string.
pub open spec fn expand_flags_spec(
    items: Seq<Seq<char>>,
    prefix: Seq<char>,
    is_glob: bool,
    env: Map<Seq<char>, Seq<char>>,
    table: Seq<(String, Vec<String>)>,
) -> Option<Seq<char>> {
    let s = join_words(flag_words(items, prefix, is_glob, env, table));
    if s.len() == 0 {
        None
    } else {
        Some(s)
    }
}

/// The path setting that one item asks to resolve, if any.
pub open spec fn item_path_setting(item: Seq<char>, is_glob: bool, env: Map<Seq<char>, Seq<char>>) -> Option<Seq<char>> {
    if !is_glob {
        None
    } else {
        match expand_var_spec(item, env) {
            Some(x) => if x.len() > 0 { Some(x) } else { None },
            None => if item.len() > 0 { Some(item) } else { None },
        }
    }
}

/// The path settings that the items ask to resolve, in order.
pub open spec fn flag_path_settings(items: Seq<Seq<char>>, is_glob: bool, env: Map<Seq<char>, Seq<char>>) -> Seq<Seq<char>>
    decreases items.len(),
{
    if items.len() == 0 {
        Seq::empty()
    } else {
        let rest = flag_path_settings(items.drop_last(), is_glob, env);
        match item_path_setting(items.last(), is_glob, env) {
            Some(x) => rest.push(x),
            None => rest,
        }
    }
}

/// Appends a word after a space, the space only when `acc` is not empty.
fn push_word(acc: &mut String, w: &str)
    ensures
        final(acc)@ == append_word(old(acc)@, w@),
{
    if !acc.as_str().is_empty() {
        push_char(acc, ' ');
    }
    push_str(acc, w);
    proof {
        if old(acc)@.len() > 0 {
            assert(final(acc)@ =~= old(acc)@ + seq![' '] + w@);
        }
    }
}

/// The words that one item contributes.
fn words_of_item(item: &String, prefix: &str, is_glob: bool, env: &Env, table: &PathTable) -> (r: Vec<String>)
    ensures
        views(r@) == item_words(item@, prefix@, is_glob, env@, table.entries@),
{
    match expand_var(item.as_str(), env) {
        Some(x) => {
            if !is_glob {
                let mut r: Vec<String> = Vec::new();
                r.push(x);
                assert(views(r@) =~= seq![x@]);
                r
            } else if !x.as_str().is_empty() {
                table.paths(x.as_str())
            } else {
                let r: Vec<String> = Vec::new();
                assert(views(r@) =~= Seq::<Seq<char>>::empty());
                r
            }
        },
        None => {
            if !is_glob {
                let mut w = prefix.to_owned();
                push_str(&mut w, item.as_str());
                let mut r: Vec<String> = Vec::new();
                r.push(w);
                assert(views(r@) =~= seq![prefix@ + item@]);
                r
            } else if !item.as_str().is_empty() {
                let found = table.paths(item.as_str());
                let mut r: Vec<String> = Vec::new();
                let mut k: usize = 0;
                while k < found.len()
                    invariant
                        k <= found.len(),
                        views(r@) == views(found@).take(k as int).map_values(|y: Seq<char>| prefix@ + y),
                    decreases found.len() - k,
                {
                    let mut w = prefix.to_owned();
                    push_str(&mut w, found[k].as_str());
                    let ghost r0 = r@;
                    r.push(w);
                    assert(views(r@) =~= views(r0).push(w@));
                    assert(views(found@)[k as int] == found@[k as int]@);
                    assert(views(r@) =~= views(found@).take(k + 1).map_values(|y: Seq<char>| prefix@ + y));
                    k = k + 1;
                }
                assert(views(found@).take(found.len() as int) =~= views(found@));
                r
            } else {
                let r: Vec<String> = Vec::new();
                assert(views(r@) =~= Seq::<Seq<char>>::empty());
                r
            }
        },
    }
}

/// The flags of a setting.
pub fn expand_flags(items: &Vec<String>, prefix: &str, is_glob: bool, env: &Env, table: &PathTable) -> (r: Option<String>)
    ensures
        match r {
            Some(s) => expand_flags_spec(views(items@), prefix@, is_glob, env@, table.entries@) == Some(s@),
            None => expand_flags_spec(views(items@), prefix@, is_glob, env@, table.entries@) is None,
        },
{
    let mut ret = String::new();
    let mut i: usize = 0;
    while i < items.len()
        invariant
            i <= items.len(),
            ret@ == join_words(flag_words(views(items@).take(i as int), prefix@, is_glob, env@, table.entries@)),
        decreases items.len() - i,
    {
        let ws = words_of_item(&items[i], prefix, is_glob, env, table);
        let ghost done = flag_words(views(items@).take(i as int), prefix@, is_glob, env@, table.entries@);
        assert(views(items@).take(i + 1).drop_last() =~= views(items@).take(i as int));
        assert(views(items@).take(i + 1).last() == items@[i as int]@);
        let mut k: usize = 0;
        while k < ws.len()
            invariant
                k <= ws.len(),
                ret@ == join_words(done + views(ws@).take(k as int)),
            decreases ws.len() - k,
        {
            push_word(&mut ret, ws[k].as_str());
            assert((done + views(ws@).take(k + 1)).drop_last() =~= done + views(ws@).take(k as int));
            k = k + 1;
        }
        assert(views(ws@).take(ws.len() as int) =~= views(ws@));
        i = i + 1;
    }
    assert(views(items@).take(items.len() as int) =~= views(items@));
    if ret.as_str().is_empty() {
        None
    } else {
        Some(ret)
    }
}

/// The path settings that a setting's items ask to resolve.
pub fn flag_path_settings_of(items: &Vec<String>, is_glob: bool, env: &Env) -> (r: Vec<String>)
    ensures
        views(r@) == flag_path_settings(views(items@), is_glob, env@),
{
    let mut r: Vec<String> = Vec::new();
    let mut i: usize = 0;
    while i < items.len()
        invariant
            i <= items.len(),
            views(r@) == flag_path_settings(views(items@).take(i as int), is_glob, env@),
        decreases items.len() - i,
    {
        assert(views(items@).take(i + 1).drop_last() =~= views(items@).take(i as int));
        assert(views(items@).take(i + 1).last() == items@[i as int]@);
        let ghost r0 = r@;
        if is_glob {
            match expand_var(items[i].as_str(), env) {
                Some(x) => {
                    if !x.as_str().is_empty() {
                        r.push(x);
                    }
                },
                None => {
                    if !items[i].as_str().is_empty() {
                        r.push(items[i].clone());
                    }
                },
            }
        }
        assert(views(r@) =~= flag_path_settings(views(items@).take(i + 1), is_glob, env@));
        i = i + 1;
    }
    assert(views(items@).take(items.len() as int) =~= views(items@));
    r
}

} // verus!
