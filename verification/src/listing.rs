//! What the root directory holds: which entries are generation directories,
//! which of them is the latest, and which are older.

use crate::names::{
    carries_tag, has_generation_tag, lemma_lex_lt_connected, lemma_lex_lt_irreflexive,
    lemma_lex_lt_transitive, lex_lt, name_lt,
};
use vstd::prelude::*;
use vstd::relations::{sorted_by, total_ordering};

verus! {

/// One entry of the root directory, as the caller found it.
#[derive(Debug, Clone, PartialEq, Eq)]
pub struct DirEntry {
    /// The entry's name inside the root directory.
    pub name: String,
    /// Whether the entry is a directory.
    pub is_dir: bool,
}

/// A directory entry as a mathematical value.
pub struct EntryModel {
    pub name: Seq<char>,
    pub is_dir: bool,
}

impl View for DirEntry {
    type V = EntryModel;

    open spec fn view(&self) -> EntryModel {
        EntryModel { name: self.name@, is_dir: self.is_dir }
    }
}

impl DeepView for DirEntry {
    type V = EntryModel;

    open spec fn deep_view(&self) -> EntryModel {
        self@
    }
}

/// An entry counts as a generation directory when it is a directory and its
/// name carries the tag.
pub open spec fn is_generation_entry(entry: EntryModel) -> bool {
    entry.is_dir && carries_tag(entry.name)
}

/// The names of the generation directories among `entries`, in the order of
/// the listing.
pub open spec fn generation_dirs(entries: Seq<EntryModel>) -> Seq<Seq<char>> {
    entries.filter(|e: EntryModel| is_generation_entry(e)).map_values(|e: EntryModel| e.name)
}

/// The order in which names are ranked: `a` does not sort after `b`.
pub open spec fn name_order() -> spec_fn(Seq<char>, Seq<char>) -> bool {
    |a: Seq<char>, b: Seq<char>| !lex_lt(b, a)
}

/// The names of the generation directories among `entries`, in ascending
/// order.
pub open spec fn ranked_generations(entries: Seq<EntryModel>) -> Seq<Seq<char>> {
    generation_dirs(entries).sort_by(name_order())
}

/// The generation directory whose name sorts last, if there is any.
pub open spec fn latest_generation(entries: Seq<EntryModel>) -> Option<Seq<char>> {
    let ranked = ranked_generations(entries);
    if ranked.len() == 0 {
        None
    } else {
        Some(ranked.last())
    }
}

/// The generation directories that sort before the latest, in ascending
/// order.
pub open spec fn older_generations(entries: Seq<EntryModel>) -> Seq<Seq<char>> {
    let ranked = ranked_generations(entries);
    if ranked.len() == 0 {
        ranked
    } else {
        ranked.drop_last()
    }
}

/// The order on names is a total order.
pub proof fn lemma_name_order_total()
    ensures
        total_ordering(name_order()),
{
    let r = name_order();
    assert forall|x: Seq<char>| #[trigger] r(x, x) by {
        lemma_lex_lt_irreflexive(x);
    }
    assert forall|x: Seq<char>, y: Seq<char>| #[trigger] r(x, y) && #[trigger] r(y, x) implies x
        == y by {
        lemma_lex_lt_connected(x, y);
    }
    assert forall|x: Seq<char>, y: Seq<char>, z: Seq<char>| #[trigger]
        r(x, y) && #[trigger] r(y, z) implies r(x, z) by {
        lemma_lex_lt_connected(x, y);
        if lex_lt(z, x) && lex_lt(x, y) {
            lemma_lex_lt_transitive(z, x, y);
        }
    }
    assert forall|x: Seq<char>, y: Seq<char>| #[trigger] r(x, y) || #[trigger] r(y, x) by {
        if lex_lt(x, y) && lex_lt(y, x) {
            lemma_lex_lt_transitive(x, y, x);
            lemma_lex_lt_irreflexive(x);
        }
    }
}

/// The ranking holds exactly the generation directories of the listing, each
/// as often as the listing names it, and no name in it stands before one that
/// sorts strictly before it.
pub proof fn lemma_ranked_generations(entries: Seq<EntryModel>)
    ensures
        ranked_generations(entries).to_multiset() == generation_dirs(entries).to_multiset(),
        ranked_generations(entries).len() == generation_dirs(entries).len(),
        forall|i: int, j: int|
            0 <= i < j < ranked_generations(entries).len() ==> !lex_lt(
                #[trigger] ranked_generations(entries)[j],
                #[trigger] ranked_generations(entries)[i],
            ),
{
    lemma_name_order_total();
    generation_dirs(entries).lemma_sort_by_ensures(name_order());
    ranked_generations(entries).to_multiset_ensures();
    generation_dirs(entries).to_multiset_ensures();
    let ranked = ranked_generations(entries);
    assert forall|i: int, j: int| 0 <= i < j < ranked.len() implies !lex_lt(
        #[trigger] ranked[j],
        #[trigger] ranked[i],
    ) by {
        assert(name_order()(ranked[i], ranked[j]));
    }
}

/// A listing without generation directories has no latest generation and no
/// older ones.
pub proof fn lemma_no_generation(entries: Seq<EntryModel>)
    requires
        generation_dirs(entries).len() == 0,
    ensures
        latest_generation(entries) is None,
        older_generations(entries) == Seq::<Seq<char>>::empty(),
{
    lemma_ranked_generations(entries);
    assert(older_generations(entries) =~= Seq::<Seq<char>>::empty());
}

/// In a listing with one generation directory, that one is the latest and
/// none is older.
pub proof fn lemma_single_generation(entries: Seq<EntryModel>, name: Seq<char>)
    requires
        generation_dirs(entries) == seq![name],
    ensures
        latest_generation(entries) == Some(name),
        older_generations(entries) == Seq::<Seq<char>>::empty(),
{
    lemma_ranked_generations(entries);
    let ranked = ranked_generations(entries);
    assert(ranked.len() == 1);
    ranked.to_multiset_ensures();
    seq![name].to_multiset_ensures();
    assert(ranked.contains(ranked[0]));
    assert(ranked.to_multiset().count(ranked[0]) > 0);
    assert(seq![name].to_multiset().count(ranked[0]) > 0);
    assert(seq![name].contains(ranked[0]));
    assert(older_generations(entries) =~= Seq::<Seq<char>>::empty());
}

/// The latest generation is one of the listing's directories, and carries the
/// tag.
pub proof fn lemma_latest_is_listed(entries: Seq<EntryModel>)
    ensures
        latest_generation(entries) matches Some(latest) ==> carries_tag(latest) && entries.contains(
            EntryModel { name: latest, is_dir: true },
        ),
{
    if let Some(latest) = latest_generation(entries) {
        lemma_ranked_generations(entries);
        let ranked = ranked_generations(entries);
        let dirs = generation_dirs(entries);
        ranked.to_multiset_ensures();
        dirs.to_multiset_ensures();
        assert(ranked.contains(ranked.last()));
        assert(ranked.to_multiset().count(latest) > 0);
        assert(dirs.to_multiset().count(latest) > 0);
        assert(dirs.contains(latest));
        let pred = |e: EntryModel| is_generation_entry(e);
        let kept = entries.filter(pred);
        let at = choose|at: int| 0 <= at < dirs.len() && dirs[at] == latest;
        assert(kept[at].name == latest);
        entries.lemma_filter_pred(pred, at);
        assert(kept.contains(kept[at]));
        entries.lemma_filter_contains_rev(pred, kept[at]);
        assert(kept[at] == EntryModel { name: latest, is_dir: true });
    }
}

/// The generation directories of a listing that is longer by one entry.
pub proof fn lemma_generation_dirs_push(entries: Seq<EntryModel>, entry: EntryModel)
    ensures
        generation_dirs(entries.push(entry)) == if is_generation_entry(entry) {
            generation_dirs(entries).push(entry.name)
        } else {
            generation_dirs(entries)
        },
        generation_dirs(Seq::empty()) == Seq::<Seq<char>>::empty(),
{
    let longer = entries.push(entry);
    assert(longer.take(entries.len() as int) =~= entries);
    assert(longer.take(longer.len() as int) =~= longer);
    lemma_generation_dirs_step(longer, entries.len() as int);
    assert(generation_dirs(Seq::empty()) =~= Seq::<Seq<char>>::empty()) by {
        reveal(Seq::filter);
    }
}

proof fn lemma_generation_dirs_step(entries: Seq<EntryModel>, i: int)
    requires
        0 <= i < entries.len(),
    ensures
        generation_dirs(entries.take(i + 1)) == if is_generation_entry(entries[i]) {
            generation_dirs(entries.take(i)).push(entries[i].name)
        } else {
            generation_dirs(entries.take(i))
        },
{
    let pred = |e: EntryModel| is_generation_entry(e);
    let longer = entries.take(i + 1);
    assert(longer.drop_last() =~= entries.take(i));
    assert(longer.last() == entries[i]);
    reveal(Seq::filter);
    if is_generation_entry(entries[i]) {
        assert(longer.filter(pred) == entries.take(i).filter(pred).push(entries[i]));
        assert(generation_dirs(longer) =~= generation_dirs(entries.take(i)).push(entries[i].name));
    } else {
        assert(longer.filter(pred) == entries.take(i).filter(pred));
    }
}

proof fn lemma_insert_to_multiset(s: Seq<Seq<char>>, at: int, name: Seq<char>)
    requires
        0 <= at <= s.len(),
    ensures
        s.insert(at, name).to_multiset() == s.to_multiset().insert(name),
{
    let longer = s.insert(at, name);
    assert(longer.remove(at) =~= s);
    vstd::seq_lib::to_multiset_remove(longer, at);
    assert(longer.to_multiset().count(name) > 0) by {
        longer.to_multiset_ensures();
        assert(longer[at] == name);
        assert(longer.contains(name));
    }
    assert(longer.to_multiset() =~= s.to_multiset().insert(name));
}

/// Puts `name` into the ascending list `out`, behind every name that does not
/// sort after it.
fn insert_sorted(out: &mut Vec<String>, name: String)
    requires
        sorted_by(old(out).deep_view(), name_order()),
    ensures
        sorted_by(final(out).deep_view(), name_order()),
        final(out).deep_view().to_multiset() == old(out).deep_view().to_multiset().insert(name@),
{
    let mut at: usize = 0;
    while at < out.len() && !name_lt(name.as_str(), out[at].as_str())
        invariant
            at <= out.len(),
            forall|k: int| 0 <= k < at ==> !lex_lt(name@, #[trigger] out@[k]@),
        decreases out.len() - at,
    {
        at += 1;
    }
    let ghost before = out.deep_view();
    let ghost shown = name@;
    out.insert(at, name);
    proof {
        let after = out.deep_view();
        assert(after =~= before.insert(at as int, shown));
        lemma_insert_to_multiset(before, at as int, shown);
        assert forall|i: int, j: int| 0 <= i < j < after.len() implies #[trigger] name_order()(
            after[i],
            after[j],
        ) by {
            if i == at {
                // `shown` sorts before `before[at]`, which does not sort after `after[j]`.
                if lex_lt(after[j], shown) {
                    assert(after[j] == before[j - 1]);
                    if j - 1 > at {
                        assert(name_order()(before[at as int], before[j - 1]));
                    }
                    lemma_lex_lt_transitive(after[j], shown, before[at as int]);
                    lemma_lex_lt_irreflexive(before[at as int]);
                }
            } else if j == at {
                assert(after[i] == before[i]);
                assert(before[i] == old(out)@[i]@);
            } else {
                let bi = if i < at { i } else { i - 1 };
                let bj = if j < at { j } else { j - 1 };
                assert(after[i] == before[bi]);
                assert(after[j] == before[bj]);
                assert(name_order()(before[bi], before[bj]));
            }
        }
    }
}

/// Ranks the generation directories of a listing by name and splits off the
/// last one: the candidate for reuse, and the older ones, which are due for
/// cleanup. Entries that are no directories or lack the tag are left aside.
pub fn find_existing_extract_dirs(entries: &[DirEntry]) -> (found: (Option<String>, Vec<String>))
    ensures
        found.0.deep_view() == latest_generation(entries.deep_view()),
        found.1.deep_view() == older_generations(entries.deep_view()),
{
    let ghost listing = entries.deep_view();
    let mut dirs: Vec<String> = Vec::new();
    let mut i: usize = 0;
    proof {
        assert(listing.take(0) =~= Seq::empty());
        assert(generation_dirs(Seq::empty()) =~= Seq::empty()) by {
            reveal(Seq::filter);
        }
        assert(dirs.deep_view() =~= Seq::empty());
    }
    while i < entries.len()
        invariant
            i <= entries.len(),
            listing == entries.deep_view(),
            sorted_by(dirs.deep_view(), name_order()),
            dirs.deep_view().to_multiset() == generation_dirs(listing.take(i as int)).to_multiset(),
        decreases entries.len() - i,
    {
        proof {
            lemma_generation_dirs_step(listing, i as int);
            vstd::seq_lib::to_multiset_build(
                generation_dirs(listing.take(i as int)),
                listing[i as int].name,
            );
        }
        if entries[i].is_dir && has_generation_tag(entries[i].name.as_str()) {
            insert_sorted(&mut dirs, entries[i].name.clone());
        }
        i += 1;
    }
    let ghost all = dirs.deep_view();
    proof {
        assert(listing.take(entries.len() as int) =~= listing);
        lemma_name_order_total();
        generation_dirs(listing).lemma_sort_by_ensures(name_order());
        vstd::seq_lib::lemma_sorted_unique(all, ranked_generations(listing), name_order());
    }
    let latest = dirs.pop();
    proof {
        if latest.is_some() {
            assert(dirs.deep_view() =~= all.drop_last());
        } else {
            assert(dirs.deep_view() =~= all);
        }
    }
    (latest, dirs)
}

} // verus!
