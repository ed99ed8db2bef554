//! Sequences that take an item only the first time it comes.
//!
//! The crawl keeps what it has discovered in the order of discovery and never
//! twice. These are the operations behind that, and what holds of them.

use vstd::prelude::*;
use vstd::hash_set::StringHashSet;

verus! {

/// `seen`, with `item` behind it unless it is there already.
pub open spec fn push_new<A>(seen: Seq<A>, item: A) -> Seq<A> {
    if seen.contains(item) {
        seen
    } else {
        seen.push(item)
    }
}

/// `seen`, with every item of `items` that it lacks behind it: each once, in
/// the order of first appearance in `items`.
pub open spec fn extend_new<A>(seen: Seq<A>, items: Seq<A>) -> Seq<A>
    decreases items.len(),
{
    if items.len() == 0 {
        seen
    } else {
        push_new(extend_new(seen, items.drop_last()), items.last())
    }
}

/// The strings of `items`, each once, in the order of first appearance.
pub fn distinct(items: &Vec<String>) -> (kept: Vec<String>)
    ensures
        kept.deep_view() == extend_new(Seq::empty(), items.deep_view()),
{
    let mut seen = StringHashSet::new();
    let mut kept: Vec<String> = Vec::new();
    let mut i: usize = 0;
    assert(items.deep_view().take(0) =~= Seq::empty());
    assert(kept.deep_view() =~= Seq::empty());
    assert(seen@ =~= kept.deep_view().to_set());
    while i < items.len()
        invariant
            i <= items.len(),
            kept.deep_view() == extend_new(Seq::empty(), items.deep_view().take(i as int)),
            seen@ == kept.deep_view().to_set(),
        decreases items.len() - i,
    {
        let ghost before = kept.deep_view();
        proof {
            assert(items.deep_view().take(i + 1) =~= items.deep_view().take(i as int).push(items[i as int]@));
            lemma_extend_new_one(Seq::empty(), items.deep_view().take(i as int), items[i as int]@);
            lemma_push_new(before, items[i as int]@);
        }
        if !seen.contains(items[i].as_str()) {
            seen.insert(items[i].clone());
            kept.push(items[i].clone());
            assert(kept.deep_view() =~= before.push(items[i as int]@));
        }
        i += 1;
    }
    assert(items.deep_view().take(i as int) =~= items.deep_view());
    kept
}

/// Taking one item keeps what was there in place, adds at most that item,
/// and keeps a sequence without duplicates free of them.
pub proof fn lemma_push_new<A>(seen: Seq<A>, item: A)
    ensures
        seen.is_prefix_of(push_new(seen, item)),
        push_new(seen, item).len() <= seen.len() + 1,
        push_new(seen, item).to_set() == seen.to_set().insert(item),
        seen.no_duplicates() ==> push_new(seen, item).no_duplicates(),
{
    let after = push_new(seen, item);
    if !seen.contains(item) {
        assert(after[seen.len() as int] == item);
        assert forall|a: A| seen.contains(a) implies after.contains(a) by {
            let i = choose|i: int| 0 <= i < seen.len() && seen[i] == a;
            assert(after[i] == a);
        }
    }
    assert(after.to_set() =~= seen.to_set().insert(item));
}

/// Taking a run of items keeps what was there in place, adds exactly the
/// items that were missing, and keeps a sequence without duplicates free of
/// them.
pub proof fn lemma_extend_new<A>(seen: Seq<A>, items: Seq<A>)
    ensures
        seen.is_prefix_of(extend_new(seen, items)),
        extend_new(seen, items).len() <= seen.len() + items.len(),
        extend_new(seen, items).to_set() == seen.to_set().union(items.to_set()),
        seen.no_duplicates() ==> extend_new(seen, items).no_duplicates(),
    decreases items.len(),
{
    if items.len() == 0 {
        assert(seen.to_set().union(items.to_set()) =~= seen.to_set());
    } else {
        let front = items.drop_last();
        lemma_extend_new(seen, front);
        lemma_push_new(extend_new(seen, front), items.last());
        assert(front.push(items.last()) =~= items);
        assert(items.to_set() =~= front.to_set().insert(items.last())) by {
            lemma_push_to_set(front, items.last());
        }
        assert(extend_new(seen, items).to_set() =~= seen.to_set().union(items.to_set()));
    }
}

/// The items of a sequence with one more behind it are its items and that
/// one.
proof fn lemma_push_to_set<A>(items: Seq<A>, item: A)
    ensures
        items.push(item).to_set() == items.to_set().insert(item),
{
    let longer = items.push(item);
    assert(longer[items.len() as int] == item);
    assert forall|a: A| items.contains(a) implies longer.contains(a) by {
        let i = choose|i: int| 0 <= i < items.len() && items[i] == a;
        assert(longer[i] == a);
    }
    assert(longer.to_set() =~= items.to_set().insert(item));
}

/// Taking a run of items and then one more is taking the longer run.
pub proof fn lemma_extend_new_one<A>(seen: Seq<A>, items: Seq<A>, item: A)
    ensures
        extend_new(seen, items.push(item)) == push_new(extend_new(seen, items), item),
{
    assert(items.push(item).drop_last() =~= items);
}

/// What a sequence holds, every sequence that begins with it holds too.
pub proof fn lemma_prefix_contains<A>(front: Seq<A>, whole: Seq<A>, item: A)
    requires
        front.is_prefix_of(whole),
        front.contains(item),
    ensures
        whole.contains(item),
{
    let i = choose|i: int| 0 <= i < front.len() && front[i] == item;
    assert(whole[i] == item);
}

/// Distinct items that all occur in a sequence are no more than the sequence
/// is long. Where they are as many, and the sequence has no duplicates, the
/// two hold the same items.
pub proof fn lemma_distinct_within<A>(items: Seq<A>, within: Seq<A>)
    requires
        items.no_duplicates(),
        forall|i: int| 0 <= i < items.len() ==> within.contains(#[trigger] items[i]),
    ensures
        items.len() <= within.len(),
        items.len() == within.len() && within.no_duplicates() ==> items.to_set() == within.to_set(),
{
    broadcast use vstd::seq_lib::seq_to_set_is_finite;

    assert(items.to_set().subset_of(within.to_set()));
    items.unique_seq_to_set();
    within.lemma_cardinality_of_set();
    vstd::set_lib::lemma_len_subset(items.to_set(), within.to_set());
    if items.len() == within.len() && within.no_duplicates() {
        vstd::set_lib::lemma_subset_equality(items.to_set(), within.to_set());
    }
}

} // verus!
