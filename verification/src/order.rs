//! The order in which a pass visits the marked cells.

use crate::grid::ChunkStore;
use crate::sorting::{lemma_sorted_distinct, pair_le, sort_pairs};
use crate::world::{key_of, marked_keys};
use vstd::prelude::*;

verus! {

/// The order of keys: by the first number, then by the second.
pub open spec fn key_before(a: (int, int), b: (int, int)) -> bool {
    a.0 < b.0 || (a.0 == b.0 && a.1 < b.1)
}

/// Whether `keys` holds the keys in `cells`, each once, in ascending order.
pub open spec fn is_ascending(keys: Seq<(int, int)>, cells: Set<(int, int)>) -> bool {
    &&& forall|i: int, j: int|
        0 <= i < j < keys.len() ==> key_before(#[trigger] keys[i], #[trigger] keys[j])
    &&& forall|key: (int, int)| keys.contains(key) <==> cells.contains(key)
}

/// The keys in `cells` in ascending order.
pub open spec fn ascending(cells: Set<(int, int)>) -> Seq<(int, int)> {
    choose|keys: Seq<(int, int)>| is_ascending(keys, cells)
}

/// The ascending order of no keys is empty.
pub proof fn lemma_ascending_of_none(cells: Set<(int, int)>)
    requires
        forall|key: (int, int)| !cells.contains(key),
    ensures
        ascending(cells) == Seq::<(int, int)>::empty(),
{
    let empty = Seq::<(int, int)>::empty();
    assert(is_ascending(empty, cells));
    lemma_ascending_unique(empty, ascending(cells), cells);
}

/// The ascending order of one key is that key.
pub proof fn lemma_ascending_of_one(only: (int, int), cells: Set<(int, int)>)
    requires
        forall|key: (int, int)| cells.contains(key) <==> key == only,
    ensures
        ascending(cells) == seq![only],
        ascending(cells).reverse() == seq![only],
{
    let keys = seq![only];
    assert forall|key: (int, int)| keys.contains(key) <==> cells.contains(key) by {
        if key == only {
            assert(keys[0] == key);
        }
    }
    assert(is_ascending(keys, cells));
    lemma_ascending_unique(keys, ascending(cells), cells);
    assert(keys.reverse() =~= keys);
}

/// A set of keys has one ascending order only: the order in which a pass
/// visits its cells depends on nothing but which cells are marked.
pub proof fn lemma_ascending_unique(a: Seq<(int, int)>, b: Seq<(int, int)>, cells: Set<(int, int)>)
    requires
        is_ascending(a, cells),
        is_ascending(b, cells),
    ensures
        a == b,
    decreases a.len(),
{
    if a.len() == 0 {
        if b.len() > 0 {
            assert(b.contains(b[0]));
            assert(a.contains(b[0]));
        }
        assert(a =~= b);
    } else {
        assert(a.contains(a[0]));
        assert(b.contains(a[0]));
        let j = choose|j: int| 0 <= j < b.len() && b[j] == a[0];
        assert(b.contains(b[0]));
        assert(a.contains(b[0]));
        let i = choose|i: int| 0 <= i < a.len() && a[i] == b[0];
        if i != 0 && j != 0 {
            assert(key_before(a[0], a[i]));
            assert(key_before(b[0], b[j]));
        }
        assert(a[0] == b[0]);
        let rest = cells.remove(a[0]);
        let a1 = a.drop_first();
        let b1 = b.drop_first();
        assert forall|key: (int, int)| a1.contains(key) <==> rest.contains(key) by {
            if a1.contains(key) {
                let at = choose|at: int| 0 <= at < a1.len() && a1[at] == key;
                assert(a[at + 1] == key);
                assert(key_before(a[0], a[at + 1]));
                assert(a.contains(key));
            }
            if rest.contains(key) {
                assert(a.contains(key));
                let at = choose|at: int| 0 <= at < a.len() && a[at] == key;
                assert(a1[at - 1] == key);
            }
        }
        assert forall|key: (int, int)| b1.contains(key) <==> rest.contains(key) by {
            if b1.contains(key) {
                let at = choose|at: int| 0 <= at < b1.len() && b1[at] == key;
                assert(b[at + 1] == key);
                assert(key_before(b[0], b[at + 1]));
                assert(b.contains(key));
            }
            if rest.contains(key) {
                assert(b.contains(key));
                let at = choose|at: int| 0 <= at < b.len() && b[at] == key;
                assert(b1[at - 1] == key);
            }
        }
        assert forall|i: int, j: int| 0 <= i < j < a1.len() implies key_before(
            #[trigger] a1[i],
            #[trigger] a1[j],
        ) by {
            assert(key_before(a[i + 1], a[j + 1]));
        }
        assert forall|i: int, j: int| 0 <= i < j < b1.len() implies key_before(
            #[trigger] b1[i],
            #[trigger] b1[j],
        ) by {
            assert(key_before(b[i + 1], b[j + 1]));
        }
        lemma_ascending_unique(a1, b1, rest);
        assert(a =~= seq![a[0]] + a1);
        assert(b =~= seq![b[0]] + b1);
    }
}

/// Pairs of 32-bit numbers as keys.
pub open spec fn keys_of(pairs: Seq<(i32, i32)>) -> Seq<(int, int)> {
    Seq::new(pairs.len(), |i: int| key_of(pairs[i]))
}

/// Keys that were collected once each and then sorted are the keys in
/// ascending order.
pub proof fn lemma_sorted_is_ascending(
    collected: Seq<(i32, i32)>,
    sorted: Seq<(i32, i32)>,
    cells: Set<(int, int)>,
)
    requires
        collected.no_duplicates(),
        forall|pair: (i32, i32)| collected.contains(pair) <==> cells.contains(key_of(pair)),
        forall|key: (int, int)| #[trigger]
            cells.contains(key) ==> i32::MIN <= key.0 <= i32::MAX && i32::MIN <= key.1
                <= i32::MAX,
        sorted.to_multiset() == collected.to_multiset(),
        forall|i: int, j: int|
            0 <= i <= j < sorted.len() ==> pair_le(#[trigger] sorted[i], #[trigger] sorted[j]),
    ensures
        keys_of(sorted) == ascending(cells),
{
    lemma_sorted_distinct(collected, sorted);
    let order = keys_of(sorted);
    assert forall|key: (int, int)| order.contains(key) <==> cells.contains(key) by {
        if order.contains(key) {
            let at = choose|at: int| 0 <= at < order.len() && order[at] == key;
            assert(sorted.contains(sorted[at]));
        }
        if cells.contains(key) {
            let pair = (key.0 as i32, key.1 as i32);
            assert(key_of(pair) == key);
            assert(sorted.contains(pair));
            let at = choose|at: int| 0 <= at < sorted.len() && sorted[at] == pair;
            assert(order[at] == key);
        }
    }
    assert(is_ascending(order, cells));
    lemma_ascending_unique(order, ascending(cells), cells);
}

/// The keys of the marked cells in ascending order: the cells that a pass
/// visits, in the order of its visits.
pub(crate) fn pass_keys(store: &ChunkStore, falling: bool) -> (keys: Vec<(i32, i32)>)
    requires
        store.wf(),
    ensures
        keys_of(keys@) == ascending(marked_keys(store@, falling)),
{
    let mut keys = store.collect_marked(falling);
    let ghost collected = keys@;
    sort_pairs(&mut keys);
    proof {
        store.lemma_view_wf();
        lemma_sorted_is_ascending(collected, keys@, marked_keys(store@, falling));
    }
    keys
}

} // verus!
