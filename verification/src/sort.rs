//! The sorter: a stable ordering of the entries by name, size or time.

use vstd::prelude::*;
use vstd::seq_lib::{seq_to_set_is_finite, to_multiset_build, to_multiset_insert};
use vstd::set_lib::{lemma_int_range, lemma_subset_equality, set_int_range};
use crate::entry::{entry_views, time_le, Entry, EntryView, SortKey};
use crate::text::{
    lemma_text_le_total, lemma_text_le_transitive, text_le, text_precedes,
};

verus! {

/// Whether `a` is ordered no later than `b` under the key: by name in
/// dictionary order, by size or by time of modification, ascending.
pub open spec fn key_le(key: SortKey, a: EntryView, b: EntryView) -> bool {
    match key {
        SortKey::Name => text_le(a.name, b.name),
        SortKey::Size => a.size <= b.size,
        SortKey::Time => time_le(a.modified, b.modified),
    }
}

/// Whether the entries never decrease under the key from one place to a
/// later one.
pub open spec fn non_decreasing(key: SortKey, entries: Seq<EntryView>) -> bool {
    forall|k: int, l: int| 0 <= k < l < entries.len() ==> key_le(key, entries[k], entries[l])
}

/// Whether the entry at place `i` of `input` belongs before the one at place
/// `j`: its key is smaller, or the keys are equal and it stood first.
pub open spec fn goes_before(key: SortKey, input: Seq<EntryView>, i: int, j: int) -> bool {
    !key_le(key, input[j], input[i]) || (key_le(key, input[i], input[j]) && i < j)
}

/// Whether `places` lists places of `input`, one for each entry of the
/// output, such that every listed place belongs before all later ones.
pub open spec fn is_stable_order(key: SortKey, input: Seq<EntryView>, places: Seq<int>) -> bool {
    &&& places.len() == input.len()
    &&& forall|k: int| 0 <= k < places.len() ==> 0 <= #[trigger] places[k] < input.len()
    &&& forall|k: int, l: int|
        0 <= k < l < places.len() ==> goes_before(key, input, places[k], places[l])
}

/// The entries of `input` taken in the order of `places`.
pub open spec fn arranged(input: Seq<EntryView>, places: Seq<int>) -> Seq<EntryView> {
    Seq::new(places.len(), |k: int| input[places[k]])
}

/// Whether `output` is `input` sorted by the key, entries with equal keys
/// keeping the order that they had in `input`.
pub open spec fn is_stable_sort(key: SortKey, input: Seq<EntryView>, output: Seq<EntryView>) -> bool {
    exists|places: Seq<int>|
        is_stable_order(key, input, places) && output == arranged(input, places)
}

/// Of two entries one is ordered no later than the other.
pub proof fn lemma_key_le_total(key: SortKey, a: EntryView, b: EntryView)
    ensures
        key_le(key, a, b) || key_le(key, b, a),
{
    lemma_text_le_total(a.name, b.name);
}

/// The order under a key is transitive.
pub proof fn lemma_key_le_transitive(key: SortKey, a: EntryView, b: EntryView, c: EntryView)
    requires
        key_le(key, a, b),
        key_le(key, b, c),
    ensures
        key_le(key, a, c),
{
    if key == SortKey::Name {
        lemma_text_le_transitive(a.name, b.name, c.name);
    }
}

/// Decides whether `a` is ordered no later than `b` under the key.
pub fn entry_le(key: SortKey, a: &Entry, b: &Entry) -> (le: bool)
    ensures
        le == key_le(key, a@, b@),
{
    match key {
        SortKey::Name => text_precedes(a.name(), b.name()),
        SortKey::Size => a.size() <= b.size(),
        SortKey::Time => a.modified().no_later_than(&b.modified()),
    }
}

/// The first place of `sorted` whose entry is not ordered before `entry`.
fn insertion_point(sorted: &Vec<Entry>, entry: &Entry, key: SortKey) -> (at: usize)
    ensures
        at <= sorted.len(),
        forall|k: int| 0 <= k < at ==> !key_le(key, entry@, #[trigger] sorted[k]@),
        at < sorted.len() ==> key_le(key, entry@, sorted[at as int]@),
{
    let mut at: usize = 0;
    while at < sorted.len() && !entry_le(key, entry, &sorted[at])
        invariant
            at <= sorted.len(),
            forall|k: int| 0 <= k < at ==> !key_le(key, entry@, #[trigger] sorted[k]@),
        decreases sorted.len() - at,
    {
        at = at + 1;
    }
    at
}

/// Orders the entries by the key, ascending. The sort is stable: entries
/// whose keys are equal keep the order in which they came.
pub fn sort(entries: Vec<Entry>, key: SortKey) -> (sorted: Vec<Entry>)
    ensures
        is_stable_sort(key, entry_views(entries@), entry_views(sorted@)),
        non_decreasing(key, entry_views(sorted@)),
        entry_views(sorted@).to_multiset() == entry_views(entries@).to_multiset(),
{
    let ghost input = entry_views(entries@);
    let mut rest = entries;
    let mut sorted: Vec<Entry> = Vec::new();
    let ghost mut places: Seq<int> = Seq::empty();
    proof {
        assert(entry_views(rest@) =~= input.take(rest.len() as int));
        assert(entry_views(sorted@) =~= arranged(input, places));
        assert(entry_views(sorted@).to_multiset().add(entry_views(rest@).to_multiset())
            =~= input.to_multiset()) by {
            broadcast use vstd::seq_lib::group_to_multiset_ensures;

        }
    }
    while rest.len() > 0
        invariant
            rest.len() <= input.len(),
            entry_views(rest@) == input.take(rest.len() as int),
            places.len() + rest.len() == input.len(),
            forall|k: int|
                0 <= k < places.len() ==> rest.len() <= #[trigger] places[k] < input.len(),
            forall|k: int, l: int|
                0 <= k < l < places.len() ==> goes_before(key, input, places[k], places[l]),
            entry_views(sorted@) == arranged(input, places),
            entry_views(sorted@).to_multiset().add(entry_views(rest@).to_multiset())
                == input.to_multiset(),
        decreases rest.len(),
    {
        let ghost before = entry_views(sorted@);
        let ghost pending = entry_views(rest@);
        let entry = rest.pop().unwrap();
        let ghost place = rest.len() as int;
        let at = insertion_point(&sorted, &entry, key);
        proof {
            assert(pending[place] == entry@);
            assert(input[place] == entry@);
            assert(entry_views(rest@) =~= input.take(place));
            assert(pending =~= entry_views(rest@).push(entry@));
            to_multiset_build(entry_views(rest@), entry@);
            to_multiset_insert(before, at as int, entry@);
            assert forall|l: int| at <= l < sorted.len() implies key_le(
                key,
                entry@,
                #[trigger] before[l],
            ) by {
                if l > at {
                    assert(goes_before(key, input, places[at as int], places[l]));
                    lemma_key_le_total(key, before[at as int], before[l]);
                    lemma_key_le_transitive(key, entry@, before[at as int], before[l]);
                }
            }
        }
        sorted.insert(at, entry);
        proof {
            let moved = places.insert(at as int, place);
            assert(entry_views(sorted@) =~= before.insert(at as int, entry@));
            assert(entry_views(sorted@) =~= arranged(input, moved));
            assert forall|k: int, l: int| 0 <= k < l < moved.len() implies goes_before(
                key,
                input,
                moved[k],
                moved[l],
            ) by {
                if l < at {
                    assert(goes_before(key, input, places[k], places[l]));
                } else if l == at {
                    assert(input[places[k]] == before[k]);
                } else if k < at {
                    assert(goes_before(key, input, places[k], places[l - 1]));
                } else if k == at {
                    assert(input[places[l - 1]] == before[l - 1]);
                } else {
                    assert(goes_before(key, input, places[k - 1], places[l - 1]));
                }
            }
            assert(entry_views(sorted@).to_multiset().add(entry_views(rest@).to_multiset())
                =~= input.to_multiset());
            places = moved;
        }
    }
    proof {
        assert(is_stable_order(key, input, places));
        lemma_stable_sort_non_decreasing(key, input, entry_views(sorted@));
        assert(entry_views(rest@) =~= Seq::<EntryView>::empty());
        assert(entry_views(sorted@).to_multiset() =~= input.to_multiset()) by {
            broadcast use vstd::seq_lib::group_to_multiset_ensures;

        }
    }
    sorted
}

/// A stable sort never decreases under its key from one place to a later
/// one: names in dictionary order, sizes or times ascending.
pub proof fn lemma_stable_sort_non_decreasing(
    key: SortKey,
    input: Seq<EntryView>,
    output: Seq<EntryView>,
)
    requires
        is_stable_sort(key, input, output),
    ensures
        non_decreasing(key, output),
{
    let places = choose|places: Seq<int>|
        is_stable_order(key, input, places) && output == arranged(input, places);
    assert forall|k: int, l: int| 0 <= k < l < output.len() implies key_le(
        key,
        output[k],
        output[l],
    ) by {
        assert(goes_before(key, input, places[k], places[l]));
        lemma_key_le_total(key, output[k], output[l]);
    }
}

/// Whether two entries have the same key.
pub open spec fn key_equal(key: SortKey, a: EntryView, b: EntryView) -> bool {
    key_le(key, a, b) && key_le(key, b, a)
}

/// A stable sort keeps ties in order: of two entries with the same key, the
/// one that stood first in the input stands first in the output.
pub proof fn lemma_stable_sort_keeps_ties(
    key: SortKey,
    input: Seq<EntryView>,
    output: Seq<EntryView>,
)
    requires
        is_stable_sort(key, input, output),
    ensures
        exists|places: Seq<int>|
            {
                &&& is_stable_order(key, input, places)
                &&& output == arranged(input, places)
                &&& forall|k: int, l: int|
                    0 <= k < places.len() && 0 <= l < places.len() && places[k] < places[l]
                        && key_equal(key, input[places[k]], input[places[l]]) ==> k < l
            },
{
    let places = choose|places: Seq<int>|
        is_stable_order(key, input, places) && output == arranged(input, places);
    assert forall|k: int, l: int|
        0 <= k < places.len() && 0 <= l < places.len() && places[k] < places[l] && key_equal(
            key,
            input[places[k]],
            input[places[l]],
        ) implies k < l by {
        if l < k {
            assert(goes_before(key, input, places[l], places[k]));
        }
    }
}

/// No two entries of the output come from the same place of the input, and
/// every place of the input is taken: the output is a rearrangement.
pub proof fn lemma_stable_order_is_rearrangement(
    key: SortKey,
    input: Seq<EntryView>,
    places: Seq<int>,
)
    requires
        is_stable_order(key, input, places),
    ensures
        places.no_duplicates(),
        forall|i: int| 0 <= i < input.len() ==> places.contains(i),
{
    assert forall|k: int, l: int| 0 <= k < places.len() && 0 <= l < places.len() && k
        != l implies places[k] != places[l] by {
        lemma_key_le_total(key, input[places[k]], input[places[k]]);
        if k < l {
            assert(goes_before(key, input, places[k], places[l]));
        } else {
            assert(goes_before(key, input, places[l], places[k]));
        }
    }
    let taken = places.to_set();
    let all = set_int_range(0, input.len() as int);
    places.unique_seq_to_set();
    lemma_int_range(0, input.len() as int);
    assert(taken.subset_of(all)) by {
        assert forall|i: int| taken.contains(i) implies all.contains(i) by {
            let k = choose|k: int| 0 <= k < places.len() && places[k] == i;
            assert(0 <= places[k] < input.len());
        }
    }
    seq_to_set_is_finite(places);
    lemma_subset_equality(taken, all);
    assert forall|i: int| 0 <= i < input.len() implies places.contains(i) by {
        assert(all.contains(i));
        assert(taken.contains(i));
    }
}

/// Two stable orders of one input agree on their first `upto` places.
proof fn lemma_stable_orders_agree(
    key: SortKey,
    input: Seq<EntryView>,
    first: Seq<int>,
    second: Seq<int>,
    upto: int,
)
    requires
        is_stable_order(key, input, first),
        is_stable_order(key, input, second),
        0 <= upto <= input.len(),
    ensures
        forall|k: int| 0 <= k < upto ==> first[k] == second[k],
    decreases upto,
{
    if upto > 0 {
        let m = upto - 1;
        lemma_stable_orders_agree(key, input, first, second, m);
        lemma_stable_order_is_rearrangement(key, input, first);
        lemma_stable_order_is_rearrangement(key, input, second);
        if first[m] != second[m] {
            assert(0 <= first[m] < input.len());
            assert(0 <= second[m] < input.len());
            assert(second.contains(first[m]));
            assert(first.contains(second[m]));
            let a = choose|a: int| 0 <= a < second.len() && second[a] == first[m];
            let b = choose|b: int| 0 <= b < first.len() && first[b] == second[m];
            assert(a > m) by {
                if a < m {
                    assert(first[a] == second[a]);
                }
            }
            assert(b > m) by {
                if b < m {
                    assert(first[b] == second[b]);
                }
            }
            assert(goes_before(key, input, second[m], second[a]));
            assert(goes_before(key, input, first[m], first[b]));
            lemma_key_le_total(key, input[first[m]], input[second[m]]);
            assert(false);
        }
    }
}

/// The stable sort of an input is one sequence: two outputs that are both a
/// stable sort of it are equal.
pub proof fn lemma_stable_sort_unique(
    key: SortKey,
    input: Seq<EntryView>,
    first: Seq<EntryView>,
    second: Seq<EntryView>,
)
    requires
        is_stable_sort(key, input, first),
        is_stable_sort(key, input, second),
    ensures
        first == second,
{
    let p = choose|places: Seq<int>|
        is_stable_order(key, input, places) && first == arranged(input, places);
    let q = choose|places: Seq<int>|
        is_stable_order(key, input, places) && second == arranged(input, places);
    lemma_stable_orders_agree(key, input, p, q, input.len() as int);
    assert(p =~= q);
}

} // verus!
