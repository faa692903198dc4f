//! What holds of every registry, stated over the records that
//! `Validators::from_iter` promises.
use vstd::prelude::*;

use crate::order::{id_lt, lawful_order, lemma_lt_asym};
use crate::validators::{is_registry_of, lists_id, position_in, strictly_ascending};

verus! {

/// The identifiers of a sequence of records, in the same order.
pub open spec fn ids_of<VID>(s: Seq<(VID, u64)>) -> Seq<VID> {
    s.map_values(|p: (VID, u64)| p.0)
}

/// Records in strictly ascending order never repeat an identifier.
proof fn lemma_ascending_ids_distinct<VID: Ord>(r: Seq<(VID, u64)>)
    requires
        lawful_order::<VID>(),
        strictly_ascending(r),
    ensures
        forall|i: int, j: int| 0 <= i < r.len() && 0 <= j < r.len() && i != j ==> r[i].0 != r[j].0,
{
    assert forall|i: int, j: int|
        0 <= i < r.len() && 0 <= j < r.len() && i != j implies r[i].0 != r[j].0 by {
        if i < j {
            lemma_lt_asym(r[i].0, r[j].0);
        } else {
            lemma_lt_asym(r[j].0, r[i].0);
        }
    }
}

/// Indices form a bijection between the input's identifiers and `0..N`:
/// each identifier of the input has exactly one index, each index below N
/// belongs to an identifier of the input, no two indices share an
/// identifier, and N is the number of distinct identifiers in the input.
pub proof fn lemma_indices_biject<VID: Ord>(pairs: Seq<(VID, u64)>, r: Seq<(VID, u64)>)
    requires
        lawful_order::<VID>(),
        is_registry_of(r, pairs),
    ensures
        forall|id: VID| lists_id(pairs, id) ==> exists|i: int| #[trigger] position_in(r, id, i),
        forall|id: VID, i: int, j: int|
            #[trigger] position_in(r, id, i) && #[trigger] position_in(r, id, j) ==> i == j,
        forall|i: int| 0 <= i < r.len() ==> lists_id(pairs, #[trigger] r[i].0),
        ids_of(r).no_duplicates(),
        r.len() == ids_of(pairs).to_set().len(),
{
    lemma_ascending_ids_distinct(r);
    assert forall|id: VID| lists_id(pairs, id) implies exists|i: int|
        #[trigger] position_in(r, id, i) by {
        assert(lists_id(r, id));
        let i = choose|i: int| 0 <= i < r.len() && #[trigger] r[i].0 == id;
        assert(position_in(r, id, i));
    }
    assert forall|i: int| 0 <= i < r.len() implies lists_id(pairs, #[trigger] r[i].0) by {
        assert(lists_id(r, r[i].0));
    }
    assert(ids_of(r).no_duplicates());
    ids_of(r).unique_seq_to_set();
    assert forall|id: VID| ids_of(r).to_set().contains(id) <==> ids_of(pairs).to_set().contains(
        id,
    ) by {
        if ids_of(r).contains(id) {
            let i = choose|i: int| 0 <= i < r.len() && ids_of(r)[i] == id;
            assert(r[i].0 == id);
            assert(lists_id(r, id));
            assert(lists_id(pairs, id));
            let j = choose|j: int| 0 <= j < pairs.len() && #[trigger] pairs[j].0 == id;
            assert(ids_of(pairs)[j] == id);
        }
        if ids_of(pairs).contains(id) {
            let j = choose|j: int| 0 <= j < pairs.len() && ids_of(pairs)[j] == id;
            assert(pairs[j].0 == id);
            assert(lists_id(pairs, id));
            assert(lists_id(r, id));
            let i = choose|i: int| 0 <= i < r.len() && #[trigger] r[i].0 == id;
            assert(ids_of(r)[i] == id);
        }
    }
    assert(ids_of(r).to_set() =~= ids_of(pairs).to_set());
}

/// Looking up the identifier at the index of an identifier of the input
/// gives that identifier back.
pub proof fn lemma_round_trip<VID: Ord>(pairs: Seq<(VID, u64)>, r: Seq<(VID, u64)>, id: VID)
    requires
        is_registry_of(r, pairs),
        lists_id(pairs, id),
    ensures
        lists_id(r, id),
        forall|i: int| #[trigger] position_in(r, id, i) ==> r[i].0 == id,
{
}

/// An identifier that the input does not hold has no index.
pub proof fn lemma_unknown_id<VID: Ord>(pairs: Seq<(VID, u64)>, r: Seq<(VID, u64)>, id: VID)
    requires
        is_registry_of(r, pairs),
        !lists_id(pairs, id),
    ensures
        !lists_id(r, id),
{
}

/// The registry of no pairs is empty, and no identifier has an index there.
pub proof fn lemma_empty_input<VID: Ord>(r: Seq<(VID, u64)>)
    requires
        is_registry_of(r, Seq::empty()),
    ensures
        r.len() == 0,
        forall|id: VID| !lists_id(r, id),
{
    if r.len() > 0 {
        assert(lists_id(r, r[0].0));
        assert(lists_id(Seq::<(VID, u64)>::empty(), r[0].0));
    }
}

/// Two strictly ascending sequences of identifiers that hold the same
/// identifiers are equal.
proof fn lemma_ascending_unique<VID: Ord>(a: Seq<VID>, b: Seq<VID>)
    requires
        lawful_order::<VID>(),
        forall|i: int, j: int| 0 <= i < j < a.len() ==> id_lt(#[trigger] a[i], #[trigger] a[j]),
        forall|i: int, j: int| 0 <= i < j < b.len() ==> id_lt(#[trigger] b[i], #[trigger] b[j]),
        forall|x: VID| a.contains(x) <==> b.contains(x),
    ensures
        a == b,
    decreases a.len(),
{
    if a.len() == 0 {
        if b.len() > 0 {
            assert(b.contains(b[0]));
        }
        assert(a =~= b);
    } else {
        assert(a.contains(a[0]));
        assert(b.len() > 0) by {
            assert(b.contains(a[0]));
        }
        assert(b.contains(b[0]));
        let k = choose|k: int| 0 <= k < b.len() && b[k] == a[0];
        let m = choose|m: int| 0 <= m < a.len() && a[m] == b[0];
        if k > 0 {
            assert(id_lt(b[0], b[k]));
            if m > 0 {
                assert(id_lt(a[0], a[m]));
                lemma_lt_asym(b[0], a[0]);
            } else {
                lemma_lt_asym(b[0], b[k]);
            }
        }
        assert(a[0] == b[0]);
        let a1 = a.drop_first();
        let b1 = b.drop_first();
        assert forall|x: VID| a1.contains(x) <==> b1.contains(x) by {
            if a1.contains(x) {
                let i = choose|i: int| 0 <= i < a1.len() && a1[i] == x;
                assert(a[i + 1] == x);
                assert(id_lt(a[0], a[i + 1]));
                lemma_lt_asym(a[0], x);
                assert(b.contains(x));
                let j = choose|j: int| 0 <= j < b.len() && b[j] == x;
                assert(j != 0);
                assert(b1[j - 1] == x);
            }
            if b1.contains(x) {
                let j = choose|j: int| 0 <= j < b1.len() && b1[j] == x;
                assert(b[j + 1] == x);
                assert(id_lt(b[0], b[j + 1]));
                lemma_lt_asym(b[0], x);
                assert(a.contains(x));
                let i = choose|i: int| 0 <= i < a.len() && a[i] == x;
                assert(i != 0);
                assert(a1[i - 1] == x);
            }
        }
        assert forall|i: int, j: int| 0 <= i < j < a1.len() implies id_lt(
            #[trigger] a1[i],
            #[trigger] a1[j],
        ) by {
            assert(id_lt(a[i + 1], a[j + 1]));
        }
        assert forall|i: int, j: int| 0 <= i < j < b1.len() implies id_lt(
            #[trigger] b1[i],
            #[trigger] b1[j],
        ) by {
            assert(id_lt(b[i + 1], b[j + 1]));
        }
        lemma_ascending_unique(a1, b1);
        assert(a =~= seq![a[0]] + a1);
        assert(b =~= seq![b[0]] + b1);
    }
}

/// Index assignment depends on the identifiers alone: two inputs that hold
/// the same identifiers, in any order and with any weights, give every
/// identifier the same index.
pub proof fn lemma_indices_depend_on_ids_only<VID: Ord>(
    pairs1: Seq<(VID, u64)>,
    pairs2: Seq<(VID, u64)>,
    r1: Seq<(VID, u64)>,
    r2: Seq<(VID, u64)>,
)
    requires
        lawful_order::<VID>(),
        forall|id: VID| lists_id(pairs1, id) <==> lists_id(pairs2, id),
        is_registry_of(r1, pairs1),
        is_registry_of(r2, pairs2),
    ensures
        ids_of(r1) == ids_of(r2),
{
    let a = ids_of(r1);
    let b = ids_of(r2);
    assert forall|i: int, j: int| 0 <= i < j < a.len() implies id_lt(#[trigger] a[i], #[trigger] a[j]) by {
        assert(id_lt(r1[i].0, r1[j].0));
    }
    assert forall|i: int, j: int| 0 <= i < j < b.len() implies id_lt(#[trigger] b[i], #[trigger] b[j]) by {
        assert(id_lt(r2[i].0, r2[j].0));
    }
    assert forall|x: VID| a.contains(x) <==> b.contains(x) by {
        if a.contains(x) {
            let i = choose|i: int| 0 <= i < a.len() && a[i] == x;
            assert(r1[i].0 == x);
            assert(lists_id(r1, x));
            assert(lists_id(pairs1, x));
            assert(lists_id(pairs2, x));
            assert(lists_id(r2, x));
            let j = choose|j: int| 0 <= j < r2.len() && #[trigger] r2[j].0 == x;
            assert(b[j] == x);
        }
        if b.contains(x) {
            let j = choose|j: int| 0 <= j < b.len() && b[j] == x;
            assert(r2[j].0 == x);
            assert(lists_id(r2, x));
            assert(lists_id(pairs2, x));
            assert(lists_id(pairs1, x));
            assert(lists_id(r1, x));
            let i = choose|i: int| 0 <= i < r1.len() && #[trigger] r1[i].0 == x;
            assert(a[i] == x);
        }
    }
    lemma_ascending_unique(a, b);
}

/// The registry is a function of the set of pairs: the same pairs in any
/// order, repeated or not, give the same records at the same indices.
pub proof fn lemma_order_of_input_irrelevant<VID: Ord>(
    pairs1: Seq<(VID, u64)>,
    pairs2: Seq<(VID, u64)>,
    r1: Seq<(VID, u64)>,
    r2: Seq<(VID, u64)>,
)
    requires
        lawful_order::<VID>(),
        pairs1.to_set() == pairs2.to_set(),
        is_registry_of(r1, pairs1),
        is_registry_of(r2, pairs2),
    ensures
        r1 == r2,
{
    assert forall|id: VID| lists_id(pairs1, id) <==> lists_id(pairs2, id) by {
        if lists_id(pairs1, id) {
            let j = choose|j: int| 0 <= j < pairs1.len() && #[trigger] pairs1[j].0 == id;
            assert(pairs1.to_set().contains(pairs1[j]));
            assert(pairs2.contains(pairs1[j]));
            let k = choose|k: int| 0 <= k < pairs2.len() && pairs2[k] == pairs1[j];
            assert(pairs2[k].0 == id);
        }
        if lists_id(pairs2, id) {
            let j = choose|j: int| 0 <= j < pairs2.len() && #[trigger] pairs2[j].0 == id;
            assert(pairs2.to_set().contains(pairs2[j]));
            assert(pairs1.contains(pairs2[j]));
            let k = choose|k: int| 0 <= k < pairs1.len() && pairs1[k] == pairs2[j];
            assert(pairs1[k].0 == id);
        }
    }
    lemma_indices_depend_on_ids_only(pairs1, pairs2, r1, r2);
    assert(r1.len() == ids_of(r1).len() && r2.len() == ids_of(r2).len());
    assert forall|i: int| 0 <= i < r1.len() implies r1[i] == r2[i] by {
        assert(ids_of(r1)[i] == ids_of(r2)[i]);
        assert(pairs1.contains(r1[i]));
        assert(pairs1.to_set().contains(r1[i]));
        assert(pairs2.contains(r1[i]));
        let j = choose|j: int| 0 <= j < pairs2.len() && pairs2[j] == r1[i];
        assert(pairs2[j].0 == r2[i].0);
        assert(pairs2.contains(r2[i]));
        assert(pairs2.to_set().contains(r2[i]));
        assert(pairs1.contains(r2[i]));
        let k = choose|k: int| 0 <= k < pairs1.len() && pairs1[k] == r2[i];
        assert(pairs1[k].0 == r1[i].0);
    }
    assert(r1 =~= r2);
}

} // verus!
