//! The validator registry: records sorted by identifier, addressed by index.
use core::cmp::Ordering;
use vstd::std_specs::cmp::OrdSpec;
use vstd::prelude::*;

use crate::order::{
    id_lt, lawful_order, lemma_cmp_is_spec, lemma_equal_iff_same, lemma_greater_flips, lemma_lt_asym,
    lemma_lt_trans,
};

verus! {

/// The index of a validator, in a list of all validators, ordered by ID.
#[derive(Copy, Clone, Debug, PartialEq, Eq, Structural, Hash, Ord, PartialOrd)]
pub struct ValidatorIndex(pub usize);

impl From<usize> for ValidatorIndex {
    fn from(idx: usize) -> (r: ValidatorIndex)
        ensures
            r.0 == idx,
    {
        ValidatorIndex(idx)
    }
}

impl vstd::std_specs::convert::FromSpecImpl<usize> for ValidatorIndex {
    open spec fn obeys_from_spec() -> bool {
        true
    }

    open spec fn from_spec(idx: usize) -> ValidatorIndex {
        ValidatorIndex(idx)
    }
}

/// Information about a validator: their ID and weight.
#[derive(Clone, Debug, PartialEq, Eq)]
pub struct Validator<VID> {
    weight: u64,
    id: VID,
}

impl<VID> View for Validator<VID> {
    /// The identifier and the weight.
    type V = (VID, u64);

    closed spec fn view(&self) -> (VID, u64) {
        (self.id, self.weight)
    }
}

impl<VID> From<(VID, u64)> for Validator<VID> {
    fn from(pair: (VID, u64)) -> (r: Validator<VID>)
        ensures
            r@ == pair,
    {
        let (id, weight) = pair;
        Validator { id, weight }
    }
}

impl<VID> vstd::std_specs::convert::FromSpecImpl<(VID, u64)> for Validator<VID> {
    open spec fn obeys_from_spec() -> bool {
        true
    }

    closed spec fn from_spec(pair: (VID, u64)) -> Validator<VID> {
        Validator { id: pair.0, weight: pair.1 }
    }
}

impl<VID> Validator<VID> {
    /// The validator's identifier.
    pub fn id(&self) -> (r: &VID)
        ensures
            *r == self@.0,
    {
        &self.id
    }

    /// The validator's voting weight.
    pub fn weight(&self) -> (r: u64)
        ensures
            r == self@.1,
    {
        self.weight
    }
}

/// The records that a sequence of validators holds, in the same order.
pub open spec fn records<VID>(v: Seq<Validator<VID>>) -> Seq<(VID, u64)> {
    v.map_values(|x: Validator<VID>| x@)
}

/// Each record's identifier sorts strictly before those of all later records.
pub open spec fn strictly_ascending<VID: Ord>(s: Seq<(VID, u64)>) -> bool {
    forall|i: int, j: int| 0 <= i < j < s.len() ==> id_lt(#[trigger] s[i].0, #[trigger] s[j].0)
}

/// Some record of `s` has the identifier `id`.
pub open spec fn lists_id<VID>(s: Seq<(VID, u64)>, id: VID) -> bool {
    exists|i: int| 0 <= i < s.len() && #[trigger] s[i].0 == id
}

/// Where `id` stands in `s`: the position of the record with that identifier,
/// if one has it.
pub open spec fn position_in<VID>(s: Seq<(VID, u64)>, id: VID, i: int) -> bool {
    0 <= i < s.len() && s[i].0 == id
}

/// `r` is the registry built from `pairs`: one record for each identifier
/// that `pairs` holds, in ascending order of identifiers. Where an identifier
/// occurs more than once, its record keeps the largest of its weights, so
/// that the outcome depends on the set of pairs alone.
pub open spec fn is_registry_of<VID: Ord>(r: Seq<(VID, u64)>, pairs: Seq<(VID, u64)>) -> bool {
    &&& strictly_ascending(r)
    &&& forall|id: VID| #[trigger] lists_id(r, id) <==> #[trigger] lists_id(pairs, id)
    &&& forall|i: int| 0 <= i < r.len() ==> pairs.contains(#[trigger] r[i])
    &&& forall|i: int, j: int|
        0 <= i < r.len() && 0 <= j < pairs.len() && #[trigger] pairs[j].0 == #[trigger] r[i].0
            ==> pairs[j].1 <= r[i].1
}

/// The validator IDs and weights, ordered by ID. Since the records are
/// sorted, finding an identifier's index is a binary search over them: they
/// are the mapping both ways.
#[derive(Debug)]
pub struct Validators<VID: Ord> {
    validators: Vec<Validator<VID>>,
}

impl<VID: Ord> View for Validators<VID> {
    /// The records, the one at position `i` being that of index `i`.
    type V = Seq<(VID, u64)>;

    closed spec fn view(&self) -> Seq<(VID, u64)> {
        records(self.validators@)
    }
}

impl<VID: Ord> Validators<VID> {
    /// Records are held in strictly ascending order of identifiers.
    #[verifier::type_invariant]
    spec fn ids_ascending(&self) -> bool {
        strictly_ascending(records(self.validators@))
    }

    /// Builds the registry from `(identifier, weight)` pairs given in any
    /// order: index `i` goes to the `i`-th smallest identifier. An identifier
    /// given more than once gets one record, with the largest of its weights.
    pub fn from_iter(pairs: Vec<(VID, u64)>) -> (r: Validators<VID>)
        requires
            lawful_order::<VID>(),
        ensures
            is_registry_of(r@, pairs@),
    {
        let ghost input = pairs@;
        let mut rest = pairs;
        let mut out: Vec<Validator<VID>> = Vec::new();
        proof {
            assert(input.subrange(input.len() as int, input.len() as int) =~= Seq::empty());
            assert(records(out@) =~= Seq::empty());
            assert(rest@ =~= input.subrange(0, rest@.len() as int));
        }
        while rest.len() > 0
            invariant
                lawful_order::<VID>(),
                rest@.len() <= input.len(),
                rest@ == input.subrange(0, rest@.len() as int),
                is_registry_of(
                    records(out@),
                    input.subrange(rest@.len() as int, input.len() as int),
                ),
            decreases rest@.len(),
        {
            let ghost done = input.subrange(rest@.len() as int, input.len() as int);
            let ghost before = records(out@);
            let (id, weight) = rest.pop().unwrap();
            let ghost k = rest@.len() as int;
            let ghost now = input.subrange(k, input.len() as int);
            proof {
                assert(input[k] == (id, weight));
                assert(now =~= seq![(id, weight)] + done);
                assert(rest@ =~= input.subrange(0, k));
            }
            let (found, pos) = locate(&out, &id);
            if found {
                if weight > out[pos].weight {
                    out[pos].weight = weight;
                    assert(records(out@) =~= before.update(pos as int, (id, weight)));
                } else {
                    assert(records(out@) =~= before);
                }
                proof {
                    lemma_record_updated(before, done, now, records(out@), id, weight, pos as int);
                }
            } else {
                out.insert(pos, Validator { id, weight });
                proof {
                    assert(records(out@) =~= before.insert(pos as int, (id, weight)));
                    lemma_record_inserted(before, done, now, records(out@), id, weight, pos as int);
                }
            }
        }
        proof {
            assert(input.subrange(0, input.len() as int) =~= input);
        }
        Validators { validators: out }
    }

    /// The number of validators.
    pub fn len(&self) -> (r: usize)
        ensures
            r == self@.len(),
    {
        self.validators.len()
    }

    /// The index of the validator with identifier `id`, or `None` where no
    /// validator has it.
    pub fn index_of(&self, id: &VID) -> (r: Option<ValidatorIndex>)
        requires
            lawful_order::<VID>(),
        ensures
            strictly_ascending(self@),
            r is None <==> !lists_id(self@, *id),
            r matches Some(ix) ==> position_in(self@, *id, ix.0 as int),
    {
        proof {
            use_type_invariant(self);
        }
        let (found, pos) = locate(&self.validators, id);
        if found {
            Some(ValidatorIndex(pos))
        } else {
            proof {
                assert forall|i: int| 0 <= i < self@.len() implies #[trigger] self@[i].0 != *id by {
                    assert(self@[i] == self.validators@[i]@);
                    if i < pos {
                        lemma_lt_asym(self@[i].0, *id);
                    } else {
                        lemma_lt_asym(*id, self@[i].0);
                    }
                }
            }
            None
        }
    }

    /// The identifier of the validator at index `idx`, which must be one that
    /// this registry hands out.
    pub fn id_of(&self, idx: ValidatorIndex) -> (r: &VID)
        requires
            idx.0 < self@.len(),
        ensures
            *r == self@[idx.0 as int].0,
    {
        &self.validators[idx.0].id
    }

    /// The weight of the validator at index `idx`, which must be one that
    /// this registry hands out.
    pub fn weight_of(&self, idx: ValidatorIndex) -> (r: u64)
        requires
            idx.0 < self@.len(),
        ensures
            r == self@[idx.0 as int].1,
    {
        self.validators[idx.0].weight
    }
}

/// Searches sorted records for `id`: `(true, i)` where record `i` has it,
/// else `(false, i)` with `i` the place where it would be inserted.
fn locate<VID: Ord>(vals: &Vec<Validator<VID>>, id: &VID) -> (r: (bool, usize))
    requires
        lawful_order::<VID>(),
        strictly_ascending(records(vals@)),
    ensures
        r.1 <= vals@.len(),
        r.0 ==> position_in(records(vals@), *id, r.1 as int),
        !r.0 ==> forall|i: int| 0 <= i < r.1 ==> id_lt(#[trigger] records(vals@)[i].0, *id),
        !r.0 ==> forall|i: int|
            r.1 <= i < vals@.len() ==> id_lt(*id, #[trigger] records(vals@)[i].0),
{
    let ghost s = records(vals@);
    proof {
        lemma_cmp_is_spec::<VID>();
    }
    let mut lo: usize = 0;
    let mut hi: usize = vals.len();
    while lo < hi
        invariant
            lawful_order::<VID>(),
            VID::obeys_cmp_spec(),
            s == records(vals@),
            strictly_ascending(s),
            lo <= hi <= vals@.len(),
            forall|i: int| 0 <= i < lo ==> id_lt(#[trigger] vals@[i]@.0, *id),
            forall|i: int| hi <= i < vals@.len() ==> id_lt(*id, #[trigger] vals@[i]@.0),
        decreases hi - lo,
    {
        let mid: usize = lo + (hi - lo) / 2;
        let c = vals[mid].id.cmp(id);
        assert(s[mid as int] == vals@[mid as int]@);
        match c {
            Ordering::Less => {
                assert forall|i: int| 0 <= i < mid + 1 implies id_lt(#[trigger] vals@[i]@.0, *id) by {
                    if i < mid {
                        assert(s[i] == vals@[i]@);
                        lemma_lt_trans(vals@[i]@.0, vals@[mid as int]@.0, *id);
                    }
                }
                lo = mid + 1;
            },
            Ordering::Greater => {
                proof {
                    lemma_greater_flips(vals@[mid as int]@.0, *id);
                }
                assert forall|i: int| mid <= i < vals@.len() implies id_lt(*id, #[trigger] vals@[i]@.0) by {
                    if i > mid {
                        assert(s[i] == vals@[i]@);
                        lemma_lt_trans(*id, vals@[mid as int]@.0, vals@[i]@.0);
                    }
                }
                hi = mid;
            },
            Ordering::Equal => {
                proof {
                    lemma_equal_iff_same(vals@[mid as int]@.0, *id);
                }
                return (true, mid);
            },
        }
    }
    assert forall|i: int| 0 <= i < vals@.len() implies #[trigger] s[i] == vals@[i]@ by {}
    (false, lo)
}

/// A repeated identifier keeps the larger weight: the registry stays the one
/// built from the longer input.
proof fn lemma_record_updated<VID: Ord>(
    before: Seq<(VID, u64)>,
    done: Seq<(VID, u64)>,
    now: Seq<(VID, u64)>,
    after: Seq<(VID, u64)>,
    id: VID,
    w: u64,
    pos: int,
)
    requires
        lawful_order::<VID>(),
        is_registry_of(before, done),
        now == seq![(id, w)] + done,
        position_in(before, id, pos),
        after == before || (before[pos].1 < w && after == before.update(pos, (id, w))),
        after == before ==> w <= before[pos].1,
    ensures
        is_registry_of(after, now),
{
    assert forall|i: int, j: int| 0 <= i < j < after.len() implies id_lt(
        #[trigger] after[i].0,
        #[trigger] after[j].0,
    ) by {
        assert(id_lt(before[i].0, before[j].0));
    }
    assert forall|x: VID| #[trigger] lists_id(after, x) <==> #[trigger] lists_id(now, x) by {
        if lists_id(after, x) {
            let i = choose|i: int| 0 <= i < after.len() && #[trigger] after[i].0 == x;
            assert(before[i].0 == x);
            assert(lists_id(before, x));
            assert(lists_id(done, x));
            let j = choose|j: int| 0 <= j < done.len() && #[trigger] done[j].0 == x;
            assert(now[j + 1].0 == x);
        }
        if lists_id(now, x) {
            let j = choose|j: int| 0 <= j < now.len() && #[trigger] now[j].0 == x;
            if j == 0 {
                assert(after[pos].0 == x);
            } else {
                assert(done[j - 1].0 == x);
                assert(lists_id(done, x));
                assert(lists_id(before, x));
                let i = choose|i: int| 0 <= i < before.len() && #[trigger] before[i].0 == x;
                assert(after[i].0 == x);
            }
        }
    }
    assert forall|i: int| 0 <= i < after.len() implies now.contains(#[trigger] after[i]) by {
        if after[i] == (id, w) {
            assert(now[0] == after[i]);
        } else {
            assert(after[i] == before[i]);
            assert(done.contains(before[i]));
            let j = choose|j: int| 0 <= j < done.len() && done[j] == before[i];
            assert(now[j + 1] == after[i]);
        }
    }
    assert forall|i: int, j: int|
        0 <= i < after.len() && 0 <= j < now.len() && #[trigger] now[j].0 == #[trigger] after[i].0
            implies now[j].1 <= after[i].1 by {
        if i != pos {
            if i < pos {
                assert(id_lt(before[i].0, before[pos].0));
                lemma_lt_asym(before[i].0, before[pos].0);
            } else {
                assert(id_lt(before[pos].0, before[i].0));
                lemma_lt_asym(before[pos].0, before[i].0);
            }
        }
        if j > 0 {
            assert(done[j - 1] == now[j]);
            assert(done[j - 1].1 <= before[i].1);
        }
    }
}

/// A new identifier gets a record at its place in the order: the registry
/// stays the one built from the longer input.
proof fn lemma_record_inserted<VID: Ord>(
    before: Seq<(VID, u64)>,
    done: Seq<(VID, u64)>,
    now: Seq<(VID, u64)>,
    after: Seq<(VID, u64)>,
    id: VID,
    w: u64,
    pos: int,
)
    requires
        lawful_order::<VID>(),
        is_registry_of(before, done),
        now == seq![(id, w)] + done,
        0 <= pos <= before.len(),
        forall|i: int| 0 <= i < pos ==> id_lt(#[trigger] before[i].0, id),
        forall|i: int| pos <= i < before.len() ==> id_lt(id, #[trigger] before[i].0),
        after == before.insert(pos, (id, w)),
    ensures
        is_registry_of(after, now),
{
    assert forall|i: int| 0 <= i < before.len() implies #[trigger] before[i].0 != id by {
        if i < pos {
            lemma_lt_asym(before[i].0, id);
        } else {
            lemma_lt_asym(id, before[i].0);
        }
    }
    assert forall|i: int, j: int| 0 <= i < j < after.len() implies id_lt(
        #[trigger] after[i].0,
        #[trigger] after[j].0,
    ) by {
        if j < pos {
            assert(id_lt(before[i].0, before[j].0));
        } else if j == pos {
        } else if i < pos {
            lemma_lt_trans(before[i].0, id, before[j - 1].0);
        } else if i == pos {
        } else {
            assert(id_lt(before[i - 1].0, before[j - 1].0));
        }
    }
    assert forall|x: VID| #[trigger] lists_id(after, x) <==> #[trigger] lists_id(now, x) by {
        if lists_id(after, x) {
            let i = choose|i: int| 0 <= i < after.len() && #[trigger] after[i].0 == x;
            if i == pos {
                assert(now[0].0 == x);
            } else {
                let b = if i < pos { i } else { i - 1 };
                assert(before[b].0 == x);
                assert(lists_id(before, x));
                assert(lists_id(done, x));
                let j = choose|j: int| 0 <= j < done.len() && #[trigger] done[j].0 == x;
                assert(now[j + 1].0 == x);
            }
        }
        if lists_id(now, x) {
            let j = choose|j: int| 0 <= j < now.len() && #[trigger] now[j].0 == x;
            if j == 0 {
                assert(after[pos].0 == x);
            } else {
                assert(done[j - 1].0 == x);
                assert(lists_id(done, x));
                assert(lists_id(before, x));
                let i = choose|i: int| 0 <= i < before.len() && #[trigger] before[i].0 == x;
                if i < pos {
                    assert(after[i].0 == x);
                } else {
                    assert(after[i + 1].0 == x);
                }
            }
        }
    }
    assert forall|i: int| 0 <= i < after.len() implies now.contains(#[trigger] after[i]) by {
        if i == pos {
            assert(now[0] == after[i]);
        } else {
            let b = if i < pos { i } else { i - 1 };
            assert(after[i] == before[b]);
            assert(done.contains(before[b]));
            let j = choose|j: int| 0 <= j < done.len() && done[j] == before[b];
            assert(now[j + 1] == after[i]);
        }
    }
    assert forall|i: int, j: int|
        0 <= i < after.len() && 0 <= j < now.len() && #[trigger] now[j].0 == #[trigger] after[i].0
            implies now[j].1 <= after[i].1 by {
        if i == pos {
            if j > 0 {
                assert(done[j - 1].0 == id);
                assert(lists_id(done, id));
                assert(lists_id(before, id));
            }
        } else {
            let b = if i < pos { i } else { i - 1 };
            assert(after[i] == before[b]);
            if j == 0 {
                assert(before[b].0 != id);
            } else {
                assert(done[j - 1] == now[j]);
                assert(done[j - 1].1 <= before[b].1);
            }
        }
    }
}

} // verus!
