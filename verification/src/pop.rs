//! Proof-of-possession key: a nested tag-indexed map embedded inside
//! request and response messages.  Its field registry belongs to a
//! collaborating layer, so the key is carried as the normalized
//! integer-keyed pair list it was received or built as.

use vstd::prelude::*;

use crate::cbor_map::spec_normalize;
use crate::values::CborValue;
use crate::values::SpecCborValue;
use crate::values::lemma_entry_list_view;
use crate::values::spec_entry_list_view;

verus! {

broadcast use vstd::group_vstd_default;

/// A key reference or embedded key structure the client must demonstrate
/// possession of; opaque to this layer beyond being an integer-keyed map.
#[derive(Debug, PartialEq)]
pub struct ProofOfPossessionKey {
    pub entries: Vec<(i128, CborValue)>,
}

impl DeepView for ProofOfPossessionKey {
    type V = Seq<(i128, SpecCborValue)>;

    open spec fn deep_view(&self) -> Seq<(i128, SpecCborValue)> {
        self.entries.deep_view()
    }
}

/// The entry list of the nested map a key encodes as: each pair keyed by
/// its integer tag.
pub open spec fn spec_pop_entries(entries: Seq<(i128, SpecCborValue)>) -> Seq<
    (SpecCborValue, SpecCborValue),
> {
    Seq::new(entries.len(), |i: int| (SpecCborValue::Integer(entries[i].0), entries[i].1))
}

/// The nested map value a key encodes as.
pub open spec fn spec_pop_value(entries: Seq<(i128, SpecCborValue)>) -> SpecCborValue {
    SpecCborValue::MapValue(spec_pop_entries(entries))
}

/// Round trip of the nested key: normalizing the map a key encodes as
/// gives back exactly its pair list.
pub proof fn lemma_pop_round_trip(entries: Seq<(i128, SpecCborValue)>)
    ensures
        spec_normalize(spec_pop_entries(entries)) == Some(entries),
    decreases entries.len(),
{
    let s = spec_pop_entries(entries);
    if entries.len() == 0 {
        assert(spec_normalize(s) == Some(Seq::<(i128, SpecCborValue)>::empty()));
        assert(entries =~= Seq::<(i128, SpecCborValue)>::empty());
    } else {
        lemma_pop_round_trip(entries.drop_first());
        assert(s.drop_first() =~= spec_pop_entries(entries.drop_first()));
        assert(seq![(entries[0].0, entries[0].1)] + entries.drop_first() =~= entries);
    }
}

impl ProofOfPossessionKey {
    /// Builds a key from a normalized integer-keyed pair list; every such
    /// list is a valid key at this layer.
    pub fn try_from_cbor_map(map: Vec<(i128, CborValue)>) -> (r: Option<Self>)
        ensures
            r matches Some(k) && k.deep_view() == map.deep_view(),
    {
        Some(ProofOfPossessionKey { entries: map })
    }

    /// The nested map value this key contributes to its containing message.
    pub fn to_cbor_map_value(&self) -> (r: CborValue)
        ensures
            r.deep_view() == spec_pop_value(self.deep_view()),
    {
        let entries = &self.entries;
        let mut out: Vec<(CborValue, CborValue)> = Vec::new();
        let mut i: usize = 0;
        while i < entries.len()
            invariant
                i <= entries.len(),
                out@.len() == i,
                forall|j: int|
                    0 <= j < i ==> #[trigger] out@[j].0 == CborValue::Integer(entries@[j].0)
                        && out@[j].1.deep_view() == entries@[j].1.deep_view(),
            decreases entries.len() - i,
        {
            let k = entries[i].0;
            let v = entries[i].1.deep_clone();
            out.push((CborValue::Integer(k), v));
            i = i + 1;
        }
        proof {
            lemma_entry_list_view(out@);
            assert forall|j: int| 0 <= j < entries@.len() implies spec_entry_list_view(out@)[j]
                == spec_pop_entries(self.deep_view())[j] by {
                assert(self.deep_view()[j] == entries@[j].deep_view());
            }
            assert(spec_entry_list_view(out@) =~= spec_pop_entries(self.deep_view()));
        }
        CborValue::MapValue(out)
    }
}

} // verus!
