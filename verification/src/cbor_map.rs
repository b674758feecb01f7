//! The shared map-codec machinery: every message is encoded as an ordered
//! list of `(tag, optional value)` pairs and decoded from a list of
//! `(integer key, value)` pairs.  This module holds the key-normalization
//! helper shared by all messages and the model of the wire step that turns
//! an encoded pair list into the map actually sent (absent fields omitted).

use vstd::prelude::*;

use crate::values::CborValue;
use crate::values::SpecCborValue;
use crate::values::lemma_entry_list_view;
use crate::values::spec_entry_list_view;

verus! {

broadcast use vstd::group_vstd_default;

/// Normalizes a generic decoded map, whose keys may be any value kind, into
/// integer-keyed pairs; fails if any key is not an integer.
pub open spec fn spec_normalize(s: Seq<(SpecCborValue, SpecCborValue)>) -> Option<
    Seq<(i128, SpecCborValue)>,
>
    decreases s.len(),
{
    if s.len() == 0 {
        Some(Seq::empty())
    } else {
        match s[0].0 {
            SpecCborValue::Integer(k) => match spec_normalize(s.drop_first()) {
                Some(rest) => Some(seq![(k, s[0].1)] + rest),
                None => None,
            },
            _ => None,
        }
    }
}

/// Normalization succeeds exactly when every key is an integer.
pub proof fn lemma_normalize_keys(s: Seq<(SpecCborValue, SpecCborValue)>)
    ensures
        spec_normalize(s) is Some <==> (forall|i: int| 0 <= i < s.len() ==> s[i].0 is Integer),
    decreases s.len(),
{
    if s.len() > 0 {
        lemma_normalize_keys(s.drop_first());
        assert(forall|i: int| 0 <= i < s.drop_first().len() ==> s.drop_first()[i] == s[i + 1]);
        if spec_normalize(s) is Some {
            assert forall|i: int| 0 <= i < s.len() implies s[i].0 is Integer by {
                if i > 0 {
                    assert(s.drop_first()[i - 1].0 is Integer);
                }
            }
        }
    }
}

/// Turns a generic decoded map into the canonical integer-keyed pair list
/// that every message's `try_from_cbor_map` consumes; any key that is not
/// an integer makes the whole map invalid.
pub fn cbor_map_from_int(entries: &Vec<(CborValue, CborValue)>) -> (r: Option<
    Vec<(i128, CborValue)>,
>)
    ensures
        r.deep_view() == spec_normalize(spec_entry_list_view(entries@)),
{
    let ghost v = spec_entry_list_view(entries@);
    proof {
        lemma_entry_list_view(entries@);
    }
    let mut out: Vec<(i128, CborValue)> = Vec::new();
    let mut i: usize = 0;
    proof {
        assert(v.skip(0) =~= v);
        assert(out.deep_view() =~= Seq::<(i128, SpecCborValue)>::empty());
        match spec_normalize(v) {
            Some(r) => {
                assert(Seq::<(i128, SpecCborValue)>::empty() + r =~= r);
            },
            None => {},
        }
    }
    while i < entries.len()
        invariant
            i <= entries.len(),
            v == spec_entry_list_view(entries@),
            v.len() == entries@.len(),
            forall|j: int|
                0 <= j < entries@.len() ==> #[trigger] v[j] == (
                    entries@[j].0.deep_view(),
                    entries@[j].1.deep_view(),
                ),
            spec_normalize(v) == (match spec_normalize(v.skip(i as int)) {
                Some(rest) => Some(out.deep_view() + rest),
                None => None,
            }),
        decreases entries.len() - i,
    {
        let ghost j = i as int;
        proof {
            assert(v.skip(j)[0] == v[j]);
            assert(v.skip(j).drop_first() =~= v.skip(j + 1));
        }
        match &entries[i].0 {
            CborValue::Integer(k) => {
                let value = entries[i].1.deep_clone();
                let ghost old_out = out.deep_view();
                out.push((*k, value));
                proof {
                    assert(out.deep_view() =~= old_out + seq![(*k as i128, v[j].1)]);
                    match spec_normalize(v.skip(j + 1)) {
                        Some(rest) => {
                            assert(old_out + (seq![(*k as i128, v[j].1)] + rest) =~= out.deep_view()
                                + rest);
                        },
                        None => {},
                    }
                }
            },
            _ => {
                proof {
                    assert(spec_normalize(v.skip(j)) is None);
                }
                return None;
            },
        }
        i = i + 1;
    }
    proof {
        assert(v.skip(entries@.len() as int) =~= Seq::<(SpecCborValue, SpecCborValue)>::empty());
        assert(out.deep_view() + Seq::<(i128, SpecCborValue)>::empty() =~= out.deep_view());
    }
    Some(out)
}

/// The map that actually goes on the wire for an encoded pair list: pairs
/// whose value is absent are omitted entirely, the rest keep their order,
/// and tags widen to the canonical integer key form.
pub open spec fn spec_wire_pairs(s: Seq<(u16, Option<SpecCborValue>)>) -> Seq<
    (i128, SpecCborValue),
>
    decreases s.len(),
{
    if s.len() == 0 {
        Seq::empty()
    } else {
        let rest = spec_wire_pairs(s.drop_first());
        match s[0].1 {
            Some(v) => seq![(s[0].0 as i128, v)] + rest,
            None => rest,
        }
    }
}

/// Whether some pair in a list carries the given tag.
pub open spec fn wire_has_tag(s: Seq<(i128, SpecCborValue)>, t: i128) -> bool {
    exists|i: int| 0 <= i < s.len() && s[i].0 == t
}

/// A tag occurs in the wire map exactly when the encoded pair list holds
/// that tag with a present value: absent fields are omitted, never sent as
/// a null placeholder.
pub proof fn lemma_wire_pairs_tags(s: Seq<(u16, Option<SpecCborValue>)>, t: i128)
    ensures
        wire_has_tag(spec_wire_pairs(s), t) <==> (exists|j: int|
            0 <= j < s.len() && s[j].0 as i128 == t && s[j].1 is Some),
    decreases s.len(),
{
    if s.len() > 0 {
        lemma_wire_pairs_tags(s.drop_first(), t);
        let rest = spec_wire_pairs(s.drop_first());
        if wire_has_tag(spec_wire_pairs(s), t) {
            let i = choose|i: int|
                0 <= i < spec_wire_pairs(s).len() && spec_wire_pairs(s)[i].0 == t;
            match s[0].1 {
                Some(v) => {
                    if i == 0 {
                        assert(s[0].0 as i128 == t && s[0].1 is Some);
                    } else {
                        assert(rest[i - 1].0 == t);
                        assert(wire_has_tag(rest, t));
                        let j = choose|j: int|
                            0 <= j < s.drop_first().len() && s.drop_first()[j].0 as i128 == t
                                && s.drop_first()[j].1 is Some;
                        assert(s[j + 1].0 as i128 == t && s[j + 1].1 is Some);
                    }
                },
                None => {
                    assert(wire_has_tag(rest, t));
                    let j = choose|j: int|
                        0 <= j < s.drop_first().len() && s.drop_first()[j].0 as i128 == t
                            && s.drop_first()[j].1 is Some;
                    assert(s[j + 1].0 as i128 == t && s[j + 1].1 is Some);
                },
            }
        }
        if exists|j: int| 0 <= j < s.len() && s[j].0 as i128 == t && s[j].1 is Some {
            let j = choose|j: int| 0 <= j < s.len() && s[j].0 as i128 == t && s[j].1 is Some;
            if j == 0 {
                assert(spec_wire_pairs(s)[0].0 == t);
            } else {
                assert(s.drop_first()[j - 1].0 as i128 == t && s.drop_first()[j - 1].1 is Some);
                assert(wire_has_tag(rest, t));
                let i = choose|i: int| 0 <= i < rest.len() && rest[i].0 == t;
                match s[0].1 {
                    Some(v) => {
                        assert(spec_wire_pairs(s)[i + 1].0 == t);
                    },
                    None => {
                        assert(spec_wire_pairs(s)[i].0 == t);
                    },
                }
            }
        }
    }
}

/// Builds the wire map for an encoded pair list: skips absent values,
/// widens tags to integer keys, keeps the order of the present pairs.
pub fn to_wire_pairs(pairs: &Vec<(u16, Option<CborValue>)>) -> (r: Vec<(i128, CborValue)>)
    ensures
        r.deep_view() == spec_wire_pairs(pairs.deep_view()),
{
    let ghost p = pairs.deep_view();
    let mut out: Vec<(i128, CborValue)> = Vec::new();
    let mut i: usize = 0;
    proof {
        assert(p.skip(0) =~= p);
        assert(out.deep_view() =~= Seq::<(i128, SpecCborValue)>::empty());
        assert(Seq::<(i128, SpecCborValue)>::empty() + spec_wire_pairs(p) =~= spec_wire_pairs(p));
    }
    while i < pairs.len()
        invariant
            i <= pairs.len(),
            p == pairs.deep_view(),
            p.len() == pairs@.len(),
            spec_wire_pairs(p) == out.deep_view() + spec_wire_pairs(p.skip(i as int)),
        decreases pairs.len() - i,
    {
        let ghost j = i as int;
        proof {
            assert(p[j] == pairs@[j].deep_view());
            assert(p.skip(j)[0] == p[j]);
            assert(p.skip(j).drop_first() =~= p.skip(j + 1));
        }
        let tag = pairs[i].0;
        match &pairs[i].1 {
            Some(value) => {
                let v = value.deep_clone();
                let ghost old_out = out.deep_view();
                out.push((tag as i128, v));
                proof {
                    assert(out.deep_view() =~= old_out + seq![(tag as i128, p[j].1->0)]);
                    assert(old_out + (seq![(tag as i128, p[j].1->0)] + spec_wire_pairs(
                        p.skip(j + 1),
                    )) =~= out.deep_view() + spec_wire_pairs(p.skip(j + 1)));
                }
            },
            None => {},
        }
        i = i + 1;
    }
    proof {
        assert(p.skip(pairs@.len() as int) =~= Seq::<(u16, Option<SpecCborValue>)>::empty());
        assert(out.deep_view() + Seq::<(i128, SpecCborValue)>::empty() =~= out.deep_view());
    }
    out
}

} // verus!
