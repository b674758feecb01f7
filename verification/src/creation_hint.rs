//! The authorization-server request creation hint: the message a resource
//! server returns to point an unauthorized client at the right
//! authorization server.  All of its fields are optional.

use vstd::prelude::*;

use crate::cbor_map::spec_wire_pairs;
use crate::cbor_map::wire_has_tag;
use crate::cbor_map::lemma_wire_pairs_tags;
use crate::values::ByteString;
use crate::values::CborValue;
use crate::values::SpecCborValue;
use crate::values::SpecTextOrByteString;
use crate::values::TextOrByteString;
use crate::values::clone_bytes;
use crate::values::spec_text_or_bytes_value;

verus! {

broadcast use vstd::group_vstd_default;

/// Hint telling a client which authorization server to contact, under
/// which audience and scope.  Every field is optional; an all-absent hint
/// is valid.
#[derive(Debug, PartialEq)]
pub struct AuthServerRequestCreationHint {
    pub auth_server: Option<String>,
    pub kid: Option<ByteString>,
    pub audience: Option<String>,
    pub scope: Option<TextOrByteString>,
    pub client_nonce: Option<ByteString>,
}

/// Mathematical model of a creation hint.
pub struct SpecCreationHint {
    pub auth_server: Option<Seq<char>>,
    pub kid: Option<Seq<u8>>,
    pub audience: Option<Seq<char>>,
    pub scope: Option<SpecTextOrByteString>,
    pub client_nonce: Option<Seq<u8>>,
}

impl DeepView for AuthServerRequestCreationHint {
    type V = SpecCreationHint;

    open spec fn deep_view(&self) -> SpecCreationHint {
        SpecCreationHint {
            auth_server: self.auth_server.deep_view(),
            kid: self.kid.deep_view(),
            audience: self.audience.deep_view(),
            scope: self.scope.deep_view(),
            client_nonce: self.client_nonce.deep_view(),
        }
    }
}

impl SpecCreationHint {
    /// The all-absent hint every decode starts from.
    pub open spec fn empty() -> SpecCreationHint {
        SpecCreationHint {
            auth_server: None,
            kid: None,
            audience: None,
            scope: None,
            client_nonce: None,
        }
    }

    /// The ordered encoded pair list of a hint: one entry per registered
    /// tag, absent fields carrying no value.
    pub open spec fn as_pairs(self) -> Seq<(u16, Option<SpecCborValue>)> {
        seq![
            (
                1u16,
                match self.auth_server {
                    Some(t) => Some(SpecCborValue::Text(t)),
                    None => None,
                },
            ),
            (
                2u16,
                match self.kid {
                    Some(b) => Some(SpecCborValue::Bytes(b)),
                    None => None,
                },
            ),
            (
                5u16,
                match self.audience {
                    Some(t) => Some(SpecCborValue::Text(t)),
                    None => None,
                },
            ),
            (
                9u16,
                match self.scope {
                    Some(s) => Some(spec_text_or_bytes_value(s)),
                    None => None,
                },
            ),
            (
                39u16,
                match self.client_nonce {
                    Some(b) => Some(SpecCborValue::Bytes(b)),
                    None => None,
                },
            ),
        ]
    }

    /// Whether one decoded pair is acceptable: its tag must be in the
    /// hint's registry and its value of the registered kind.
    pub open spec fn pair_accepted(p: (i128, SpecCborValue)) -> bool {
        if p.0 == 1 {
            p.1 is Text
        } else if p.0 == 2 {
            p.1 is Bytes
        } else if p.0 == 5 {
            p.1 is Text
        } else if p.0 == 9 {
            p.1 is Text || p.1 is Bytes
        } else if p.0 == 39 {
            p.1 is Bytes
        } else {
            false
        }
    }

    /// Effect of one decoded pair on the hint built so far; a pair that is
    /// not acceptable fails the whole decode.
    pub open spec fn step(self, p: (i128, SpecCborValue)) -> Option<SpecCreationHint> {
        if p.0 == 1 {
            match p.1 {
                SpecCborValue::Text(t) => Some(SpecCreationHint { auth_server: Some(t), ..self }),
                _ => None,
            }
        } else if p.0 == 2 {
            match p.1 {
                SpecCborValue::Bytes(b) => Some(SpecCreationHint { kid: Some(b), ..self }),
                _ => None,
            }
        } else if p.0 == 5 {
            match p.1 {
                SpecCborValue::Text(t) => Some(SpecCreationHint { audience: Some(t), ..self }),
                _ => None,
            }
        } else if p.0 == 9 {
            match p.1 {
                SpecCborValue::Text(t) => Some(
                    SpecCreationHint {
                        scope: Some(SpecTextOrByteString::TextString(t)),
                        ..self
                    },
                ),
                SpecCborValue::Bytes(b) => Some(
                    SpecCreationHint {
                        scope: Some(SpecTextOrByteString::ByteString(b)),
                        ..self
                    },
                ),
                _ => None,
            }
        } else if p.0 == 39 {
            match p.1 {
                SpecCborValue::Bytes(b) => Some(SpecCreationHint { client_nonce: Some(b), ..self }),
                _ => None,
            }
        } else {
            None
        }
    }

    /// Decode of a pair list starting from an already-built hint: each pair
    /// is consumed once, in order, the last writer winning on a repeated
    /// tag; any unacceptable pair fails the whole decode.
    pub open spec fn from_pairs_from(
        pairs: Seq<(i128, SpecCborValue)>,
        acc: SpecCreationHint,
    ) -> Option<SpecCreationHint>
        decreases pairs.len(),
    {
        if pairs.len() == 0 {
            Some(acc)
        } else {
            match acc.step(pairs[0]) {
                Some(acc2) => Self::from_pairs_from(pairs.drop_first(), acc2),
                None => None,
            }
        }
    }

    /// Decode of a pair list into a hint.
    pub open spec fn from_pairs(pairs: Seq<(i128, SpecCborValue)>) -> Option<SpecCreationHint> {
        Self::from_pairs_from(pairs, Self::empty())
    }

    /// The hint's tag registry.
    pub open spec fn known_tag(t: i128) -> bool {
        t == 1 || t == 2 || t == 5 || t == 9 || t == 39
    }
}

/// Decoding succeeds exactly when every pair carries a known tag with a
/// value of the registered kind, whatever hint the decode starts from.
pub proof fn lemma_hint_decode_characterization(
    pairs: Seq<(i128, SpecCborValue)>,
    acc: SpecCreationHint,
)
    ensures
        SpecCreationHint::from_pairs_from(pairs, acc) is Some <==> (forall|i: int|
            0 <= i < pairs.len() ==> SpecCreationHint::pair_accepted(pairs[i])),
    decreases pairs.len(),
{
    if pairs.len() > 0 {
        match acc.step(pairs[0]) {
            Some(acc2) => {
                lemma_hint_decode_characterization(pairs.drop_first(), acc2);
                if SpecCreationHint::from_pairs_from(pairs, acc) is Some {
                    assert forall|i: int|
                        0 <= i < pairs.len() implies SpecCreationHint::pair_accepted(
                        pairs[i],
                    ) by {
                        if i > 0 {
                            assert(SpecCreationHint::pair_accepted(pairs.drop_first()[i - 1]));
                        }
                    }
                } else {
                    let i = choose|i: int|
                        0 <= i < pairs.drop_first().len() && !SpecCreationHint::pair_accepted(
                            pairs.drop_first()[i],
                        );
                    assert(!SpecCreationHint::pair_accepted(pairs[i + 1]));
                }
            },
            None => {
                assert(!SpecCreationHint::pair_accepted(pairs[0]));
            },
        }
    }
}

/// Unknown tag rejection: a pair list holding any tag outside the hint's
/// registry fails to decode, whatever value that pair carries.
pub proof fn lemma_hint_unknown_tag_rejected(pairs: Seq<(i128, SpecCborValue)>, i: int)
    requires
        0 <= i < pairs.len(),
        !SpecCreationHint::known_tag(pairs[i].0),
    ensures
        SpecCreationHint::from_pairs(pairs) is None,
{
    lemma_hint_decode_characterization(pairs, SpecCreationHint::empty());
    assert(!SpecCreationHint::pair_accepted(pairs[i]));
}

/// Shape rejection: a pair whose tag is known but whose value is of the
/// wrong kind fails the whole decode.
pub proof fn lemma_hint_rejected_pair(pairs: Seq<(i128, SpecCborValue)>, i: int)
    requires
        0 <= i < pairs.len(),
        !SpecCreationHint::pair_accepted(pairs[i]),
    ensures
        SpecCreationHint::from_pairs(pairs) is None,
{
    lemma_hint_decode_characterization(pairs, SpecCreationHint::empty());
}

/// Omission: the wire map of an encoded hint holds a tag exactly when the
/// corresponding field is set; an unset optional field emits nothing.
pub proof fn lemma_hint_emitted_tags(v: SpecCreationHint, t: i128)
    ensures
        wire_has_tag(spec_wire_pairs(v.as_pairs()), t) <==> ((t == 1 && v.auth_server is Some) || (
        t == 2 && v.kid is Some) || (t == 5 && v.audience is Some) || (t == 9 && v.scope is Some)
            || (t == 39 && v.client_nonce is Some)),
{
    lemma_wire_pairs_tags(v.as_pairs(), t);
    let s = v.as_pairs();
    if exists|j: int| 0 <= j < s.len() && s[j].0 as i128 == t && s[j].1 is Some {
        let j = choose|j: int| 0 <= j < s.len() && s[j].0 as i128 == t && s[j].1 is Some;
        assert(j == 0 || j == 1 || j == 2 || j == 3 || j == 4);
    }
    if t == 1 && v.auth_server is Some {
        assert(s[0].0 as i128 == t && s[0].1 is Some);
    }
    if t == 2 && v.kid is Some {
        assert(s[1].0 as i128 == t && s[1].1 is Some);
    }
    if t == 5 && v.audience is Some {
        assert(s[2].0 as i128 == t && s[2].1 is Some);
    }
    if t == 9 && v.scope is Some {
        assert(s[3].0 as i128 == t && s[3].1 is Some);
    }
    if t == 39 && v.client_nonce is Some {
        assert(s[4].0 as i128 == t && s[4].1 is Some);
    }
}

/// Round trip: every hint, in particular one with every optional field
/// set, decodes from its own wire encoding back to itself.
pub proof fn lemma_hint_round_trip(v: SpecCreationHint)
    ensures
        SpecCreationHint::from_pairs(spec_wire_pairs(v.as_pairs())) == Some(v),
{
    reveal_with_fuel(spec_wire_pairs, 7);
    reveal_with_fuel(SpecCreationHint::from_pairs_from, 7);
    match v.scope {
        Some(SpecTextOrByteString::TextString(t)) => {},
        Some(SpecTextOrByteString::ByteString(b)) => {},
        None => {},
    }
}

/// Scope polymorphism: a scope pair of text kind decodes to the text
/// variant, one of bytes kind to the bytes variant.
pub proof fn lemma_hint_scope_polymorphism(t: Seq<char>, b: Seq<u8>)
    ensures
        SpecCreationHint::from_pairs(seq![(9, SpecCborValue::Text(t))]) == Some(
            (SpecCreationHint {
                scope: Some(SpecTextOrByteString::TextString(t)),
                ..SpecCreationHint::empty()
            }),
        ),
        SpecCreationHint::from_pairs(seq![(9, SpecCborValue::Bytes(b))]) == Some(
            (SpecCreationHint {
                scope: Some(SpecTextOrByteString::ByteString(b)),
                ..SpecCreationHint::empty()
            }),
        ),
{
    reveal_with_fuel(SpecCreationHint::from_pairs_from, 3);
}

impl Default for AuthServerRequestCreationHint {
    /// The all-absent hint.
    fn default() -> (r: AuthServerRequestCreationHint)
        ensures
            r.deep_view() == SpecCreationHint::empty(),
    {
        AuthServerRequestCreationHint {
            auth_server: None,
            kid: None,
            audience: None,
            scope: None,
            client_nonce: None,
        }
    }
}

impl AuthServerRequestCreationHint {
    /// Encode: the ordered pair list of this hint, one entry per registered
    /// tag, unset fields absent.
    pub fn as_cbor_map(&self) -> (r: Vec<(u16, Option<CborValue>)>)
        ensures
            r.deep_view() == self.deep_view().as_pairs(),
    {
        let mut r: Vec<(u16, Option<CborValue>)> = Vec::new();
        r.push(
            (
                1,
                match &self.auth_server {
                    Some(t) => Some(CborValue::Text(t.clone())),
                    None => None,
                },
            ),
        );
        r.push(
            (
                2,
                match &self.kid {
                    Some(b) => Some(CborValue::Bytes(clone_bytes(&b.bytes))),
                    None => None,
                },
            ),
        );
        r.push(
            (
                5,
                match &self.audience {
                    Some(t) => Some(CborValue::Text(t.clone())),
                    None => None,
                },
            ),
        );
        r.push(
            (
                9,
                match &self.scope {
                    Some(s) => Some(s.to_cbor_value()),
                    None => None,
                },
            ),
        );
        r.push(
            (
                39,
                match &self.client_nonce {
                    Some(b) => Some(CborValue::Bytes(clone_bytes(&b.bytes))),
                    None => None,
                },
            ),
        );
        proof {
            assert(r.deep_view() =~= self.deep_view().as_pairs());
        }
        r
    }

    /// Decode: consumes a normalized pair list once, in order; fails on any
    /// unknown tag or ill-shaped value, returning no partial hint.
    pub fn try_from_cbor_map(map: Vec<(i128, CborValue)>) -> (r: Option<Self>)
        ensures
            r.deep_view() == SpecCreationHint::from_pairs(map.deep_view()),
    {
        let ghost m = map.deep_view();
        let mut hint = AuthServerRequestCreationHint::default();
        let mut i: usize = 0;
        proof {
            assert(m.skip(0) =~= m);
        }
        while i < map.len()
            invariant
                i <= map.len(),
                m == map.deep_view(),
                m.len() == map@.len(),
                forall|j: int|
                    0 <= j < map@.len() ==> #[trigger] m[j] == (
                        map@[j].0,
                        map@[j].1.deep_view(),
                    ),
                SpecCreationHint::from_pairs(m) == SpecCreationHint::from_pairs_from(
                    m.skip(i as int),
                    hint.deep_view(),
                ),
            decreases map.len() - i,
        {
            let ghost j = i as int;
            let ghost before = hint.deep_view();
            proof {
                assert(m.skip(j)[0] == m[j]);
                assert(m.skip(j).drop_first() =~= m.skip(j + 1));
            }
            let tag = map[i].0;
            if tag == 1 {
                match &map[i].1 {
                    CborValue::Text(t) => {
                        hint.auth_server = Some(t.clone());
                    },
                    _ => {
                        return None;
                    },
                }
            } else if tag == 2 {
                match &map[i].1 {
                    CborValue::Bytes(b) => {
                        hint.kid = Some(ByteString { bytes: clone_bytes(b) });
                    },
                    _ => {
                        return None;
                    },
                }
            } else if tag == 5 {
                match &map[i].1 {
                    CborValue::Text(t) => {
                        hint.audience = Some(t.clone());
                    },
                    _ => {
                        return None;
                    },
                }
            } else if tag == 9 {
                match &map[i].1 {
                    CborValue::Text(t) => {
                        hint.scope = Some(TextOrByteString::TextString(t.clone()));
                    },
                    CborValue::Bytes(b) => {
                        hint.scope = Some(
                            TextOrByteString::ByteString(ByteString { bytes: clone_bytes(b) }),
                        );
                    },
                    _ => {
                        return None;
                    },
                }
            } else if tag == 39 {
                match &map[i].1 {
                    CborValue::Bytes(b) => {
                        hint.client_nonce = Some(ByteString { bytes: clone_bytes(b) });
                    },
                    _ => {
                        return None;
                    },
                }
            } else {
                return None;
            }
            proof {
                assert(before.step(m[j]) == Some(hint.deep_view()));
            }
            i = i + 1;
        }
        proof {
            assert(m.skip(map@.len() as int) =~= Seq::<(i128, SpecCborValue)>::empty());
        }
        Some(hint)
    }
}

} // verus!
