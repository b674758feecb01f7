//! The error response message and its closed error-code enumeration.

use vstd::prelude::*;

use crate::cbor_map::lemma_wire_pairs_tags;
use crate::cbor_map::spec_wire_pairs;
use crate::cbor_map::wire_has_tag;
use crate::values::CborValue;
use crate::values::SpecCborValue;

verus! {

broadcast use vstd::group_vstd_default;

/// The reason a token request was refused: a closed enumeration bound
/// one-to-one to the integers 1 through 8.
#[derive(Debug, PartialEq, Eq, Clone, Copy)]
pub enum ErrorCode {
    InvalidRequest,
    InvalidClient,
    InvalidGrant,
    UnauthorizedClient,
    UnsupportedGrantType,
    InvalidScope,
    UnsupportedPopKey,
    IncompatibleAceProfiles,
}

impl DeepView for ErrorCode {
    type V = ErrorCode;

    open spec fn deep_view(&self) -> ErrorCode {
        *self
    }
}

/// The wire integer of an error code.
pub open spec fn spec_error_code_value(c: ErrorCode) -> u8 {
    match c {
        ErrorCode::InvalidRequest => 1,
        ErrorCode::InvalidClient => 2,
        ErrorCode::InvalidGrant => 3,
        ErrorCode::UnauthorizedClient => 4,
        ErrorCode::UnsupportedGrantType => 5,
        ErrorCode::InvalidScope => 6,
        ErrorCode::UnsupportedPopKey => 7,
        ErrorCode::IncompatibleAceProfiles => 8,
    }
}

/// The error code a wire integer stands for; anything outside 1 through 8
/// stands for none.
pub open spec fn spec_error_code_from(x: i128) -> Option<ErrorCode> {
    if x == 1 {
        Some(ErrorCode::InvalidRequest)
    } else if x == 2 {
        Some(ErrorCode::InvalidClient)
    } else if x == 3 {
        Some(ErrorCode::InvalidGrant)
    } else if x == 4 {
        Some(ErrorCode::UnauthorizedClient)
    } else if x == 5 {
        Some(ErrorCode::UnsupportedGrantType)
    } else if x == 6 {
        Some(ErrorCode::InvalidScope)
    } else if x == 7 {
        Some(ErrorCode::UnsupportedPopKey)
    } else if x == 8 {
        Some(ErrorCode::IncompatibleAceProfiles)
    } else {
        None
    }
}

/// The code-to-integer map is a bijection between the eight codes and the
/// integers 1 through 8; every other integer stands for no code.
pub proof fn lemma_error_code_bijection()
    ensures
        forall|c: ErrorCode| spec_error_code_from(spec_error_code_value(c) as i128) == Some(c),
        forall|x: i128| spec_error_code_from(x) is Some <==> 1 <= x <= 8,
        forall|x: i128|
            1 <= x <= 8 ==> (#[trigger] spec_error_code_from(x) matches Some(c)
                && spec_error_code_value(c) as i128 == x),
{
}

impl ErrorCode {
    /// The integer this code is sent as.
    pub fn to_u8(&self) -> (r: u8)
        ensures
            r == spec_error_code_value(*self),
    {
        match self {
            ErrorCode::InvalidRequest => 1,
            ErrorCode::InvalidClient => 2,
            ErrorCode::InvalidGrant => 3,
            ErrorCode::UnauthorizedClient => 4,
            ErrorCode::UnsupportedGrantType => 5,
            ErrorCode::InvalidScope => 6,
            ErrorCode::UnsupportedPopKey => 7,
            ErrorCode::IncompatibleAceProfiles => 8,
        }
    }

    /// The code a received integer stands for, if any.
    pub fn try_from_u8(value: u8) -> (r: Option<ErrorCode>)
        ensures
            r == spec_error_code_from(value as i128),
    {
        if value == 1 {
            Some(ErrorCode::InvalidRequest)
        } else if value == 2 {
            Some(ErrorCode::InvalidClient)
        } else if value == 3 {
            Some(ErrorCode::InvalidGrant)
        } else if value == 4 {
            Some(ErrorCode::UnauthorizedClient)
        } else if value == 5 {
            Some(ErrorCode::UnsupportedGrantType)
        } else if value == 6 {
            Some(ErrorCode::InvalidScope)
        } else if value == 7 {
            Some(ErrorCode::UnsupportedPopKey)
        } else if value == 8 {
            Some(ErrorCode::IncompatibleAceProfiles)
        } else {
            None
        }
    }

    /// The code a received wide integer stands for, if any.
    pub fn try_from_i128(value: i128) -> (r: Option<ErrorCode>)
        ensures
            r == spec_error_code_from(value),
    {
        if 0 <= value && value <= u8::MAX as i128 {
            Self::try_from_u8(value as u8)
        } else {
            None
        }
    }
}

/// Response refusing a token request, with the reason and optional
/// human-readable detail.
#[derive(Debug, PartialEq)]
pub struct ErrorResponse {
    /// The reason the request was refused.
    pub error: ErrorCode,
    /// Human-readable description of the error.
    pub error_description: Option<String>,
    /// URI of a page describing the error.
    pub error_uri: Option<String>,
}

/// Mathematical model of an error response.
pub struct SpecErrorResponse {
    pub error: ErrorCode,
    pub error_description: Option<Seq<char>>,
    pub error_uri: Option<Seq<char>>,
}

impl DeepView for ErrorResponse {
    type V = SpecErrorResponse;

    open spec fn deep_view(&self) -> SpecErrorResponse {
        SpecErrorResponse {
            error: self.error,
            error_description: self.error_description.deep_view(),
            error_uri: self.error_uri.deep_view(),
        }
    }
}

impl SpecErrorResponse {
    /// The ordered encoded pair list of an error response; the code is
    /// always emitted, directly as its wire integer.
    pub open spec fn as_pairs(self) -> Seq<(u16, Option<SpecCborValue>)> {
        seq![
            (30u16, Some(SpecCborValue::Integer(spec_error_code_value(self.error) as i128))),
            (
                31u16,
                match self.error_description {
                    Some(t) => Some(SpecCborValue::Text(t)),
                    None => None,
                },
            ),
            (
                32u16,
                match self.error_uri {
                    Some(t) => Some(SpecCborValue::Text(t)),
                    None => None,
                },
            ),
        ]
    }

    /// Whether one decoded pair is acceptable for an error response.  A
    /// code pair is acceptable whenever its integer fits the code's width;
    /// whether it names a valid code is judged once the whole list is
    /// consumed, the last code pair winning.
    pub open spec fn pair_accepted(p: (i128, SpecCborValue)) -> bool {
        if p.0 == 30 {
            p.1 matches SpecCborValue::Integer(x) && 0 <= x <= u8::MAX
        } else if p.0 == 31 {
            p.1 is Text
        } else if p.0 == 32 {
            p.1 is Text
        } else {
            false
        }
    }

    /// Decode of a pair list over the partial state built so far: the code
    /// seen last, and the optional detail fields.  The response exists only
    /// if, once all pairs are consumed, the last code pair named a valid
    /// code.
    pub open spec fn from_pairs_from(
        pairs: Seq<(i128, SpecCborValue)>,
        err: Option<ErrorCode>,
        desc: Option<Seq<char>>,
        uri: Option<Seq<char>>,
    ) -> Option<SpecErrorResponse>
        decreases pairs.len(),
    {
        if pairs.len() == 0 {
            match err {
                Some(e) => Some(
                    SpecErrorResponse { error: e, error_description: desc, error_uri: uri },
                ),
                None => None,
            }
        } else {
            let p = pairs[0];
            if p.0 == 30 {
                match p.1 {
                    SpecCborValue::Integer(x) => if 0 <= x <= u8::MAX {
                        Self::from_pairs_from(
                            pairs.drop_first(),
                            spec_error_code_from(x),
                            desc,
                            uri,
                        )
                    } else {
                        None
                    },
                    _ => None,
                }
            } else if p.0 == 31 {
                match p.1 {
                    SpecCborValue::Text(t) => Self::from_pairs_from(
                        pairs.drop_first(),
                        err,
                        Some(t),
                        uri,
                    ),
                    _ => None,
                }
            } else if p.0 == 32 {
                match p.1 {
                    SpecCborValue::Text(t) => Self::from_pairs_from(
                        pairs.drop_first(),
                        err,
                        desc,
                        Some(t),
                    ),
                    _ => None,
                }
            } else {
                None
            }
        }
    }

    /// Decode of a pair list into an error response.
    pub open spec fn from_pairs(pairs: Seq<(i128, SpecCborValue)>) -> Option<SpecErrorResponse> {
        Self::from_pairs_from(pairs, None, None, None)
    }

    /// The error response's tag registry.
    pub open spec fn known_tag(t: i128) -> bool {
        t == 30 || t == 31 || t == 32
    }

    /// The code named by the last code pair of the list, starting from an
    /// already-seen one.
    pub open spec fn last_code(
        pairs: Seq<(i128, SpecCborValue)>,
        err: Option<ErrorCode>,
    ) -> Option<ErrorCode>
        decreases pairs.len(),
    {
        if pairs.len() == 0 {
            err
        } else if pairs[0].0 == 30 {
            match pairs[0].1 {
                SpecCborValue::Integer(x) => Self::last_code(
                    pairs.drop_first(),
                    spec_error_code_from(x),
                ),
                _ => Self::last_code(pairs.drop_first(), err),
            }
        } else {
            Self::last_code(pairs.drop_first(), err)
        }
    }
}

/// Decoding an error response succeeds exactly when every pair is
/// acceptable and the last code pair named a valid code.
pub proof fn lemma_error_decode_characterization(
    pairs: Seq<(i128, SpecCborValue)>,
    err: Option<ErrorCode>,
    desc: Option<Seq<char>>,
    uri: Option<Seq<char>>,
)
    ensures
        SpecErrorResponse::from_pairs_from(pairs, err, desc, uri) is Some <==> ((forall|i: int|
            0 <= i < pairs.len() ==> SpecErrorResponse::pair_accepted(pairs[i]))
            && SpecErrorResponse::last_code(pairs, err) is Some),
    decreases pairs.len(),
{
    if pairs.len() > 0 {
        let p = pairs[0];
        if SpecErrorResponse::pair_accepted(p) {
            if p.0 == 30 {
                match p.1 {
                    SpecCborValue::Integer(x) => {
                        lemma_error_decode_characterization(
                            pairs.drop_first(),
                            spec_error_code_from(x),
                            desc,
                            uri,
                        );
                    },
                    _ => {},
                }
            } else if p.0 == 31 {
                match p.1 {
                    SpecCborValue::Text(t) => {
                        lemma_error_decode_characterization(
                            pairs.drop_first(),
                            err,
                            Some(t),
                            uri,
                        );
                    },
                    _ => {},
                }
            } else {
                match p.1 {
                    SpecCborValue::Text(t) => {
                        lemma_error_decode_characterization(
                            pairs.drop_first(),
                            err,
                            desc,
                            Some(t),
                        );
                    },
                    _ => {},
                }
            }
            if SpecErrorResponse::from_pairs_from(pairs, err, desc, uri) is Some {
                assert forall|i: int|
                    0 <= i < pairs.len() implies SpecErrorResponse::pair_accepted(pairs[i]) by {
                    if i > 0 {
                        assert(SpecErrorResponse::pair_accepted(pairs.drop_first()[i - 1]));
                    }
                }
            } else {
                if forall|i: int| 0 <= i < pairs.len() ==> SpecErrorResponse::pair_accepted(
                    pairs[i],
                ) {
                    assert forall|i: int|
                        0 <= i < pairs.drop_first().len() implies SpecErrorResponse::pair_accepted(
                        pairs.drop_first()[i],
                    ) by {
                        assert(SpecErrorResponse::pair_accepted(pairs[i + 1]));
                    }
                }
            }
        } else {
            assert(SpecErrorResponse::from_pairs_from(pairs, err, desc, uri) is None);
        }
    }
}

/// A pair list without any code pair keeps the code seen so far.
pub proof fn lemma_last_code_unchanged(pairs: Seq<(i128, SpecCborValue)>, err: Option<ErrorCode>)
    requires
        forall|i: int| 0 <= i < pairs.len() ==> pairs[i].0 != 30,
    ensures
        SpecErrorResponse::last_code(pairs, err) == err,
    decreases pairs.len(),
{
    if pairs.len() > 0 {
        assert forall|i: int| 0 <= i < pairs.drop_first().len() implies pairs.drop_first()[i].0
            != 30 by {
            assert(pairs[i + 1].0 != 30);
        }
        lemma_last_code_unchanged(pairs.drop_first(), err);
    }
}

/// The code is required: a pair list that never carries the code tag fails
/// to decode, whatever else it holds.
pub proof fn lemma_error_code_required(pairs: Seq<(i128, SpecCborValue)>)
    requires
        forall|i: int| 0 <= i < pairs.len() ==> pairs[i].0 != 30,
    ensures
        SpecErrorResponse::from_pairs(pairs) is None,
{
    lemma_error_decode_characterization(pairs, None, None, None);
    lemma_last_code_unchanged(pairs, None);
}

/// Unknown tag rejection for error responses.
pub proof fn lemma_error_unknown_tag_rejected(pairs: Seq<(i128, SpecCborValue)>, i: int)
    requires
        0 <= i < pairs.len(),
        !SpecErrorResponse::known_tag(pairs[i].0),
    ensures
        SpecErrorResponse::from_pairs(pairs) is None,
{
    lemma_error_decode_characterization(pairs, None, None, None);
    assert(!SpecErrorResponse::pair_accepted(pairs[i]));
}

/// Shape rejection for error responses.
pub proof fn lemma_error_rejected_pair(pairs: Seq<(i128, SpecCborValue)>, i: int)
    requires
        0 <= i < pairs.len(),
        !SpecErrorResponse::pair_accepted(pairs[i]),
    ensures
        SpecErrorResponse::from_pairs(pairs) is None,
{
    lemma_error_decode_characterization(pairs, None, None, None);
}

/// Decoding a lone code pair succeeds exactly for the integers 1 through
/// 8; 0, 9 or any other integer fails.
pub proof fn lemma_error_code_range(x: i128)
    ensures
        SpecErrorResponse::from_pairs(seq![(30, SpecCborValue::Integer(x))]) is Some <==> 1 <= x
            <= 8,
{
    reveal_with_fuel(SpecErrorResponse::from_pairs_from, 2);
}

/// Omission: the wire map of an encoded error response holds a tag exactly
/// when the corresponding field is set; the code is always sent.
pub proof fn lemma_error_emitted_tags(v: SpecErrorResponse, t: i128)
    ensures
        wire_has_tag(spec_wire_pairs(v.as_pairs()), t) <==> ((t == 30) || (t == 31
            && v.error_description is Some) || (t == 32 && v.error_uri is Some)),
{
    lemma_wire_pairs_tags(v.as_pairs(), t);
    let s = v.as_pairs();
    if exists|j: int| 0 <= j < s.len() && s[j].0 as i128 == t && s[j].1 is Some {
        let j = choose|j: int| 0 <= j < s.len() && s[j].0 as i128 == t && s[j].1 is Some;
        assert(0 <= j < 3);
    }
    if t == 30 {
        assert(s[0].0 as i128 == t && s[0].1 is Some);
    }
    if t == 31 && v.error_description is Some {
        assert(s[1].0 as i128 == t && s[1].1 is Some);
    }
    if t == 32 && v.error_uri is Some {
        assert(s[2].0 as i128 == t && s[2].1 is Some);
    }
}

/// Round trip: every error response, in particular one with both detail
/// fields set, decodes from its own wire encoding back to itself.
pub proof fn lemma_error_round_trip(v: SpecErrorResponse)
    ensures
        SpecErrorResponse::from_pairs(spec_wire_pairs(v.as_pairs())) == Some(v),
{
    reveal_with_fuel(spec_wire_pairs, 5);
    reveal_with_fuel(SpecErrorResponse::from_pairs_from, 5);
    lemma_error_code_bijection();
}

impl ErrorResponse {
    /// Encode: the ordered pair list of this error response; the code goes
    /// out directly as its wire integer.
    pub fn as_cbor_map(&self) -> (r: Vec<(u16, Option<CborValue>)>)
        ensures
            r.deep_view() == self.deep_view().as_pairs(),
    {
        let mut r: Vec<(u16, Option<CborValue>)> = Vec::new();
        r.push((30, Some(CborValue::Integer(self.error.to_u8() as i128))));
        r.push(
            (
                31,
                match &self.error_description {
                    Some(t) => Some(CborValue::Text(t.clone())),
                    None => None,
                },
            ),
        );
        r.push(
            (
                32,
                match &self.error_uri {
                    Some(t) => Some(CborValue::Text(t.clone())),
                    None => None,
                },
            ),
        );
        proof {
            assert(r.deep_view() =~= self.deep_view().as_pairs());
        }
        r
    }

    /// Decode: consumes a normalized pair list once, in order; fails on any
    /// unknown tag or ill-shaped value, and unless the last code pair named
    /// a valid code.
    pub fn try_from_cbor_map(map: Vec<(i128, CborValue)>) -> (r: Option<Self>)
        ensures
            r.deep_view() == SpecErrorResponse::from_pairs(map.deep_view()),
    {
        let ghost m = map.deep_view();
        let mut maybe_error: Option<ErrorCode> = None;
        let mut error_description: Option<String> = None;
        let mut error_uri: Option<String> = None;
        let mut i: usize = 0;
        proof {
            assert(m.skip(0) =~= m);
        }
        while i < map.len()
            invariant
                i <= map.len(),
                m == map.deep_view(),
                m.len() == map@.len(),
                forall|j: int|
                    0 <= j < map@.len() ==> #[trigger] m[j] == (
                        map@[j].0,
                        map@[j].1.deep_view(),
                    ),
                SpecErrorResponse::from_pairs(m) == SpecErrorResponse::from_pairs_from(
                    m.skip(i as int),
                    maybe_error.deep_view(),
                    error_description.deep_view(),
                    error_uri.deep_view(),
                ),
            decreases map.len() - i,
        {
            let ghost j = i as int;
            proof {
                assert(m.skip(j)[0] == m[j]);
                assert(m.skip(j).drop_first() =~= m.skip(j + 1));
            }
            let tag = map[i].0;
            if tag == 30 {
                match &map[i].1 {
                    CborValue::Integer(x) => {
                        if 0 <= *x && *x <= u8::MAX as i128 {
                            maybe_error = ErrorCode::try_from_i128(*x);
                        } else {
                            return None;
                        }
                    },
                    _ => {
                        return None;
                    },
                }
            } else if tag == 31 {
                match &map[i].1 {
                    CborValue::Text(t) => {
                        error_description = Some(t.clone());
                    },
                    _ => {
                        return None;
                    },
                }
            } else if tag == 32 {
                match &map[i].1 {
                    CborValue::Text(t) => {
                        error_uri = Some(t.clone());
                    },
                    _ => {
                        return None;
                    },
                }
            } else {
                return None;
            }
            i = i + 1;
        }
        proof {
            assert(m.skip(map@.len() as int) =~= Seq::<(i128, SpecCborValue)>::empty());
        }
        match maybe_error {
            Some(error) => Some(ErrorResponse { error, error_description, error_uri }),
            None => None,
        }
    }
}

} // verus!
