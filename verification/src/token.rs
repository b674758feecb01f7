//! The token endpoint's messages: the access token request a client sends
//! and the access token response the authorization server returns.

use vstd::prelude::*;

use crate::cbor_map::cbor_map_from_int;
use crate::cbor_map::lemma_wire_pairs_tags;
use crate::cbor_map::spec_normalize;
use crate::cbor_map::spec_wire_pairs;
use crate::cbor_map::wire_has_tag;
use crate::pop::ProofOfPossessionKey;
use crate::pop::lemma_pop_round_trip;
use crate::pop::spec_pop_value;
use crate::values::ByteString;
use crate::values::CborValue;
use crate::values::SpecCborValue;
use crate::values::SpecTextOrByteString;
use crate::values::TextOrByteString;
use crate::values::clone_bytes;
use crate::values::spec_text_or_bytes_value;

verus! {

broadcast use vstd::group_vstd_default;

/// Request for an access token.  All fields are optional except
/// `client_id`, which the protocol requires but whose absence on the wire
/// is tolerated: it then decodes as the empty string.
#[derive(Debug, PartialEq)]
pub struct AccessTokenRequest {
    /// Grant type used for this request.
    pub grant_type: Option<u32>,
    /// Logical name of the target service the token is requested for.
    pub audience: Option<String>,
    /// URI to redirect the client to after authorization completes.
    pub redirect_uri: Option<String>,
    /// Client nonce to ensure the token is still fresh.
    pub client_nonce: Option<ByteString>,
    /// Scope of the access request.
    pub scope: Option<TextOrByteString>,
    /// Present when the server shall echo its chosen profile back.
    pub ace_profile: Option<()>,
    /// Key the client wants bound to the token for proof of possession.
    pub req_cnf: Option<ProofOfPossessionKey>,
    /// The client identifier.
    pub client_id: String,
}

/// Mathematical model of an access token request.
pub struct SpecTokenRequest {
    pub grant_type: Option<u32>,
    pub audience: Option<Seq<char>>,
    pub redirect_uri: Option<Seq<char>>,
    pub client_nonce: Option<Seq<u8>>,
    pub scope: Option<SpecTextOrByteString>,
    pub ace_profile: bool,
    pub req_cnf: Option<Seq<(i128, SpecCborValue)>>,
    pub client_id: Seq<char>,
}

impl DeepView for AccessTokenRequest {
    type V = SpecTokenRequest;

    open spec fn deep_view(&self) -> SpecTokenRequest {
        SpecTokenRequest {
            grant_type: self.grant_type.deep_view(),
            audience: self.audience.deep_view(),
            redirect_uri: self.redirect_uri.deep_view(),
            client_nonce: self.client_nonce.deep_view(),
            scope: self.scope.deep_view(),
            ace_profile: self.ace_profile is Some,
            req_cnf: self.req_cnf.deep_view(),
            client_id: self.client_id@,
        }
    }
}

impl SpecTokenRequest {
    /// The request every decode starts from: all fields absent, the client
    /// identifier empty.
    pub open spec fn empty() -> SpecTokenRequest {
        SpecTokenRequest {
            grant_type: None,
            audience: None,
            redirect_uri: None,
            client_nonce: None,
            scope: None,
            ace_profile: false,
            req_cnf: None,
            client_id: Seq::empty(),
        }
    }

    /// The ordered encoded pair list of a request; the client identifier is
    /// always emitted, the presence-only profile field encodes as the
    /// explicit no-value marker.
    pub open spec fn as_pairs(self) -> Seq<(u16, Option<SpecCborValue>)> {
        seq![
            (
                4u16,
                match self.req_cnf {
                    Some(e) => Some(spec_pop_value(e)),
                    None => None,
                },
            ),
            (
                5u16,
                match self.audience {
                    Some(t) => Some(SpecCborValue::Text(t)),
                    None => None,
                },
            ),
            (
                9u16,
                match self.scope {
                    Some(s) => Some(spec_text_or_bytes_value(s)),
                    None => None,
                },
            ),
            (24u16, Some(SpecCborValue::Text(self.client_id))),
            (
                27u16,
                match self.redirect_uri {
                    Some(t) => Some(SpecCborValue::Text(t)),
                    None => None,
                },
            ),
            (
                33u16,
                match self.grant_type {
                    Some(g) => Some(SpecCborValue::Integer(g as i128)),
                    None => None,
                },
            ),
            (
                38u16,
                if self.ace_profile {
                    Some(SpecCborValue::Null)
                } else {
                    None
                },
            ),
            (
                39u16,
                match self.client_nonce {
                    Some(b) => Some(SpecCborValue::Bytes(b)),
                    None => None,
                },
            ),
        ]
    }

    /// Whether one decoded pair is acceptable for a request: a registered
    /// tag, a value of the registered kind, integers within their field's
    /// width, and an embedded key map with integer keys only.
    pub open spec fn pair_accepted(p: (i128, SpecCborValue)) -> bool {
        if p.0 == 4 {
            p.1 matches SpecCborValue::MapValue(m) && spec_normalize(m) is Some
        } else if p.0 == 5 {
            p.1 is Text
        } else if p.0 == 9 {
            p.1 is Text || p.1 is Bytes
        } else if p.0 == 24 {
            p.1 is Text
        } else if p.0 == 27 {
            p.1 is Text
        } else if p.0 == 33 {
            p.1 matches SpecCborValue::Integer(x) && 0 <= x <= u32::MAX
        } else if p.0 == 38 {
            p.1 is Null
        } else if p.0 == 39 {
            p.1 is Bytes
        } else {
            false
        }
    }

    /// Effect of one decoded pair on the request built so far.
    pub open spec fn step(self, p: (i128, SpecCborValue)) -> Option<SpecTokenRequest> {
        if p.0 == 4 {
            match p.1 {
                SpecCborValue::MapValue(m) => match spec_normalize(m) {
                    Some(pm) => Some(SpecTokenRequest { req_cnf: Some(pm), ..self }),
                    None => None,
                },
                _ => None,
            }
        } else if p.0 == 5 {
            match p.1 {
                SpecCborValue::Text(t) => Some(SpecTokenRequest { audience: Some(t), ..self }),
                _ => None,
            }
        } else if p.0 == 9 {
            match p.1 {
                SpecCborValue::Text(t) => Some(
                    SpecTokenRequest { scope: Some(SpecTextOrByteString::TextString(t)), ..self },
                ),
                SpecCborValue::Bytes(b) => Some(
                    SpecTokenRequest { scope: Some(SpecTextOrByteString::ByteString(b)), ..self },
                ),
                _ => None,
            }
        } else if p.0 == 24 {
            match p.1 {
                SpecCborValue::Text(t) => Some(SpecTokenRequest { client_id: t, ..self }),
                _ => None,
            }
        } else if p.0 == 27 {
            match p.1 {
                SpecCborValue::Text(t) => Some(SpecTokenRequest { redirect_uri: Some(t), ..self }),
                _ => None,
            }
        } else if p.0 == 33 {
            match p.1 {
                SpecCborValue::Integer(x) => if 0 <= x <= u32::MAX {
                    Some(SpecTokenRequest { grant_type: Some(x as u32), ..self })
                } else {
                    None
                },
                _ => None,
            }
        } else if p.0 == 38 {
            match p.1 {
                SpecCborValue::Null => Some(SpecTokenRequest { ace_profile: true, ..self }),
                _ => None,
            }
        } else if p.0 == 39 {
            match p.1 {
                SpecCborValue::Bytes(b) => Some(
                    SpecTokenRequest { client_nonce: Some(b), ..self },
                ),
                _ => None,
            }
        } else {
            None
        }
    }

    /// Decode of a pair list starting from an already-built request.
    pub open spec fn from_pairs_from(
        pairs: Seq<(i128, SpecCborValue)>,
        acc: SpecTokenRequest,
    ) -> Option<SpecTokenRequest>
        decreases pairs.len(),
    {
        if pairs.len() == 0 {
            Some(acc)
        } else {
            match acc.step(pairs[0]) {
                Some(acc2) => Self::from_pairs_from(pairs.drop_first(), acc2),
                None => None,
            }
        }
    }

    /// Decode of a pair list into a request.
    pub open spec fn from_pairs(pairs: Seq<(i128, SpecCborValue)>) -> Option<SpecTokenRequest> {
        Self::from_pairs_from(pairs, Self::empty())
    }

    /// The request's tag registry.
    pub open spec fn known_tag(t: i128) -> bool {
        t == 4 || t == 5 || t == 9 || t == 24 || t == 27 || t == 33 || t == 38 || t == 39
    }
}

/// Decoding a request succeeds exactly when every pair is acceptable,
/// whatever request the decode starts from.
pub proof fn lemma_request_decode_characterization(
    pairs: Seq<(i128, SpecCborValue)>,
    acc: SpecTokenRequest,
)
    ensures
        SpecTokenRequest::from_pairs_from(pairs, acc) is Some <==> (forall|i: int|
            0 <= i < pairs.len() ==> SpecTokenRequest::pair_accepted(pairs[i])),
    decreases pairs.len(),
{
    if pairs.len() > 0 {
        match acc.step(pairs[0]) {
            Some(acc2) => {
                lemma_request_decode_characterization(pairs.drop_first(), acc2);
                if SpecTokenRequest::from_pairs_from(pairs, acc) is Some {
                    assert forall|i: int|
                        0 <= i < pairs.len() implies SpecTokenRequest::pair_accepted(
                        pairs[i],
                    ) by {
                        if i > 0 {
                            assert(SpecTokenRequest::pair_accepted(pairs.drop_first()[i - 1]));
                        }
                    }
                } else {
                    let i = choose|i: int|
                        0 <= i < pairs.drop_first().len() && !SpecTokenRequest::pair_accepted(
                            pairs.drop_first()[i],
                        );
                    assert(!SpecTokenRequest::pair_accepted(pairs[i + 1]));
                }
            },
            None => {
                assert(!SpecTokenRequest::pair_accepted(pairs[0]));
            },
        }
    }
}

/// Unknown tag rejection for requests.
pub proof fn lemma_request_unknown_tag_rejected(pairs: Seq<(i128, SpecCborValue)>, i: int)
    requires
        0 <= i < pairs.len(),
        !SpecTokenRequest::known_tag(pairs[i].0),
    ensures
        SpecTokenRequest::from_pairs(pairs) is None,
{
    lemma_request_decode_characterization(pairs, SpecTokenRequest::empty());
    assert(!SpecTokenRequest::pair_accepted(pairs[i]));
}

/// Shape rejection for requests: one unacceptable pair fails the whole
/// decode; no partial request is ever returned.
pub proof fn lemma_request_rejected_pair(pairs: Seq<(i128, SpecCborValue)>, i: int)
    requires
        0 <= i < pairs.len(),
        !SpecTokenRequest::pair_accepted(pairs[i]),
    ensures
        SpecTokenRequest::from_pairs(pairs) is None,
{
    lemma_request_decode_characterization(pairs, SpecTokenRequest::empty());
}

/// Presence-only field: the profile-request tag decodes only from the
/// explicit no-value marker; any other value there fails the decode.
pub proof fn lemma_request_ace_profile_presence(pairs: Seq<(i128, SpecCborValue)>, i: int)
    requires
        0 <= i < pairs.len(),
        pairs[i].0 == 38,
        !(pairs[i].1 is Null),
    ensures
        SpecTokenRequest::from_pairs(pairs) is None,
{
    lemma_request_decode_characterization(pairs, SpecTokenRequest::empty());
    assert(!SpecTokenRequest::pair_accepted(pairs[i]));
}

/// A lone presence marker decodes and sets the profile-request flag.
pub proof fn lemma_request_ace_profile_marker()
    ensures
        SpecTokenRequest::from_pairs(seq![(38, SpecCborValue::Null)]) == Some(
            (SpecTokenRequest { ace_profile: true, ..SpecTokenRequest::empty() }),
        ),
{
    reveal_with_fuel(SpecTokenRequest::from_pairs_from, 2);
}

/// Scope polymorphism: a scope pair of text kind decodes to the text
/// variant, one of bytes kind to the bytes variant.
pub proof fn lemma_request_scope_polymorphism(t: Seq<char>, b: Seq<u8>)
    ensures
        SpecTokenRequest::from_pairs(seq![(9, SpecCborValue::Text(t))]) == Some(
            (SpecTokenRequest {
                scope: Some(SpecTextOrByteString::TextString(t)),
                ..SpecTokenRequest::empty()
            }),
        ),
        SpecTokenRequest::from_pairs(seq![(9, SpecCborValue::Bytes(b))]) == Some(
            (SpecTokenRequest {
                scope: Some(SpecTextOrByteString::ByteString(b)),
                ..SpecTokenRequest::empty()
            }),
        ),
{
    reveal_with_fuel(SpecTokenRequest::from_pairs_from, 3);
}

/// Nested failure propagation: an embedded key map that itself fails to
/// normalize (some key is not an integer) fails the containing request.
pub proof fn lemma_request_nested_failure(pairs: Seq<(i128, SpecCborValue)>, i: int)
    requires
        0 <= i < pairs.len(),
        pairs[i].0 == 4,
        pairs[i].1 matches SpecCborValue::MapValue(m) && spec_normalize(m) is None,
    ensures
        SpecTokenRequest::from_pairs(pairs) is None,
{
    lemma_request_decode_characterization(pairs, SpecTokenRequest::empty());
    assert(!SpecTokenRequest::pair_accepted(pairs[i]));
}

/// Omission: the wire map of an encoded request holds a tag exactly when
/// the corresponding field is set; the client identifier is always sent.
pub proof fn lemma_request_emitted_tags(v: SpecTokenRequest, t: i128)
    ensures
        wire_has_tag(spec_wire_pairs(v.as_pairs()), t) <==> ((t == 4 && v.req_cnf is Some) || (t
            == 5 && v.audience is Some) || (t == 9 && v.scope is Some) || (t == 24) || (t == 27
            && v.redirect_uri is Some) || (t == 33 && v.grant_type is Some) || (t == 38
            && v.ace_profile) || (t == 39 && v.client_nonce is Some)),
{
    lemma_wire_pairs_tags(v.as_pairs(), t);
    let s = v.as_pairs();
    if exists|j: int| 0 <= j < s.len() && s[j].0 as i128 == t && s[j].1 is Some {
        let j = choose|j: int| 0 <= j < s.len() && s[j].0 as i128 == t && s[j].1 is Some;
        assert(0 <= j < 8);
    }
    if t == 4 && v.req_cnf is Some {
        assert(s[0].0 as i128 == t && s[0].1 is Some);
    }
    if t == 5 && v.audience is Some {
        assert(s[1].0 as i128 == t && s[1].1 is Some);
    }
    if t == 9 && v.scope is Some {
        assert(s[2].0 as i128 == t && s[2].1 is Some);
    }
    if t == 24 {
        assert(s[3].0 as i128 == t && s[3].1 is Some);
    }
    if t == 27 && v.redirect_uri is Some {
        assert(s[4].0 as i128 == t && s[4].1 is Some);
    }
    if t == 33 && v.grant_type is Some {
        assert(s[5].0 as i128 == t && s[5].1 is Some);
    }
    if t == 38 && v.ace_profile {
        assert(s[6].0 as i128 == t && s[6].1 is Some);
    }
    if t == 39 && v.client_nonce is Some {
        assert(s[7].0 as i128 == t && s[7].1 is Some);
    }
}

/// Round trip: every request, in particular one with every optional field
/// set, decodes from its own wire encoding back to itself.
#[verifier::rlimit(60)]
pub proof fn lemma_request_round_trip(v: SpecTokenRequest)
    ensures
        SpecTokenRequest::from_pairs(spec_wire_pairs(v.as_pairs())) == Some(v),
{
    reveal_with_fuel(spec_wire_pairs, 10);
    reveal_with_fuel(SpecTokenRequest::from_pairs_from, 10);
    match v.req_cnf {
        Some(e) => {
            lemma_pop_round_trip(e);
        },
        None => {},
    }
    match v.scope {
        Some(SpecTextOrByteString::TextString(t)) => {},
        Some(SpecTextOrByteString::ByteString(b)) => {},
        None => {},
    }
}

impl Default for AccessTokenRequest {
    /// The all-absent request with an empty client identifier.
    fn default() -> (r: AccessTokenRequest)
        ensures
            r.deep_view() == SpecTokenRequest::empty(),
    {
        let r = AccessTokenRequest {
            grant_type: None,
            audience: None,
            redirect_uri: None,
            client_nonce: None,
            scope: None,
            ace_profile: None,
            req_cnf: None,
            client_id: String::new(),
        };
        proof {
            assert(r.deep_view().client_id =~= Seq::<char>::empty());
        }
        r
    }
}

impl AccessTokenRequest {
    /// Encode: the ordered pair list of this request, one entry per
    /// registered tag, unset optional fields absent.
    pub fn as_cbor_map(&self) -> (r: Vec<(u16, Option<CborValue>)>)
        ensures
            r.deep_view() == self.deep_view().as_pairs(),
    {
        let mut r: Vec<(u16, Option<CborValue>)> = Vec::new();
        r.push(
            (
                4,
                match &self.req_cnf {
                    Some(k) => Some(k.to_cbor_map_value()),
                    None => None,
                },
            ),
        );
        r.push(
            (
                5,
                match &self.audience {
                    Some(t) => Some(CborValue::Text(t.clone())),
                    None => None,
                },
            ),
        );
        r.push(
            (
                9,
                match &self.scope {
                    Some(s) => Some(s.to_cbor_value()),
                    None => None,
                },
            ),
        );
        r.push((24, Some(CborValue::Text(self.client_id.clone()))));
        r.push(
            (
                27,
                match &self.redirect_uri {
                    Some(t) => Some(CborValue::Text(t.clone())),
                    None => None,
                },
            ),
        );
        r.push(
            (
                33,
                match &self.grant_type {
                    Some(g) => Some(CborValue::Integer(*g as i128)),
                    None => None,
                },
            ),
        );
        r.push(
            (
                38,
                match &self.ace_profile {
                    Some(_) => Some(CborValue::Null),
                    None => None,
                },
            ),
        );
        r.push(
            (
                39,
                match &self.client_nonce {
                    Some(b) => Some(CborValue::Bytes(clone_bytes(&b.bytes))),
                    None => None,
                },
            ),
        );
        proof {
            assert(r.deep_view() =~= self.deep_view().as_pairs());
        }
        r
    }

    /// Decode: consumes a normalized pair list once, in order; fails on any
    /// unknown tag, ill-shaped value, out-of-range integer or embedded key
    /// map with a non-integer key, returning no partial request.
    pub fn try_from_cbor_map(map: Vec<(i128, CborValue)>) -> (r: Option<Self>)
        ensures
            r.deep_view() == SpecTokenRequest::from_pairs(map.deep_view()),
    {
        let ghost m = map.deep_view();
        let mut req = AccessTokenRequest::default();
        let mut i: usize = 0;
        proof {
            assert(m.skip(0) =~= m);
        }
        while i < map.len()
            invariant
                i <= map.len(),
                m == map.deep_view(),
                m.len() == map@.len(),
                forall|j: int|
                    0 <= j < map@.len() ==> #[trigger] m[j] == (
                        map@[j].0,
                        map@[j].1.deep_view(),
                    ),
                SpecTokenRequest::from_pairs(m) == SpecTokenRequest::from_pairs_from(
                    m.skip(i as int),
                    req.deep_view(),
                ),
            decreases map.len() - i,
        {
            let ghost j = i as int;
            let ghost before = req.deep_view();
            proof {
                assert(m.skip(j)[0] == m[j]);
                assert(m.skip(j).drop_first() =~= m.skip(j + 1));
            }
            let tag = map[i].0;
            if tag == 4 {
                match &map[i].1 {
                    CborValue::MapValue(entries) => {
                        match cbor_map_from_int(entries) {
                            Some(pop_map) => {
                                req.req_cnf = ProofOfPossessionKey::try_from_cbor_map(pop_map);
                            },
                            None => {
                                return None;
                            },
                        }
                    },
                    _ => {
                        return None;
                    },
                }
            } else if tag == 5 {
                match &map[i].1 {
                    CborValue::Text(t) => {
                        req.audience = Some(t.clone());
                    },
                    _ => {
                        return None;
                    },
                }
            } else if tag == 9 {
                match &map[i].1 {
                    CborValue::Text(t) => {
                        req.scope = Some(TextOrByteString::TextString(t.clone()));
                    },
                    CborValue::Bytes(b) => {
                        req.scope = Some(
                            TextOrByteString::ByteString(ByteString { bytes: clone_bytes(b) }),
                        );
                    },
                    _ => {
                        return None;
                    },
                }
            } else if tag == 24 {
                match &map[i].1 {
                    CborValue::Text(t) => {
                        req.client_id = t.clone();
                    },
                    _ => {
                        return None;
                    },
                }
            } else if tag == 27 {
                match &map[i].1 {
                    CborValue::Text(t) => {
                        req.redirect_uri = Some(t.clone());
                    },
                    _ => {
                        return None;
                    },
                }
            } else if tag == 33 {
                match &map[i].1 {
                    CborValue::Integer(x) => {
                        if 0 <= *x && *x <= u32::MAX as i128 {
                            req.grant_type = Some(*x as u32);
                        } else {
                            return None;
                        }
                    },
                    _ => {
                        return None;
                    },
                }
            } else if tag == 38 {
                match &map[i].1 {
                    CborValue::Null => {
                        req.ace_profile = Some(());
                    },
                    _ => {
                        return None;
                    },
                }
            } else if tag == 39 {
                match &map[i].1 {
                    CborValue::Bytes(b) => {
                        req.client_nonce = Some(ByteString { bytes: clone_bytes(b) });
                    },
                    _ => {
                        return None;
                    },
                }
            } else {
                return None;
            }
            proof {
                assert(before.step(m[j]) == Some(req.deep_view()));
            }
            i = i + 1;
        }
        proof {
            assert(m.skip(map@.len() as int) =~= Seq::<(i128, SpecCborValue)>::empty());
        }
        Some(req)
    }
}

/// Response carrying an access token.  The token itself is required by the
/// protocol, but its absence on the wire is tolerated: it then decodes as
/// the empty byte string.
#[derive(Debug, PartialEq)]
pub struct AccessTokenResponse {
    /// The access token issued by the authorization server.
    pub access_token: ByteString,
    /// Lifetime of the token in seconds.
    pub expires_in: Option<u32>,
    /// Scope actually granted, when it differs from the one requested.
    pub scope: Option<TextOrByteString>,
    /// Kind of token issued.
    pub token_type: Option<i32>,
    /// Token to obtain a fresh access token with.
    pub refresh_token: Option<ByteString>,
    /// Profile the server chose for the exchange.
    pub ace_profile: Option<i32>,
    /// Key bound to the token for proof of possession.
    pub cnf: Option<ProofOfPossessionKey>,
    /// Key the resource server uses to authenticate itself.
    pub rs_cnf: Option<ProofOfPossessionKey>,
}

/// Mathematical model of an access token response.
pub struct SpecTokenResponse {
    pub access_token: Seq<u8>,
    pub expires_in: Option<u32>,
    pub scope: Option<SpecTextOrByteString>,
    pub token_type: Option<i32>,
    pub refresh_token: Option<Seq<u8>>,
    pub ace_profile: Option<i32>,
    pub cnf: Option<Seq<(i128, SpecCborValue)>>,
    pub rs_cnf: Option<Seq<(i128, SpecCborValue)>>,
}

impl DeepView for AccessTokenResponse {
    type V = SpecTokenResponse;

    open spec fn deep_view(&self) -> SpecTokenResponse {
        SpecTokenResponse {
            access_token: self.access_token.deep_view(),
            expires_in: self.expires_in.deep_view(),
            scope: self.scope.deep_view(),
            token_type: self.token_type.deep_view(),
            refresh_token: self.refresh_token.deep_view(),
            ace_profile: self.ace_profile.deep_view(),
            cnf: self.cnf.deep_view(),
            rs_cnf: self.rs_cnf.deep_view(),
        }
    }
}

impl SpecTokenResponse {
    /// The response every decode starts from: all fields absent, the token
    /// empty.
    pub open spec fn empty() -> SpecTokenResponse {
        SpecTokenResponse {
            access_token: Seq::empty(),
            expires_in: None,
            scope: None,
            token_type: None,
            refresh_token: None,
            ace_profile: None,
            cnf: None,
            rs_cnf: None,
        }
    }

    /// The ordered encoded pair list of a response; the token is always
    /// emitted.
    pub open spec fn as_pairs(self) -> Seq<(u16, Option<SpecCborValue>)> {
        seq![
            (1u16, Some(SpecCborValue::Bytes(self.access_token))),
            (
                2u16,
                match self.expires_in {
                    Some(x) => Some(SpecCborValue::Integer(x as i128)),
                    None => None,
                },
            ),
            (
                8u16,
                match self.cnf {
                    Some(e) => Some(spec_pop_value(e)),
                    None => None,
                },
            ),
            (
                9u16,
                match self.scope {
                    Some(s) => Some(spec_text_or_bytes_value(s)),
                    None => None,
                },
            ),
            (
                34u16,
                match self.token_type {
                    Some(x) => Some(SpecCborValue::Integer(x as i128)),
                    None => None,
                },
            ),
            (
                37u16,
                match self.refresh_token {
                    Some(b) => Some(SpecCborValue::Bytes(b)),
                    None => None,
                },
            ),
            (
                38u16,
                match self.ace_profile {
                    Some(x) => Some(SpecCborValue::Integer(x as i128)),
                    None => None,
                },
            ),
            (
                41u16,
                match self.rs_cnf {
                    Some(e) => Some(spec_pop_value(e)),
                    None => None,
                },
            ),
        ]
    }

    /// Whether one decoded pair is acceptable for a response.
    pub open spec fn pair_accepted(p: (i128, SpecCborValue)) -> bool {
        if p.0 == 1 {
            p.1 is Bytes
        } else if p.0 == 2 {
            p.1 matches SpecCborValue::Integer(x) && 0 <= x <= u32::MAX
        } else if p.0 == 8 {
            p.1 matches SpecCborValue::MapValue(m) && spec_normalize(m) is Some
        } else if p.0 == 9 {
            p.1 is Text || p.1 is Bytes
        } else if p.0 == 34 {
            p.1 matches SpecCborValue::Integer(x) && i32::MIN <= x <= i32::MAX
        } else if p.0 == 37 {
            p.1 is Bytes
        } else if p.0 == 38 {
            p.1 matches SpecCborValue::Integer(x) && i32::MIN <= x <= i32::MAX
        } else if p.0 == 41 {
            p.1 matches SpecCborValue::MapValue(m) && spec_normalize(m) is Some
        } else {
            false
        }
    }

    /// Effect of one decoded pair on the response built so far.
    pub open spec fn step(self, p: (i128, SpecCborValue)) -> Option<SpecTokenResponse> {
        if p.0 == 1 {
            match p.1 {
                SpecCborValue::Bytes(b) => Some(SpecTokenResponse { access_token: b, ..self }),
                _ => None,
            }
        } else if p.0 == 2 {
            match p.1 {
                SpecCborValue::Integer(x) => if 0 <= x <= u32::MAX {
                    Some(SpecTokenResponse { expires_in: Some(x as u32), ..self })
                } else {
                    None
                },
                _ => None,
            }
        } else if p.0 == 8 {
            match p.1 {
                SpecCborValue::MapValue(m) => match spec_normalize(m) {
                    Some(pm) => Some(SpecTokenResponse { cnf: Some(pm), ..self }),
                    None => None,
                },
                _ => None,
            }
        } else if p.0 == 9 {
            match p.1 {
                SpecCborValue::Text(t) => Some(
                    SpecTokenResponse { scope: Some(SpecTextOrByteString::TextString(t)), ..self },
                ),
                SpecCborValue::Bytes(b) => Some(
                    SpecTokenResponse { scope: Some(SpecTextOrByteString::ByteString(b)), ..self },
                ),
                _ => None,
            }
        } else if p.0 == 34 {
            match p.1 {
                SpecCborValue::Integer(x) => if i32::MIN <= x <= i32::MAX {
                    Some(SpecTokenResponse { token_type: Some(x as i32), ..self })
                } else {
                    None
                },
                _ => None,
            }
        } else if p.0 == 37 {
            match p.1 {
                SpecCborValue::Bytes(b) => Some(
                    SpecTokenResponse { refresh_token: Some(b), ..self },
                ),
                _ => None,
            }
        } else if p.0 == 38 {
            match p.1 {
                SpecCborValue::Integer(x) => if i32::MIN <= x <= i32::MAX {
                    Some(SpecTokenResponse { ace_profile: Some(x as i32), ..self })
                } else {
                    None
                },
                _ => None,
            }
        } else if p.0 == 41 {
            match p.1 {
                SpecCborValue::MapValue(m) => match spec_normalize(m) {
                    Some(pm) => Some(SpecTokenResponse { rs_cnf: Some(pm), ..self }),
                    None => None,
                },
                _ => None,
            }
        } else {
            None
        }
    }

    /// Decode of a pair list starting from an already-built response.
    pub open spec fn from_pairs_from(
        pairs: Seq<(i128, SpecCborValue)>,
        acc: SpecTokenResponse,
    ) -> Option<SpecTokenResponse>
        decreases pairs.len(),
    {
        if pairs.len() == 0 {
            Some(acc)
        } else {
            match acc.step(pairs[0]) {
                Some(acc2) => Self::from_pairs_from(pairs.drop_first(), acc2),
                None => None,
            }
        }
    }

    /// Decode of a pair list into a response.
    pub open spec fn from_pairs(pairs: Seq<(i128, SpecCborValue)>) -> Option<SpecTokenResponse> {
        Self::from_pairs_from(pairs, Self::empty())
    }

    /// The response's tag registry.
    pub open spec fn known_tag(t: i128) -> bool {
        t == 1 || t == 2 || t == 8 || t == 9 || t == 34 || t == 37 || t == 38 || t == 41
    }
}

/// Decoding a response succeeds exactly when every pair is acceptable,
/// whatever response the decode starts from.
pub proof fn lemma_response_decode_characterization(
    pairs: Seq<(i128, SpecCborValue)>,
    acc: SpecTokenResponse,
)
    ensures
        SpecTokenResponse::from_pairs_from(pairs, acc) is Some <==> (forall|i: int|
            0 <= i < pairs.len() ==> SpecTokenResponse::pair_accepted(pairs[i])),
    decreases pairs.len(),
{
    if pairs.len() > 0 {
        match acc.step(pairs[0]) {
            Some(acc2) => {
                lemma_response_decode_characterization(pairs.drop_first(), acc2);
                if SpecTokenResponse::from_pairs_from(pairs, acc) is Some {
                    assert forall|i: int|
                        0 <= i < pairs.len() implies SpecTokenResponse::pair_accepted(
                        pairs[i],
                    ) by {
                        if i > 0 {
                            assert(SpecTokenResponse::pair_accepted(pairs.drop_first()[i - 1]));
                        }
                    }
                } else {
                    let i = choose|i: int|
                        0 <= i < pairs.drop_first().len() && !SpecTokenResponse::pair_accepted(
                            pairs.drop_first()[i],
                        );
                    assert(!SpecTokenResponse::pair_accepted(pairs[i + 1]));
                }
            },
            None => {
                assert(!SpecTokenResponse::pair_accepted(pairs[0]));
            },
        }
    }
}

/// Unknown tag rejection for responses.
pub proof fn lemma_response_unknown_tag_rejected(pairs: Seq<(i128, SpecCborValue)>, i: int)
    requires
        0 <= i < pairs.len(),
        !SpecTokenResponse::known_tag(pairs[i].0),
    ensures
        SpecTokenResponse::from_pairs(pairs) is None,
{
    lemma_response_decode_characterization(pairs, SpecTokenResponse::empty());
    assert(!SpecTokenResponse::pair_accepted(pairs[i]));
}

/// Shape rejection for responses: one unacceptable pair fails the whole
/// decode; no partial response is ever returned.
pub proof fn lemma_response_rejected_pair(pairs: Seq<(i128, SpecCborValue)>, i: int)
    requires
        0 <= i < pairs.len(),
        !SpecTokenResponse::pair_accepted(pairs[i]),
    ensures
        SpecTokenResponse::from_pairs(pairs) is None,
{
    lemma_response_decode_characterization(pairs, SpecTokenResponse::empty());
}

/// Scope polymorphism: a scope pair of text kind decodes to the text
/// variant, one of bytes kind to the bytes variant.
pub proof fn lemma_response_scope_polymorphism(t: Seq<char>, b: Seq<u8>)
    ensures
        SpecTokenResponse::from_pairs(seq![(9, SpecCborValue::Text(t))]) == Some(
            (SpecTokenResponse {
                scope: Some(SpecTextOrByteString::TextString(t)),
                ..SpecTokenResponse::empty()
            }),
        ),
        SpecTokenResponse::from_pairs(seq![(9, SpecCborValue::Bytes(b))]) == Some(
            (SpecTokenResponse {
                scope: Some(SpecTextOrByteString::ByteString(b)),
                ..SpecTokenResponse::empty()
            }),
        ),
{
    reveal_with_fuel(SpecTokenResponse::from_pairs_from, 3);
}

/// Nested failure propagation: an embedded key map that itself fails to
/// normalize fails the containing response, at either key-carrying tag.
pub proof fn lemma_response_nested_failure(pairs: Seq<(i128, SpecCborValue)>, i: int)
    requires
        0 <= i < pairs.len(),
        pairs[i].0 == 8 || pairs[i].0 == 41,
        pairs[i].1 matches SpecCborValue::MapValue(m) && spec_normalize(m) is None,
    ensures
        SpecTokenResponse::from_pairs(pairs) is None,
{
    lemma_response_decode_characterization(pairs, SpecTokenResponse::empty());
    assert(!SpecTokenResponse::pair_accepted(pairs[i]));
}

/// Omission: the wire map of an encoded response holds a tag exactly when
/// the corresponding field is set; the token is always sent.
pub proof fn lemma_response_emitted_tags(v: SpecTokenResponse, t: i128)
    ensures
        wire_has_tag(spec_wire_pairs(v.as_pairs()), t) <==> ((t == 1) || (t == 2
            && v.expires_in is Some) || (t == 8 && v.cnf is Some) || (t == 9 && v.scope is Some)
            || (t == 34 && v.token_type is Some) || (t == 37 && v.refresh_token is Some) || (t
            == 38 && v.ace_profile is Some) || (t == 41 && v.rs_cnf is Some)),
{
    lemma_wire_pairs_tags(v.as_pairs(), t);
    let s = v.as_pairs();
    if exists|j: int| 0 <= j < s.len() && s[j].0 as i128 == t && s[j].1 is Some {
        let j = choose|j: int| 0 <= j < s.len() && s[j].0 as i128 == t && s[j].1 is Some;
        assert(0 <= j < 8);
    }
    if t == 1 {
        assert(s[0].0 as i128 == t && s[0].1 is Some);
    }
    if t == 2 && v.expires_in is Some {
        assert(s[1].0 as i128 == t && s[1].1 is Some);
    }
    if t == 8 && v.cnf is Some {
        assert(s[2].0 as i128 == t && s[2].1 is Some);
    }
    if t == 9 && v.scope is Some {
        assert(s[3].0 as i128 == t && s[3].1 is Some);
    }
    if t == 34 && v.token_type is Some {
        assert(s[4].0 as i128 == t && s[4].1 is Some);
    }
    if t == 37 && v.refresh_token is Some {
        assert(s[5].0 as i128 == t && s[5].1 is Some);
    }
    if t == 38 && v.ace_profile is Some {
        assert(s[6].0 as i128 == t && s[6].1 is Some);
    }
    if t == 41 && v.rs_cnf is Some {
        assert(s[7].0 as i128 == t && s[7].1 is Some);
    }
}

/// Round trip: every response, in particular one with every optional field
/// set, decodes from its own wire encoding back to itself.
#[verifier::rlimit(60)]
pub proof fn lemma_response_round_trip(v: SpecTokenResponse)
    ensures
        SpecTokenResponse::from_pairs(spec_wire_pairs(v.as_pairs())) == Some(v),
{
    reveal_with_fuel(spec_wire_pairs, 10);
    reveal_with_fuel(SpecTokenResponse::from_pairs_from, 10);
    match v.cnf {
        Some(e) => {
            lemma_pop_round_trip(e);
        },
        None => {},
    }
    match v.rs_cnf {
        Some(e) => {
            lemma_pop_round_trip(e);
        },
        None => {},
    }
    match v.scope {
        Some(SpecTextOrByteString::TextString(t)) => {},
        Some(SpecTextOrByteString::ByteString(b)) => {},
        None => {},
    }
}

impl Default for AccessTokenResponse {
    /// The all-absent response with an empty token.
    fn default() -> (r: AccessTokenResponse)
        ensures
            r.deep_view() == SpecTokenResponse::empty(),
    {
        let r = AccessTokenResponse {
            access_token: ByteString { bytes: Vec::new() },
            expires_in: None,
            scope: None,
            token_type: None,
            refresh_token: None,
            ace_profile: None,
            cnf: None,
            rs_cnf: None,
        };
        proof {
            assert(r.deep_view().access_token =~= Seq::<u8>::empty());
        }
        r
    }
}

impl AccessTokenResponse {
    /// Encode: the ordered pair list of this response, one entry per
    /// registered tag, unset optional fields absent.
    pub fn as_cbor_map(&self) -> (r: Vec<(u16, Option<CborValue>)>)
        ensures
            r.deep_view() == self.deep_view().as_pairs(),
    {
        let mut r: Vec<(u16, Option<CborValue>)> = Vec::new();
        r.push((1, Some(CborValue::Bytes(clone_bytes(&self.access_token.bytes)))));
        r.push(
            (
                2,
                match &self.expires_in {
                    Some(x) => Some(CborValue::Integer(*x as i128)),
                    None => None,
                },
            ),
        );
        r.push(
            (
                8,
                match &self.cnf {
                    Some(k) => Some(k.to_cbor_map_value()),
                    None => None,
                },
            ),
        );
        r.push(
            (
                9,
                match &self.scope {
                    Some(s) => Some(s.to_cbor_value()),
                    None => None,
                },
            ),
        );
        r.push(
            (
                34,
                match &self.token_type {
                    Some(x) => Some(CborValue::Integer(*x as i128)),
                    None => None,
                },
            ),
        );
        r.push(
            (
                37,
                match &self.refresh_token {
                    Some(b) => Some(CborValue::Bytes(clone_bytes(&b.bytes))),
                    None => None,
                },
            ),
        );
        r.push(
            (
                38,
                match &self.ace_profile {
                    Some(x) => Some(CborValue::Integer(*x as i128)),
                    None => None,
                },
            ),
        );
        r.push(
            (
                41,
                match &self.rs_cnf {
                    Some(k) => Some(k.to_cbor_map_value()),
                    None => None,
                },
            ),
        );
        proof {
            assert(r.deep_view() =~= self.deep_view().as_pairs());
        }
        r
    }

    /// Decode: consumes a normalized pair list once, in order; fails on any
    /// unknown tag, ill-shaped value, out-of-range integer or embedded key
    /// map with a non-integer key, returning no partial response.
    pub fn try_from_cbor_map(map: Vec<(i128, CborValue)>) -> (r: Option<Self>)
        ensures
            r.deep_view() == SpecTokenResponse::from_pairs(map.deep_view()),
    {
        let ghost m = map.deep_view();
        let mut rsp = AccessTokenResponse::default();
        let mut i: usize = 0;
        proof {
            assert(m.skip(0) =~= m);
        }
        while i < map.len()
            invariant
                i <= map.len(),
                m == map.deep_view(),
                m.len() == map@.len(),
                forall|j: int|
                    0 <= j < map@.len() ==> #[trigger] m[j] == (
                        map@[j].0,
                        map@[j].1.deep_view(),
                    ),
                SpecTokenResponse::from_pairs(m) == SpecTokenResponse::from_pairs_from(
                    m.skip(i as int),
                    rsp.deep_view(),
                ),
            decreases map.len() - i,
        {
            let ghost j = i as int;
            let ghost before = rsp.deep_view();
            proof {
                assert(m.skip(j)[0] == m[j]);
                assert(m.skip(j).drop_first() =~= m.skip(j + 1));
            }
            let tag = map[i].0;
            if tag == 1 {
                match &map[i].1 {
                    CborValue::Bytes(b) => {
                        rsp.access_token = ByteString { bytes: clone_bytes(b) };
                    },
                    _ => {
                        return None;
                    },
                }
            } else if tag == 2 {
                match &map[i].1 {
                    CborValue::Integer(x) => {
                        if 0 <= *x && *x <= u32::MAX as i128 {
                            rsp.expires_in = Some(*x as u32);
                        } else {
                            return None;
                        }
                    },
                    _ => {
                        return None;
                    },
                }
            } else if tag == 8 {
                match &map[i].1 {
                    CborValue::MapValue(entries) => {
                        match cbor_map_from_int(entries) {
                            Some(pop_map) => {
                                rsp.cnf = ProofOfPossessionKey::try_from_cbor_map(pop_map);
                            },
                            None => {
                                return None;
                            },
                        }
                    },
                    _ => {
                        return None;
                    },
                }
            } else if tag == 9 {
                match &map[i].1 {
                    CborValue::Text(t) => {
                        rsp.scope = Some(TextOrByteString::TextString(t.clone()));
                    },
                    CborValue::Bytes(b) => {
                        rsp.scope = Some(
                            TextOrByteString::ByteString(ByteString { bytes: clone_bytes(b) }),
                        );
                    },
                    _ => {
                        return None;
                    },
                }
            } else if tag == 34 {
                match &map[i].1 {
                    CborValue::Integer(x) => {
                        if i32::MIN as i128 <= *x && *x <= i32::MAX as i128 {
                            rsp.token_type = Some(*x as i32);
                        } else {
                            return None;
                        }
                    },
                    _ => {
                        return None;
                    },
                }
            } else if tag == 37 {
                match &map[i].1 {
                    CborValue::Bytes(b) => {
                        rsp.refresh_token = Some(ByteString { bytes: clone_bytes(b) });
                    },
                    _ => {
                        return None;
                    },
                }
            } else if tag == 38 {
                match &map[i].1 {
                    CborValue::Integer(x) => {
                        if i32::MIN as i128 <= *x && *x <= i32::MAX as i128 {
                            rsp.ace_profile = Some(*x as i32);
                        } else {
                            return None;
                        }
                    },
                    _ => {
                        return None;
                    },
                }
            } else if tag == 41 {
                match &map[i].1 {
                    CborValue::MapValue(entries) => {
                        match cbor_map_from_int(entries) {
                            Some(pop_map) => {
                                rsp.rs_cnf = ProofOfPossessionKey::try_from_cbor_map(pop_map);
                            },
                            None => {
                                return None;
                            },
                        }
                    },
                    _ => {
                        return None;
                    },
                }
            } else {
                return None;
            }
            proof {
                assert(before.step(m[j]) == Some(rsp.deep_view()));
            }
            i = i + 1;
        }
        proof {
            assert(m.skip(map@.len() as int) =~= Seq::<(i128, SpecCborValue)>::empty());
        }
        Some(rsp)
    }
}

} // verus!
