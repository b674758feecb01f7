//! Wire-level value types: the closed sum of value kinds the protocol's
//! messages carry, and the small wrappers (byte strings, text-or-bytes
//! unions) that fields are made of.

use vstd::prelude::*;

verus! {

broadcast use vstd::group_vstd_default;

/// The closed set of wire-value kinds the protocol ever emits or consumes:
/// UTF-8 text, raw bytes, integers, an explicit "no value" marker, and
/// nested maps whose keys may arrive as any value kind.
#[derive(Debug, PartialEq)]
pub enum CborValue {
    Integer(i128),
    Bytes(Vec<u8>),
    Text(String),
    Null,
    MapValue(Vec<(CborValue, CborValue)>),
}

/// Mathematical model of a wire value.
pub enum SpecCborValue {
    Integer(i128),
    Bytes(Seq<u8>),
    Text(Seq<char>),
    Null,
    MapValue(Seq<(SpecCborValue, SpecCborValue)>),
}

/// Model of a wire value.
pub open spec fn spec_value_view(v: CborValue) -> SpecCborValue
    decreases v,
{
    match v {
        CborValue::Integer(i) => SpecCborValue::Integer(i),
        CborValue::Bytes(b) => SpecCborValue::Bytes(b.deep_view()),
        CborValue::Text(t) => SpecCborValue::Text(t@),
        CborValue::Null => SpecCborValue::Null,
        CborValue::MapValue(entries) => {
            proof {
                assert(decreases_to!(v => v->MapValue_0));
                assert(decreases_to!(entries => entries@));
            }
            SpecCborValue::MapValue(spec_entry_list_view(entries@))
        },
    }
}

/// Model of a list of map entries, entry by entry.
pub open spec fn spec_entry_list_view(s: Seq<(CborValue, CborValue)>) -> Seq<
    (SpecCborValue, SpecCborValue),
>
    decreases s,
{
    if s.len() == 0 {
        Seq::empty()
    } else {
        let first = {
            proof {
                assert(decreases_to!(s => s[0]));
                assert(decreases_to!(s[0] => s[0].0));
                assert(decreases_to!(s[0] => s[0].1));
            }
            (spec_value_view(s[0].0), spec_value_view(s[0].1))
        };
        let rest = {
            proof {
                assert(decreases_to!(s => s.subrange(1, s.len() as int)));
            }
            spec_entry_list_view(s.drop_first())
        };
        seq![first] + rest
    }
}

impl DeepView for CborValue {
    type V = SpecCborValue;

    open spec fn deep_view(&self) -> SpecCborValue {
        spec_value_view(*self)
    }
}

/// Basic shape of an entry-list model: same length, pointwise models.
pub proof fn lemma_entry_list_view(s: Seq<(CborValue, CborValue)>)
    ensures
        spec_entry_list_view(s).len() == s.len(),
        forall|i: int|
            0 <= i < s.len() ==> spec_entry_list_view(s)[i] == (
                spec_value_view(s[i].0),
                spec_value_view(s[i].1),
            ),
    decreases s.len(),
{
    if s.len() > 0 {
        lemma_entry_list_view(s.drop_first());
    }
}

/// Copy of a byte vector with the same contents.
pub fn clone_bytes(b: &Vec<u8>) -> (r: Vec<u8>)
    ensures
        r.deep_view() == b.deep_view(),
{
    let r = b.clone();
    assert(r.deep_view() =~= b.deep_view());
    r
}

impl CborValue {
    /// Structural copy of a wire value; the copy has the same model.
    pub fn deep_clone(&self) -> (r: CborValue)
        ensures
            r.deep_view() == self.deep_view(),
        decreases self,
    {
        match self {
            CborValue::Integer(i) => CborValue::Integer(*i),
            CborValue::Bytes(b) => CborValue::Bytes(clone_bytes(b)),
            CborValue::Text(t) => CborValue::Text(t.clone()),
            CborValue::Null => CborValue::Null,
            CborValue::MapValue(entries) => {
                let mut out: Vec<(CborValue, CborValue)> = Vec::new();
                let mut i: usize = 0;
                while i < entries.len()
                    invariant
                        *self == CborValue::MapValue(*entries),
                        i <= entries.len(),
                        out@.len() == i,
                        forall|j: int|
                            0 <= j < i ==> #[trigger] out@[j].0.deep_view() == entries@[j].0.deep_view()
                                && out@[j].1.deep_view() == entries@[j].1.deep_view(),
                    decreases entries.len() - i,
                {
                    proof {
                        let j = i as int;
                        assert(decreases_to!(*self => (*self)->MapValue_0));
                        assert(decreases_to!(*entries => entries@));
                        assert(decreases_to!(entries@ => entries@[j]));
                        assert(decreases_to!(entries@[j] => entries@[j].0));
                        assert(decreases_to!(entries@[j] => entries@[j].1));
                    }
                    let k = entries[i].0.deep_clone();
                    let v = entries[i].1.deep_clone();
                    out.push((k, v));
                    i = i + 1;
                }
                proof {
                    lemma_entry_list_view(out@);
                    lemma_entry_list_view(entries@);
                    assert forall|j: int| 0 <= j < entries@.len() implies spec_entry_list_view(
                        out@,
                    )[j] == spec_entry_list_view(entries@)[j] by {
                        assert(out@[j].0.deep_view() == entries@[j].0.deep_view());
                        assert(spec_value_view(out@[j].0) == spec_value_view(entries@[j].0));
                        assert(spec_value_view(out@[j].1) == spec_value_view(entries@[j].1));
                    }
                    assert(spec_entry_list_view(out@) =~= spec_entry_list_view(entries@));
                }
                CborValue::MapValue(out)
            },
        }
    }
}

/// Arbitrary-length raw binary content (key identifiers, nonces, tokens).
/// Equality is byte-wise.
#[derive(Debug, PartialEq, Eq)]
pub struct ByteString {
    pub bytes: Vec<u8>,
}

impl DeepView for ByteString {
    type V = Seq<u8>;

    open spec fn deep_view(&self) -> Seq<u8> {
        self.bytes.deep_view()
    }
}

impl ByteString {
    pub fn new(bytes: Vec<u8>) -> (r: ByteString)
        ensures
            r.deep_view() == bytes.deep_view(),
    {
        ByteString { bytes }
    }
}

/// A field value that the wire may carry either as UTF-8 text or as raw
/// bytes; which variant was received is preserved.
#[derive(Debug, PartialEq, Eq)]
pub enum TextOrByteString {
    TextString(String),
    ByteString(ByteString),
}

/// Mathematical model of a text-or-bytes field value.
pub enum SpecTextOrByteString {
    TextString(Seq<char>),
    ByteString(Seq<u8>),
}

impl DeepView for TextOrByteString {
    type V = SpecTextOrByteString;

    open spec fn deep_view(&self) -> SpecTextOrByteString {
        match self {
            TextOrByteString::TextString(t) => SpecTextOrByteString::TextString(t@),
            TextOrByteString::ByteString(b) => SpecTextOrByteString::ByteString(b.deep_view()),
        }
    }
}

/// The wire value a text-or-bytes field encodes as: its active variant's
/// native kind.
pub open spec fn spec_text_or_bytes_value(s: SpecTextOrByteString) -> SpecCborValue {
    match s {
        SpecTextOrByteString::TextString(t) => SpecCborValue::Text(t),
        SpecTextOrByteString::ByteString(b) => SpecCborValue::Bytes(b),
    }
}

impl TextOrByteString {
    /// Encodes this field per its active variant.
    pub fn to_cbor_value(&self) -> (r: CborValue)
        ensures
            r.deep_view() == spec_text_or_bytes_value(self.deep_view()),
    {
        match self {
            TextOrByteString::TextString(t) => CborValue::Text(t.clone()),
            TextOrByteString::ByteString(b) => CborValue::Bytes(clone_bytes(&b.bytes)),
        }
    }
}

} // verus!
