//! Message layer of an ACE-OAuth-style token exchange for constrained
//! devices: the four protocol messages are transcoded to and from compact
//! integer-keyed map representations, with a closed-world decode that rejects
//! unknown tags and ill-shaped values outright.

pub mod cbor_map;
pub mod creation_hint;
pub mod errors;
pub mod pop;
pub mod token;
pub mod values;

pub use creation_hint::AuthServerRequestCreationHint;
pub use errors::ErrorCode;
pub use errors::ErrorResponse;
pub use pop::ProofOfPossessionKey;
pub use token::AccessTokenRequest;
pub use token::AccessTokenResponse;
pub use values::ByteString;
pub use values::CborValue;
pub use values::TextOrByteString;
