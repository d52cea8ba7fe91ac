//! A JSON web key in its two shapes: packed as the chain holds it, with the
//! name of its type beside its bytes, and unpacked as a key of one variant.

use vstd::prelude::*;
use vstd::string::*;

verus! {

/// The name of the type of an RSA key on chain.
pub const RSA_JWK_TYPE_NAME: &'static str = "0x1::jwks::RSA_JWK";

/// The name of the type of a key of an unsupported kind on chain.
pub const UNSUPPORTED_JWK_TYPE_NAME: &'static str = "0x1::jwks::UnsupportedJWK";

/// A packed value: the name of its type, and its bytes.
#[derive(Clone, Debug, PartialEq, Eq)]
pub struct MoveAny {
    pub type_tag: String,
    pub data: Vec<u8>,
}

/// A key as the chain holds it.
#[derive(Clone, Debug, PartialEq, Eq)]
pub struct JWKMoveStruct {
    pub variant: MoveAny,
}

/// An RSA key.
#[allow(non_camel_case_types)]
#[derive(Clone, Debug, PartialEq, Eq)]
pub struct RSA_JWK {
    pub kid: String,
    pub kty: String,
    pub alg: String,
    pub e: String,
    pub n: String,
}

/// A key of a kind that is not supported: its identifier and its text.
#[derive(Clone, Debug, PartialEq, Eq)]
pub struct UnsupportedJWK {
    pub id: Vec<u8>,
    pub payload: Vec<u8>,
}

/// A key, unpacked.
#[derive(Debug, PartialEq)]
pub enum JWK {
    RSA(RSA_JWK),
    Unsupported(UnsupportedJWK),
}

/// The variants of a key.
#[derive(Clone, Copy, Debug, PartialEq, Eq, Structural)]
pub enum JwkVariant {
    RSA,
    Unsupported,
}

/// The type name of a packed key is that of no variant.
#[derive(Clone, Copy, Debug, PartialEq, Eq, Structural)]
pub struct UnknownVariant;

/// The name of the type of a variant on chain.
pub open spec fn type_tag_of(variant: JwkVariant) -> Seq<char> {
    match variant {
        JwkVariant::RSA => RSA_JWK_TYPE_NAME@,
        JwkVariant::Unsupported => UNSUPPORTED_JWK_TYPE_NAME@,
    }
}

impl UnknownVariant {
    /// The text of the error.
    pub fn message(&self) -> (text: &'static str)
        ensures
            text@ == "convertion from jwk move struct to jwk failed with unknown variant"@,
    {
        "convertion from jwk move struct to jwk failed with unknown variant"
    }
}

impl JWK {
    /// The key that a document stands for: the RSA key where the document
    /// could be read as one, the unsupported key made of the document otherwise.
    pub fn from_parsed(rsa: Option<RSA_JWK>, unsupported: UnsupportedJWK) -> (jwk: JWK)
        ensures
            jwk == (match rsa {
                Some(key) => JWK::RSA(key),
                None => JWK::Unsupported(unsupported),
            }),
    {
        match rsa {
            Some(key) => JWK::RSA(key),
            None => JWK::Unsupported(unsupported),
        }
    }

    /// The variant of the key.
    pub fn variant(&self) -> (variant: JwkVariant)
        ensures
            variant == (match *self {
                JWK::RSA(_) => JwkVariant::RSA,
                JWK::Unsupported(_) => JwkVariant::Unsupported,
            }),
    {
        match self {
            JWK::RSA(_) => JwkVariant::RSA,
            JWK::Unsupported(_) => JwkVariant::Unsupported,
        }
    }
}

impl JWKMoveStruct {
    /// The packed key of a variant whose bytes are `data`: it carries the
    /// type name of the variant.
    pub fn pack(variant: JwkVariant, data: Vec<u8>) -> (packed: JWKMoveStruct)
        ensures
            packed.variant.type_tag@ == type_tag_of(variant),
            packed.variant.data == data,
    {
        let name = match variant {
            JwkVariant::RSA => String::from_str(RSA_JWK_TYPE_NAME),
            JwkVariant::Unsupported => String::from_str(UNSUPPORTED_JWK_TYPE_NAME),
        };
        JWKMoveStruct { variant: MoveAny { type_tag: name, data } }
    }

    /// The variant as which the packed key is to be unpacked, by the name of
    /// its type, or the error where the name is that of no variant.
    pub fn variant_kind(&self) -> (result: Result<JwkVariant, UnknownVariant>)
        ensures
            self.variant.type_tag@ == RSA_JWK_TYPE_NAME@ ==> result == Ok::<
                JwkVariant,
                UnknownVariant,
            >(JwkVariant::RSA),
            self.variant.type_tag@ != RSA_JWK_TYPE_NAME@ && self.variant.type_tag@
                == UNSUPPORTED_JWK_TYPE_NAME@ ==> result == Ok::<JwkVariant, UnknownVariant>(
                JwkVariant::Unsupported,
            ),
            self.variant.type_tag@ != RSA_JWK_TYPE_NAME@ && self.variant.type_tag@
                != UNSUPPORTED_JWK_TYPE_NAME@ ==> result is Err,
    {
        let MoveAny { type_tag: name, data: _ } = &self.variant;
        if *name == String::from_str(RSA_JWK_TYPE_NAME) {
            Ok(JwkVariant::RSA)
        } else if *name == String::from_str(UNSUPPORTED_JWK_TYPE_NAME) {
            Ok(JwkVariant::Unsupported)
        } else {
            Err(UnknownVariant)
        }
    }
}

} // verus!
