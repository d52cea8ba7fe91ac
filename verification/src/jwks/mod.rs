//! JSON web keys as the chain holds them.

pub mod jwk;
