//! Canonical export of finite-field elements held in JSON-shaped documents.
//!
//! A document is a tree of [`value::Value`]s. Field elements arrive in it as
//! arrays of 64-bit limbs; the transform in [`transform`] finds them by the
//! path of object keys that leads to them, packs the limbs into one exact
//! integer, optionally reduces it modulo a prime, and writes the result as a
//! decimal string.

pub mod biguint;
pub mod classify;
pub mod decimal;
pub mod export;
pub mod fallbacks;
pub mod laws;
pub mod limbs;
pub mod transform;
pub mod value;
