//! Codec library for a tagged binary property format, its textual
//! surface syntax, a JSON mirror, and the digest dictionaries used to
//! recover human-readable names.

pub mod hash;
pub mod binary;
pub mod hash_binary;
pub mod model;
pub mod sections;
pub mod unhash;
pub mod wire;

use vstd::prelude::*;

verus! {

} // verus!
