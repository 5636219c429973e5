//! Zero-knowledge inclusion proof of a credential substring inside a JWT.
//!
//! The library derives, off-circuit, the byte-alignment witness data for a
//! credential contained in a JWT document, and composes the ordered list of
//! constraint-system assertions that certify the inclusion in-circuit: two
//! SHA-256 digest bindings, direct word equality over the interior of the
//! overlap, and a subtraction-and-bit-decomposition masking check at the two
//! boundary words that tolerates the zero padding of the aligned credential.

pub mod circuit;
pub mod digest;
pub mod precompute;
pub mod util;
