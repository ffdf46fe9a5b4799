//! Access-token generation: a fixed-width buffer of fresh random bytes.

use vstd::prelude::*;
use rand::RngExt;

verus! {

/// Fill the token buffer with random bytes.
///
/// Relies on rand's thread-local generator (`rand::rng`) and `RngExt::fill`
/// over `u8`: every byte is drawn fresh; nothing is promised of the values.
#[verifier::external_body]
fn fill_random(buf: &mut Box<[u8; 64]>) {
    rand::rng().fill(&mut buf[..]);
}

/// A fresh 64-byte access token of random bytes.
pub fn generate_token() -> (t: Box<[u8; 64]>) {
    let mut arr: Box<[u8; 64]> = Box::new([0u8; 64]);
    fill_random(&mut arr);
    arr
}

} // verus!
