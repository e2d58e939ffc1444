//! Plain-value models and verified decision logic behind a small family of
//! procedural macros: a `Builder` derive, a `CustomDebug` derive, a `seq!`
//! function-like macro and the `#[sorted]` / `#[sorted::check]` attributes.
//!
//! The token-level front ends (turning compiler tokens into the models of
//! [`syntax`], and rendering the plans back into tokens) live outside this
//! crate; everything that decides what a macro expands to lives here.
use vstd::prelude::*;

pub mod syntax;
pub mod text;
pub mod builder;
pub mod sorted;
pub mod seq;
pub mod debug;

verus! {

/// What `f` answers for a byte slice: the only byte of a one-byte slice, the
/// sum of the two bytes of a two-byte slice, and nothing otherwise.
pub open spec fn spec_f(bytes: Seq<u8>) -> Option<u8> {
    if bytes.len() == 1 {
        Some(bytes[0])
    } else if bytes.len() == 2 {
        Some((bytes[0] + bytes[1]) as u8)
    } else {
        None
    }
}

/// Matches a byte slice by its length: `[a]` gives `a`, `[a, b]` gives
/// `a + b`, anything else gives `None`.  The addition must not overflow.
pub fn f(bytes: &[u8]) -> (r: Option<u8>)
    requires
        bytes@.len() == 2 ==> bytes@[0] + bytes@[1] <= u8::MAX,
    ensures
        r == spec_f(bytes@),
{
    if bytes.len() == 1 {
        Some(bytes[0])
    } else if bytes.len() == 2 {
        Some(bytes[0] + bytes[1])
    } else {
        None
    }
}

/// Law: `f` gives the only byte of a one-byte slice, the arithmetic sum of
/// the two bytes of a two-byte slice, and nothing for any other length.
pub proof fn lemma_f_by_length(bytes: Seq<u8>)
    ensures
        bytes.len() == 1 ==> spec_f(bytes) == Some(bytes[0]),
        bytes.len() == 2 && bytes[0] + bytes[1] <= u8::MAX ==> (spec_f(bytes) matches Some(v) && v
            == bytes[0] + bytes[1]),
        bytes.len() != 1 && bytes.len() != 2 ==> spec_f(bytes) is None,
{
}

} // verus!
