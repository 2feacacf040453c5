//! Random identifiers.

use vstd::prelude::*;

use crate::bytes::{le_value, lemma_byte_range_values, read_le, read_u64};

verus! {

/// `getrandom::fill`: overwrites every byte with one from the system's random
/// source, or fails with the source's error as text. Which bytes come, and
/// whether it fails, depends on the system.
#[verifier::external_body]
pub(crate) fn random_fill(bytes: &mut Vec<u8>) -> (r: Result<(), String>)
    ensures
        final(bytes)@.len() == old(bytes)@.len(),
{
    getrandom::fill(bytes.as_mut_slice()).map_err(|e| e.to_string())
}

/// How many candidates are drawn before an allocation is given up.
pub const ID_DRAWS: usize = 64;

/// As many zero bytes.
fn blank(n: usize) -> (v: Vec<u8>)
    ensures
        v@.len() == n,
{
    let mut v: Vec<u8> = Vec::new();
    while v.len() < n
        invariant
            v@.len() <= n,
        decreases n - v@.len(),
    {
        v.push(0);
    }
    v
}

/// What a candidate that was drawn comes to.
#[derive(Clone, Copy, Debug, PartialEq, Eq, Structural)]
pub enum Draw<T> {
    /// The candidate is free.
    Found(T),
    /// The candidate is taken, and another may be drawn.
    Again,
    /// The source failed, or the last candidate is taken.
    GiveUp,
}

/// The number that eight bytes of the source make, the low byte first, where the
/// source gave them.
pub fn drawn_u64(filled: Result<(), String>, bytes: &Vec<u8>) -> (r: Result<u64, String>)
    requires
        bytes@.len() == 8,
    ensures
        match filled {
            Ok(_) => r matches Ok(n) && n as nat == le_value(bytes@),
            Err(e) => r == Err::<u64, String>(e),
        },
{
    match filled {
        Ok(_) => {
            proof {
                assert(bytes@.subrange(0, 8) =~= bytes@);
            }
            Ok(read_u64(bytes.as_slice(), 0))
        },
        Err(e) => Err(e),
    }
}

/// The number that four bytes of the source make, the low byte first, where the
/// source gave them.
pub fn drawn_u32(filled: Result<(), String>, bytes: &Vec<u8>) -> (r: Result<u32, String>)
    requires
        bytes@.len() == 4,
    ensures
        match filled {
            Ok(_) => r matches Ok(n) && n as nat == le_value(bytes@),
            Err(e) => r == Err::<u32, String>(e),
        },
{
    match filled {
        Ok(_) => {
            proof {
                lemma_byte_range_values();
                assert(bytes@.subrange(0, 4) =~= bytes@);
            }
            Ok(read_le(bytes.as_slice(), 0, 4) as u32)
        },
        Err(e) => Err(e),
    }
}

/// Bytes of the system's random source, and whether it gave them.
fn random_bytes(n: usize) -> (r: (Result<(), String>, Vec<u8>))
    ensures
        r.1@.len() == n,
        exists|bytes: &mut Vec<u8>, filled: Result<(), String>| #[trigger]
            call_ensures(random_fill, (bytes,), filled) && filled == r.0 && final(bytes)@ == r.1@,
{
    let mut bytes = blank(n);
    let filled = random_fill(&mut bytes);
    (filled, bytes)
}

/// Whether `r` is the number that eight bytes of the system's random source make,
/// or the error that the source gave in their place.
pub closed spec fn drew_u64(r: Result<u64, String>) -> bool {
    exists|given: (Result<(), String>, Vec<u8>)| #[trigger]
        call_ensures(random_bytes, (8usize,), given) && match given.0 {
            Ok(_) => r matches Ok(n) && n as nat == le_value(given.1@),
            Err(e) => r == Err::<u64, String>(e),
        }
}

/// As [`drew_u64`], of four bytes.
pub closed spec fn drew_u32(r: Result<u32, String>) -> bool {
    exists|given: (Result<(), String>, Vec<u8>)| #[trigger]
        call_ensures(random_bytes, (4usize,), given) && match given.0 {
            Ok(_) => r matches Ok(n) && n as nat == le_value(given.1@),
            Err(e) => r == Err::<u32, String>(e),
        }
}

/// A random 64-bit number. The system's random source decides which it is, and
/// whether there is one.
pub fn random_u64() -> (r: Result<u64, String>)
    ensures
        drew_u64(r),
{
    let (filled, bytes) = random_bytes(8);
    drawn_u64(filled, &bytes)
}

/// A random 32-bit number. The system's random source decides which it is, and
/// whether there is one.
pub fn random_u32() -> (r: Result<u32, String>)
    ensures
        drew_u32(r),
{
    let (filled, bytes) = random_bytes(4);
    drawn_u32(filled, &bytes)
}

} // verus!
