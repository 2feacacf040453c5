//! The arguments of a definition: what they cost and when they are text.

use vstd::prelude::*;
use vstd::string::StringSliceAdditionalSpecFns;
use vstd::utf8::{encode_utf8, valid_utf8};

use crate::bytes::same_bytes;
use crate::catalog::CatalogError;
use crate::extension::definition::Snapshot;
use crate::extension::errors::{refuses, Refusal};
use crate::extension::protocol::Status;
use crate::text::from_utf8;

verus! {

/// The bytes of each argument.
pub open spec fn contents(arguments: Seq<Vec<u8>>) -> Seq<Seq<u8>> {
    Seq::new(arguments.len(), |i: int| arguments[i]@)
}

/// What arguments take when they are encoded: a count, and a length before
/// each.
pub open spec fn encoded_len(arguments: Seq<Seq<u8>>) -> nat
    decreases arguments.len(),
{
    if arguments.len() == 0 {
        2
    } else {
        encoded_len(arguments.drop_last()) + 4 + arguments.last().len()
    }
}

/// The charge for arguments: their encoded length, as far as it can be counted.
pub open spec fn charge_for(arguments: Seq<Seq<u8>>) -> usize {
    if encoded_len(arguments) > usize::MAX {
        usize::MAX
    } else {
        encoded_len(arguments) as usize
    }
}

pub fn encoded_argument_bytes(arguments: &Vec<Vec<u8>>) -> (n: usize)
    ensures
        n == charge_for(contents(arguments@)),
{
    let ghost all = contents(arguments@);
    let mut total: usize = 2;
    let mut i: usize = 0;
    while i < arguments.len()
        invariant
            i <= all.len(),
            all == contents(arguments@),
            total == charge_for(all.take(i as int)),
        decreases all.len() - i,
    {
        proof {
            assert(all.take(i + 1).drop_last() =~= all.take(i as int));
            assert(all.take(i + 1).last() == all[i as int]);
        }
        total = total.saturating_add(4).saturating_add(arguments[i].len());
        i = i + 1;
    }
    proof {
        assert(all.take(all.len() as int) =~= all);
    }
    total
}

/// Whether every argument is text.
pub open spec fn all_text(arguments: Seq<Seq<u8>>) -> bool {
    forall|i: int| 0 <= i < arguments.len() ==> valid_utf8(#[trigger] arguments[i])
}

pub fn arguments_are_text(arguments: &Vec<Vec<u8>>) -> (r: bool)
    ensures
        r == all_text(contents(arguments@)),
{
    let ghost all = contents(arguments@);
    let mut i: usize = 0;
    while i < arguments.len()
        invariant
            i <= all.len(),
            all == contents(arguments@),
            forall|k: int| 0 <= k < i ==> valid_utf8(#[trigger] all[k]),
        decreases all.len() - i,
    {
        match from_utf8(arguments[i].as_slice()) {
            Ok(_) => {},
            Err(_) => {
                proof {
                    assert(!valid_utf8(all[i as int]));
                }
                return false;
            },
        }
        i = i + 1;
    }
    true
}

/// Whether two lists of arguments are the same.
pub fn same_arguments(a: &Vec<Vec<u8>>, b: &Vec<Vec<u8>>) -> (r: bool)
    ensures
        r == (contents(a@) == contents(b@)),
{
    let ghost ca = contents(a@);
    let ghost cb = contents(b@);
    if a.len() != b.len() {
        proof {
            assert(ca.len() != cb.len());
        }
        return false;
    }
    let mut i: usize = 0;
    while i < a.len()
        invariant
            i <= a@.len(),
            a@.len() == b@.len(),
            ca == contents(a@),
            cb == contents(b@),
            forall|k: int| 0 <= k < i ==> #[trigger] ca[k] == cb[k],
        decreases a@.len() - i,
    {
        if !same_bytes(a[i].as_slice(), b[i].as_slice()) {
            proof {
                assert(ca[i as int] != cb[i as int]);
            }
            return false;
        }
        proof {
            assert(ca[i as int] == cb[i as int]);
        }
        i = i + 1;
    }
    proof {
        assert(ca =~= cb);
    }
    true
}

/// The texts of arguments, byte for byte.
pub open spec fn texts_of(texts: Seq<String>, arguments: Seq<Seq<u8>>) -> bool {
    &&& texts.len() == arguments.len()
    &&& forall|i: int| 0 <= i < texts.len() ==> encode_utf8((#[trigger] texts[i])@) == arguments[i]
}

/// The arguments as text, which is what the catalog stores.
fn as_texts(arguments: &Vec<Vec<u8>>) -> (r: Option<Vec<String>>)
    ensures
        match r {
            Some(t) => all_text(contents(arguments@)) && texts_of(t@, contents(arguments@)),
            None => !all_text(contents(arguments@)),
        },
{
    let ghost all = contents(arguments@);
    let mut texts: Vec<String> = Vec::new();
    let mut i: usize = 0;
    while i < arguments.len()
        invariant
            i <= all.len(),
            all == contents(arguments@),
            texts@.len() == i,
            forall|k: int| 0 <= k < i ==> encode_utf8((#[trigger] texts@[k])@) == all[k],
            forall|k: int| 0 <= k < i ==> valid_utf8(#[trigger] all[k]),
        decreases all.len() - i,
    {
        match from_utf8(arguments[i].as_slice()) {
            Ok(s) => {
                let text = s.to_owned();
                proof {
                    assert(text@ == s@);
                    assert(s.spec_bytes() == encode_utf8(s@));
                }
                texts.push(text);
            },
            Err(_) => {
                proof {
                    assert(!valid_utf8(all[i as int]));
                }
                return None;
            },
        }
        i = i + 1;
    }
    Some(texts)
}

/// What a creation hands to the catalog.
pub fn creation_arguments(arguments: &Option<Vec<Vec<u8>>>) -> (r: Result<Vec<String>, Refusal>)
    ensures
        match *arguments {
            None => r matches Err(e) && refuses(
                e,
                Status::Other,
                "pending extension arguments are unavailable"@,
            ),
            Some(a) => if all_text(contents(a@)) {
                r matches Ok(t) && texts_of(t@, contents(a@))
            } else {
                r matches Err(e) && refuses(
                    e,
                    Status::Invalid,
                    "persistent arguments must be UTF-8"@,
                )
            },
        },
{
    match arguments {
        None => Err(
            Refusal {
                status: Status::Other,
                detail: "pending extension arguments are unavailable".to_owned(),
            },
        ),
        Some(a) => match as_texts(a) {
            Some(t) => Ok(t),
            None => Err(
                Refusal {
                    status: Status::Invalid,
                    detail: "persistent arguments must be UTF-8".to_owned(),
                },
            ),
        },
    }
}

/// What an update hands to the catalog.
pub fn update_arguments(arguments: &Vec<Vec<u8>>) -> (r: Result<Vec<String>, CatalogError>)
    ensures
        if all_text(contents(arguments@)) {
            r matches Ok(t) && texts_of(t@, contents(arguments@))
        } else {
            r matches Err(CatalogError::Invalid(s)) && s@ == "persistent arguments must be UTF-8"@
        },
{
    match as_texts(arguments) {
        Some(t) => Ok(t),
        None => Err(CatalogError::Invalid("persistent arguments must be UTF-8")),
    }
}

/// The arguments that the catalog gave back, if they are those that the
/// definition was stored with.
pub fn loaded_arguments(current: &Snapshot, loaded: Result<Vec<Vec<u8>>, CatalogError>) -> (r:
    Result<Vec<Vec<u8>>, CatalogError>)
    ensures
        match loaded {
            Err(e) => r == Err::<Vec<Vec<u8>>, CatalogError>(e),
            Ok(a) => if charge_for(contents(a@)) == current.argument_bytes {
                r == Ok::<Vec<Vec<u8>>, CatalogError>(a)
            } else {
                r matches Err(CatalogError::Storage(s)) && s@
                    == "persistent extension argument metadata changed"@
            },
        },
{
    match loaded {
        Err(e) => Err(e),
        Ok(a) => {
            if encoded_argument_bytes(&a) != current.argument_bytes {
                Err(
                    CatalogError::Storage(
                        "persistent extension argument metadata changed".to_owned(),
                    ),
                )
            } else {
                Ok(a)
            }
        },
    }
}

} // verus!
