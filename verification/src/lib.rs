pub mod answer;
pub mod catalog;
pub mod chunker;
pub mod codec;
pub mod hashing;
pub mod ingest;
pub mod ledger;
pub mod metadata;
pub mod numeric;
pub mod retrieval;
pub mod strutil;

use vstd::prelude::*;

verus! {

/// Default lifetime, in seconds, of a presigned upload or download link
/// handed out for the object store.
pub fn default_expiration() -> (r: u64)
    ensures
        r == 900,
{
    900
}

} // verus!
