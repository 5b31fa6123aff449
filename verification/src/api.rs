//! The values that the REST API reads and writes, and the replies it
//! builds.

use vstd::prelude::*;
use crate::text::{push_decimal, push_signed_decimal, push_str, decimal, signed_decimal};

verus! {

/// The body of a request that adds or changes a word.
pub struct AddWordRequest {
    pub english: String,
    pub russian: String,
}

/// The body of a request that records a review (quality 0 to 5).
pub struct ReviewRequest {
    pub quality: u8,
}

/// The body of a request that imports a markdown word list.
pub struct ImportRequest {
    pub content: String,
}

/// A reply that reports an outcome.
pub struct ApiResponse {
    pub success: bool,
    pub message: String,
}

impl ApiResponse {
    /// The reply to a deletion of word `id`: `Word {id} deleted`.
    pub fn word_deleted(id: i64) -> (r: ApiResponse)
        ensures
            r.success,
            r.message@ == "Word "@ + signed_decimal(id as int) + " deleted"@,
    {
        let mut m = String::from_str("Word ");
        push_signed_decimal(&mut m, id);
        push_str(&mut m, " deleted");
        ApiResponse { success: true, message: m }
    }

    /// The reply to an import of `count` words: `Imported {count} words`.
    pub fn words_imported(count: usize) -> (r: ApiResponse)
        ensures
            r.success,
            r.message@ == "Imported "@ + decimal(count as nat) + " words"@,
    {
        let mut m = String::from_str("Imported ");
        push_decimal(&mut m, count as u64);
        push_str(&mut m, " words");
        ApiResponse { success: true, message: m }
    }
}

} // verus!
