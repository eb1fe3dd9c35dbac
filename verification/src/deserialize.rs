//! Recognising and reading exported witness files.
//!
//! A witness file is a JSON array of strings, and its name ends in
//! `.wtns.json`.  Reading directories and files is left to the caller; this
//! module decides which names count and turns the text of a file into a
//! witness.

use crate::models::SnarkJsWitnessFile;
use crate::r1cs::witness_texts;
use vstd::prelude::*;
use vstd::string::*;

verus! {

/// The ending of the name of a witness file.
pub open spec fn witness_suffix() -> Seq<char> {
    seq!['.', 'w', 't', 'n', 's', '.', 'j', 's', 'o', 'n']
}

/// The name ends in `.wtns.json`.
pub open spec fn has_witness_suffix(name: Seq<char>) -> bool {
    name.len() >= witness_suffix().len() && name.subrange(
        name.len() - witness_suffix().len(),
        name.len() as int,
    ) == witness_suffix()
}

/// The list of strings that a JSON text encodes; `None` where the text is no
/// JSON array of strings.
pub uninterp spec fn json_string_list(text: Seq<char>) -> Option<Seq<Seq<char>>>;

/// A text that is no JSON array of strings, with the parser's message.
#[derive(Clone, Debug, PartialEq, Eq)]
pub struct WitnessFileError {
    pub message: String,
}

/// Calls `serde_json::from_str` for a vector of strings.
///
/// Trusted: what the parser returns depends on the text alone.  On success
/// its strings are the list that the text encodes; on failure the text
/// encodes none, and the parser's message is handed on as it is.
#[verifier::external_body]
fn json_parse_string_list(text: &str) -> (r: Result<Vec<String>, String>)
    ensures
        match r {
            Ok(list) => json_string_list(text@) == Some(witness_texts(list@)),
            Err(_) => json_string_list(text@) is None,
        },
{
    match serde_json::from_str::<Vec<String>>(text) {
        Ok(list) => Ok(list),
        Err(error) => Err(error.to_string()),
    }
}

/// Whether a file of this name is taken for a witness file.
pub fn is_witness_file_name(name: &str) -> (r: bool)
    ensures
        r == has_witness_suffix(name@),
{
    let suffix = ".wtns.json";
    proof {
        reveal_strlit(".wtns.json");
    }
    let n = name.unicode_len();
    if n < 10 {
        return false;
    }
    let start: usize = n - 10;
    let mut k: usize = 0;
    while k < 10
        invariant
            k <= 10,
            n == name@.len(),
            start + 10 == n,
            suffix@ == witness_suffix(),
            forall|j: int| 0 <= j < k ==> name@[start + j] == #[trigger] witness_suffix()[j],
        decreases 10 - k,
    {
        if name.get_char(start + k) != suffix.get_char(k) {
            return false;
        }
        k += 1;
    }
    assert(name@.subrange(start as int, n as int) =~= witness_suffix());
    true
}

/// Reads a witness from the text of a witness file.
pub fn parse_witness_file(text: &str) -> (r: Result<SnarkJsWitnessFile, WitnessFileError>)
    ensures
        match r {
            Ok(witness) => json_string_list(text@) == Some(witness_texts(witness@)),
            Err(_) => json_string_list(text@) is None,
        },
{
    match json_parse_string_list(text) {
        Ok(witness) => Ok(witness),
        Err(message) => Err(WitnessFileError { message }),
    }
}

} // verus!
