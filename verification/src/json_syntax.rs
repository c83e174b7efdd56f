//! A JSON recognizer: it accepts exactly the texts that `crate::json`
//! parses, and fails where that parser fails, but builds no nodes.
use vstd::prelude::*;
use vstd::string::StringSliceAdditionalSpecFns;
use crate::runtime::{ParseErr, failure_of};
pub use crate::json::Token;
use crate::json::spec_parse;

verus! {

/// Checks that a JSON value starts the text; on success the list of nodes
/// is empty, on failure the error is the JSON parser's.
pub fn parse(input: &str) -> (r: Result<Vec<Box<Token>>, ParseErr>)
    ensures
        r is Ok <==> spec_parse(input.spec_bytes()) is Ok,
        r matches Ok(v) ==> v@.len() == 0,
        r matches Err(e) ==> spec_parse(input.spec_bytes()) == Err::<Seq<crate::json::Tok>, _>(
            failure_of(e),
        ),
{
    match crate::json::parse(input) {
        Ok(_) => Ok(Vec::new()),
        Err(err) => Err(err),
    }
}

} // verus!
