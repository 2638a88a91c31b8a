//! Aevia source parser: doc-comment extraction, dimension and expression
//! grammar, and top-level items.
use vstd::prelude::*;
use crate::diagnostics::AeviaError;
use crate::text::push_str;

pub mod lex;
pub mod grammar;
pub mod item_grammar;
pub mod docs;
pub mod expr;
pub mod items;

verus! {

/// Parse a source file, reporting `parse error in <path>: <reason>` when it
/// does not parse, the reason being the item parser's error.
pub fn parse_source(source: &str, path: &str) -> (r: Result<(), AeviaError>)
    ensures
        r is Ok <==> item_grammar::g_source(source@) is Some,
        r is Err ==> (r matches Err(AeviaError::Message(m))
            && m@ == "parse error in "@ + path@ + ": "@ + item_grammar::source_error(source@)),
{
    match items::parse_source(source) {
        Ok(_) => Ok(()),
        Err(e) => {
            let mut m = String::new();
            push_str(&mut m, "parse error in ");
            push_str(&mut m, path);
            push_str(&mut m, ": ");
            push_str(&mut m, e.as_str());
            proof {
                assert(m@ =~= "parse error in "@ + path@ + ": "@ + e@);
            }
            Err(AeviaError::message(m))
        },
    }
}

} // verus!
