//! The pretty printer: parse a complete XML document and re-serialize it
//! with consistent indentation, or report the first malformation.

use vstd::prelude::*;

use crate::emit::pretty_spec;
use crate::emit::render;
use crate::model::EventModel;
use crate::scan::ParseError;
use crate::scan::ScanErr;
use crate::scan::scan;
use crate::text::chars_to_string;
use crate::text::str_to_chars;
use crate::tokenizer::tokenize;
use crate::writer::write_events_chars;

verus! {

/// Reformats a complete XML document: two-space indentation per nesting
/// level, one structural item per line, inline text glued to its tags. On
/// malformed input, returns the error and the character offset at which it
/// was found; no partial output is ever returned.
pub fn prettify_xml(xml: &str) -> (r: Result<String, ParseError>)
    ensures
        match r {
            Ok(out) => pretty_spec(xml@) == Ok::<Seq<char>, ScanErr>(out@),
            Err(e) => pretty_spec(xml@) == Err::<Seq<char>, ScanErr>(e.model()),
        },
{
    let chars = str_to_chars(xml);
    match tokenize(&chars) {
        Err(e) => Err(e),
        Ok(events) => {
            let out = write_events_chars(&events);
            Ok(chars_to_string(out))
        },
    }
}

} // verus!
