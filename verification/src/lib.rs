//! A small text-utility library: an XML pretty-printer that re-indents a
//! complete XML document, and a uniform random shuffle of a string's
//! characters.

pub mod emit;
pub mod laws;
pub mod model;
pub mod pretty;
pub mod scan;
pub mod shuffle;
pub mod state;
pub mod text;
pub mod tokenizer;
pub mod writer;

pub use model::Attr;
pub use model::Event;
pub use pretty::prettify_xml;
pub use scan::ErrorKind;
pub use scan::ParseError;
pub use shuffle::randomize_string;
pub use state::App;
pub use tokenizer::tokenize;
pub use writer::write_events_chars;
