//! The application's persisted state: the four text fields of the
//! surrounding shell, as opaque strings, with the fixed defaults used when
//! no prior state exists.

use vstd::prelude::*;

use crate::emit::pretty_spec;
use crate::pretty::prettify_xml;
use crate::scan::ScanErr;
use crate::shuffle::randomize_string;

verus! {

/// The persisted text fields: the shuffle utility's input and output, and
/// the pretty printer's input and output.
pub struct App {
    pub input: String,
    pub output: String,
    pub input_xml: String,
    pub output_xml: String,
}

/// The fixed sample string offered when no prior state exists.
pub open spec fn sample_input() -> Seq<char> {
    "Hello World!"@
}

/// The fixed sample document offered when no prior state exists.
pub open spec fn sample_xml() -> Seq<char> {
    "<Customers><Customer><Number>1</Number><FirstName>Fred</FirstName><LastName>Landis</LastName><Address><Street>Oakstreet</Street><City>Boston</City><ZIP>23320</ZIP><State>MA</State></Address></Customer><Customer><Number>2</Number><FirstName>Michelle</FirstName><LastName>Butler</LastName><Address><Street>First Avenue</Street><City>San-Francisco</City><ZIP>44324</ZIP><State>CA</State></Address></Customer><Customer><Number>3</Number><FirstName>Ted</FirstName><LastName>Little</LastName><Address><Street>Long Way</Street><City>Los-Angeles</City><ZIP>34424</ZIP><State>CA</State></Address></Customer></Customers>"@
}

impl Default for App {
    /// The default state: the sample string with a shuffle of it, and the
    /// sample document with its pretty print (empty if the sample failed to
    /// parse).
    fn default() -> (r: Self)
        ensures
            r.input@ == sample_input(),
            r.output@.to_multiset() == r.input@.to_multiset(),
            r.input_xml@ == sample_xml(),
            pretty_spec(r.input_xml@) is Ok ==> Ok::<Seq<char>, ScanErr>(r.output_xml@)
                == pretty_spec(r.input_xml@),
            pretty_spec(r.input_xml@) is Err ==> r.output_xml@ == Seq::<char>::empty(),
    {
        let input = "Hello World!".to_owned();
        let output = randomize_string(input.as_str());
        let input_xml =
            "<Customers><Customer><Number>1</Number><FirstName>Fred</FirstName><LastName>Landis</LastName><Address><Street>Oakstreet</Street><City>Boston</City><ZIP>23320</ZIP><State>MA</State></Address></Customer><Customer><Number>2</Number><FirstName>Michelle</FirstName><LastName>Butler</LastName><Address><Street>First Avenue</Street><City>San-Francisco</City><ZIP>44324</ZIP><State>CA</State></Address></Customer><Customer><Number>3</Number><FirstName>Ted</FirstName><LastName>Little</LastName><Address><Street>Long Way</Street><City>Los-Angeles</City><ZIP>34424</ZIP><State>CA</State></Address></Customer></Customers>".to_owned();
        let output_xml = match prettify_xml(input_xml.as_str()) {
            Ok(s) => s,
            Err(_) => String::new(),
        };
        App { input, output, input_xml, output_xml }
    }
}

} // verus!
