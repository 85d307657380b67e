//! Lexical model of an XML document: the event datatype produced by the
//! tokenizer and consumed by the indenting writer, together with the
//! character-class and well-formedness predicates that the contracts of both
//! sides share.

use vstd::prelude::*;

verus! {

/// One attribute of a start or empty-element tag. `double_quoted` records
/// which quote character the source used, so that re-serialization can
/// reproduce it.
#[derive(Debug)]
pub struct Attr {
    pub name: Vec<char>,
    pub value: Vec<char>,
    pub double_quoted: bool,
}

/// A lexical event of an XML document, in document order. The end of the
/// event sequence stands for the end of the document.
#[derive(Debug)]
pub enum Event {
    Start { name: Vec<char>, attrs: Vec<Attr> },
    End { name: Vec<char> },
    Empty { name: Vec<char>, attrs: Vec<Attr> },
    Text { content: Vec<char> },
    Comment { content: Vec<char> },
    CData { content: Vec<char> },
    Pi { target: Vec<char>, rest: Vec<char> },
    Decl { rest: Vec<char> },
}

/// Mathematical image of an `Attr`.
#[verifier::ext_equal]
pub struct AttrModel {
    pub name: Seq<char>,
    pub value: Seq<char>,
    pub double_quoted: bool,
}

/// Mathematical image of an `Event`.
#[verifier::ext_equal]
pub enum EventModel {
    Start { name: Seq<char>, attrs: Seq<AttrModel> },
    End { name: Seq<char> },
    Empty { name: Seq<char>, attrs: Seq<AttrModel> },
    Text { content: Seq<char> },
    Comment { content: Seq<char> },
    CData { content: Seq<char> },
    Pi { target: Seq<char>, rest: Seq<char> },
    Decl { rest: Seq<char> },
}

impl Attr {
    pub open spec fn model(&self) -> AttrModel {
        AttrModel { name: self.name@, value: self.value@, double_quoted: self.double_quoted }
    }
}

pub open spec fn attrs_model(attrs: Seq<Attr>) -> Seq<AttrModel> {
    attrs.map_values(|a: Attr| a.model())
}

impl Event {
    pub open spec fn model(&self) -> EventModel {
        match self {
            Event::Start { name, attrs } => EventModel::Start {
                name: name@,
                attrs: attrs_model(attrs@),
            },
            Event::End { name } => EventModel::End { name: name@ },
            Event::Empty { name, attrs } => EventModel::Empty {
                name: name@,
                attrs: attrs_model(attrs@),
            },
            Event::Text { content } => EventModel::Text { content: content@ },
            Event::Comment { content } => EventModel::Comment { content: content@ },
            Event::CData { content } => EventModel::CData { content: content@ },
            Event::Pi { target, rest } => EventModel::Pi { target: target@, rest: rest@ },
            Event::Decl { rest } => EventModel::Decl { rest: rest@ },
        }
    }
}

pub open spec fn events_model(events: Seq<Event>) -> Seq<EventModel> {
    events.map_values(|e: Event| e.model())
}

/// The whitespace characters the tokenizer treats as insignificant between
/// structural tags.
pub open spec fn is_ws(c: char) -> bool {
    c == ' ' || c == '\t' || c == '\n' || c == '\r'
}

pub open spec fn is_ws_seq(s: Seq<char>) -> bool {
    forall|i: int| 0 <= i < s.len() ==> is_ws(#[trigger] s[i])
}

/// Characters accepted in tag names, attribute names and processing
/// instruction targets: anything that cannot open, close or structure a tag.
pub open spec fn is_name_char(c: char) -> bool {
    !is_ws(c) && c != '<' && c != '>' && c != '/' && c != '=' && c != '"' && c != '\'' && c
        != '?' && c != '!'
}

pub open spec fn is_name_seq(s: Seq<char>) -> bool {
    forall|i: int| 0 <= i < s.len() ==> is_name_char(#[trigger] s[i])
}

pub open spec fn valid_name(s: Seq<char>) -> bool {
    s.len() > 0 && is_name_seq(s)
}

/// `p` occurs in `s` starting at position `i`.
pub open spec fn matches_at(s: Seq<char>, i: int, p: Seq<char>) -> bool {
    &&& 0 <= i
    &&& i + p.len() <= s.len()
    &&& forall|j: int| 0 <= j < p.len() ==> s[i + j] == #[trigger] p[j]
}

pub open spec fn comment_close() -> Seq<char> {
    seq!['-', '-', '>']
}

pub open spec fn cdata_open() -> Seq<char> {
    seq!['<', '!', '[', 'C', 'D', 'A', 'T', 'A', '[']
}

pub open spec fn cdata_close() -> Seq<char> {
    seq![']', ']', '>']
}

pub open spec fn pi_close() -> Seq<char> {
    seq!['?', '>']
}

pub open spec fn xml_target() -> Seq<char> {
    seq!['x', 'm', 'l']
}

/// The content of a comment, CDATA section or processing instruction may not
/// anticipate its own terminator: the first occurrence of the terminator in
/// `content + close` is the one the serializer appends.
pub open spec fn closes_only_at_end(content: Seq<char>, close: Seq<char>) -> bool {
    forall|i: int| 0 <= i < content.len() ==> !matches_at(content + close, i, close)
}

pub open spec fn wf_attr(a: AttrModel) -> bool {
    &&& valid_name(a.name)
    &&& forall|i: int|
        0 <= i < a.value.len() ==> #[trigger] a.value[i] != (if a.double_quoted {
            '"'
        } else {
            '\''
        })
}

pub open spec fn distinct_attr_names(attrs: Seq<AttrModel>) -> bool {
    forall|i: int, j: int| 0 <= i < j < attrs.len() ==> attrs[i].name != attrs[j].name
}

pub open spec fn wf_attrs(attrs: Seq<AttrModel>) -> bool {
    &&& forall|i: int| 0 <= i < attrs.len() ==> wf_attr(#[trigger] attrs[i])
    &&& distinct_attr_names(attrs)
}

/// Well-formedness of a single event: exactly the conditions under which the
/// serialized form of the event reads back as the same event.
pub open spec fn wf_event(ev: EventModel) -> bool {
    match ev {
        EventModel::Start { name, attrs } => valid_name(name) && wf_attrs(attrs),
        EventModel::End { name } => valid_name(name),
        EventModel::Empty { name, attrs } => valid_name(name) && wf_attrs(attrs),
        EventModel::Text { content } => {
            &&& content.len() > 0
            &&& !is_ws_seq(content)
            &&& forall|i: int| 0 <= i < content.len() ==> #[trigger] content[i] != '<'
        },
        EventModel::Comment { content } => closes_only_at_end(content, comment_close()),
        EventModel::CData { content } => closes_only_at_end(content, cdata_close()),
        EventModel::Pi { target, rest } => {
            &&& valid_name(target)
            &&& target != xml_target()
            &&& closes_only_at_end(rest, pi_close())
            &&& rest.len() > 0 ==> !is_name_char(rest[0])
        },
        EventModel::Decl { rest } => {
            &&& closes_only_at_end(rest, pi_close())
            &&& rest.len() > 0 ==> !is_name_char(rest[0])
        },
    }
}

/// A well-formed event sequence: every event is well formed, and two text
/// runs never stand side by side (the tokenizer always produces maximal
/// runs, and re-reading serialized output merges adjacent runs).
pub open spec fn wf_events(evs: Seq<EventModel>) -> bool {
    &&& forall|i: int| 0 <= i < evs.len() ==> wf_event(#[trigger] evs[i])
    &&& forall|i: int|
        0 <= i && i + 1 < evs.len() && (#[trigger] evs[i]) is Text ==> !(evs[i + 1] is Text)
}

/// Start and end tags nest properly, given a stack of already-open names.
pub open spec fn balanced_from(evs: Seq<EventModel>, stack: Seq<Seq<char>>) -> bool
    decreases evs.len(),
{
    if evs.len() == 0 {
        stack.len() == 0
    } else {
        match evs[0] {
            EventModel::Start { name, attrs } => balanced_from(evs.drop_first(), stack.push(name)),
            EventModel::End { name } => {
                &&& stack.len() > 0
                &&& stack.last() == name
                &&& balanced_from(evs.drop_first(), stack.drop_last())
            },
            _ => balanced_from(evs.drop_first(), stack),
        }
    }
}

pub open spec fn balanced(evs: Seq<EventModel>) -> bool {
    balanced_from(evs, Seq::empty())
}

} // verus!
