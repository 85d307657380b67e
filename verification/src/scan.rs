//! The tokenizer's mathematical specification: a recursive scanner over a
//! sequence of characters that yields the document's events or the exact
//! error and character offset at which the input stops being well formed.

use vstd::prelude::*;

use crate::model::AttrModel;
use crate::model::EventModel;
use crate::model::cdata_close;
use crate::model::cdata_open;
use crate::model::comment_close;
use crate::model::is_name_char;
use crate::model::is_ws;
use crate::model::is_ws_seq;
use crate::model::matches_at;
use crate::model::pi_close;
use crate::model::xml_target;

verus! {

/// Why the input was rejected.
#[derive(Clone, Copy, Debug, PartialEq, Eq, Structural)]
pub enum ErrorKind {
    /// A construct opened by `<` reaches the end of the input unterminated.
    UnterminatedTag,
    /// A tag or processing-instruction name is missing or starts with a
    /// character that cannot begin a name.
    BadTagName,
    /// An unexpected character inside a tag, outside an attribute.
    MalformedTag,
    /// An attribute without a name, without `=`, or without a quoted value.
    MalformedAttribute,
    /// Two attributes of one tag share a name.
    DuplicateAttribute,
    /// An end tag with no open element to close.
    UnmatchedEndTag,
    /// An end tag whose name differs from the innermost open element.
    MismatchedEndTag,
    /// The input ends while elements are still open.
    UnclosedTag,
}

/// A rejection at a character offset, as the scanner specification states it.
#[verifier::ext_equal]
pub struct ScanErr {
    pub off: int,
    pub kind: ErrorKind,
}

/// The error a failed parse returns: the character offset at which the
/// malformed construct was found, and what was wrong there.
#[derive(Debug)]
pub struct ParseError {
    pub offset: usize,
    pub kind: ErrorKind,
}

/// The short description `message` returns for each error kind.
pub open spec fn kind_phrase(k: ErrorKind) -> Seq<char> {
    match k {
        ErrorKind::UnterminatedTag => "unterminated tag"@,
        ErrorKind::BadTagName => "missing or invalid tag name"@,
        ErrorKind::MalformedTag => "unexpected character inside tag"@,
        ErrorKind::MalformedAttribute => "malformed attribute"@,
        ErrorKind::DuplicateAttribute => "duplicate attribute name"@,
        ErrorKind::UnmatchedEndTag => "end tag without an open element"@,
        ErrorKind::MismatchedEndTag => "end tag does not match open element"@,
        ErrorKind::UnclosedTag => "input ends with elements still open"@,
    }
}

impl ParseError {
    pub open spec fn model(&self) -> ScanErr {
        ScanErr { off: self.offset as int, kind: self.kind }
    }

    /// A short description of what was wrong; the offset field says where.
    pub fn message(&self) -> (r: String)
        ensures
            r@ == kind_phrase(self.kind),
    {
        match self.kind {
            ErrorKind::UnterminatedTag => "unterminated tag".to_owned(),
            ErrorKind::BadTagName => "missing or invalid tag name".to_owned(),
            ErrorKind::MalformedTag => "unexpected character inside tag".to_owned(),
            ErrorKind::MalformedAttribute => "malformed attribute".to_owned(),
            ErrorKind::DuplicateAttribute => "duplicate attribute name".to_owned(),
            ErrorKind::UnmatchedEndTag => "end tag without an open element".to_owned(),
            ErrorKind::MismatchedEndTag => "end tag does not match open element".to_owned(),
            ErrorKind::UnclosedTag => "input ends with elements still open".to_owned(),
        }
    }
}

/// First position at or after `i` holding a non-whitespace character.
pub open spec fn ws_end(s: Seq<char>, i: int) -> int
    decreases s.len() - i,
{
    if i < 0 {
        0
    } else if i >= s.len() {
        s.len() as int
    } else if is_ws(s[i]) {
        ws_end(s, i + 1)
    } else {
        i
    }
}

/// First position at or after `i` holding a character that cannot stand in a
/// name.
pub open spec fn name_end(s: Seq<char>, i: int) -> int
    decreases s.len() - i,
{
    if i < 0 {
        0
    } else if i >= s.len() {
        s.len() as int
    } else if is_name_char(s[i]) {
        name_end(s, i + 1)
    } else {
        i
    }
}

/// First position at or after `i` holding `c`, or the length of `s` if there
/// is none.
pub open spec fn find_c(s: Seq<char>, i: int, c: char) -> int
    decreases s.len() - i,
{
    if i < 0 {
        0
    } else if i >= s.len() {
        s.len() as int
    } else if s[i] == c {
        i
    } else {
        find_c(s, i + 1, c)
    }
}

/// First position at or after `i` where `p` occurs, or the length of `s` if
/// it occurs nowhere.
pub open spec fn find_p(s: Seq<char>, i: int, p: Seq<char>) -> int
    decreases s.len() - i,
{
    if i < 0 {
        0
    } else if i >= s.len() {
        s.len() as int
    } else if matches_at(s, i, p) {
        i
    } else {
        find_p(s, i + 1, p)
    }
}

pub open spec fn has_attr_name(attrs: Seq<AttrModel>, name: Seq<char>) -> bool {
    exists|k: int| 0 <= k < attrs.len() && (#[trigger] attrs[k]).name == name
}

/// Scans the attribute list of a start tag whose `<` stands at `tok`,
/// beginning at `i` (just after the tag name or the previous attribute).
/// Returns the attributes, the position after the closing `>`, and whether
/// the tag closed itself with `/>`.
pub open spec fn lex_attrs(s: Seq<char>, tok: int, i: int, attrs: Seq<AttrModel>) -> Result<
    (Seq<AttrModel>, int, bool),
    ScanErr,
>
    decreases s.len() - i,
{
    let q: int = ws_end(s, i);
    if q >= s.len() {
        Err(ScanErr { off: tok, kind: ErrorKind::UnterminatedTag })
    } else if s[q] == '>' {
        Ok((attrs, q + 1, false))
    } else if s[q] == '/' {
        if q + 1 < s.len() && s[q + 1] == '>' {
            Ok((attrs, q + 2, true))
        } else if q + 1 >= s.len() {
            Err(ScanErr { off: tok, kind: ErrorKind::UnterminatedTag })
        } else {
            Err(ScanErr { off: q + 1, kind: ErrorKind::MalformedTag })
        }
    } else if q == i {
        Err(ScanErr { off: q, kind: ErrorKind::MalformedTag })
    } else {
        let ne: int = name_end(s, q);
        if ne == q {
            Err(ScanErr { off: q, kind: ErrorKind::MalformedAttribute })
        } else {
            let an = s.subrange(q, ne);
            if has_attr_name(attrs, an) {
                Err(ScanErr { off: q, kind: ErrorKind::DuplicateAttribute })
            } else {
                let eq: int = ws_end(s, ne);
                if eq >= s.len() {
                    Err(ScanErr { off: tok, kind: ErrorKind::UnterminatedTag })
                } else if s[eq] != '=' {
                    Err(ScanErr { off: eq, kind: ErrorKind::MalformedAttribute })
                } else {
                    let qt: int = ws_end(s, eq + 1);
                    if qt >= s.len() {
                        Err(ScanErr { off: tok, kind: ErrorKind::UnterminatedTag })
                    } else if s[qt] == '"' || s[qt] == '\'' {
                        let vend: int = find_c(s, qt + 1, s[qt]);
                        if vend >= s.len() {
                            Err(ScanErr { off: tok, kind: ErrorKind::UnterminatedTag })
                        } else {
                            let a = AttrModel {
                                name: an,
                                value: s.subrange(qt + 1, vend),
                                double_quoted: s[qt] == '"',
                            };
                            if i < vend + 1 <= s.len() {
                                lex_attrs(s, tok, vend + 1, attrs.push(a))
                            } else {
                                Err(ScanErr { off: tok, kind: ErrorKind::UnterminatedTag })
                            }
                        }
                    } else {
                        Err(ScanErr { off: qt, kind: ErrorKind::MalformedAttribute })
                    }
                }
            }
        }
    }
}

pub open spec fn lex_text(s: Seq<char>, pos: int) -> Result<(EventModel, int), ScanErr> {
    let e: int = find_c(s, pos, '<');
    Ok((EventModel::Text { content: s.subrange(pos, e) }, e))
}

pub open spec fn lex_end_tag(s: Seq<char>, pos: int) -> Result<(EventModel, int), ScanErr> {
    let ns: int = pos + 2;
    if ns >= s.len() {
        Err(ScanErr { off: pos, kind: ErrorKind::UnterminatedTag })
    } else {
        let ne: int = name_end(s, ns);
        if ne == ns {
            Err(ScanErr { off: pos, kind: ErrorKind::BadTagName })
        } else {
            let ce: int = ws_end(s, ne);
            if ce >= s.len() {
                Err(ScanErr { off: pos, kind: ErrorKind::UnterminatedTag })
            } else if s[ce] == '>' {
                Ok((EventModel::End { name: s.subrange(ns, ne) }, ce + 1))
            } else {
                Err(ScanErr { off: ce, kind: ErrorKind::MalformedTag })
            }
        }
    }
}

pub open spec fn lex_comment(s: Seq<char>, pos: int) -> Result<(EventModel, int), ScanErr> {
    let t: int = find_p(s, pos + 4, comment_close());
    if t >= s.len() {
        Err(ScanErr { off: pos, kind: ErrorKind::UnterminatedTag })
    } else {
        Ok((EventModel::Comment { content: s.subrange(pos + 4, t) }, t + 3))
    }
}

pub open spec fn lex_cdata(s: Seq<char>, pos: int) -> Result<(EventModel, int), ScanErr> {
    let t: int = find_p(s, pos + 9, cdata_close());
    if t >= s.len() {
        Err(ScanErr { off: pos, kind: ErrorKind::UnterminatedTag })
    } else {
        Ok((EventModel::CData { content: s.subrange(pos + 9, t) }, t + 3))
    }
}

pub open spec fn lex_pi(s: Seq<char>, pos: int) -> Result<(EventModel, int), ScanErr> {
    let ns: int = pos + 2;
    if ns >= s.len() {
        Err(ScanErr { off: pos, kind: ErrorKind::UnterminatedTag })
    } else {
        let ne: int = name_end(s, ns);
        if ne == ns {
            Err(ScanErr { off: pos, kind: ErrorKind::BadTagName })
        } else {
            let t: int = find_p(s, ne, pi_close());
            if t >= s.len() {
                Err(ScanErr { off: pos, kind: ErrorKind::UnterminatedTag })
            } else {
                let target = s.subrange(ns, ne);
                let rest = s.subrange(ne, t);
                if target == xml_target() {
                    Ok((EventModel::Decl { rest }, t + 2))
                } else {
                    Ok((EventModel::Pi { target, rest }, t + 2))
                }
            }
        }
    }
}

pub open spec fn lex_start_tag(s: Seq<char>, pos: int) -> Result<(EventModel, int), ScanErr> {
    let ns: int = pos + 1;
    let ne: int = name_end(s, ns);
    if ne == ns {
        Err(ScanErr { off: pos, kind: ErrorKind::BadTagName })
    } else {
        let name = s.subrange(ns, ne);
        match lex_attrs(s, pos, ne, Seq::empty()) {
            Err(e) => Err(e),
            Ok((attrs, end, empty)) => if empty {
                Ok((EventModel::Empty { name, attrs }, end))
            } else {
                Ok((EventModel::Start { name, attrs }, end))
            },
        }
    }
}

/// One lexical step at `pos`: the next event and the position just after it,
/// or the error that stops the scan.
pub open spec fn lex_at(s: Seq<char>, pos: int) -> Result<(EventModel, int), ScanErr>
    recommends
        0 <= pos < s.len(),
{
    if s[pos] != '<' {
        lex_text(s, pos)
    } else if pos + 1 >= s.len() {
        Err(ScanErr { off: pos, kind: ErrorKind::UnterminatedTag })
    } else if s[pos + 1] == '/' {
        lex_end_tag(s, pos)
    } else if s[pos + 1] == '?' {
        lex_pi(s, pos)
    } else if matches_at(s, pos, seq!['<', '!', '-', '-']) {
        lex_comment(s, pos)
    } else if matches_at(s, pos, cdata_open()) {
        lex_cdata(s, pos)
    } else if s[pos + 1] == '!' {
        Err(ScanErr { off: pos, kind: ErrorKind::BadTagName })
    } else {
        lex_start_tag(s, pos)
    }
}

pub open spec fn cons_result(ev: EventModel, r: Result<Seq<EventModel>, ScanErr>) -> Result<
    Seq<EventModel>,
    ScanErr,
> {
    match r {
        Ok(evs) => Ok(seq![ev] + evs),
        Err(e) => Err(e),
    }
}

/// Scans the input from `pos` with `stack` holding the names of the open
/// elements, outermost first. Whitespace-only text runs are insignificant
/// and yield no event.
pub open spec fn scan_from(s: Seq<char>, pos: int, stack: Seq<Seq<char>>) -> Result<
    Seq<EventModel>,
    ScanErr,
>
    decreases s.len() - pos,
{
    if pos >= s.len() {
        if stack.len() == 0 {
            Ok(Seq::empty())
        } else {
            Err(ScanErr { off: s.len() as int, kind: ErrorKind::UnclosedTag })
        }
    } else {
        match lex_at(s, pos) {
            Err(e) => Err(e),
            Ok((ev, end)) => if pos < end <= s.len() {
                match ev {
                    EventModel::Start { name, attrs } => cons_result(
                        ev,
                        scan_from(s, end, stack.push(name)),
                    ),
                    EventModel::End { name } => if stack.len() == 0 {
                        Err(ScanErr { off: pos, kind: ErrorKind::UnmatchedEndTag })
                    } else if stack.last() != name {
                        Err(ScanErr { off: pos, kind: ErrorKind::MismatchedEndTag })
                    } else {
                        cons_result(ev, scan_from(s, end, stack.drop_last()))
                    },
                    EventModel::Text { content } => if is_ws_seq(content) {
                        scan_from(s, end, stack)
                    } else {
                        cons_result(ev, scan_from(s, end, stack))
                    },
                    _ => cons_result(ev, scan_from(s, end, stack)),
                }
            } else {
                Err(ScanErr { off: pos, kind: ErrorKind::UnterminatedTag })
            },
        }
    }
}

/// The whole scan: the event sequence of a well-formed document, or the
/// offset and kind of its first malformation.
pub open spec fn scan(s: Seq<char>) -> Result<Seq<EventModel>, ScanErr> {
    scan_from(s, 0, Seq::empty())
}

pub open spec fn cons_all(prefix: Seq<EventModel>, r: Result<Seq<EventModel>, ScanErr>) -> Result<
    Seq<EventModel>,
    ScanErr,
> {
    match r {
        Ok(evs) => Ok(prefix + evs),
        Err(e) => Err(e),
    }
}

pub proof fn lemma_ws_end(s: Seq<char>, i: int)
    requires
        0 <= i <= s.len(),
    ensures
        i <= ws_end(s, i) <= s.len(),
        forall|j: int| i <= j < ws_end(s, i) ==> is_ws(#[trigger] s[j]),
        ws_end(s, i) < s.len() ==> !is_ws(s[ws_end(s, i)]),
    decreases s.len() - i,
{
    if i < s.len() && is_ws(s[i]) {
        lemma_ws_end(s, i + 1);
    }
}

pub proof fn lemma_name_end(s: Seq<char>, i: int)
    requires
        0 <= i <= s.len(),
    ensures
        i <= name_end(s, i) <= s.len(),
        forall|j: int| i <= j < name_end(s, i) ==> is_name_char(#[trigger] s[j]),
        name_end(s, i) < s.len() ==> !is_name_char(s[name_end(s, i)]),
    decreases s.len() - i,
{
    if i < s.len() && is_name_char(s[i]) {
        lemma_name_end(s, i + 1);
    }
}

pub proof fn lemma_find_c(s: Seq<char>, i: int, c: char)
    requires
        0 <= i <= s.len(),
    ensures
        i <= find_c(s, i, c) <= s.len(),
        forall|j: int| i <= j < find_c(s, i, c) ==> #[trigger] s[j] != c,
        find_c(s, i, c) < s.len() ==> s[find_c(s, i, c)] == c,
    decreases s.len() - i,
{
    if i < s.len() && s[i] != c {
        lemma_find_c(s, i + 1, c);
    }
}

pub proof fn lemma_find_p(s: Seq<char>, i: int, p: Seq<char>)
    requires
        0 <= i <= s.len(),
    ensures
        i <= find_p(s, i, p) <= s.len(),
        forall|j: int| i <= j < find_p(s, i, p) ==> !matches_at(s, j, p),
        find_p(s, i, p) < s.len() ==> matches_at(s, find_p(s, i, p), p),
    decreases s.len() - i,
{
    if i < s.len() && !matches_at(s, i, p) {
        lemma_find_p(s, i + 1, p);
    }
}

} // verus!
