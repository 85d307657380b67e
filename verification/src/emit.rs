//! The indenting writer's mathematical specification: how a sequence of
//! events is re-serialized with two-space indentation, one structural item
//! per line, and inline text glued to the tags around it.

use vstd::prelude::*;

use crate::model::AttrModel;
use crate::model::EventModel;
use crate::model::cdata_close;
use crate::model::cdata_open;
use crate::model::comment_close;
use crate::model::is_ws_seq;
use crate::model::pi_close;
use crate::model::xml_target;

verus! {

/// The indentation written at nesting depth `d`: two spaces per level.
pub open spec fn indent(d: int) -> Seq<char> {
    if d <= 0 {
        Seq::empty()
    } else {
        Seq::new((2 * d) as nat, |i: int| ' ')
    }
}

pub open spec fn quote_char(a: AttrModel) -> char {
    if a.double_quoted {
        '"'
    } else {
        '\''
    }
}

pub open spec fn render_attr(a: AttrModel) -> Seq<char> {
    seq![' '] + a.name + seq!['='] + seq![quote_char(a)] + a.value + seq![quote_char(a)]
}

pub open spec fn render_attrs(attrs: Seq<AttrModel>) -> Seq<char>
    decreases attrs.len(),
{
    if attrs.len() == 0 {
        Seq::empty()
    } else {
        render_attr(attrs[0]) + render_attrs(attrs.drop_first())
    }
}

/// The characters of one event, without any surrounding formatting
/// whitespace.
pub open spec fn event_body(ev: EventModel) -> Seq<char> {
    match ev {
        EventModel::Start { name, attrs } => seq!['<'] + name + render_attrs(attrs) + seq!['>'],
        EventModel::End { name } => seq!['<', '/'] + name + seq!['>'],
        EventModel::Empty { name, attrs } => seq!['<'] + name + render_attrs(attrs) + seq![
            '/',
            '>',
        ],
        EventModel::Text { content } => content,
        EventModel::Comment { content } => seq!['<', '!', '-', '-'] + content + comment_close(),
        EventModel::CData { content } => cdata_open() + content + cdata_close(),
        EventModel::Pi { target, rest } => seq!['<', '?'] + target + rest + pi_close(),
        EventModel::Decl { rest } => seq!['<', '?'] + xml_target() + rest + pi_close(),
    }
}

/// The formatting prefix of a structural event: a newline and the current
/// indentation, except before the very first output (`started` false) and
/// except when the preceding written event was inline text (`glue` true).
pub open spec fn head(d: int, started: bool, glue: bool) -> Seq<char> {
    if !started || glue {
        Seq::empty()
    } else {
        seq!['\n'] + indent(d)
    }
}

/// The depth at which an event's own line is indented: an end tag closes the
/// level its start tag opened, so it is indented one level shallower.
pub open spec fn head_depth(ev: EventModel, depth: int) -> int {
    match ev {
        EventModel::End { name } => depth - 1,
        _ => depth,
    }
}

/// The nesting depth after an event is written.
pub open spec fn next_depth(ev: EventModel, depth: int) -> int {
    match ev {
        EventModel::Start { name, attrs } => depth + 1,
        EventModel::End { name } => if depth > 0 {
            depth - 1
        } else {
            0
        },
        _ => depth,
    }
}

/// Re-serialization of the events still to write, given the writer state:
/// the nesting depth, whether anything was written yet, and whether the last
/// written event was inline text. Whitespace-only text is discarded and
/// leaves the state unchanged; other text is written verbatim with no
/// preceding newline and glues the following event to its line.
pub open spec fn render_rem(evs: Seq<EventModel>, depth: int, started: bool, glue: bool) -> Seq<
    char,
>
    decreases evs.len(),
{
    if evs.len() == 0 {
        Seq::empty()
    } else {
        let ev = evs[0];
        let rest = evs.drop_first();
        match ev {
            EventModel::Text { content } => if is_ws_seq(content) {
                render_rem(rest, depth, started, glue)
            } else {
                content + render_rem(rest, depth, true, true)
            },
            _ => head(head_depth(ev, depth), started, glue) + event_body(ev) + render_rem(
                rest,
                next_depth(ev, depth),
                true,
                false,
            ),
        }
    }
}

/// The whole re-serialized document.
pub open spec fn render(evs: Seq<EventModel>) -> Seq<char> {
    render_rem(evs, 0, false, false)
}

/// What a pretty print of `s` must return: the re-serialization of `s`'s
/// events if `s` scans, and the scanner's error otherwise.
pub open spec fn pretty_spec(s: Seq<char>) -> Result<Seq<char>, crate::scan::ScanErr> {
    match crate::scan::scan(s) {
        Ok(evs) => Ok(render(evs)),
        Err(e) => Err(e),
    }
}

} // verus!
