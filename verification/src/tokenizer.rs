//! The executable tokenizer: a single forward pass over the characters of
//! the document, proven to return exactly what the scanner specification
//! `scan` says, event for event and error for error.

use vstd::prelude::*;

use crate::model::Attr;
use crate::model::AttrModel;
use crate::model::Event;
use crate::model::EventModel;
use crate::model::attrs_model;
use crate::model::events_model;
use crate::model::is_name_char;
use crate::model::is_ws;
use crate::model::is_ws_seq;
use crate::model::matches_at;
use crate::model::cdata_open;
use crate::model::comment_close;
use crate::model::cdata_close;
use crate::model::pi_close;
use crate::model::xml_target;
use crate::scan::ErrorKind;
use crate::scan::ParseError;
use crate::scan::ScanErr;
use crate::scan::cons_all;
use crate::scan::cons_result;
use crate::scan::find_c;
use crate::scan::find_p;
use crate::scan::has_attr_name;
use crate::scan::lex_at;
use crate::scan::lex_attrs;
use crate::scan::lex_cdata;
use crate::scan::lex_comment;
use crate::scan::lex_end_tag;
use crate::scan::lex_pi;
use crate::scan::lex_start_tag;
use crate::scan::lemma_find_c;
use crate::scan::lemma_find_p;
use crate::scan::name_end;
use crate::scan::scan;
use crate::scan::scan_from;
use crate::scan::ws_end;

verus! {

pub open spec fn stack_model(st: Seq<Vec<char>>) -> Seq<Seq<char>> {
    st.map_values(|x: Vec<char>| x@)
}

fn is_ws_char(c: char) -> (r: bool)
    ensures
        r == is_ws(c),
{
    c == ' ' || c == '\t' || c == '\n' || c == '\r'
}

fn is_name_char_exec(c: char) -> (r: bool)
    ensures
        r == is_name_char(c),
{
    !(c == ' ' || c == '\t' || c == '\n' || c == '\r' || c == '<' || c == '>' || c == '/' || c
        == '=' || c == '"' || c == '\'' || c == '?' || c == '!')
}

fn skip_ws(v: &Vec<char>, from: usize) -> (r: usize)
    requires
        from <= v.len(),
    ensures
        r == ws_end(v@, from as int),
        from <= r <= v.len(),
{
    let mut i: usize = from;
    while i < v.len()
        invariant
            from <= i <= v.len(),
            ws_end(v@, from as int) == ws_end(v@, i as int),
        decreases v.len() - i,
    {
        if !is_ws_char(v[i]) {
            return i;
        }
        i = i + 1;
    }
    i
}

fn skip_name(v: &Vec<char>, from: usize) -> (r: usize)
    requires
        from <= v.len(),
    ensures
        r == name_end(v@, from as int),
        from <= r <= v.len(),
{
    let mut i: usize = from;
    while i < v.len()
        invariant
            from <= i <= v.len(),
            name_end(v@, from as int) == name_end(v@, i as int),
        decreases v.len() - i,
    {
        if !is_name_char_exec(v[i]) {
            return i;
        }
        i = i + 1;
    }
    i
}

fn find_char(v: &Vec<char>, from: usize, c: char) -> (r: usize)
    requires
        from <= v.len(),
    ensures
        r == find_c(v@, from as int, c),
        from <= r <= v.len(),
{
    let mut i: usize = from;
    while i < v.len()
        invariant
            from <= i <= v.len(),
            find_c(v@, from as int, c) == find_c(v@, i as int, c),
        decreases v.len() - i,
    {
        if v[i] == c {
            return i;
        }
        i = i + 1;
    }
    i
}

fn matches_here(v: &Vec<char>, i: usize, pat: &Vec<char>) -> (r: bool)
    requires
        i <= v.len(),
    ensures
        r == matches_at(v@, i as int, pat@),
{
    if pat.len() > v.len() - i {
        return false;
    }
    let mut j: usize = 0;
    while j < pat.len()
        invariant
            i + pat.len() <= v.len(),
            0 <= j <= pat.len(),
            forall|k: int| 0 <= k < j ==> v@[i as int + k] == #[trigger] pat@[k],
        decreases pat.len() - j,
    {
        if v[i + j] != pat[j] {
            return false;
        }
        j = j + 1;
    }
    true
}

fn find_sub(v: &Vec<char>, from: usize, pat: &Vec<char>) -> (r: usize)
    requires
        from <= v.len(),
        pat.len() >= 1,
    ensures
        r == find_p(v@, from as int, pat@),
        from <= r <= v.len(),
{
    let mut i: usize = from;
    while i < v.len()
        invariant
            from <= i <= v.len(),
            find_p(v@, from as int, pat@) == find_p(v@, i as int, pat@),
        decreases v.len() - i,
    {
        if matches_here(v, i, pat) {
            return i;
        }
        i = i + 1;
    }
    i
}

fn copy_range(v: &Vec<char>, from: usize, to: usize) -> (r: Vec<char>)
    requires
        from <= to <= v.len(),
    ensures
        r@ == v@.subrange(from as int, to as int),
{
    let mut r: Vec<char> = Vec::new();
    let mut i: usize = from;
    while i < to
        invariant
            from <= i <= to <= v.len(),
            r@ == v@.subrange(from as int, i as int),
        decreases to - i,
    {
        r.push(v[i]);
        proof {
            assert(v@.subrange(from as int, i as int + 1) =~= v@.subrange(from as int, i as int).push(v@[i as int]));
        }
        i = i + 1;
    }
    r
}

/// A verified copy of a character vector.
pub fn clone_chars(x: &Vec<char>) -> (r: Vec<char>)
    ensures
        r@ == x@,
{
    let r = copy_range(x, 0, x.len());
    proof {
        assert(x@.subrange(0, x.len() as int) =~= x@);
    }
    r
}

pub fn chars_eq(a: &Vec<char>, b: &Vec<char>) -> (r: bool)
    ensures
        r == (a@ == b@),
{
    if a.len() != b.len() {
        return false;
    }
    let mut j: usize = 0;
    while j < a.len()
        invariant
            a.len() == b.len(),
            0 <= j <= a.len(),
            forall|k: int| 0 <= k < j ==> a@[k] == #[trigger] b@[k],
        decreases a.len() - j,
    {
        if a[j] != b[j] {
            return false;
        }
        j = j + 1;
    }
    proof {
        assert(a@ =~= b@);
    }
    true
}

pub(crate) fn all_ws(v: &Vec<char>) -> (r: bool)
    ensures
        r == is_ws_seq(v@),
{
    let mut j: usize = 0;
    while j < v.len()
        invariant
            0 <= j <= v.len(),
            forall|k: int| 0 <= k < j ==> is_ws(#[trigger] v@[k]),
        decreases v.len() - j,
    {
        if !is_ws_char(v[j]) {
            return false;
        }
        j = j + 1;
    }
    true
}

fn comment_open_vec() -> (r: Vec<char>)
    ensures
        r@ == seq!['<', '!', '-', '-'],
{
    let mut r: Vec<char> = Vec::new();
    r.push('<');
    r.push('!');
    r.push('-');
    r.push('-');
    proof {
        assert(r@ =~= seq!['<', '!', '-', '-']);
    }
    r
}

fn cdata_open_vec() -> (r: Vec<char>)
    ensures
        r@ == cdata_open(),
{
    let mut r: Vec<char> = Vec::new();
    r.push('<');
    r.push('!');
    r.push('[');
    r.push('C');
    r.push('D');
    r.push('A');
    r.push('T');
    r.push('A');
    r.push('[');
    proof {
        assert(r@ =~= cdata_open());
    }
    r
}

fn comment_close_vec() -> (r: Vec<char>)
    ensures
        r@ == comment_close(),
{
    let mut r: Vec<char> = Vec::new();
    r.push('-');
    r.push('-');
    r.push('>');
    proof {
        assert(r@ =~= comment_close());
    }
    r
}

fn cdata_close_vec() -> (r: Vec<char>)
    ensures
        r@ == cdata_close(),
{
    let mut r: Vec<char> = Vec::new();
    r.push(']');
    r.push(']');
    r.push('>');
    proof {
        assert(r@ =~= cdata_close());
    }
    r
}

fn pi_close_vec() -> (r: Vec<char>)
    ensures
        r@ == pi_close(),
{
    let mut r: Vec<char> = Vec::new();
    r.push('?');
    r.push('>');
    proof {
        assert(r@ =~= pi_close());
    }
    r
}

fn xml_target_vec() -> (r: Vec<char>)
    ensures
        r@ == xml_target(),
{
    let mut r: Vec<char> = Vec::new();
    r.push('x');
    r.push('m');
    r.push('l');
    proof {
        assert(r@ =~= xml_target());
    }
    r
}

fn has_attr_exec(attrs: &Vec<Attr>, name: &Vec<char>) -> (r: bool)
    ensures
        r == has_attr_name(attrs_model(attrs@), name@),
{
    let mut j: usize = 0;
    while j < attrs.len()
        invariant
            0 <= j <= attrs.len(),
            forall|k: int| 0 <= k < j ==> (#[trigger] attrs_model(attrs@)[k]).name != name@,
        decreases attrs.len() - j,
    {
        if chars_eq(&attrs[j].name, name) {
            assert(attrs_model(attrs@)[j as int].name == name@);
            return true;
        }
        j = j + 1;
    }
    false
}

fn lex_attrs_exec(v: &Vec<char>, tok: usize, start: usize) -> (r: Result<
    (Vec<Attr>, usize, bool),
    ParseError,
>)
    requires
        tok <= v.len(),
        start <= v.len(),
    ensures
        match r {
            Ok((attrs, end, empty)) => lex_attrs(v@, tok as int, start as int, Seq::empty())
                == Ok::<(Seq<AttrModel>, int, bool), ScanErr>(
                (attrs_model(attrs@), end as int, empty),
            ) && start < end <= v.len(),
            Err(e) => lex_attrs(v@, tok as int, start as int, Seq::empty()) == Err::<
                (Seq<AttrModel>, int, bool),
                ScanErr,
            >(e.model()),
        },
{
    let mut i: usize = start;
    let mut attrs: Vec<Attr> = Vec::new();
    proof {
        assert(attrs_model(attrs@) =~= Seq::<AttrModel>::empty());
    }
    loop
        invariant
            start <= i <= v.len(),
            tok <= v.len(),
            lex_attrs(v@, tok as int, start as int, Seq::empty()) == lex_attrs(
                v@,
                tok as int,
                i as int,
                attrs_model(attrs@),
            ),
        decreases v.len() - i,
    {
        let q = skip_ws(v, i);
        if q >= v.len() {
            return Err(ParseError { offset: tok, kind: ErrorKind::UnterminatedTag });
        }
        let cq = v[q];
        if cq == '>' {
            return Ok((attrs, q + 1, false));
        }
        if cq == '/' {
            if q + 1 < v.len() {
                if v[q + 1] == '>' {
                    return Ok((attrs, q + 2, true));
                }
                return Err(ParseError { offset: q + 1, kind: ErrorKind::MalformedTag });
            }
            return Err(ParseError { offset: tok, kind: ErrorKind::UnterminatedTag });
        }
        if q == i {
            return Err(ParseError { offset: q, kind: ErrorKind::MalformedTag });
        }
        let ne = skip_name(v, q);
        if ne == q {
            return Err(ParseError { offset: q, kind: ErrorKind::MalformedAttribute });
        }
        let an = copy_range(v, q, ne);
        if has_attr_exec(&attrs, &an) {
            return Err(ParseError { offset: q, kind: ErrorKind::DuplicateAttribute });
        }
        let eq = skip_ws(v, ne);
        if eq >= v.len() {
            return Err(ParseError { offset: tok, kind: ErrorKind::UnterminatedTag });
        }
        if v[eq] != '=' {
            return Err(ParseError { offset: eq, kind: ErrorKind::MalformedAttribute });
        }
        let qt = skip_ws(v, eq + 1);
        if qt >= v.len() {
            return Err(ParseError { offset: tok, kind: ErrorKind::UnterminatedTag });
        }
        let qc = v[qt];
        if qc == '"' || qc == '\'' {
            let vend = find_char(v, qt + 1, qc);
            if vend >= v.len() {
                return Err(ParseError { offset: tok, kind: ErrorKind::UnterminatedTag });
            }
            let value = copy_range(v, qt + 1, vend);
            let a = Attr { name: an, value, double_quoted: qc == '"' };
            proof {
                let ghost sm = attrs_model(attrs@);
                let ghost am = a.model();
                assert(attrs_model(attrs@.push(a)) =~= sm.push(am));
            }
            attrs.push(a);
            i = vend + 1;
        } else {
            return Err(ParseError { offset: qt, kind: ErrorKind::MalformedAttribute });
        }
    }
}

fn lex_end_exec(v: &Vec<char>, pos: usize) -> (r: Result<(Event, usize), ParseError>)
    requires
        pos + 1 < v.len(),
        v@[pos as int] == '<',
        v@[pos as int + 1] == '/',
    ensures
        match r {
            Ok((ev, end)) => lex_end_tag(v@, pos as int) == Ok::<(EventModel, int), ScanErr>(
                (ev.model(), end as int),
            ) && pos < end <= v.len(),
            Err(e) => lex_end_tag(v@, pos as int) == Err::<(EventModel, int), ScanErr>(e.model()),
        },
{
    let ns = pos + 2;
    if ns >= v.len() {
        return Err(ParseError { offset: pos, kind: ErrorKind::UnterminatedTag });
    }
    let ne = skip_name(v, ns);
    if ne == ns {
        return Err(ParseError { offset: pos, kind: ErrorKind::BadTagName });
    }
    let ce = skip_ws(v, ne);
    if ce >= v.len() {
        return Err(ParseError { offset: pos, kind: ErrorKind::UnterminatedTag });
    }
    if v[ce] == '>' {
        let name = copy_range(v, ns, ne);
        return Ok((Event::End { name }, ce + 1));
    }
    Err(ParseError { offset: ce, kind: ErrorKind::MalformedTag })
}

fn lex_comment_exec(v: &Vec<char>, pos: usize) -> (r: Result<(Event, usize), ParseError>)
    requires
        pos < v.len(),
        matches_at(v@, pos as int, seq!['<', '!', '-', '-']),
    ensures
        match r {
            Ok((ev, end)) => lex_comment(v@, pos as int) == Ok::<(EventModel, int), ScanErr>(
                (ev.model(), end as int),
            ) && pos < end <= v.len(),
            Err(e) => lex_comment(v@, pos as int) == Err::<(EventModel, int), ScanErr>(e.model()),
        },
{
    let close = comment_close_vec();
    let t = find_sub(v, pos + 4, &close);
    if t >= v.len() {
        return Err(ParseError { offset: pos, kind: ErrorKind::UnterminatedTag });
    }
    proof {
        lemma_find_p(v@, pos as int + 4, comment_close());
    }
    let content = copy_range(v, pos + 4, t);
    Ok((Event::Comment { content }, t + 3))
}

fn lex_cdata_exec(v: &Vec<char>, pos: usize) -> (r: Result<(Event, usize), ParseError>)
    requires
        pos < v.len(),
        matches_at(v@, pos as int, cdata_open()),
    ensures
        match r {
            Ok((ev, end)) => lex_cdata(v@, pos as int) == Ok::<(EventModel, int), ScanErr>(
                (ev.model(), end as int),
            ) && pos < end <= v.len(),
            Err(e) => lex_cdata(v@, pos as int) == Err::<(EventModel, int), ScanErr>(e.model()),
        },
{
    let close = cdata_close_vec();
    let t = find_sub(v, pos + 9, &close);
    if t >= v.len() {
        return Err(ParseError { offset: pos, kind: ErrorKind::UnterminatedTag });
    }
    proof {
        lemma_find_p(v@, pos as int + 9, cdata_close());
    }
    let content = copy_range(v, pos + 9, t);
    Ok((Event::CData { content }, t + 3))
}

fn lex_pi_exec(v: &Vec<char>, pos: usize) -> (r: Result<(Event, usize), ParseError>)
    requires
        pos + 1 < v.len(),
        v@[pos as int] == '<',
        v@[pos as int + 1] == '?',
    ensures
        match r {
            Ok((ev, end)) => lex_pi(v@, pos as int) == Ok::<(EventModel, int), ScanErr>(
                (ev.model(), end as int),
            ) && pos < end <= v.len(),
            Err(e) => lex_pi(v@, pos as int) == Err::<(EventModel, int), ScanErr>(e.model()),
        },
{
    let ns = pos + 2;
    if ns >= v.len() {
        return Err(ParseError { offset: pos, kind: ErrorKind::UnterminatedTag });
    }
    let ne = skip_name(v, ns);
    if ne == ns {
        return Err(ParseError { offset: pos, kind: ErrorKind::BadTagName });
    }
    let close = pi_close_vec();
    let t = find_sub(v, ne, &close);
    if t >= v.len() {
        return Err(ParseError { offset: pos, kind: ErrorKind::UnterminatedTag });
    }
    proof {
        lemma_find_p(v@, ne as int, pi_close());
    }
    let target = copy_range(v, ns, ne);
    let rest = copy_range(v, ne, t);
    let xml = xml_target_vec();
    if chars_eq(&target, &xml) {
        Ok((Event::Decl { rest }, t + 2))
    } else {
        Ok((Event::Pi { target, rest }, t + 2))
    }
}

fn lex_start_exec(v: &Vec<char>, pos: usize) -> (r: Result<(Event, usize), ParseError>)
    requires
        pos < v.len(),
        v@[pos as int] == '<',
    ensures
        match r {
            Ok((ev, end)) => lex_start_tag(v@, pos as int) == Ok::<(EventModel, int), ScanErr>(
                (ev.model(), end as int),
            ) && pos < end <= v.len(),
            Err(e) => lex_start_tag(v@, pos as int) == Err::<(EventModel, int), ScanErr>(
                e.model(),
            ),
        },
{
    let ns = pos + 1;
    let ne = skip_name(v, ns);
    if ne == ns {
        return Err(ParseError { offset: pos, kind: ErrorKind::BadTagName });
    }
    let name = copy_range(v, ns, ne);
    match lex_attrs_exec(v, pos, ne) {
        Err(e) => Err(e),
        Ok((attrs, end, empty)) => {
            if empty {
                Ok((Event::Empty { name, attrs }, end))
            } else {
                Ok((Event::Start { name, attrs }, end))
            }
        },
    }
}

/// One lexical step of the tokenizer, at character position `pos`.
pub fn lex_event(v: &Vec<char>, pos: usize) -> (r: Result<(Event, usize), ParseError>)
    requires
        pos < v.len(),
    ensures
        match r {
            Ok((ev, end)) => lex_at(v@, pos as int) == Ok::<(EventModel, int), ScanErr>(
                (ev.model(), end as int),
            ) && pos < end <= v.len(),
            Err(e) => lex_at(v@, pos as int) == Err::<(EventModel, int), ScanErr>(e.model()),
        },
{
    let c = v[pos];
    if c != '<' {
        let e = find_char(v, pos, '<');
        proof {
            lemma_find_c(v@, pos as int + 1, '<');
        }
        let content = copy_range(v, pos, e);
        return Ok((Event::Text { content }, e));
    }
    if pos + 1 >= v.len() {
        return Err(ParseError { offset: pos, kind: ErrorKind::UnterminatedTag });
    }
    let c1 = v[pos + 1];
    if c1 == '/' {
        return lex_end_exec(v, pos);
    }
    if c1 == '?' {
        return lex_pi_exec(v, pos);
    }
    let copen = comment_open_vec();
    if matches_here(v, pos, &copen) {
        return lex_comment_exec(v, pos);
    }
    let cdopen = cdata_open_vec();
    if matches_here(v, pos, &cdopen) {
        return lex_cdata_exec(v, pos);
    }
    if c1 == '!' {
        return Err(ParseError { offset: pos, kind: ErrorKind::BadTagName });
    }
    lex_start_exec(v, pos)
}

proof fn lemma_cons_all_step(
    p: Seq<EventModel>,
    m: EventModel,
    r: Result<Seq<EventModel>, ScanErr>,
)
    ensures
        cons_all(p, cons_result(m, r)) == cons_all(p.push(m), r),
{
    match r {
        Ok(evs) => {
            assert(p + (seq![m] + evs) =~= p.push(m) + evs);
        },
        Err(e) => {},
    }
}

/// Tokenizes a whole document held as characters: returns its events in
/// document order (whitespace-only text runs are insignificant and omitted),
/// or the error and character offset at which the input is malformed —
/// exactly as the scanner specification `scan` states.
pub fn tokenize(v: &Vec<char>) -> (r: Result<Vec<Event>, ParseError>)
    ensures
        match r {
            Ok(events) => scan(v@) == Ok::<Seq<EventModel>, ScanErr>(events_model(events@)),
            Err(e) => scan(v@) == Err::<Seq<EventModel>, ScanErr>(e.model()),
        },
{
    let mut pos: usize = 0;
    let mut events: Vec<Event> = Vec::new();
    let mut stack: Vec<Vec<char>> = Vec::new();
    proof {
        assert(events_model(events@) =~= Seq::<EventModel>::empty());
        assert(stack_model(stack@) =~= Seq::<Seq<char>>::empty());
        match scan_from(v@, 0, Seq::empty()) {
            Ok(evs) => {
                assert(Seq::<EventModel>::empty() + evs =~= evs);
            },
            Err(e) => {},
        }
    }
    loop
        invariant
            pos <= v.len(),
            scan(v@) == cons_all(
                events_model(events@),
                scan_from(v@, pos as int, stack_model(stack@)),
            ),
        decreases v.len() - pos,
    {
        if pos >= v.len() {
            if stack.len() == 0 {
                proof {
                    assert(events_model(events@) + Seq::<EventModel>::empty() =~= events_model(
                        events@,
                    ));
                }
                return Ok(events);
            }
            return Err(ParseError { offset: v.len(), kind: ErrorKind::UnclosedTag });
        }
        let ghost old_events = events@;
        let ghost old_stack = stack@;
        match lex_event(v, pos) {
            Err(e) => {
                return Err(e);
            },
            Ok((ev, end)) => {
                match ev {
                    Event::Start { name, attrs } => {
                        let n2 = clone_chars(&name);
                        let ev2 = Event::Start { name, attrs };
                        proof {
                            lemma_cons_all_step(
                                events_model(old_events),
                                ev2.model(),
                                scan_from(
                                    v@,
                                    end as int,
                                    stack_model(old_stack).push(n2@),
                                ),
                            );
                            assert(events_model(old_events.push(ev2)) =~= events_model(
                                old_events,
                            ).push(ev2.model()));
                            assert(stack_model(old_stack.push(n2)) =~= stack_model(
                                old_stack,
                            ).push(n2@));
                        }
                        events.push(ev2);
                        stack.push(n2);
                    },
                    Event::End { name } => {
                        if stack.len() == 0 {
                            return Err(ParseError {
                                offset: pos,
                                kind: ErrorKind::UnmatchedEndTag,
                            });
                        }
                        let same = chars_eq(&stack[stack.len() - 1], &name);
                        proof {
                            assert(stack_model(old_stack).last() == old_stack.last()@);
                        }
                        if !same {
                            return Err(ParseError {
                                offset: pos,
                                kind: ErrorKind::MismatchedEndTag,
                            });
                        }
                        let _popped = stack.pop();
                        let ev2 = Event::End { name };
                        proof {
                            lemma_cons_all_step(
                                events_model(old_events),
                                ev2.model(),
                                scan_from(
                                    v@,
                                    end as int,
                                    stack_model(old_stack).drop_last(),
                                ),
                            );
                            assert(events_model(old_events.push(ev2)) =~= events_model(
                                old_events,
                            ).push(ev2.model()));
                            assert(stack_model(old_stack.drop_last()) =~= stack_model(
                                old_stack,
                            ).drop_last());
                        }
                        events.push(ev2);
                    },
                    Event::Text { content } => {
                        if all_ws(&content) {
                            // insignificant whitespace between structural tags
                        } else {
                            let ev2 = Event::Text { content };
                            proof {
                                lemma_cons_all_step(
                                    events_model(old_events),
                                    ev2.model(),
                                    scan_from(v@, end as int, stack_model(old_stack)),
                                );
                                assert(events_model(old_events.push(ev2)) =~= events_model(
                                    old_events,
                                ).push(ev2.model()));
                            }
                            events.push(ev2);
                        }
                    },
                    other => {
                        proof {
                            lemma_cons_all_step(
                                events_model(old_events),
                                other.model(),
                                scan_from(v@, end as int, stack_model(old_stack)),
                            );
                            assert(events_model(old_events.push(other)) =~= events_model(
                                old_events,
                            ).push(other.model()));
                        }
                        events.push(other);
                    },
                }
                pos = end;
            },
        }
    }
}

} // verus!
