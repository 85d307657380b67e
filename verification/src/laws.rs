//! The laws relating the tokenizer and the writer: re-serialization is
//! structure-preserving (scanning the rendered output gives back exactly the
//! events that were written), pretty printing is idempotent, and every
//! structural event is indented by exactly its nesting depth.

use vstd::prelude::*;

use crate::model::AttrModel;
use crate::model::EventModel;
use crate::model::cdata_close;
use crate::model::cdata_open;
use crate::model::closes_only_at_end;
use crate::model::comment_close;
use crate::model::is_name_char;
use crate::model::is_ws;
use crate::model::is_ws_seq;
use crate::model::matches_at;
use crate::model::pi_close;
use crate::model::valid_name;
use crate::model::wf_attr;
use crate::model::wf_attrs;
use crate::model::wf_event;
use crate::model::wf_events;
use crate::model::xml_target;
use crate::model::balanced;
use crate::model::balanced_from;
use crate::emit::event_body;
use crate::emit::head;
use crate::emit::head_depth;
use crate::emit::indent;
use crate::emit::next_depth;
use crate::emit::quote_char;
use crate::emit::render;
use crate::emit::render_attr;
use crate::emit::render_attrs;
use crate::emit::pretty_spec;
use crate::emit::render_rem;
use crate::scan::ScanErr;
use crate::scan::find_c;
use crate::scan::find_p;
use crate::scan::cons_result;
use crate::scan::has_attr_name;
use crate::scan::lex_at;
use crate::scan::lex_attrs;
use crate::scan::name_end;
use crate::scan::scan;
use crate::scan::scan_from;
use crate::scan::ws_end;
use crate::scan::lemma_find_c;
use crate::scan::lemma_find_p;
use crate::scan::lemma_name_end;
use crate::scan::lemma_ws_end;

verus! {

proof fn lemma_ws_end_exact(s: Seq<char>, i: int, k: int)
    requires
        0 <= i <= k <= s.len(),
        forall|j: int| i <= j < k ==> is_ws(#[trigger] s[j]),
        k < s.len() ==> !is_ws(s[k]),
    ensures
        ws_end(s, i) == k,
    decreases k - i,
{
    if i < k {
        lemma_ws_end_exact(s, i + 1, k);
    }
}

proof fn lemma_name_end_exact(s: Seq<char>, i: int, k: int)
    requires
        0 <= i <= k <= s.len(),
        forall|j: int| i <= j < k ==> is_name_char(#[trigger] s[j]),
        k < s.len() ==> !is_name_char(s[k]),
    ensures
        name_end(s, i) == k,
    decreases k - i,
{
    if i < k {
        lemma_name_end_exact(s, i + 1, k);
    }
}

proof fn lemma_find_c_exact(s: Seq<char>, i: int, c: char, k: int)
    requires
        0 <= i <= k <= s.len(),
        forall|j: int| i <= j < k ==> #[trigger] s[j] != c,
        k < s.len() ==> s[k] == c,
    ensures
        find_c(s, i, c) == k,
    decreases k - i,
{
    if i < k {
        lemma_find_c_exact(s, i + 1, c, k);
    }
}

proof fn lemma_find_p_exact(s: Seq<char>, i: int, p: Seq<char>, k: int)
    requires
        0 <= i <= k <= s.len(),
        p.len() > 0,
        forall|j: int| i <= j < k ==> !matches_at(s, j, p),
        matches_at(s, k, p),
    ensures
        find_p(s, i, p) == k,
    decreases k - i,
{
    if i < k {
        lemma_find_p_exact(s, i + 1, p, k);
    }
}


/// Transfers one character of a window equality: if the slice of `s` at
/// `pos` equals `w`, each character of `w` stands in `s` at its offset.
proof fn lemma_window_index(s: Seq<char>, pos: int, w: Seq<char>, j: int)
    requires
        0 <= pos,
        pos + w.len() <= s.len(),
        s.subrange(pos, pos + w.len()) == w,
        0 <= j < w.len(),
    ensures
        s[pos + j] == w[j],
{
    assert(s.subrange(pos, pos + w.len() as int)[j] == s[pos + j]);
}

/// Every structural event's serialized form opens with `<` and is at least
/// three characters long.
proof fn lemma_body_shape(ev: EventModel)
    requires
        !(ev is Text),
        wf_event(ev),
    ensures
        event_body(ev).len() >= 3,
        event_body(ev)[0] == '<',
{
}

proof fn lemma_lex_text(s: Seq<char>, pos: int, content: Seq<char>)
    requires
        0 <= pos,
        pos + content.len() <= s.len(),
        s.subrange(pos, pos + content.len()) == content,
        content.len() > 0,
        forall|i: int| 0 <= i < content.len() ==> #[trigger] content[i] != '<',
        pos + content.len() == s.len() || s[pos + content.len()] == '<',
    ensures
        lex_at(s, pos) == Ok::<(EventModel, int), ScanErr>(
            (EventModel::Text { content }, pos + content.len()),
        ),
{
    let cc = content.len() as int;
    assert forall|j: int| #![trigger content[j]] #![trigger s[pos + j]] 0 <= j < cc implies s[pos
        + j] == content[j] by {
        lemma_window_index(s, pos, content, j);
    }
    assert(content[0] != '<');
    assert(s[pos + 0] != '<');
    assert forall|j: int| pos <= j < pos + cc implies #[trigger] s[j] != '<' by {
        assert(s[pos + (j - pos)] == content[j - pos]);
    }
    lemma_find_c_exact(s, pos, '<', pos + cc);
    assert(s.subrange(pos, pos + cc) =~= content);
}

proof fn lemma_lex_end(s: Seq<char>, pos: int, name: Seq<char>)
    requires
        0 <= pos,
        pos + name.len() + 3 <= s.len(),
        s.subrange(pos, pos + name.len() + 3) == event_body(EventModel::End { name }),
        valid_name(name),
    ensures
        lex_at(s, pos) == Ok::<(EventModel, int), ScanErr>(
            (EventModel::End { name }, pos + name.len() + 3),
        ),
{
    let b = event_body(EventModel::End { name });
    let nn = name.len() as int;
    assert(b.len() == 3 + nn);
    assert forall|j: int| #![trigger b[j]] #![trigger s[pos + j]] 0 <= j < b.len() implies s[pos
        + j] == b[j] by {
        lemma_window_index(s, pos, b, j);
    }
    assert(b[0] == '<');
    assert(s[pos + 0] == '<');
    assert(b[1] == '/');
    assert(s[pos + 1] == '/');
    assert forall|j: int| pos + 2 <= j < pos + 2 + nn implies is_name_char(#[trigger] s[j]) by {
        assert(b[j - pos] == name[j - pos - 2]);
        assert(s[pos + (j - pos)] == b[j - pos]);
    }
    assert(b[2 + nn] == '>');
    assert(s[pos + (2 + nn)] == '>');
    lemma_name_end_exact(s, pos + 2, pos + 2 + nn);
    lemma_ws_end_exact(s, pos + 2 + nn, pos + 2 + nn);
    assert(s.subrange(pos + 2, pos + 2 + nn) =~= name) by {
        assert forall|j: int| 0 <= j < nn implies s.subrange(pos + 2, pos + 2 + nn)[j] == name[j]
            by {
            assert(b[2 + j] == name[j]);
            assert(s[pos + (2 + j)] == b[2 + j]);
        }
    }
}

proof fn lemma_lex_comment(s: Seq<char>, pos: int, content: Seq<char>)
    requires
        0 <= pos,
        pos + content.len() + 7 <= s.len(),
        s.subrange(pos, pos + content.len() + 7) == event_body(EventModel::Comment { content }),
        closes_only_at_end(content, comment_close()),
    ensures
        lex_at(s, pos) == Ok::<(EventModel, int), ScanErr>(
            (EventModel::Comment { content }, pos + content.len() + 7),
        ),
{
    let b = event_body(EventModel::Comment { content });
    let cc = content.len() as int;
    assert(b.len() == 7 + cc);
    assert forall|j: int| #![trigger b[j]] #![trigger s[pos + j]] 0 <= j < b.len() implies s[pos
        + j] == b[j] by {
        lemma_window_index(s, pos, b, j);
    }
    assert(b[0] == '<' && b[1] == '!' && b[2] == '-' && b[3] == '-');
    assert(s[pos + 0] == '<' && s[pos + 1] == '!' && s[pos + 2] == '-' && s[pos + 3] == '-');
    assert(matches_at(s, pos, seq!['<', '!', '-', '-'])) by {
        assert forall|t: int| 0 <= t < 4 implies s[pos + t] == seq!['<', '!', '-', '-'][t] by {
            assert(b[t] == seq!['<', '!', '-', '-'][t]);
        }
    }
    let close = comment_close();
    assert forall|m: int| 0 <= m < cc + 3 implies (content + close)[m] == s[pos + 4 + m] by {
        assert(b[4 + m] == (content + close)[m]);
    }
    assert(matches_at(s, pos + 4 + cc, close)) by {
        assert forall|t: int| 0 <= t < 3 implies s[pos + 4 + cc + t] == close[t] by {
            assert((content + close)[cc + t] == close[t]);
        }
    }
    assert forall|j: int| pos + 4 <= j < pos + 4 + cc implies !matches_at(s, j, close) by {
        if matches_at(s, j, close) {
            let i = j - (pos + 4);
            assert(matches_at(content + close, i, close)) by {
                assert forall|t: int| 0 <= t < 3 implies (content + close)[i + t] == close[t] by {
                    assert(s[j + t] == close[t]);
                    assert((content + close)[i + t] == s[pos + 4 + i + t]);
                }
            }
        }
    }
    lemma_find_p_exact(s, pos + 4, close, pos + 4 + cc);
    assert(s.subrange(pos + 4, pos + 4 + cc) =~= content) by {
        assert forall|j: int| 0 <= j < cc implies s.subrange(pos + 4, pos + 4 + cc)[j]
            == content[j] by {
            assert((content + close)[j] == s[pos + 4 + j]);
        }
    }
}

proof fn lemma_lex_cdata(s: Seq<char>, pos: int, content: Seq<char>)
    requires
        0 <= pos,
        pos + content.len() + 12 <= s.len(),
        s.subrange(pos, pos + content.len() + 12) == event_body(EventModel::CData { content }),
        closes_only_at_end(content, cdata_close()),
    ensures
        lex_at(s, pos) == Ok::<(EventModel, int), ScanErr>(
            (EventModel::CData { content }, pos + content.len() + 12),
        ),
{
    let b = event_body(EventModel::CData { content });
    let cc = content.len() as int;
    assert(b.len() == 12 + cc);
    assert forall|j: int| #![trigger b[j]] #![trigger s[pos + j]] 0 <= j < b.len() implies s[pos
        + j] == b[j] by {
        lemma_window_index(s, pos, b, j);
    }
    assert(b[0] == '<' && b[1] == '!' && b[2] == '[');
    assert(s[pos + 0] == '<' && s[pos + 1] == '!' && s[pos + 2] == '[');
    assert(!matches_at(s, pos, seq!['<', '!', '-', '-'])) by {
        assert(seq!['<', '!', '-', '-'][2] == '-');
        assert(s[pos + 2] != '-');
    }
    assert(matches_at(s, pos, cdata_open())) by {
        assert forall|t: int| 0 <= t < 9 implies s[pos + t] == cdata_open()[t] by {
            assert(b[t] == cdata_open()[t]);
        }
    }
    let close = cdata_close();
    assert forall|m: int| 0 <= m < cc + 3 implies (content + close)[m] == s[pos + 9 + m] by {
        assert(b[9 + m] == (content + close)[m]);
    }
    assert(matches_at(s, pos + 9 + cc, close)) by {
        assert forall|t: int| 0 <= t < 3 implies s[pos + 9 + cc + t] == close[t] by {
            assert((content + close)[cc + t] == close[t]);
        }
    }
    assert forall|j: int| pos + 9 <= j < pos + 9 + cc implies !matches_at(s, j, close) by {
        if matches_at(s, j, close) {
            let i = j - (pos + 9);
            assert(matches_at(content + close, i, close)) by {
                assert forall|t: int| 0 <= t < 3 implies (content + close)[i + t] == close[t] by {
                    assert(s[j + t] == close[t]);
                    assert((content + close)[i + t] == s[pos + 9 + i + t]);
                }
            }
        }
    }
    lemma_find_p_exact(s, pos + 9, close, pos + 9 + cc);
    assert(s.subrange(pos + 9, pos + 9 + cc) =~= content) by {
        assert forall|j: int| 0 <= j < cc implies s.subrange(pos + 9, pos + 9 + cc)[j]
            == content[j] by {
            assert((content + close)[j] == s[pos + 9 + j]);
        }
    }
}

proof fn lemma_lex_pi_like(s: Seq<char>, pos: int, target: Seq<char>, rest: Seq<char>)
    requires
        0 <= pos,
        pos + target.len() + rest.len() + 4 <= s.len(),
        s.subrange(pos, pos + target.len() + rest.len() + 4) == seq!['<', '?'] + target + rest
            + pi_close(),
        valid_name(target),
        closes_only_at_end(rest, pi_close()),
        rest.len() > 0 ==> !is_name_char(rest[0]),
    ensures
        lex_at(s, pos) == (if target == xml_target() {
            Ok::<(EventModel, int), ScanErr>(
                (EventModel::Decl { rest }, pos + target.len() + rest.len() + 4),
            )
        } else {
            Ok::<(EventModel, int), ScanErr>(
                (EventModel::Pi { target, rest }, pos + target.len() + rest.len() + 4),
            )
        }),
{
    let b = seq!['<', '?'] + target + rest + pi_close();
    let tn = target.len() as int;
    let rn = rest.len() as int;
    assert(b.len() == 4 + tn + rn);
    assert forall|j: int| #![trigger b[j]] #![trigger s[pos + j]] 0 <= j < b.len() implies s[pos
        + j] == b[j] by {
        lemma_window_index(s, pos, b, j);
    }
    assert(b[0] == '<' && b[1] == '?');
    assert(s[pos + 0] == '<' && s[pos + 1] == '?');
    assert forall|j: int| pos + 2 <= j < pos + 2 + tn implies is_name_char(#[trigger] s[j]) by {
        assert(b[j - pos] == target[j - pos - 2]);
        assert(s[pos + (j - pos)] == b[j - pos]);
    }
    assert(!is_name_char(s[pos + (2 + tn)])) by {
        if rn > 0 {
            assert(b[2 + tn] == rest[0]);
        } else {
            assert(b[2 + tn] == '?');
        }
    }
    lemma_name_end_exact(s, pos + 2, pos + 2 + tn);
    let ne = pos + 2 + tn;
    let close = pi_close();
    assert forall|m: int| 0 <= m < rn + 2 implies (rest + close)[m] == s[ne + m] by {
        assert(b[2 + tn + m] == (rest + close)[m]);
    }
    assert(matches_at(s, ne + rn, close)) by {
        assert forall|t: int| 0 <= t < 2 implies s[ne + rn + t] == close[t] by {
            assert((rest + close)[rn + t] == close[t]);
        }
    }
    assert forall|j: int| ne <= j < ne + rn implies !matches_at(s, j, close) by {
        if matches_at(s, j, close) {
            let i = j - ne;
            assert(matches_at(rest + close, i, close)) by {
                assert forall|t: int| 0 <= t < 2 implies (rest + close)[i + t] == close[t] by {
                    assert(s[j + t] == close[t]);
                    assert((rest + close)[i + t] == s[ne + i + t]);
                }
            }
        }
    }
    lemma_find_p_exact(s, ne, close, ne + rn);
    assert(s.subrange(pos + 2, ne) =~= target) by {
        assert forall|j: int| 0 <= j < tn implies s.subrange(pos + 2, ne)[j] == target[j] by {
            assert(b[2 + j] == target[j]);
            assert(s[pos + (2 + j)] == b[2 + j]);
        }
    }
    assert(s.subrange(ne, ne + rn) =~= rest) by {
        assert forall|j: int| 0 <= j < rn implies s.subrange(ne, ne + rn)[j] == rest[j] by {
            assert((rest + close)[j] == s[ne + j]);
        }
    }
}

/// What closes a start tag's attribute list: `>` for an ordinary start tag,
/// `/>` for a self-closing one.
pub open spec fn tag_close(empty_tag: bool) -> Seq<char> {
    if empty_tag {
        seq!['/', '>']
    } else {
        seq!['>']
    }
}

proof fn lemma_lex_attrs_render(
    s: Seq<char>,
    tok: int,
    i: int,
    done: Seq<AttrModel>,
    rest: Seq<AttrModel>,
    empty_tag: bool,
)
    requires
        0 <= tok <= i,
        i + render_attrs(rest).len() + tag_close(empty_tag).len() <= s.len(),
        s.subrange(i, i + render_attrs(rest).len() + tag_close(empty_tag).len()) == render_attrs(
            rest,
        ) + tag_close(empty_tag),
        wf_attrs(done + rest),
    ensures
        lex_attrs(s, tok, i, done) == Ok::<(Seq<AttrModel>, int, bool), ScanErr>(
            (
                done + rest,
                i + render_attrs(rest).len() + tag_close(empty_tag).len(),
                empty_tag,
            ),
        ),
    decreases rest.len(),
{
    let w = render_attrs(rest) + tag_close(empty_tag);
    let wl = w.len() as int;
    assert forall|j: int| #![trigger w[j]] #![trigger s[i + j]] 0 <= j < wl implies s[i + j]
        == w[j] by {
        lemma_window_index(s, i, w, j);
    }
    if rest.len() == 0 {
        assert(render_attrs(rest).len() == 0);
        assert(w =~= tag_close(empty_tag));
        if empty_tag {
            assert(w[0] == '/');
            assert(s[i + 0] == '/');
            assert(w[1] == '>');
            assert(s[i + 1] == '>');
            lemma_ws_end_exact(s, i, i);
            assert(lex_attrs(s, tok, i, done) == Ok::<(Seq<AttrModel>, int, bool), ScanErr>(
                (done, i + 2, true),
            ));
        } else {
            assert(w[0] == '>');
            assert(s[i + 0] == '>');
            lemma_ws_end_exact(s, i, i);
            assert(lex_attrs(s, tok, i, done) == Ok::<(Seq<AttrModel>, int, bool), ScanErr>(
                (done, i + 1, false),
            ));
        }
        assert(done + rest =~= done);
    } else {
        let a = rest[0];
        let tail = render_attrs(rest.drop_first()) + tag_close(empty_tag);
        let ra = render_attr(a);
        let an = a.name.len() as int;
        let vn = a.value.len() as int;
        assert(ra.len() == an + vn + 4);
        assert((done + rest)[done.len() as int] == a);
        assert(wf_attr(a));
        assert(w =~= ra + tail) by {
            assert(render_attrs(rest) == ra + render_attrs(rest.drop_first()));
        }
        assert forall|j: int| #![trigger ra[j]] 0 <= j < ra.len() implies s[i + j] == ra[j] by {
            assert(w[j] == (ra + tail)[j]);
        }
        assert(ra[0] == ' ');
        assert(s[i + 0] == ' ');
        assert forall|j: int| 0 <= j < an implies ra[1 + j] == a.name[j] by {}
        assert(ra[1] == a.name[0]);
        assert(s[i + 1] == a.name[0]);
        assert(is_name_char(a.name[0]));
        lemma_ws_end_exact(s, i, i + 1);
        let q = i + 1;
        assert forall|j: int| q <= j < q + an implies is_name_char(#[trigger] s[j]) by {
            assert(ra[1 + (j - q)] == a.name[j - q]);
            assert(s[i + (1 + (j - q))] == ra[1 + (j - q)]);
        }
        assert(ra[1 + an] == '=');
        assert(s[i + (1 + an)] == '=');
        lemma_name_end_exact(s, q, q + an);
        let ne = q + an;
        assert(s.subrange(q, ne) =~= a.name) by {
            assert forall|j: int| 0 <= j < an implies s.subrange(q, ne)[j] == a.name[j] by {
                assert(ra[1 + j] == a.name[j]);
                assert(s[i + (1 + j)] == ra[1 + j]);
            }
        }
        assert(!has_attr_name(done, a.name)) by {
            assert forall|k: int| 0 <= k < done.len() implies (#[trigger] done[k]).name
                != a.name by {
                assert((done + rest)[k] == done[k]);
            }
        }
        lemma_ws_end_exact(s, ne, ne);
        let qc = quote_char(a);
        assert(ra[2 + an] == qc);
        assert(s[i + (2 + an)] == qc);
        lemma_ws_end_exact(s, ne + 1, ne + 1);
        let qt = ne + 1;
        assert(s[qt] == qc);
        assert(qc == '"' || qc == '\'');
        assert forall|j: int| qt + 1 <= j < qt + 1 + vn implies #[trigger] s[j] != qc by {
            assert(ra[3 + an + (j - qt - 1)] == a.value[j - qt - 1]);
            assert(s[i + (3 + an + (j - qt - 1))] == ra[3 + an + (j - qt - 1)]);
        }
        assert(ra[3 + an + vn] == qc);
        assert(s[i + (3 + an + vn)] == qc);
        lemma_find_c_exact(s, qt + 1, qc, qt + 1 + vn);
        let vend = qt + 1 + vn;
        assert(s.subrange(qt + 1, vend) =~= a.value) by {
            assert forall|j: int| 0 <= j < vn implies s.subrange(qt + 1, vend)[j] == a.value[j] by {
                assert(ra[3 + an + j] == a.value[j]);
                assert(s[i + (3 + an + j)] == ra[3 + an + j]);
            }
        }
        assert(AttrModel {
            name: s.subrange(q, ne),
            value: s.subrange(qt + 1, vend),
            double_quoted: s[qt] == '"',
        } == a) by {
            assert((s[qt] == '"') == a.double_quoted);
        }
        let end = i + wl;
        assert(s.subrange(vend + 1, end) =~= tail) by {
            assert forall|j: int| 0 <= j < tail.len() implies s.subrange(vend + 1, end)[j]
                == tail[j] by {
                assert(w[ra.len() + j] == (ra + tail)[ra.len() + j]);
                assert(s[i + (ra.len() + j)] == w[ra.len() + j]);
            }
        }
        assert(done.push(a) + rest.drop_first() =~= done + rest);
        assert(wf_attrs(done.push(a) + rest.drop_first()));
        lemma_lex_attrs_render(s, tok, vend + 1, done.push(a), rest.drop_first(), empty_tag);
    }
}

/// The name, attributes and self-closing flag of a start or empty-element
/// tag event.
pub open spec fn tag_name(ev: EventModel) -> Seq<char> {
    match ev {
        EventModel::Start { name, attrs } => name,
        EventModel::Empty { name, attrs } => name,
        _ => Seq::empty(),
    }
}

pub open spec fn tag_attrs(ev: EventModel) -> Seq<AttrModel> {
    match ev {
        EventModel::Start { name, attrs } => attrs,
        EventModel::Empty { name, attrs } => attrs,
        _ => Seq::empty(),
    }
}

proof fn lemma_lex_start(s: Seq<char>, pos: int, ev: EventModel)
    requires
        ev is Start || ev is Empty,
        wf_event(ev),
        0 <= pos,
        pos + event_body(ev).len() <= s.len(),
        s.subrange(pos, pos + event_body(ev).len()) == event_body(ev),
    ensures
        lex_at(s, pos) == Ok::<(EventModel, int), ScanErr>((ev, pos + event_body(ev).len())),
{
    let name = tag_name(ev);
    let attrs = tag_attrs(ev);
    let et = ev is Empty;
    let b = event_body(ev);
    let nn = name.len() as int;
    let ral = render_attrs(attrs).len() as int;
    let cl: int = tag_close(et).len() as int;
    assert(b =~= seq!['<'] + name + (render_attrs(attrs) + tag_close(et)));
    assert(b.len() == 1 + nn + ral + cl);
    assert forall|j: int| #![trigger b[j]] #![trigger s[pos + j]] 0 <= j < b.len() implies s[pos
        + j] == b[j] by {
        lemma_window_index(s, pos, b, j);
    }
    assert(b[0] == '<');
    assert(s[pos + 0] == '<');
    assert(b[1] == name[0]);
    assert(s[pos + 1] == name[0]);
    assert(is_name_char(name[0]));
    assert(!matches_at(s, pos, seq!['<', '!', '-', '-'])) by {
        assert(seq!['<', '!', '-', '-'][1] == '!');
    }
    assert(!matches_at(s, pos, cdata_open())) by {
        assert(cdata_open()[1] == '!');
    }
    assert forall|j: int| pos + 1 <= j < pos + 1 + nn implies is_name_char(#[trigger] s[j]) by {
        assert(b[j - pos] == name[j - pos - 1]);
        assert(s[pos + (j - pos)] == b[j - pos]);
    }
    assert(!is_name_char(s[pos + (1 + nn)])) by {
        assert(b[1 + nn] == (render_attrs(attrs) + tag_close(et))[0]);
        if attrs.len() == 0 {
            assert(render_attrs(attrs).len() == 0);
            assert((render_attrs(attrs) + tag_close(et))[0] == tag_close(et)[0]);
            if et {
                assert(tag_close(et)[0] == '/');
            } else {
                assert(tag_close(et)[0] == '>');
            }
        } else {
            assert(render_attrs(attrs) == render_attr(attrs[0]) + render_attrs(
                attrs.drop_first(),
            ));
            assert((render_attrs(attrs) + tag_close(et))[0] == render_attr(attrs[0])[0]);
            assert(render_attr(attrs[0])[0] == ' ');
        }
    }
    lemma_name_end_exact(s, pos + 1, pos + 1 + nn);
    let ne = pos + 1 + nn;
    assert(s.subrange(pos + 1, ne) =~= name) by {
        assert forall|j: int| 0 <= j < nn implies s.subrange(pos + 1, ne)[j] == name[j] by {
            assert(b[1 + j] == name[j]);
            assert(s[pos + (1 + j)] == b[1 + j]);
        }
    }
    assert(s.subrange(ne, pos + b.len()) =~= render_attrs(attrs) + tag_close(et)) by {
        assert forall|j: int| 0 <= j < ral + cl implies s.subrange(ne, pos + b.len() as int)[j] == (
        render_attrs(attrs) + tag_close(et))[j] by {
            assert(b[1 + nn + j] == (render_attrs(attrs) + tag_close(et))[j]);
            assert(s[pos + (1 + nn + j)] == b[1 + nn + j]);
        }
    }
    assert(Seq::<AttrModel>::empty() + attrs =~= attrs);
    assert(wf_attrs(Seq::<AttrModel>::empty() + attrs));
    lemma_lex_attrs_render(s, pos, ne, Seq::empty(), attrs, et);
}

proof fn lemma_indent_all_ws(d: int)
    ensures
        forall|j: int| 0 <= j < indent(d).len() ==> is_ws(#[trigger] indent(d)[j]),
        forall|j: int| 0 <= j < indent(d).len() ==> #[trigger] indent(d)[j] != '<',
{
    assert forall|j: int| 0 <= j < indent(d).len() implies is_ws(#[trigger] indent(d)[j]) && indent(
        d,
    )[j] != '<' by {
        assert(indent(d)[j] == ' ');
    }
}

/// The heart of round-trip preservation: if the characters of `s` from
/// `pos` on are exactly the re-serialization of `evs` from the given writer
/// state, then scanning them from `pos` yields exactly `evs` back.
proof fn lemma_scan_render_rem(
    s: Seq<char>,
    pos: int,
    evs: Seq<EventModel>,
    stack: Seq<Seq<char>>,
    depth: int,
    started: bool,
    glue: bool,
)
    requires
        0 <= pos <= s.len(),
        s.subrange(pos, s.len() as int) == render_rem(evs, depth, started, glue),
        wf_events(evs),
        balanced_from(evs, stack),
    ensures
        scan_from(s, pos, stack) == Ok::<Seq<EventModel>, ScanErr>(evs),
    decreases evs.len(), 1int,
{
    let tail = s.subrange(pos, s.len() as int);
    if evs.len() == 0 {
        assert(tail.len() == 0);
        assert(pos == s.len());
        assert(stack.len() == 0);
        assert(evs =~= Seq::<EventModel>::empty());
    } else if evs[0] is Text {
        lemma_scan_render_text(s, pos, evs, stack, depth, started, glue);
    } else {
        lemma_scan_render_struct(s, pos, evs, stack, depth, started, glue);
    }
}

proof fn lemma_rest_wf(evs: Seq<EventModel>)
    requires
        evs.len() > 0,
        wf_events(evs),
    ensures
        wf_events(evs.drop_first()),
{
    let rest = evs.drop_first();
    assert forall|i: int| 0 <= i < rest.len() implies wf_event(#[trigger] rest[i]) by {
        assert(rest[i] == evs[i + 1]);
    }
    assert forall|i: int| 0 <= i && i + 1 < rest.len() && (#[trigger] rest[i]) is Text implies !(
    rest[i + 1] is Text) by {
        assert(rest[i] == evs[i + 1]);
        assert(rest[i + 1] == evs[i + 2]);
    }
}

#[verifier::rlimit(60)]
proof fn lemma_scan_render_text(
    s: Seq<char>,
    pos: int,
    evs: Seq<EventModel>,
    stack: Seq<Seq<char>>,
    depth: int,
    started: bool,
    glue: bool,
)
    requires
        0 <= pos <= s.len(),
        s.subrange(pos, s.len() as int) == render_rem(evs, depth, started, glue),
        wf_events(evs),
        balanced_from(evs, stack),
        evs.len() > 0,
        evs[0] is Text,
    ensures
        scan_from(s, pos, stack) == Ok::<Seq<EventModel>, ScanErr>(evs),
    decreases evs.len(), 0int,
{
    let tail = s.subrange(pos, s.len() as int);
    let ev = evs[0];
    let rest = evs.drop_first();
    assert(wf_event(ev));
    lemma_rest_wf(evs);
    let content = tag_text(ev);
    assert(ev == EventModel::Text { content });
    assert(!is_ws_seq(content));
    let rtail = render_rem(rest, depth, true, true);
    assert(render_rem(evs, depth, started, glue) == content + rtail);
    assert(tail == content + rtail);
    let cc = content.len() as int;
    assert(tail.len() == cc + rtail.len());
    assert(pos + cc <= s.len());
    assert forall|j: int| #![trigger tail[j]] 0 <= j < tail.len() implies tail[j] == s[pos + j] by {
    }
    assert(s.subrange(pos, pos + cc) =~= content) by {
        assert forall|j: int| 0 <= j < cc implies s.subrange(pos, pos + cc)[j] == content[j] by {
            assert(tail[j] == content[j]);
            assert(tail[j] == s[pos + j]);
        }
    }
    if rest.len() == 0 {
        assert(rtail.len() == 0);
        assert(pos + cc == s.len());
    } else {
        assert(!(rest[0] is Text)) by {
            assert(evs[0] is Text);
            assert(rest[0] == evs[1]);
        }
        lemma_body_shape(rest[0]);
        assert(rtail == event_body(rest[0]) + render_rem(
            rest.drop_first(),
            next_depth(rest[0], depth),
            true,
            false,
        ));
        assert(rtail[0] == event_body(rest[0])[0]);
        assert(tail[cc] == rtail[cc - cc]);
        assert(s[pos + cc] == '<');
    }
    lemma_lex_text(s, pos, content);
    assert(s.subrange(pos + cc, s.len() as int) =~= rtail) by {
        assert forall|j: int| 0 <= j < rtail.len() implies s.subrange(pos + cc, s.len() as int)[j]
            == rtail[j] by {
            assert(tail[cc + j] == rtail[j]);
            assert(tail[cc + j] == s[pos + (cc + j)]);
        }
    }
    lemma_scan_render_rem(s, pos + cc, rest, stack, depth, true, true);
    assert(seq![ev] + rest =~= evs);
}

#[verifier::rlimit(100)]
proof fn lemma_scan_render_struct(
    s: Seq<char>,
    pos: int,
    evs: Seq<EventModel>,
    stack: Seq<Seq<char>>,
    depth: int,
    started: bool,
    glue: bool,
)
    requires
        0 <= pos <= s.len(),
        s.subrange(pos, s.len() as int) == render_rem(evs, depth, started, glue),
        wf_events(evs),
        balanced_from(evs, stack),
        evs.len() > 0,
        !(evs[0] is Text),
    ensures
        scan_from(s, pos, stack) == Ok::<Seq<EventModel>, ScanErr>(evs),
    decreases evs.len(), 0int,
{
    let tail = s.subrange(pos, s.len() as int);
    let ev = evs[0];
    let rest = evs.drop_first();
    assert(wf_event(ev));
    lemma_rest_wf(evs);
    let hd = head(head_depth(ev, depth), started, glue);
    let body = event_body(ev);
    let rtail = render_rem(rest, next_depth(ev, depth), true, false);
    assert(render_rem(evs, depth, started, glue) == hd + body + rtail);
    assert(tail == hd + body + rtail);
    let hl = hd.len() as int;
    let bl = body.len() as int;
    lemma_body_shape(ev);
    let p2 = pos + hl;
    assert(tail.len() == hl + bl + rtail.len());
    assert forall|j: int| #![trigger tail[j]] 0 <= j < tail.len() implies tail[j] == s[pos + j] by {
    }
    assert forall|j: int| 0 <= j < bl implies tail[hl + j] == body[j] by {
        assert((hd + body + rtail)[hl + j] == body[j]);
    }
    assert(s.subrange(p2, p2 + bl) =~= body) by {
        assert forall|j: int| 0 <= j < bl implies s.subrange(p2, p2 + bl)[j] == body[j] by {
            assert(tail[hl + j] == body[j]);
            assert(tail[hl + j] == s[pos + (hl + j)]);
        }
    }
    assert(s[p2 + 0] == '<') by {
        assert(s.subrange(p2, p2 + bl)[0] == body[0]);
    }
    if hl > 0 {
        assert(started && !glue);
        let d0 = head_depth(ev, depth);
        assert(hd == seq!['\n'] + indent(d0));
        lemma_indent_all_ws(d0);
        assert forall|j: int| 0 <= j < hl implies is_ws(#[trigger] hd[j]) && hd[j] != '<' by {
            if j > 0 {
                assert(hd[j] == indent(d0)[j - 1]);
            }
        }
        assert(s.subrange(pos, p2) =~= hd) by {
            assert forall|j: int| 0 <= j < hl implies s.subrange(pos, p2)[j] == hd[j] by {
                assert(tail[j] == (hd + body + rtail)[j]);
                assert(tail[j] == s[pos + j]);
            }
        }
        lemma_lex_text(s, pos, hd);
        assert(is_ws_seq(hd));
        assert(scan_from(s, pos, stack) == scan_from(s, p2, stack));
    }
    let stack2 = match ev {
        EventModel::Start { name, attrs } => stack.push(name),
        EventModel::End { name } => stack.drop_last(),
        _ => stack,
    };
    match ev {
        EventModel::Start { name, attrs } => {
            lemma_lex_start(s, p2, ev);
        },
        EventModel::Empty { name, attrs } => {
            lemma_lex_start(s, p2, ev);
        },
        EventModel::End { name } => {
            lemma_lex_end(s, p2, name);
            assert(stack.len() > 0 && stack.last() == name);
        },
        EventModel::Comment { content } => {
            lemma_lex_comment(s, p2, content);
        },
        EventModel::CData { content } => {
            lemma_lex_cdata(s, p2, content);
        },
        EventModel::Pi { target, rest: r } => {
            lemma_lex_pi_like(s, p2, target, r);
            assert(target != xml_target());
        },
        EventModel::Decl { rest: r } => {
            assert(valid_name(xml_target())) by {
                assert(xml_target()[0] == 'x');
                assert(xml_target()[1] == 'm');
                assert(xml_target()[2] == 'l');
                assert forall|j: int| 0 <= j < 3 implies is_name_char(
                    #[trigger] xml_target()[j],
                ) by {
                }
            }
            assert(event_body(ev) == seq!['<', '?'] + xml_target() + r + pi_close());
            lemma_lex_pi_like(s, p2, xml_target(), r);
        },
        _ => {
            assert(false);
        },
    }
    assert(lex_at(s, p2) == Ok::<(EventModel, int), ScanErr>((ev, p2 + bl)));
    assert(s.subrange(p2 + bl, s.len() as int) =~= rtail) by {
        assert forall|j: int| 0 <= j < rtail.len() implies s.subrange(p2 + bl, s.len() as int)[j]
            == rtail[j] by {
            assert(tail[hl + bl + j] == (hd + body + rtail)[hl + bl + j]);
            assert(tail[hl + bl + j] == s[pos + (hl + bl + j)]);
        }
    }
    lemma_scan_render_rem(s, p2 + bl, rest, stack2, next_depth(ev, depth), true, false);
    assert(seq![ev] + rest =~= evs);
}

/// The text content of a text event.
pub open spec fn tag_text(ev: EventModel) -> Seq<char> {
    match ev {
        EventModel::Text { content } => content,
        _ => Seq::empty(),
    }
}

proof fn lemma_lex_attrs_ok_shape(s: Seq<char>, tok: int, i: int, attrs: Seq<AttrModel>)
    requires
        0 <= tok,
        0 <= i <= s.len(),
        wf_attrs(attrs),
    ensures
        match lex_attrs(s, tok, i, attrs) {
            Ok((res, end, emp)) => wf_attrs(res) && i < end <= s.len(),
            Err(e) => true,
        },
    decreases s.len() - i,
{
    lemma_ws_end(s, i);
    let q = ws_end(s, i);
    if q >= s.len() {
    } else if s[q] == '>' {
    } else if s[q] == '/' {
    } else if q == i {
    } else {
        lemma_name_end(s, q);
        let ne = name_end(s, q);
        if ne == q {
        } else {
            let an = s.subrange(q, ne);
            if has_attr_name(attrs, an) {
            } else {
                lemma_ws_end(s, ne);
                let eq = ws_end(s, ne);
                if eq >= s.len() {
                } else if s[eq] != '=' {
                } else {
                    lemma_ws_end(s, eq + 1);
                    let qt = ws_end(s, eq + 1);
                    if qt >= s.len() {
                    } else if s[qt] == '"' || s[qt] == '\'' {
                        lemma_find_c(s, qt + 1, s[qt]);
                        let vend = find_c(s, qt + 1, s[qt]);
                        if vend >= s.len() {
                        } else {
                            let a = AttrModel {
                                name: an,
                                value: s.subrange(qt + 1, vend),
                                double_quoted: s[qt] == '"',
                            };
                            assert(wf_attr(a)) by {
                                assert forall|j: int| q <= j < ne implies is_name_char(
                                    #[trigger] s[j],
                                ) by {}
                                assert forall|j: int| 0 <= j < a.name.len() implies is_name_char(
                                    #[trigger] a.name[j],
                                ) by {
                                    assert(a.name[j] == s[q + j]);
                                }
                                assert forall|j: int| 0 <= j < a.value.len() implies (
                                #[trigger] a.value[j]) != quote_char(a) by {
                                    assert(a.value[j] == s[qt + 1 + j]);
                                }
                            }
                            assert(wf_attrs(attrs.push(a))) by {
                                assert forall|m: int, j: int|
                                    0 <= m < j < attrs.push(a).len() implies attrs.push(
                                    a,
                                )[m].name != attrs.push(a)[j].name by {
                                    if j < attrs.len() {
                                        assert(attrs.push(a)[m] == attrs[m]);
                                        assert(attrs.push(a)[j] == attrs[j]);
                                    } else {
                                        assert(attrs.push(a)[m] == attrs[m]);
                                        assert(attrs.push(a)[j] == a);
                                    }
                                }
                                assert forall|m: int| 0 <= m < attrs.push(a).len() implies wf_attr(
                                    #[trigger] attrs.push(a)[m],
                                ) by {
                                    if m < attrs.len() {
                                        assert(attrs.push(a)[m] == attrs[m]);
                                    } else {
                                        assert(attrs.push(a)[m] == a);
                                    }
                                }
                            }
                            lemma_lex_attrs_ok_shape(s, tok, vend + 1, attrs.push(a));
                        }
                    } else {
                    }
                }
            }
        }
    }
}

proof fn lemma_lex_ok_shape(s: Seq<char>, pos: int)
    requires
        0 <= pos < s.len(),
    ensures
        match lex_at(s, pos) {
            Ok((ev, end)) => {
                &&& pos < end <= s.len()
                &&& (ev is Text ==> {
                    &&& end == s.len() || s[end] == '<'
                    &&& tag_text(ev).len() > 0
                    &&& forall|i: int|
                        0 <= i < tag_text(ev).len() ==> #[trigger] tag_text(ev)[i] != '<'
                })
                &&& (!(ev is Text) ==> wf_event(ev))
            },
            Err(e) => true,
        },
{
    if s[pos] != '<' {
        lemma_find_c(s, pos, '<');
        let e = find_c(s, pos, '<');
        assert(e > pos) by {
            if e == pos {
                assert(s[pos] == '<');
            }
        }
        assert forall|i: int| 0 <= i < e - pos implies #[trigger] s.subrange(pos, e)[i] != '<' by {
            assert(s.subrange(pos, e)[i] == s[pos + i]);
        }
    } else if pos + 1 >= s.len() {
    } else if s[pos + 1] == '/' {
        let ns = pos + 2;
        if ns >= s.len() {
        } else {
            lemma_name_end(s, ns);
            let ne = name_end(s, ns);
            if ne == ns {
            } else {
                lemma_ws_end(s, ne);
                let ce = ws_end(s, ne);
                if ce >= s.len() {
                } else if s[ce] == '>' {
                    assert(valid_name(s.subrange(ns, ne))) by {
                        assert forall|j: int| 0 <= j < ne - ns implies is_name_char(
                            #[trigger] s.subrange(ns, ne)[j],
                        ) by {
                            assert(s.subrange(ns, ne)[j] == s[ns + j]);
                        }
                    }
                }
            }
        }
    } else if s[pos + 1] == '?' {
        let ns = pos + 2;
        if ns >= s.len() {
        } else {
            lemma_name_end(s, ns);
            let ne = name_end(s, ns);
            if ne == ns {
            } else {
                lemma_find_p(s, ne, pi_close());
                let t = find_p(s, ne, pi_close());
                if t >= s.len() {
                } else {
                    let target = s.subrange(ns, ne);
                    let rest = s.subrange(ne, t);
                    assert(valid_name(target)) by {
                        assert forall|j: int| 0 <= j < ne - ns implies is_name_char(
                            #[trigger] target[j],
                        ) by {
                            assert(target[j] == s[ns + j]);
                        }
                    }
                    assert(rest.len() > 0 ==> !is_name_char(rest[0])) by {
                        if rest.len() > 0 {
                            assert(rest[0] == s[ne]);
                        }
                    }
                    assert(closes_only_at_end(rest, pi_close())) by {
                        lemma_no_early_close(s, ne, t, pi_close());
                    }
                    assert(t + 2 <= s.len());
                }
            }
        }
    } else if matches_at(s, pos, seq!['<', '!', '-', '-']) {
        lemma_find_p(s, pos + 4, comment_close());
        let t = find_p(s, pos + 4, comment_close());
        if t >= s.len() {
        } else {
            assert(closes_only_at_end(s.subrange(pos + 4, t), comment_close())) by {
                lemma_no_early_close(s, pos + 4, t, comment_close());
            }
            assert(t + 3 <= s.len());
        }
    } else if matches_at(s, pos, cdata_open()) {
        lemma_find_p(s, pos + 9, cdata_close());
        let t = find_p(s, pos + 9, cdata_close());
        if t >= s.len() {
        } else {
            assert(closes_only_at_end(s.subrange(pos + 9, t), cdata_close())) by {
                lemma_no_early_close(s, pos + 9, t, cdata_close());
            }
            assert(t + 3 <= s.len());
        }
    } else if s[pos + 1] == '!' {
    } else {
        let ns = pos + 1;
        lemma_name_end(s, ns);
        let ne = name_end(s, ns);
        if ne == ns {
        } else {
            assert(valid_name(s.subrange(ns, ne))) by {
                assert forall|j: int| 0 <= j < ne - ns implies is_name_char(
                    #[trigger] s.subrange(ns, ne)[j],
                ) by {
                    assert(s.subrange(ns, ne)[j] == s[ns + j]);
                }
            }
            assert(wf_attrs(Seq::<AttrModel>::empty())) by {
                assert(Seq::<AttrModel>::empty().len() == 0);
            }
            lemma_lex_attrs_ok_shape(s, pos, ne, Seq::empty());
        }
    }
}

/// When the scanner finds the first occurrence of a terminator at `t`, the
/// content before it cannot anticipate the terminator.
#[verifier::rlimit(100)]
proof fn lemma_no_early_close(s: Seq<char>, cs: int, t: int, close: Seq<char>)
    requires
        0 <= cs <= t,
        close.len() > 0,
        t == find_p(s, cs, close),
        t < s.len(),
        cs <= s.len(),
    ensures
        closes_only_at_end(s.subrange(cs, t), close),
{
    lemma_find_p(s, cs, close);
    let content = s.subrange(cs, t);
    let cc = t - cs;
    assert(matches_at(s, t, close));
    assert forall|m: int| 0 <= m < cc + close.len() implies (content + close)[m] == s[cs + m] by {
        if m < cc {
            assert((content + close)[m] == content[m]);
            assert(content[m] == s[cs + m]);
        } else {
            assert((content + close)[m] == close[m - cc]);
            assert(s[t + (m - cc)] == close[m - cc]);
        }
    }
    assert forall|i: int| 0 <= i < cc implies !matches_at(content + close, i, close) by {
        if matches_at(content + close, i, close) {
            assert(matches_at(s, cs + i, close)) by {
                assert forall|u: int| 0 <= u < close.len() implies s[cs + i + u] == close[u] by {
                    assert((content + close)[i + u] == close[u]);
                    assert((content + close)[i + u] == s[cs + (i + u)]);
                }
            }
        }
    }
}


proof fn lemma_lex_tag_not_text(s: Seq<char>, p: int)
    requires
        0 <= p < s.len(),
        s[p] == '<',
    ensures
        lex_at(s, p) matches Ok((e2, d2)) ==> !(e2 is Text),
{
    assert(crate::scan::lex_end_tag(s, p) matches Ok((e, d)) ==> e is End);
    assert(crate::scan::lex_pi(s, p) matches Ok((e, d)) ==> e is Pi || e is Decl);
    assert(crate::scan::lex_comment(s, p) matches Ok((e, d)) ==> e is Comment);
    assert(crate::scan::lex_cdata(s, p) matches Ok((e, d)) ==> e is CData);
    assert(crate::scan::lex_start_tag(s, p) matches Ok((e, d)) ==> e is Start || e is Empty);
}

proof fn lemma_cons_head(ev: EventModel, r: Result<Seq<EventModel>, ScanErr>, rest: Seq<EventModel>)
    requires
        cons_result(ev, r) == Ok::<Seq<EventModel>, ScanErr>(rest),
    ensures
        rest.len() > 0,
        rest[0] == ev,
        r == Ok::<Seq<EventModel>, ScanErr>(rest.drop_first()),
{
    match r {
        Ok(evs2) => {
            assert(rest == seq![ev] + evs2);
            assert(rest[0] == ev);
            assert(rest.drop_first() =~= evs2);
        },
        Err(e) => {},
    }
}

proof fn lemma_wf_cons(ev: EventModel, rest: Seq<EventModel>)
    requires
        wf_event(ev),
        wf_events(rest),
        ev is Text && rest.len() > 0 ==> !(rest[0] is Text),
    ensures
        wf_events(seq![ev] + rest),
{
    let evs = seq![ev] + rest;
    assert(evs[0] == ev);
    assert forall|i: int| 0 <= i < evs.len() implies wf_event(#[trigger] evs[i]) by {
        if i > 0 {
            assert(evs[i] == rest[i - 1]);
        }
    }
    assert forall|i: int| 0 <= i && i + 1 < evs.len() && (#[trigger] evs[i]) is Text implies !(
    evs[i + 1] is Text) by {
        if i == 0 {
            assert(evs[1] == rest[0]);
        } else {
            assert(evs[i] == rest[i - 1]);
            assert(evs[i + 1] == rest[i]);
        }
    }
}

/// Everything the scanner accepts is well formed and properly nested: the
/// tokenizer only ever hands the writer events whose re-serialization reads
/// back as itself.
#[verifier::rlimit(100)]
proof fn lemma_scan_wf(s: Seq<char>, pos: int, stack: Seq<Seq<char>>)
    requires
        0 <= pos <= s.len(),
    ensures
        scan_from(s, pos, stack) matches Ok(evs) ==> wf_events(evs) && balanced_from(evs, stack),
    decreases s.len() - pos,
{
    if pos >= s.len() {
        if stack.len() == 0 {
            assert(wf_events(Seq::<EventModel>::empty()));
            assert(balanced_from(Seq::<EventModel>::empty(), stack));
        }
    } else {
        lemma_lex_ok_shape(s, pos);
        match lex_at(s, pos) {
            Err(e) => {},
            Ok((ev, end)) => {
                let st2 = match ev {
                    EventModel::Start { name, attrs } => stack.push(name),
                    EventModel::End { name } => stack.drop_last(),
                    _ => stack,
                };
                lemma_scan_wf(s, end, st2);
                if ev is Text && is_ws_seq(tag_text(ev)) {
                    lemma_scan_wf(s, end, stack);
                } else {
                    match scan_from(s, pos, stack) {
                        Err(e) => {},
                        Ok(evs) => {
                            assert(scan_from(s, pos, stack) == cons_result(
                                ev,
                                scan_from(s, end, st2),
                            ));
                            lemma_cons_head(ev, scan_from(s, end, st2), evs);
                            let rest = evs.drop_first();
                            assert(wf_events(rest) && balanced_from(rest, st2));
                            assert(wf_event(ev)) by {
                                if ev is Text {
                                    assert(!is_ws_seq(tag_text(ev)));
                                }
                            }
                            assert(ev is Text && rest.len() > 0 ==> !(rest[0] is Text)) by {
                                if ev is Text && rest.len() > 0 {
                                    assert(end < s.len());
                                    assert(s[end] == '<');
                                    lemma_lex_tag_not_text(s, end);
                                    lemma_lex_ok_shape(s, end);
                                    match lex_at(s, end) {
                                        Err(e) => {
                                            assert(false);
                                        },
                                        Ok((ev2, d2)) => {
                                            let st3 = match ev2 {
                                                EventModel::Start { name, attrs } => st2.push(
                                                    name,
                                                ),
                                                EventModel::End { name } => st2.drop_last(),
                                                _ => st2,
                                            };
                                            assert(scan_from(s, end, st2) == cons_result(
                                                ev2,
                                                scan_from(s, d2, st3),
                                            ));
                                            lemma_cons_head(ev2, scan_from(s, d2, st3), rest);
                                        },
                                    }
                                }
                            }
                            lemma_wf_cons(ev, rest);
                            assert(seq![ev] + rest =~= evs);
                            assert(balanced_from(evs, stack)) by {
                                assert(evs[0] == ev);
                                assert(evs.drop_first() == rest);
                                if ev is End {
                                    assert(stack.len() > 0 && stack.last() == tag_name_end(ev));
                                }
                            }
                        },
                    }
                }
            },
        }
    }
}

/// The name an end tag closes.
pub open spec fn tag_name_end(ev: EventModel) -> Seq<char> {
    match ev {
        EventModel::End { name } => name,
        _ => Seq::empty(),
    }
}

/// Round-trip structure preservation: re-serializing a well-formed,
/// properly nested event sequence and scanning the result yields exactly
/// the same events — formatting changes only whitespace, never structure.
pub proof fn lemma_round_trip(evs: Seq<EventModel>)
    requires
        wf_events(evs),
        balanced(evs),
    ensures
        scan(render(evs)) == Ok::<Seq<EventModel>, ScanErr>(evs),
{
    let s = render(evs);
    assert(s.subrange(0, s.len() as int) =~= s);
    lemma_scan_render_rem(s, 0, evs, Seq::empty(), 0, false, false);
}

/// Whatever the scanner accepts is well formed and properly nested.
pub proof fn lemma_scan_well_formed(s: Seq<char>)
    ensures
        scan(s) matches Ok(evs) ==> wf_events(evs) && balanced(evs),
{
    lemma_scan_wf(s, 0, Seq::empty());
}

/// Round-trip structure preservation at the document level: a
/// pretty-printed document parses back into exactly the event sequence of
/// the original document.
pub proof fn lemma_pretty_preserves_structure(s: Seq<char>)
    requires
        pretty_spec(s) is Ok,
    ensures
        scan(pretty_spec(s)->Ok_0) == scan(s),
{
    let evs = scan(s)->Ok_0;
    lemma_scan_well_formed(s);
    lemma_round_trip(evs);
}

/// Idempotence: pretty printing an already pretty-printed document returns
/// it unchanged, for every document the printer accepts.
pub proof fn lemma_pretty_idempotent(s: Seq<char>)
    requires
        pretty_spec(s) is Ok,
    ensures
        pretty_spec(pretty_spec(s)->Ok_0) == pretty_spec(s),
{
    let evs = scan(s)->Ok_0;
    lemma_scan_well_formed(s);
    lemma_round_trip(evs);
}


/// The writer state just before event `i` is written: the nesting depth,
/// whether anything has been written, and whether the last written event
/// was inline text.
pub open spec fn depth_at(evs: Seq<EventModel>, i: int) -> int
    decreases i,
{
    if i <= 0 {
        0
    } else {
        next_depth(evs[i - 1], depth_at(evs, i - 1))
    }
}

pub open spec fn started_at(evs: Seq<EventModel>, i: int) -> bool
    decreases i,
{
    if i <= 0 {
        false
    } else if evs[i - 1] is Text && is_ws_seq(tag_text(evs[i - 1])) {
        started_at(evs, i - 1)
    } else {
        true
    }
}

pub open spec fn glue_at(evs: Seq<EventModel>, i: int) -> bool
    decreases i,
{
    if i <= 0 {
        false
    } else if evs[i - 1] is Text {
        if is_ws_seq(tag_text(evs[i - 1])) {
            glue_at(evs, i - 1)
        } else {
            true
        }
    } else {
        false
    }
}

/// The characters event `j` contributes to the output.
pub open spec fn chunk(evs: Seq<EventModel>, j: int) -> Seq<char> {
    let ev = evs[j];
    if ev is Text {
        if is_ws_seq(tag_text(ev)) {
            Seq::empty()
        } else {
            tag_text(ev)
        }
    } else {
        head(head_depth(ev, depth_at(evs, j)), started_at(evs, j), glue_at(evs, j)) + event_body(
            ev,
        )
    }
}

/// The output written before event `i` is reached.
pub open spec fn rendered_before(evs: Seq<EventModel>, i: int) -> Seq<char>
    decreases i,
{
    if i <= 0 {
        Seq::empty()
    } else {
        rendered_before(evs, i - 1) + chunk(evs, i - 1)
    }
}

proof fn lemma_render_decompose(evs: Seq<EventModel>, i: int)
    requires
        0 <= i <= evs.len(),
    ensures
        render(evs) == rendered_before(evs, i) + render_rem(
            evs.skip(i),
            depth_at(evs, i),
            started_at(evs, i),
            glue_at(evs, i),
        ),
    decreases i,
{
    if i == 0 {
        assert(evs.skip(0) =~= evs);
        assert(Seq::<char>::empty() + render_rem(evs, 0, false, false) =~= render_rem(
            evs,
            0,
            false,
            false,
        ));
    } else {
        lemma_render_decompose(evs, i - 1);
        let tl = evs.skip(i - 1);
        assert(tl[0] == evs[i - 1]);
        assert(tl.len() > 0);
        assert(tl.drop_first() =~= evs.skip(i));
        let rb = rendered_before(evs, i - 1);
        let ck = chunk(evs, i - 1);
        assert(render_rem(tl, depth_at(evs, i - 1), started_at(evs, i - 1), glue_at(evs, i - 1))
            == ck + render_rem(evs.skip(i), depth_at(evs, i), started_at(evs, i), glue_at(evs, i)));
        assert(rb + (ck + render_rem(
            evs.skip(i),
            depth_at(evs, i),
            started_at(evs, i),
            glue_at(evs, i),
        )) =~= (rb + ck) + render_rem(
            evs.skip(i),
            depth_at(evs, i),
            started_at(evs, i),
            glue_at(evs, i),
        ));
    }
}

/// Depth correctness: every structural event that starts its own line is
/// written as a newline, then exactly two spaces per level of its nesting
/// depth, then the event itself — an end tag one level shallower than the
/// depth inside its element.
pub proof fn lemma_depth_indentation(evs: Seq<EventModel>, i: int)
    requires
        0 <= i < evs.len(),
        !(evs[i] is Text),
        started_at(evs, i),
        !glue_at(evs, i),
    ensures
        ({
            let p = rendered_before(evs, i).len() as int;
            let d = head_depth(evs[i], depth_at(evs, i));
            let b = event_body(evs[i]);
            &&& p + 1 + indent(d).len() + b.len() <= render(evs).len()
            &&& render(evs).subrange(p, p + 1 + indent(d).len()) == seq!['\n'] + indent(d)
            &&& render(evs).subrange(p + 1 + indent(d).len(), p + 1 + indent(d).len() + b.len())
                == b
        }),
{
    lemma_render_decompose(evs, i);
    let p = rendered_before(evs, i).len() as int;
    let d = head_depth(evs[i], depth_at(evs, i));
    let b = event_body(evs[i]);
    let tl = evs.skip(i);
    assert(tl[0] == evs[i]);
    assert(tl.len() > 0);
    let hd = head(d, started_at(evs, i), glue_at(evs, i));
    assert(hd == seq!['\n'] + indent(d));
    let rtl = render_rem(tl.drop_first(), next_depth(evs[i], depth_at(evs, i)), true, false);
    assert(render_rem(tl, depth_at(evs, i), started_at(evs, i), glue_at(evs, i)) == hd + b + rtl);
    let out = render(evs);
    let hl = 1 + indent(d).len() as int;
    assert(out == rendered_before(evs, i) + (hd + b + rtl));
    assert(out.len() == p + hl + b.len() + rtl.len());
    assert forall|j: int| #![trigger out[p + j]] 0 <= j < hl + b.len() implies out[p + j] == (hd
        + b + rtl)[j] by {
        assert(out[p + j] == (rendered_before(evs, i) + (hd + b + rtl))[p + j]);
    }
    assert(out.subrange(p, p + hl) =~= hd) by {
        assert forall|j: int| 0 <= j < hl implies out.subrange(p, p + hl)[j] == hd[j] by {
            assert(out[p + j] == (hd + b + rtl)[j]);
            assert((hd + b + rtl)[j] == hd[j]);
        }
    }
    assert(out.subrange(p + hl, p + hl + b.len()) =~= b) by {
        assert forall|j: int| 0 <= j < b.len() implies out.subrange(
            p + hl,
            p + hl + b.len() as int,
        )[j] == b[j] by {
            assert(out[p + (hl + j)] == (hd + b + rtl)[hl + j]);
            assert((hd + b + rtl)[hl + j] == b[j]);
        }
    }
}

} // verus!