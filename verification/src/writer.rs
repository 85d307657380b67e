//! The executable indenting writer: one pass over the event sequence,
//! proven to produce exactly the re-serialization that the writer
//! specification `render` says.

use vstd::prelude::*;

use crate::model::Attr;
use crate::model::AttrModel;
use crate::model::Event;
use crate::model::EventModel;
use crate::model::attrs_model;
use crate::model::events_model;
use crate::emit::event_body;
use crate::emit::head_depth;
use crate::emit::indent;
use crate::emit::next_depth;
use crate::emit::render;
use crate::emit::render_attr;
use crate::emit::render_attrs;
use crate::emit::render_rem;

verus! {

fn push_all(out: &mut Vec<char>, piece: &Vec<char>)
    ensures
        final(out)@ == old(out)@ + piece@,
{
    let mut j: usize = 0;
    while j < piece.len()
        invariant
            0 <= j <= piece.len(),
            out@ == old(out)@ + piece@.take(j as int),
        decreases piece.len() - j,
    {
        out.push(piece[j]);
        proof {
            assert(old(out)@ + piece@.take(j as int + 1) =~= (old(out)@ + piece@.take(
                j as int,
            )).push(piece@[j as int]));
        }
        j = j + 1;
    }
    proof {
        assert(piece@.take(piece@.len() as int) =~= piece@);
    }
}

fn push_indent(out: &mut Vec<char>, d: usize)
    ensures
        final(out)@ == old(out)@ + indent(d as int),
{
    proof {
        assert(old(out)@ + indent(0) =~= old(out)@);
    }
    let mut k: usize = 0;
    while k < d
        invariant
            0 <= k <= d,
            out@ == old(out)@ + indent(k as int),
        decreases d - k,
    {
        out.push(' ');
        out.push(' ');
        proof {
            assert(old(out)@ + indent(k as int + 1) =~= (old(out)@ + indent(k as int)).push(
                ' ',
            ).push(' '));
        }
        k = k + 1;
    }
}

proof fn lemma_render_attrs_snoc(s: Seq<AttrModel>, a: AttrModel)
    ensures
        render_attrs(s.push(a)) == render_attrs(s) + render_attr(a),
    decreases s.len(),
{
    if s.len() == 0 {
        assert(s.push(a).drop_first() =~= Seq::<AttrModel>::empty());
        assert(render_attrs(s.push(a)) == render_attr(a) + render_attrs(Seq::empty()));
        assert(render_attr(a) + Seq::<char>::empty() =~= render_attr(a));
        assert(render_attrs(s) + render_attr(a) =~= render_attr(a));
    } else {
        assert(s.push(a).drop_first() =~= s.drop_first().push(a));
        lemma_render_attrs_snoc(s.drop_first(), a);
        assert(render_attrs(s.push(a)) == render_attr(s[0]) + (render_attrs(s.drop_first())
            + render_attr(a)));
        assert(render_attr(s[0]) + (render_attrs(s.drop_first()) + render_attr(a)) =~= (
        render_attr(s[0]) + render_attrs(s.drop_first())) + render_attr(a));
    }
}

fn push_attr(out: &mut Vec<char>, a: &Attr)
    ensures
        final(out)@ == old(out)@ + render_attr(a.model()),
{
    out.push(' ');
    push_all(out, &a.name);
    out.push('=');
    let q: char = if a.double_quoted {
        '"'
    } else {
        '\''
    };
    out.push(q);
    push_all(out, &a.value);
    out.push(q);
    proof {
        assert(out@ =~= old(out)@ + render_attr(a.model()));
    }
}

fn push_attrs(out: &mut Vec<char>, attrs: &Vec<Attr>)
    ensures
        final(out)@ == old(out)@ + render_attrs(attrs_model(attrs@)),
{
    proof {
        assert(attrs_model(attrs@).take(0) =~= Seq::<AttrModel>::empty());
        assert(old(out)@ + render_attrs(Seq::empty()) =~= old(out)@);
    }
    let mut j: usize = 0;
    while j < attrs.len()
        invariant
            0 <= j <= attrs.len(),
            out@ == old(out)@ + render_attrs(attrs_model(attrs@).take(j as int)),
        decreases attrs.len() - j,
    {
        push_attr(out, &attrs[j]);
        proof {
            let ghost m = attrs_model(attrs@);
            assert(m.take(j as int + 1) =~= m.take(j as int).push(m[j as int]));
            lemma_render_attrs_snoc(m.take(j as int), m[j as int]);
            assert(m[j as int] == attrs@[j as int].model());
            assert((old(out)@ + render_attrs(m.take(j as int))) + render_attr(m[j as int]) =~= old(
                out,
            )@ + (render_attrs(m.take(j as int)) + render_attr(m[j as int])));
        }
        j = j + 1;
    }
    proof {
        assert(attrs_model(attrs@).take(attrs@.len() as int) =~= attrs_model(attrs@));
    }
}

fn push_body(out: &mut Vec<char>, ev: &Event)
    ensures
        final(out)@ == old(out)@ + event_body(ev.model()),
{
    match ev {
        Event::Start { name, attrs } => {
            out.push('<');
            push_all(out, name);
            push_attrs(out, attrs);
            out.push('>');
            proof {
                assert(out@ =~= old(out)@ + event_body(ev.model()));
            }
        },
        Event::End { name } => {
            out.push('<');
            out.push('/');
            push_all(out, name);
            out.push('>');
            proof {
                assert(out@ =~= old(out)@ + event_body(ev.model()));
            }
        },
        Event::Empty { name, attrs } => {
            out.push('<');
            push_all(out, name);
            push_attrs(out, attrs);
            out.push('/');
            out.push('>');
            proof {
                assert(out@ =~= old(out)@ + event_body(ev.model()));
            }
        },
        Event::Text { content } => {
            push_all(out, content);
        },
        Event::Comment { content } => {
            out.push('<');
            out.push('!');
            out.push('-');
            out.push('-');
            push_all(out, content);
            out.push('-');
            out.push('-');
            out.push('>');
            proof {
                assert(out@ =~= old(out)@ + event_body(ev.model()));
            }
        },
        Event::CData { content } => {
            out.push('<');
            out.push('!');
            out.push('[');
            out.push('C');
            out.push('D');
            out.push('A');
            out.push('T');
            out.push('A');
            out.push('[');
            push_all(out, content);
            out.push(']');
            out.push(']');
            out.push('>');
            proof {
                assert(out@ =~= old(out)@ + event_body(ev.model()));
            }
        },
        Event::Pi { target, rest } => {
            out.push('<');
            out.push('?');
            push_all(out, target);
            push_all(out, rest);
            out.push('?');
            out.push('>');
            proof {
                assert(out@ =~= old(out)@ + event_body(ev.model()));
            }
        },
        Event::Decl { rest } => {
            out.push('<');
            out.push('?');
            out.push('x');
            out.push('m');
            out.push('l');
            push_all(out, rest);
            out.push('?');
            out.push('>');
            proof {
                assert(out@ =~= old(out)@ + event_body(ev.model()));
            }
        },
    }
}

/// Writes an event sequence as an indented document, as the writer
/// specification `render` states: two spaces per nesting level, each
/// structural event on its own line, text glued to the surrounding tags,
/// whitespace-only text discarded.
pub fn write_events_chars(events: &Vec<Event>) -> (out: Vec<char>)
    ensures
        out@ == render(events_model(events@)),
{
    let mut out: Vec<char> = Vec::new();
    let mut depth: usize = 0;
    let mut started: bool = false;
    let mut glue: bool = false;
    let ghost em = events_model(events@);
    proof {
        assert(em.skip(0) =~= em);
    }
    let mut i: usize = 0;
    while i < events.len()
        invariant
            0 <= i <= events.len(),
            depth <= i,
            em == events_model(events@),
            out@ + render_rem(em.skip(i as int), depth as int, started, glue) == render(em),
        decreases events.len() - i,
    {
        let ev = &events[i];
        proof {
            assert(em.skip(i as int)[0] == events@[i as int].model());
            assert(em.skip(i as int).drop_first() =~= em.skip(i as int + 1));
        }
        match ev {
            Event::Text { content } => {
                let ws = crate::tokenizer::all_ws(content);
                if !ws {
                    push_all(&mut out, content);
                    started = true;
                    glue = true;
                }
                proof {
                    assert(out@ + render_rem(em.skip(i as int + 1), depth as int, started, glue)
                        =~= render(em));
                }
            },
            _ => {
                let ghost evm = events@[i as int].model();
                let hd: usize = match ev {
                    Event::End { .. } => {
                        if depth > 0 {
                            depth - 1
                        } else {
                            0
                        }
                    },
                    _ => depth,
                };
                proof {
                    assert(indent(hd as int) == indent(head_depth(evm, depth as int)));
                }
                if started && !glue {
                    out.push('\n');
                    push_indent(&mut out, hd);
                }
                push_body(&mut out, ev);
                let nd: usize = match ev {
                    Event::Start { .. } => depth + 1,
                    Event::End { .. } => {
                        if depth > 0 {
                            depth - 1
                        } else {
                            0
                        }
                    },
                    _ => depth,
                };
                proof {
                    assert(nd as int == next_depth(evm, depth as int));
                    assert(out@ + render_rem(em.skip(i as int + 1), nd as int, true, false) =~=
                        render(em));
                }
                depth = nd;
                started = true;
                glue = false;
            },
        }
        i = i + 1;
    }
    proof {
        assert(em.skip(events@.len() as int) =~= Seq::<EventModel>::empty());
    }
    out
}

} // verus!
