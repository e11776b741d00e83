//! The renderer's single forward pass: a paragraph accumulator over the
//! markdown event stream, with directive detection applied to each
//! paragraph's accumulated text when it is flushed.

use vstd::prelude::*;
use vstd::string::*;
use crate::directive::{
    has_directive, directive_kind, directive_value, find_directive, first_match, is_word_char,
    match_at, match_from, lemma_triple_is,
};
use crate::events::{MdEvent, MdEventV, md_events, parse_markdown_events};
use crate::text::occurs_at;
use crate::widget::{
    widget, render_widget, copyable_kind, input_elem, plain_input_elem, onclick_attr,
    icon_check_escaped, icon_list_escaped, lemma_copyable_widget_parts,
    lemma_copyable_widget_counts, lemma_attr_embeds_icons, lemma_plain_widget_elements,
    lemma_plain_widget_input,
};

verus! {

/// The markup a paragraph's accumulated text turns into: the first directive's
/// widget if the text holds a directive, the text unchanged otherwise.
pub open spec fn apply_directive(text: Seq<char>) -> Seq<char> {
    if has_directive(text) {
        widget(directive_kind(text), directive_value(text))
    } else {
        text
    }
}

/// The opening paragraph tag.
pub open spec fn para_open() -> Seq<char> {
    "<p>"@
}

/// The closing paragraph tag.
pub open spec fn para_close() -> Seq<char> {
    "</p>"@
}

/// The markup produced from the events at `i` onward, with `acc` the
/// paragraph text accumulated so far and `out` the markup already emitted:
/// text runs accumulate; a paragraph start emits its tag at once; a paragraph
/// end flushes the accumulator through directive detection and closes the
/// tag; any other construct first flushes a non-empty accumulator, then emits
/// its own markup; a non-empty accumulator left at stream end is flushed.
pub open spec fn transform_events(
    events: Seq<MdEventV>,
    i: int,
    acc: Seq<char>,
    out: Seq<char>,
) -> Seq<char>
    decreases events.len() - i,
{
    if i < 0 || i >= events.len() {
        if acc.len() > 0 {
            out + apply_directive(acc)
        } else {
            out
        }
    } else {
        match events[i] {
            MdEventV::Text(t) => transform_events(events, i + 1, acc + t, out),
            MdEventV::ParaStart => transform_events(events, i + 1, acc, out + para_open()),
            MdEventV::ParaEnd => transform_events(
                events,
                i + 1,
                Seq::empty(),
                out + apply_directive(acc) + para_close(),
            ),
            MdEventV::Other(h) => transform_events(
                events,
                i + 1,
                Seq::empty(),
                out + (if acc.len() > 0 {
                    apply_directive(acc)
                } else {
                    Seq::empty()
                }) + h,
            ),
        }
    }
}

/// The markup rendered for a markdown document.
pub open spec fn render_spec(md: Seq<char>) -> Seq<char> {
    transform_events(md_events(md), 0, Seq::empty(), Seq::empty())
}

/// Applies directive detection to a paragraph's accumulated text: the first
/// directive found, if any, replaces the whole text by its widget; otherwise
/// the text passes through unchanged.
pub fn process_custom_input(text: &str) -> (out: String)
    ensures
        out@ == apply_directive(text@),
{
    match find_directive(text) {
        Some(t) => {
            let (p, k, r) = t;
            proof {
                lemma_triple_is(text@, p as int, k as int, r as int);
            }
            let kind = text.substring_char(p + 4, p + 4 + k);
            let value = text.substring_char(p + 5 + k, r);
            render_widget(kind, value)
        },
        None => text.to_owned(),
    }
}

/// Renders a markdown document to markup: standard markdown rendering, with
/// any paragraph whose text holds a directive replaced by that directive's
/// widget. Total: every text input renders.
pub fn process_markdown(md: &str) -> (out: String)
    ensures
        out@ == render_spec(md@),
{
    let events = parse_markdown_events(md);
    let ghost evs = md_events(md@);
    proof {
        assert(events@.map_values(|e: MdEvent| e@) == evs);
    }
    let n = events.len();
    let mut out = String::new();
    let mut acc = String::new();
    let mut i: usize = 0;
    while i < n
        invariant
            n == events.len(),
            i <= n,
            evs == events@.map_values(|e: MdEvent| e@),
            evs == md_events(md@),
            transform_events(evs, i as int, acc@, out@) == render_spec(md@),
        decreases n - i,
    {
        proof {
            assert(evs[i as int] == events@[i as int]@);
        }
        let ghost acc0 = acc@;
        let ghost out0 = out@;
        match &events[i] {
            MdEvent::Text(t) => {
                acc.append(t.as_str());
                proof {
                    assert(evs[i as int] == MdEventV::Text(t@));
                    assert(transform_events(evs, i as int, acc0, out0) == transform_events(
                        evs,
                        i + 1,
                        acc@,
                        out@,
                    ));
                }
            },
            MdEvent::ParaStart => {
                out.append("<p>");
                proof {
                    assert(evs[i as int] == MdEventV::ParaStart);
                    assert(transform_events(evs, i as int, acc0, out0) == transform_events(
                        evs,
                        i + 1,
                        acc@,
                        out@,
                    ));
                }
            },
            MdEvent::ParaEnd => {
                let w = process_custom_input(acc.as_str());
                out.append(w.as_str());
                out.append("</p>");
                acc = String::new();
                proof {
                    assert(evs[i as int] == MdEventV::ParaEnd);
                    assert(out@ == out0 + apply_directive(acc0) + para_close());
                    assert(acc@ =~= Seq::<char>::empty());
                    assert(transform_events(evs, i as int, acc0, out0) == transform_events(
                        evs,
                        i + 1,
                        acc@,
                        out@,
                    ));
                }
            },
            MdEvent::Other(h) => {
                if !acc.as_str().is_empty() {
                    let w = process_custom_input(acc.as_str());
                    out.append(w.as_str());
                    acc = String::new();
                }
                out.append(h.as_str());
                proof {
                    assert(evs[i as int] == MdEventV::Other(h@));
                    assert(acc@ =~= Seq::<char>::empty());
                    if acc0.len() > 0 {
                        assert(out@ == out0 + apply_directive(acc0) + h@);
                    } else {
                        assert(out0 + Seq::<char>::empty() + h@ =~= out0 + h@);
                        assert(out@ == out0 + Seq::<char>::empty() + h@);
                    }
                    assert(transform_events(evs, i as int, acc0, out0) == transform_events(
                        evs,
                        i + 1,
                        acc@,
                        out@,
                    ));
                }
            },
        }
        i = i + 1;
    }
    if !acc.as_str().is_empty() {
        let w = process_custom_input(acc.as_str());
        out.append(w.as_str());
    }
    out
}

/// The markup produced from the events at `i` onward with no directive
/// substitution at all: every flush emits the accumulated text unchanged.
pub open spec fn plain_events(
    events: Seq<MdEventV>,
    i: int,
    acc: Seq<char>,
    out: Seq<char>,
) -> Seq<char>
    decreases events.len() - i,
{
    if i < 0 || i >= events.len() {
        if acc.len() > 0 {
            out + acc
        } else {
            out
        }
    } else {
        match events[i] {
            MdEventV::Text(t) => plain_events(events, i + 1, acc + t, out),
            MdEventV::ParaStart => plain_events(events, i + 1, acc, out + para_open()),
            MdEventV::ParaEnd => plain_events(
                events,
                i + 1,
                Seq::empty(),
                out + acc + para_close(),
            ),
            MdEventV::Other(h) => plain_events(
                events,
                i + 1,
                Seq::empty(),
                out + (if acc.len() > 0 {
                    acc
                } else {
                    Seq::empty()
                }) + h,
            ),
        }
    }
}

/// No text flushed from the events at `i` onward (starting from the
/// accumulated text `acc`) holds a directive.
pub open spec fn directive_free(events: Seq<MdEventV>, i: int, acc: Seq<char>) -> bool
    decreases events.len() - i,
{
    if i < 0 || i >= events.len() {
        !has_directive(acc)
    } else {
        match events[i] {
            MdEventV::Text(t) => directive_free(events, i + 1, acc + t),
            MdEventV::ParaStart => directive_free(events, i + 1, acc),
            MdEventV::ParaEnd => !has_directive(acc) && directive_free(events, i + 1, Seq::empty()),
            MdEventV::Other(h) => !has_directive(acc) && directive_free(
                events,
                i + 1,
                Seq::empty(),
            ),
        }
    }
}

/// When no flushed paragraph text holds a directive, the transform emits every
/// paragraph's text unchanged.
proof fn lemma_directive_free_plain(events: Seq<MdEventV>, i: int, acc: Seq<char>, out: Seq<char>)
    requires
        directive_free(events, i, acc),
    ensures
        transform_events(events, i, acc, out) == plain_events(events, i, acc, out),
    decreases events.len() - i,
{
    if i < 0 || i >= events.len() {
    } else {
        match events[i] {
            MdEventV::Text(t) => {
                lemma_directive_free_plain(events, i + 1, acc + t, out);
            },
            MdEventV::ParaStart => {
                lemma_directive_free_plain(events, i + 1, acc, out + para_open());
            },
            MdEventV::ParaEnd => {
                lemma_directive_free_plain(
                    events,
                    i + 1,
                    Seq::empty(),
                    out + acc + para_close(),
                );
            },
            MdEventV::Other(h) => {
                lemma_directive_free_plain(
                    events,
                    i + 1,
                    Seq::empty(),
                    out + (if acc.len() > 0 {
                        acc
                    } else {
                        Seq::empty()
                    }) + h,
                );
            },
        }
    }
}

/// A document none of whose flushed paragraph texts holds a directive renders
/// as plain markdown: every paragraph's text passes through unchanged, with
/// no widget substitution anywhere.
pub proof fn lemma_render_plain(md: Seq<char>)
    requires
        directive_free(md_events(md), 0, Seq::empty()),
    ensures
        render_spec(md) == plain_events(md_events(md), 0, Seq::empty(), Seq::empty()),
{
    lemma_directive_free_plain(md_events(md), 0, Seq::empty(), Seq::empty());
}

/// For a paragraph whose first directive has kind `text` or `password`, with
/// `<` not occurring in the captured value: the paragraph's rendered content
/// is that directive's widget; it embeds the complete disabled input element
/// with that kind and value; it holds exactly one input element opener and
/// exactly one button; and the button's activation attribute embeds both
/// icon payloads.
pub proof fn lemma_paragraph_copyable_widget(s: Seq<char>, p: int, k: int, r: int)
    requires
        first_match(s, p, k, r),
        copyable_kind(s.subrange(p + 4, p + 4 + k)),
        forall|j: int| p + 5 + k <= j < r ==> s[j] != '<',
    ensures
        apply_directive(s) == widget(s.subrange(p + 4, p + 4 + k), s.subrange(p + 5 + k, r)),
        occurs_at(
            apply_directive(s),
            input_elem(s.subrange(p + 4, p + 4 + k), s.subrange(p + 5 + k, r)),
            40,
        ),
        occurs_at(apply_directive(s), "<input"@, 40),
        forall|i: int, j: int|
            occurs_at(apply_directive(s), "<input"@, i) && occurs_at(
                apply_directive(s),
                "<input"@,
                j,
            ) ==> i == j,
        exists|i: int| occurs_at(apply_directive(s), "<button"@, i),
        forall|i: int, j: int|
            occurs_at(apply_directive(s), "<button"@, i) && occurs_at(
                apply_directive(s),
                "<button"@,
                j,
            ) ==> i == j,
        exists|i: int|
            #[trigger] occurs_at(onclick_attr(s.subrange(p + 5 + k, r)), icon_check_escaped(), i),
        exists|i: int|
            #[trigger] occurs_at(onclick_attr(s.subrange(p + 5 + k, r)), icon_list_escaped(), i),
{
    let kind = s.subrange(p + 4, p + 4 + k);
    let value = s.subrange(p + 5 + k, r);
    lemma_triple_is(s, p, k, r);
    assert(forall|j: int| 0 <= j < value.len() ==> value[j] != '<');
    lemma_copyable_widget_parts(kind, value);
    lemma_copyable_widget_counts(kind, value);
    lemma_attr_embeds_icons(value);
}

/// For a paragraph whose first directive has any other kind, with `<` not
/// occurring in the captured value: the paragraph's rendered content is that
/// directive's widget; it embeds the complete disabled input element with
/// that kind and value, holds exactly one input element opener, and holds no
/// button at all. The kind never needs a premise of its own: a directive's
/// kind is made of word characters, which `<` is not.
pub proof fn lemma_paragraph_plain_widget(s: Seq<char>, p: int, k: int, r: int)
    requires
        first_match(s, p, k, r),
        !copyable_kind(s.subrange(p + 4, p + 4 + k)),
        forall|j: int| p + 5 + k <= j < r ==> s[j] != '<',
    ensures
        apply_directive(s) == widget(s.subrange(p + 4, p + 4 + k), s.subrange(p + 5 + k, r)),
        occurs_at(
            apply_directive(s),
            plain_input_elem(s.subrange(p + 4, p + 4 + k), s.subrange(p + 5 + k, r)),
            40,
        ),
        exists|i: int| occurs_at(apply_directive(s), "<input"@, i),
        forall|i: int, j: int|
            occurs_at(apply_directive(s), "<input"@, i) && occurs_at(
                apply_directive(s),
                "<input"@,
                j,
            ) ==> i == j,
        forall|i: int| !occurs_at(apply_directive(s), "<button"@, i),
{
    let kind = s.subrange(p + 4, p + 4 + k);
    let value = s.subrange(p + 5 + k, r);
    lemma_triple_is(s, p, k, r);
    assert(forall|j: int| 0 <= j < value.len() ==> value[j] != '<');
    assert forall|j: int| 0 <= j < kind.len() implies kind[j] != '<' by {
        assert(kind[j] == s[p + 4 + j]);
        assert(is_word_char(s[p + 4 + j]));
    }
    lemma_plain_widget_input(kind, value);
    lemma_plain_widget_elements(kind, value);
}

/// First-match-wins: when the text holds a directive, the whole paragraph
/// becomes the widget of the scanner's first match alone — any further
/// directive occurrence, and all text around the match, is dropped.
pub proof fn lemma_first_match_wins(
    s: Seq<char>,
    p: int,
    k: int,
    r: int,
    p2: int,
    k2: int,
    r2: int,
)
    requires
        first_match(s, p, k, r),
        match_at(s, p2, k2, r2),
    ensures
        p <= p2,
        apply_directive(s) == widget(s.subrange(p + 4, p + 4 + k), s.subrange(p + 5 + k, r)),
{
    lemma_triple_is(s, p, k, r);
    if p2 < p {
        assert(match_from(s, p2));
        assert(false);
    }
}

} // verus!
