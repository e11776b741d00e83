//! Rendering of the copyable-credential widget that replaces a paragraph
//! holding a directive.
//!
//! For the kinds `text` and `password` the widget is a disabled input element
//! holding the value, paired with a button whose activation attribute copies
//! the value to the clipboard, swaps the button's icon to a confirmed state,
//! and reverts it after 3000 ms. For any other kind the widget is the disabled
//! input element alone, with no copy affordance.

use vstd::prelude::*;
use vstd::string::*;
use crate::text::{
    replace_char, replace_char_str, str_eq, occurs_at, bigram_free, lemma_replace_char_concat,
    lemma_replace_char_free, lemma_replace_char_absent, lemma_replace_preserves_absence,
    lemma_bigram_free_concat, lemma_replace_bigram_free, lemma_replace_last,
    lemma_occurs_in_middle,
};

verus! {

/// The replacement for an apostrophe inside the activation script.
pub open spec fn apos_rep() -> Seq<char> {
    "\\'"@
}

/// The replacement for a double quote inside a markup attribute.
pub open spec fn quot_rep() -> Seq<char> {
    "&quot;"@
}

/// Apostrophes escaped for the embedded script text.
pub open spec fn esc_apos(s: Seq<char>) -> Seq<char> {
    replace_char(s, '\'', apos_rep())
}

/// Double quotes escaped as the HTML entity.
pub open spec fn esc_quot(s: Seq<char>) -> Seq<char> {
    replace_char(s, '"', quot_rep())
}

/// The default (copy) icon payload.
pub open spec fn icon_list() -> Seq<char> {
    r#"<svg stroke="currentColor" fill="currentColor" stroke-width="0" viewBox="0 0 24 24" aria-hidden="true" height="18" width="18" xmlns="http://www.w3.org/2000/svg"><path fill-rule="evenodd" d="M7.502 6h7.128A3.375 3.375 0 0118 9.375v9.375a3 3 0 003-3V6.108c0-1.505-1.125-2.811-2.664-2.94a48.972 48.972 0 00-.673-.05A3 3 0 0015 1.5h-1.5a3 3 0 00-2.663 1.618c-.225.015-.45.032-.673.05C8.662 3.295 7.554 4.542 7.502 6zM13.5 3A1.5 1.5 0 0012 4.5h4.5A1.5 1.5 0 0015 3h-1.5z" clip-rule="evenodd"></path><path fill-rule="evenodd" d="M3 9.375C3 8.339 3.84 7.5 4.875 7.5h9.75c1.036 0 1.875.84 1.875 1.875v11.25c0 1.035-.84 1.875-1.875 1.875h-9.75A1.875 1.875 0 013 20.625V9.375zM6 12a.75.75 0 01.75-.75h.008a.75.75 0 01.75.75v.008a.75.75 0 01-.75.75H6.75a.75.75 0 01-.75-.75V12zm2.25 0a.75.75 0 01.75-.75h3.75a.75.75 0 010 1.5H9a.75.75 0 01-.75-.75zM6 15a.75.75 0 01.75-.75h.008a.75.75 0 01.75.75v.008a.75.75 0 01-.75.75H6.75a.75.75 0 01-.75-.75V15zm2.25 0a.75.75 0 01.75-.75h3.75a.75.75 0 010 1.5H9a.75.75 0 01-.75-.75zM6 18a.75.75 0 01.75-.75h.008a.75.75 0 01.75.75v.008a.75.75 0 01-.75.75H6.75a.75.75 0 01-.75-.75V18zm2.25 0a.75.75 0 01.75-.75h3.75a.75.75 0 010 1.5H9a.75.75 0 01-.75-.75z" clip-rule="evenodd"></path></svg>"#@
}

/// The confirmed (checkmark) icon payload.
pub open spec fn icon_check() -> Seq<char> {
    r#"<svg stroke="currentColor" fill="currentColor" stroke-width="0" viewBox="0 0 24 24" aria-hidden="true" height="18" width="18" xmlns="http://www.w3.org/2000/svg"><path fill-rule="evenodd" d="M7.502 6h7.128A3.375 3.375 0 0118 9.375v9.375a3 3 0 003-3V6.108c0-1.505-1.125-2.811-2.664-2.94a48.972 48.972 0 00-.673-.05A3 3 0 0015 1.5h-1.5a3 3 0 00-2.663 1.618c-.225.015-.45.032-.673.05C8.662 3.295 7.554 4.542 7.502 6zM13.5 3A1.5 1.5 0 0012 4.5h4.5A1.5 1.5 0 0015 3h-1.5z" clip-rule="evenodd"></path><path fill-rule="evenodd" d="M3 9.375C3 8.339 3.84 7.5 4.875 7.5h9.75c1.036 0 1.875.84 1.875 1.875v11.25c0 1.035-.84 1.875-1.875 1.875h-9.75A1.875 1.875 0 013 20.625V9.375zm9.586 4.594a.75.75 0 00-1.172-.938l-2.476 3.096-.908-.907a.75.75 0 00-1.06 1.06l1.5 1.5a.75.75 0 001.116-.062l3-3.75z" clip-rule="evenodd"></path></svg>"#@
}

/// The default icon, escaped for embedding inside the activation script.
pub open spec fn icon_list_escaped() -> Seq<char> {
    esc_quot(esc_apos(icon_list()))
}

/// The confirmed icon, escaped for embedding inside the activation script.
pub open spec fn icon_check_escaped() -> Seq<char> {
    esc_quot(esc_apos(icon_check()))
}

/// The opening of both widget forms, up to the input element's type.
pub open spec fn w_open() -> Seq<char> {
    r#"<div class="flex flex-row custom-input"><input type=""#@
}

/// Between the copyable input's type and its value.
pub open spec fn w_val() -> Seq<char> {
    r#"" class="text-xs w-full bg-slate-700 rounded-l py-1" value=""#@
}

/// Closes the copyable input and opens the button, up to its data value.
pub open spec fn w_btn() -> Seq<char> {
    r#"" disabled /><button class="p-1 border border-slate-500 bg-slate-600 border-l-0 rounded-r hover:bg-slate-700" data-value=""#@
}

/// Between the button's data value and its activation attribute.
pub open spec fn w_onclick() -> Seq<char> {
    r#"" onclick=""#@
}

/// Between the activation attribute and the button's icon content.
pub open spec fn w_icon() -> Seq<char> {
    r#"">"#@
}

/// The end of the copyable widget.
pub open spec fn w_close() -> Seq<char> {
    "</button></div>"@
}

/// Between the plain input's type and its value.
pub open spec fn n_val() -> Seq<char> {
    r#"" class="text-xs w-full bg-slate-700 rounded py-1" value=""#@
}

/// The end of the plain widget.
pub open spec fn n_close() -> Seq<char> {
    r#"" disabled /></div>"#@
}

/// Opens the clipboard write of the activation script.
pub open spec fn h_a() -> Seq<char> {
    "navigator.clipboard.writeText('"@
}

/// Between the copied value and the confirmed icon.
pub open spec fn h_b() -> Seq<char> {
    "'); this.innerHTML = '"@
}

/// Between the confirmed icon and the reverted default icon.
pub open spec fn h_c() -> Seq<char> {
    "'; setTimeout(() => { this.innerHTML = '"@
}

/// The end of the activation script, with the 3000 ms revert delay.
pub open spec fn h_d() -> Seq<char> {
    "'; }, 3000);"@
}

/// The kinds rendered with a copy button.
pub open spec fn copyable_kind(kind: Seq<char>) -> bool {
    kind == "text"@ || kind == "password"@
}

/// The activation script: copy the value, show the confirmed icon, revert to
/// the default icon after 3000 ms. Apostrophes in the embedded pieces are
/// escaped; the icons' double quotes are already escaped here.
pub open spec fn onclick_handler(value: Seq<char>) -> Seq<char> {
    h_a() + esc_apos(value) + h_b() + icon_check_escaped() + h_c() + icon_list_escaped() + h_d()
}

/// The activation attribute: the script with every double quote escaped.
pub open spec fn onclick_attr(value: Seq<char>) -> Seq<char> {
    esc_quot(onclick_handler(value))
}

/// The widget markup for a directive of the given kind and value.
pub open spec fn widget(kind: Seq<char>, value: Seq<char>) -> Seq<char> {
    if copyable_kind(kind) {
        w_open() + kind + w_val() + value + w_btn() + value + w_onclick() + onclick_attr(value)
            + w_icon() + icon_list() + w_close()
    } else {
        w_open() + kind + n_val() + value + n_close()
    }
}

/// The default (copy) icon payload, as text.
fn icon_list_str() -> (r: &'static str)
    ensures
        r@ == icon_list(),
{
    r#"<svg stroke="currentColor" fill="currentColor" stroke-width="0" viewBox="0 0 24 24" aria-hidden="true" height="18" width="18" xmlns="http://www.w3.org/2000/svg"><path fill-rule="evenodd" d="M7.502 6h7.128A3.375 3.375 0 0118 9.375v9.375a3 3 0 003-3V6.108c0-1.505-1.125-2.811-2.664-2.94a48.972 48.972 0 00-.673-.05A3 3 0 0015 1.5h-1.5a3 3 0 00-2.663 1.618c-.225.015-.45.032-.673.05C8.662 3.295 7.554 4.542 7.502 6zM13.5 3A1.5 1.5 0 0012 4.5h4.5A1.5 1.5 0 0015 3h-1.5z" clip-rule="evenodd"></path><path fill-rule="evenodd" d="M3 9.375C3 8.339 3.84 7.5 4.875 7.5h9.75c1.036 0 1.875.84 1.875 1.875v11.25c0 1.035-.84 1.875-1.875 1.875h-9.75A1.875 1.875 0 013 20.625V9.375zM6 12a.75.75 0 01.75-.75h.008a.75.75 0 01.75.75v.008a.75.75 0 01-.75.75H6.75a.75.75 0 01-.75-.75V12zm2.25 0a.75.75 0 01.75-.75h3.75a.75.75 0 010 1.5H9a.75.75 0 01-.75-.75zM6 15a.75.75 0 01.75-.75h.008a.75.75 0 01.75.75v.008a.75.75 0 01-.75.75H6.75a.75.75 0 01-.75-.75V15zm2.25 0a.75.75 0 01.75-.75h3.75a.75.75 0 010 1.5H9a.75.75 0 01-.75-.75zM6 18a.75.75 0 01.75-.75h.008a.75.75 0 01.75.75v.008a.75.75 0 01-.75.75H6.75a.75.75 0 01-.75-.75V18zm2.25 0a.75.75 0 01.75-.75h3.75a.75.75 0 010 1.5H9a.75.75 0 01-.75-.75z" clip-rule="evenodd"></path></svg>"#
}

/// The confirmed (checkmark) icon payload, as text.
fn icon_check_str() -> (r: &'static str)
    ensures
        r@ == icon_check(),
{
    r#"<svg stroke="currentColor" fill="currentColor" stroke-width="0" viewBox="0 0 24 24" aria-hidden="true" height="18" width="18" xmlns="http://www.w3.org/2000/svg"><path fill-rule="evenodd" d="M7.502 6h7.128A3.375 3.375 0 0118 9.375v9.375a3 3 0 003-3V6.108c0-1.505-1.125-2.811-2.664-2.94a48.972 48.972 0 00-.673-.05A3 3 0 0015 1.5h-1.5a3 3 0 00-2.663 1.618c-.225.015-.45.032-.673.05C8.662 3.295 7.554 4.542 7.502 6zM13.5 3A1.5 1.5 0 0012 4.5h4.5A1.5 1.5 0 0015 3h-1.5z" clip-rule="evenodd"></path><path fill-rule="evenodd" d="M3 9.375C3 8.339 3.84 7.5 4.875 7.5h9.75c1.036 0 1.875.84 1.875 1.875v11.25c0 1.035-.84 1.875-1.875 1.875h-9.75A1.875 1.875 0 013 20.625V9.375zm9.586 4.594a.75.75 0 00-1.172-.938l-2.476 3.096-.908-.907a.75.75 0 00-1.06 1.06l1.5 1.5a.75.75 0 001.116-.062l3-3.75z" clip-rule="evenodd"></path></svg>"#
}

/// Builds the activation script for a value.
fn build_handler(value: &str) -> (h: String)
    ensures
        h@ == onclick_handler(value@),
{
    let mut h = String::new();
    h.append("navigator.clipboard.writeText('");
    let ev = replace_char_str(value, '\'', "\\'");
    h.append(ev.as_str());
    h.append("'); this.innerHTML = '");
    let c1 = replace_char_str(icon_check_str(), '\'', "\\'");
    let c2 = replace_char_str(c1.as_str(), '"', "&quot;");
    h.append(c2.as_str());
    h.append("'; setTimeout(() => { this.innerHTML = '");
    let l1 = replace_char_str(icon_list_str(), '\'', "\\'");
    let l2 = replace_char_str(l1.as_str(), '"', "&quot;");
    h.append(l2.as_str());
    h.append("'; }, 3000);");
    proof {
        assert(h@ =~= onclick_handler(value@));
    }
    h
}

/// Renders the widget markup for a directive: for kind `text` or `password`,
/// a disabled input holding the value plus a copy button; for any other kind,
/// a disabled input alone.
pub fn render_widget(kind: &str, value: &str) -> (out: String)
    ensures
        out@ == widget(kind@, value@),
{
    let copyable = str_eq(kind, "text") || str_eq(kind, "password");
    let mut out = String::new();
    out.append(r#"<div class="flex flex-row custom-input"><input type=""#);
    out.append(kind);
    if copyable {
        out.append(r#"" class="text-xs w-full bg-slate-700 rounded-l py-1" value=""#);
        out.append(value);
        out.append(
            r#"" disabled /><button class="p-1 border border-slate-500 bg-slate-600 border-l-0 rounded-r hover:bg-slate-700" data-value=""#,
        );
        out.append(value);
        out.append(r#"" onclick=""#);
        let handler = build_handler(value);
        let attr = replace_char_str(handler.as_str(), '"', "&quot;");
        out.append(attr.as_str());
        out.append(r#"">"#);
        out.append(icon_list_str());
        out.append("</button></div>");
        proof {
            assert(out@ =~= widget(kind@, value@));
        }
    } else {
        out.append(r#"" class="text-xs w-full bg-slate-700 rounded py-1" value=""#);
        out.append(value);
        out.append(r#"" disabled /></div>"#);
        proof {
            assert(out@ =~= widget(kind@, value@));
        }
    }
    out
}

/// The activation attribute holds no double-quote character: embedded inside
/// the button's quoted attribute, every double quote of the value and of the
/// icon payloads is escaped.
pub proof fn lemma_attr_quote_free(value: Seq<char>)
    ensures
        forall|i: int|
            0 <= i < onclick_attr(value).len() ==> onclick_attr(value)[i] != '"',
{
    reveal_strlit("&quot;");
    assert(forall|i: int| 0 <= i < quot_rep().len() ==> quot_rep()[i] != '"');
    lemma_replace_char_free(onclick_handler(value), '"', quot_rep());
}

/// Escaping the activation attribute again changes nothing: every double
/// quote in it is already escaped.
pub proof fn lemma_attr_escape_idempotent(value: Seq<char>)
    ensures
        esc_quot(onclick_attr(value)) == onclick_attr(value),
{
    lemma_attr_quote_free(value);
    lemma_replace_char_absent(onclick_attr(value), '"', quot_rep());
}

/// The activation attribute embeds both icon payloads, each escaped: the
/// confirmed icon shown on activation and the default icon reverted to after
/// the delay.
pub proof fn lemma_attr_embeds_icons(value: Seq<char>)
    ensures
        exists|i: int| occurs_at(onclick_attr(value), icon_check_escaped(), i),
        exists|i: int| occurs_at(onclick_attr(value), icon_list_escaped(), i),
{
    let q = '"';
    let rep = quot_rep();
    let ea = esc_apos(value);
    let ice = icon_check_escaped();
    let ile = icon_list_escaped();
    let x2 = h_a() + ea;
    let x3 = x2 + h_b();
    let x4 = x3 + ice;
    let x5 = x4 + h_c();
    let x6 = x5 + ile;
    assert(onclick_handler(value) =~= x6 + h_d());
    lemma_replace_char_concat(x6, h_d(), q, rep);
    lemma_replace_char_concat(x5, ile, q, rep);
    lemma_replace_char_concat(x4, h_c(), q, rep);
    lemma_replace_char_concat(x3, ice, q, rep);
    reveal_strlit("&quot;");
    assert(forall|i: int| 0 <= i < rep.len() ==> rep[i] != q);
    lemma_replace_char_free(esc_apos(icon_check()), q, rep);
    lemma_replace_char_absent(ice, q, rep);
    lemma_replace_char_free(esc_apos(icon_list()), q, rep);
    lemma_replace_char_absent(ile, q, rep);
    let rx3 = replace_char(x3, q, rep);
    let rhc = replace_char(h_c(), q, rep);
    let rhd = replace_char(h_d(), q, rep);
    assert(onclick_attr(value) =~= rx3 + ice + (rhc + ile + rhd));
    assert(occurs_at(ice, ice, 0)) by {
        assert(ice.subrange(0, ice.len() as int) =~= ice);
    }
    lemma_occurs_in_middle(rx3, ice, rhc + ile + rhd, ice, 0);
    assert(onclick_attr(value) =~= (rx3 + ice + rhc) + ile + rhd);
    assert(occurs_at(ile, ile, 0)) by {
        assert(ile.subrange(0, ile.len() as int) =~= ile);
    }
    lemma_occurs_in_middle(rx3 + ice + rhc, ile, rhd, ile, 0);
}

/// The complete disabled input element of the copyable widget.
pub open spec fn input_elem(kind: Seq<char>, value: Seq<char>) -> Seq<char> {
    r#"<input type=""#@ + kind + w_val() + value + r#"" disabled />"#@
}

/// For kind `text` or `password` the widget embeds the complete disabled
/// input element holding the kind and the value, a button opener, and the
/// button's activation attribute (which in turn embeds both icon payloads,
/// by `lemma_attr_embeds_icons`).
pub proof fn lemma_copyable_widget_parts(kind: Seq<char>, value: Seq<char>)
    requires
        copyable_kind(kind),
    ensures
        occurs_at(widget(kind, value), input_elem(kind, value), 40),
        occurs_at(widget(kind, value), "<input"@, 40),
        exists|i: int| occurs_at(widget(kind, value), "<button"@, i),
        exists|i: int| occurs_at(widget(kind, value), onclick_attr(value), i),
{
    reveal_strlit(r#"<div class="flex flex-row custom-input"><input type=""#);
    reveal_strlit(
        r#"" disabled /><button class="p-1 border border-slate-500 bg-slate-600 border-l-0 rounded-r hover:bg-slate-700" data-value=""#,
    );
    reveal_strlit(r#"" class="text-xs w-full bg-slate-700 rounded-l py-1" value=""#);
    reveal_strlit(r#"<input type=""#);
    reveal_strlit(r#"" disabled />"#);
    reveal_strlit("<button");
    reveal_strlit("<input");
    let w = widget(kind, value);
    let a = w_open();
    let btn = w_btn();
    let pre = a + kind + w_val() + value;
    let post = value + w_onclick() + onclick_attr(value) + w_icon() + icon_list() + w_close();
    assert(w =~= pre + btn + (post));
    // the button opener sits inside the fixed button markup
    assert(btn.subrange(13, 20) =~= "<button"@);
    assert(occurs_at(btn, "<button"@, 13));
    lemma_occurs_in_middle(pre, btn, post, "<button"@, 13);
    assert(occurs_at(pre + btn + post, "<button"@, pre.len() + 13int));
    assert(occurs_at(w, "<button"@, pre.len() + 13int));
    // the activation attribute is one of the widget's pieces
    let pre2 = a + kind + w_val() + value + btn + value + w_onclick();
    let post2 = w_icon() + icon_list() + w_close();
    let attr = onclick_attr(value);
    assert(w =~= pre2 + attr + post2);
    assert(attr.subrange(0, attr.len() as int) =~= attr);
    assert(occurs_at(attr, attr, 0));
    lemma_occurs_in_middle(pre2, attr, post2, attr, 0);
    assert(occurs_at(w, attr, pre2.len() as int));
    // the input element spans the opening markup's tail through the button
    // markup's head
    let elem = input_elem(kind, value);
    let lk = kind.len() as int;
    let lv = value.len() as int;
    assert(a.len() == 53 && w_val().len() == 60 && elem.len() == 13 + lk + 60 + lv + 13);
    assert(40 + elem.len() <= w.len());  
    let le = elem.len() as int;
    let sub = w.subrange(40, 40 + le);
    assert forall|t: int| 0 <= t < elem.len() implies sub[t] == elem[t] by {
        assert(sub[t] == w[40 + t]);
        if t < 13 {
            assert(w[40 + t] == a[40 + t]);
            assert(elem[t] == r#"<input type=""#@[t]);
        } else if t < 13 + lk {
            assert(w[40 + t] == kind[t - 13]);
            assert(elem[t] == kind[t - 13]);
        } else if t < 13 + lk + 60 {
            assert(w[40 + t] == w_val()[t - 13 - lk]);
            assert(elem[t] == w_val()[t - 13 - lk]);
        } else if t < 13 + lk + 60 + lv {
            assert(w[40 + t] == value[t - 73 - lk]);
            assert(elem[t] == value[t - 73 - lk]);
        } else {
            assert(w[40 + t] == btn[t - 73 - lk - lv]);
            assert(elem[t] == r#"" disabled />"#@[t - 73 - lk - lv]);
        }
    }
    assert(sub =~= elem);
    assert(occurs_at(w, elem, 40));
    assert(w.subrange(40, 46) =~= "<input"@) by {
        assert forall|t: int| 0 <= t < 6 implies w.subrange(40, 46)[t] == "<input"@[t] by {
            assert(w.subrange(40, 46)[t] == w[40 + t]);
            assert(w[40 + t] == elem[t]);
            assert(elem[t] == r#"<input type=""#@[t]);
        }
    }
    assert(occurs_at(w, "<input"@, 40));
}

/// The plain widget's complete disabled input element.
pub open spec fn plain_input_elem(kind: Seq<char>, value: Seq<char>) -> Seq<char> {
    r#"<input type=""#@ + kind + n_val() + value + r#"" disabled />"#@
}

/// For a kind other than `text`/`password` the widget embeds the complete
/// disabled input element holding that kind and value.
pub proof fn lemma_plain_widget_input(kind: Seq<char>, value: Seq<char>)
    requires
        !copyable_kind(kind),
    ensures
        occurs_at(widget(kind, value), plain_input_elem(kind, value), 40),
{
    reveal_strlit(r#"<div class="flex flex-row custom-input"><input type=""#);
    reveal_strlit(r#"" class="text-xs w-full bg-slate-700 rounded py-1" value=""#);
    reveal_strlit(r#"" disabled /></div>"#);
    reveal_strlit(r#"<input type=""#);
    reveal_strlit(r#"" disabled />"#);
    let w = widget(kind, value);
    let a = w_open();
    let b = n_val();
    let c = n_close();
    let lk = kind.len() as int;
    let lv = value.len() as int;
    let elem = plain_input_elem(kind, value);
    assert(a.len() == 53 && b.len() == 58 && c.len() == 19);
    assert(elem.len() == 13 + lk + 58 + lv + 13);
    assert(w == a + kind + b + value + c);
    assert(40 + elem.len() <= w.len());
    let le = elem.len() as int;
    let sub = w.subrange(40, 40 + le);
    assert forall|t: int| 0 <= t < le implies sub[t] == elem[t] by {
        assert(sub[t] == w[40 + t]);
        if t < 13 {
            assert(w[40 + t] == a[40 + t]);
            assert(elem[t] == r#"<input type=""#@[t]);
        } else if t < 13 + lk {
            assert(w[40 + t] == kind[t - 13]);
            assert(elem[t] == kind[t - 13]);
        } else if t < 13 + lk + 58 {
            assert(w[40 + t] == b[t - 13 - lk]);
            assert(elem[t] == b[t - 13 - lk]);
        } else if t < 13 + lk + 58 + lv {
            assert(w[40 + t] == value[t - 71 - lk]);
            assert(elem[t] == value[t - 71 - lk]);
        } else {
            assert(w[40 + t] == c[t - 71 - lk - lv]);
            assert(elem[t] == r#"" disabled />"#@[t - 71 - lk - lv]);
        }
    }
    assert(sub =~= elem);
    assert(occurs_at(w, elem, 40));
}

/// Any `<input` occurrence in the plain widget starts at position 40, inside
/// the fixed opening markup (for kind and value free of `<`).
proof fn lemma_plain_input_pos(kind: Seq<char>, value: Seq<char>, i: int)
    requires
        !copyable_kind(kind),
        forall|j: int| 0 <= j < kind.len() ==> kind[j] != '<',
        forall|j: int| 0 <= j < value.len() ==> value[j] != '<',
        occurs_at(widget(kind, value), "<input"@, i),
    ensures
        i == 40,
{
    reveal_strlit(r#"<div class="flex flex-row custom-input"><input type=""#);
    reveal_strlit(r#"" class="text-xs w-full bg-slate-700 rounded py-1" value=""#);
    reveal_strlit(r#"" disabled /></div>"#);
    reveal_strlit("<input");
    let w = widget(kind, value);
    let a = w_open();
    let b = n_val();
    let c = n_close();
    assert(a.len() == 53 && b.len() == 58 && c.len() == 19);
    let o2 = 53 + kind.len() as int;
    let o3 = o2 + 58;
    let o4 = o3 + value.len() as int;
    assert(w == a + kind + b + value + c);
    assert(w.len() == o4 + 19);
    assert(w[i] == "<input"@[0] && w[i + 1] == "<input"@[1]);
    assert(w[i] == '<' && w[i + 1] == 'i');
    if i < 53 {
        assert(w[i] == a[i]);
        assert(i == 0 || i == 40) by {
            assert(forall|j: int| 0 <= j < 53 && a[j] == '<' ==> j == 0 || j == 40);
        }
        if i == 0 {
            assert(w[1] == a[1] && a[1] == 'd');
            assert(false);
        }
    } else if i < o2 {
        assert(w[i] == kind[i - 53]);
        assert(false);
    } else if i < o3 {
        assert(w[i] == b[i - o2]);
        assert(forall|j: int| 0 <= j < 58 ==> b[j] != '<');
        assert(false);
    } else if i < o4 {
        assert(w[i] == value[i - o3]);
        assert(false);
    } else {
        assert(i + 6 <= w.len());
        assert(o4 <= i < o4 + 19);
        assert(w[i] == c[i - o4]);
        assert(i - o4 == 13) by {
            assert(forall|j: int| 0 <= j < 19 && c[j] == '<' ==> j == 13);
        }
        assert(w[i + 1] == c[14] && c[14] == '/');
        assert(false);
    }
}

/// For a kind other than `text`/`password` (with `<` occurring in neither the
/// kind nor the value), the widget holds exactly one input element opener and
/// no button at all: the disabled input is its only element besides the
/// enclosing wrapper.
pub proof fn lemma_plain_widget_elements(kind: Seq<char>, value: Seq<char>)
    requires
        !copyable_kind(kind),
        forall|j: int| 0 <= j < kind.len() ==> kind[j] != '<',
        forall|j: int| 0 <= j < value.len() ==> value[j] != '<',
    ensures
        exists|i: int| occurs_at(widget(kind, value), "<input"@, i),
        forall|i: int, j: int|
            occurs_at(widget(kind, value), "<input"@, i) && occurs_at(
                widget(kind, value),
                "<input"@,
                j,
            ) ==> i == j,
        forall|i: int| !occurs_at(widget(kind, value), "<button"@, i),
{
    reveal_strlit(r#"<div class="flex flex-row custom-input"><input type=""#);
    reveal_strlit(r#"" class="text-xs w-full bg-slate-700 rounded py-1" value=""#);
    reveal_strlit(r#"" disabled /></div>"#);
    reveal_strlit("<input");
    reveal_strlit("<button");
    let w = widget(kind, value);
    let a = w_open();
    assert(a.subrange(40, 46) =~= "<input"@);
    assert(w.subrange(40, 46) =~= a.subrange(40, 46));
    assert(occurs_at(w, "<input"@, 40));
    assert forall|i: int, j: int|
        occurs_at(w, "<input"@, i) && occurs_at(w, "<input"@, j) implies i == j by {
        lemma_plain_input_pos(kind, value, i);
        lemma_plain_input_pos(kind, value, j);
    }
    assert forall|i: int| !occurs_at(w, "<button"@, i) by {
        if occurs_at(w, "<button"@, i) {
            let b = n_val();
            let c = n_close();
            let o2 = 53 + kind.len() as int;
            let o3 = o2 + 58;
            let o4 = o3 + value.len() as int;
            assert(w == a + kind + b + value + c);
            assert(w.len() == o4 + 19);
            assert(w[i] == "<button"@[0] && w[i + 1] == "<button"@[1]);
            assert(w[i] == '<' && w[i + 1] == 'b');
            if i < 53 {
                assert(w[i] == a[i]);
                assert(i == 0 || i == 40) by {
                    assert(forall|j: int| 0 <= j < 53 && a[j] == '<' ==> j == 0 || j == 40);
                }
                if i == 0 {
                    assert(w[1] == a[1] && a[1] == 'd');
                } else {
                    assert(w[41] == a[41] && a[41] == 'i');
                }
                assert(false);
            } else if i < o2 {
                assert(w[i] == kind[i - 53]);
                assert(false);
            } else if i < o3 {
                assert(w[i] == b[i - o2]);
                assert(forall|j: int| 0 <= j < 58 ==> b[j] != '<');
                assert(false);
            } else if i < o4 {
                assert(w[i] == value[i - o3]);
                assert(false);
            } else {
                assert(i + 7 <= w.len());
                assert(o4 <= i < o4 + 19);
                assert(w[i] == c[i - o4]);
                assert(i - o4 == 13) by {
                    assert(forall|j: int| 0 <= j < 19 && c[j] == '<' ==> j == 13);
                }
                assert(w[i + 1] == c[14] && c[14] == '/');
                assert(false);
            }
        }
    }
}


/// The activation attribute ends in the script's final semicolon, and holds
/// no `<` directly followed by `y` (instantiated below at the element
/// openers), for a value free of `<`.
proof fn lemma_attr_facts(value: Seq<char>, y: char)
    requires
        forall|j: int| 0 <= j < value.len() ==> value[j] != '<',
        y == 'b' || y == 'i',
    ensures
        bigram_free(onclick_attr(value), '<', y),
        onclick_attr(value).len() > 0,
        onclick_attr(value).last() == ';',
{
    reveal_strlit(r#"<svg stroke="currentColor" fill="currentColor" stroke-width="0" viewBox="0 0 24 24" aria-hidden="true" height="18" width="18" xmlns="http://www.w3.org/2000/svg"><path fill-rule="evenodd" d="M7.502 6h7.128A3.375 3.375 0 0118 9.375v9.375a3 3 0 003-3V6.108c0-1.505-1.125-2.811-2.664-2.94a48.972 48.972 0 00-.673-.05A3 3 0 0015 1.5h-1.5a3 3 0 00-2.663 1.618c-.225.015-.45.032-.673.05C8.662 3.295 7.554 4.542 7.502 6zM13.5 3A1.5 1.5 0 0012 4.5h4.5A1.5 1.5 0 0015 3h-1.5z" clip-rule="evenodd"></path><path fill-rule="evenodd" d="M3 9.375C3 8.339 3.84 7.5 4.875 7.5h9.75c1.036 0 1.875.84 1.875 1.875v11.25c0 1.035-.84 1.875-1.875 1.875h-9.75A1.875 1.875 0 013 20.625V9.375zM6 12a.75.75 0 01.75-.75h.008a.75.75 0 01.75.75v.008a.75.75 0 01-.75.75H6.75a.75.75 0 01-.75-.75V12zm2.25 0a.75.75 0 01.75-.75h3.75a.75.75 0 010 1.5H9a.75.75 0 01-.75-.75zM6 15a.75.75 0 01.75-.75h.008a.75.75 0 01.75.75v.008a.75.75 0 01-.75.75H6.75a.75.75 0 01-.75-.75V15zm2.25 0a.75.75 0 01.75-.75h3.75a.75.75 0 010 1.5H9a.75.75 0 01-.75-.75zM6 18a.75.75 0 01.75-.75h.008a.75.75 0 01.75.75v.008a.75.75 0 01-.75.75H6.75a.75.75 0 01-.75-.75V18zm2.25 0a.75.75 0 01.75-.75h3.75a.75.75 0 010 1.5H9a.75.75 0 01-.75-.75z" clip-rule="evenodd"></path></svg>"#);
    reveal_strlit(r#"<svg stroke="currentColor" fill="currentColor" stroke-width="0" viewBox="0 0 24 24" aria-hidden="true" height="18" width="18" xmlns="http://www.w3.org/2000/svg"><path fill-rule="evenodd" d="M7.502 6h7.128A3.375 3.375 0 0118 9.375v9.375a3 3 0 003-3V6.108c0-1.505-1.125-2.811-2.664-2.94a48.972 48.972 0 00-.673-.05A3 3 0 0015 1.5h-1.5a3 3 0 00-2.663 1.618c-.225.015-.45.032-.673.05C8.662 3.295 7.554 4.542 7.502 6zM13.5 3A1.5 1.5 0 0012 4.5h4.5A1.5 1.5 0 0015 3h-1.5z" clip-rule="evenodd"></path><path fill-rule="evenodd" d="M3 9.375C3 8.339 3.84 7.5 4.875 7.5h9.75c1.036 0 1.875.84 1.875 1.875v11.25c0 1.035-.84 1.875-1.875 1.875h-9.75A1.875 1.875 0 013 20.625V9.375zm9.586 4.594a.75.75 0 00-1.172-.938l-2.476 3.096-.908-.907a.75.75 0 00-1.06 1.06l1.5 1.5a.75.75 0 001.116-.062l3-3.75z" clip-rule="evenodd"></path></svg>"#);
    reveal_strlit("navigator.clipboard.writeText('");
    reveal_strlit("'); this.innerHTML = '");
    reveal_strlit("'; setTimeout(() => { this.innerHTML = '");
    reveal_strlit("'; }, 3000);");
    reveal_strlit("\\'");
    reveal_strlit("&quot;");
    let x = '<';
    let q = '"';
    let rep = quot_rep();
    // the icons hold no apostrophe, so apostrophe escaping leaves them as
    // they are
    assert(forall|j: int| 0 <= j < icon_list().len() ==> #[trigger] icon_list()[j] != '\'');
    assert(forall|j: int| 0 <= j < icon_check().len() ==> #[trigger] icon_check()[j] != '\'');
    lemma_replace_char_absent(icon_list(), '\'', apos_rep());
    lemma_replace_char_absent(icon_check(), '\'', apos_rep());
    // inside the icons every `<` opens an svg or path tag
    assert(bigram_free(icon_list(), x, y)) by {
        if y == 'b' {
            assert(forall|j: int|
                0 <= j < icon_list().len() - 1 ==> !(#[trigger] icon_list()[j] == '<'
                    && icon_list()[j + 1] == 'b'));
        } else {
            assert(forall|j: int|
                0 <= j < icon_list().len() - 1 ==> !(#[trigger] icon_list()[j] == '<'
                    && icon_list()[j + 1] == 'i'));
        }
    }
    assert(bigram_free(icon_check(), x, y)) by {
        if y == 'b' {
            assert(forall|j: int|
                0 <= j < icon_check().len() - 1 ==> !(#[trigger] icon_check()[j] == '<'
                    && icon_check()[j + 1] == 'b'));
        } else {
            assert(forall|j: int|
                0 <= j < icon_check().len() - 1 ==> !(#[trigger] icon_check()[j] == '<'
                    && icon_check()[j + 1] == 'i'));
        }
    }
    assert(forall|j: int| 0 <= j < rep.len() ==> #[trigger] rep[j] != x);
    lemma_replace_bigram_free(icon_list(), q, rep, x, y);
    lemma_replace_bigram_free(icon_check(), q, rep, x, y);
    lemma_replace_last(icon_list(), q, rep);
    lemma_replace_last(icon_check(), q, rep);
    let ile = icon_list_escaped();
    let ice = icon_check_escaped();
    assert(ile.last() == '>' && ice.last() == '>');
    // the script's fixed pieces and the escaped value hold no `<` at all
    assert(forall|j: int| 0 <= j < h_a().len() ==> #[trigger] h_a()[j] != x);
    assert(forall|j: int| 0 <= j < h_b().len() ==> #[trigger] h_b()[j] != x);
    assert(forall|j: int| 0 <= j < h_c().len() ==> #[trigger] h_c()[j] != x);
    assert(forall|j: int| 0 <= j < h_d().len() ==> #[trigger] h_d()[j] != x);
    assert(forall|j: int| 0 <= j < apos_rep().len() ==> #[trigger] apos_rep()[j] != x);
    lemma_replace_preserves_absence(value, '\'', apos_rep(), x);
    let eav = esc_apos(value);
    // assemble the script left to right
    let x2 = h_a() + eav;
    let x3 = x2 + h_b();
    let x4 = x3 + ice;
    let x5 = x4 + h_c();
    let x6 = x5 + ile;
    let handler = x6 + h_d();
    assert(onclick_handler(value) == handler);
    assert(forall|j: int| 0 <= j < x2.len() ==> #[trigger] x2[j] != x);
    assert(forall|j: int| 0 <= j < x3.len() ==> #[trigger] x3[j] != x);
    lemma_bigram_free_concat(h_a(), eav, x, y);
    lemma_bigram_free_concat(x2, h_b(), x, y);
    lemma_bigram_free_concat(x3, ice, x, y);
    assert(x4.len() > 0 && x4.last() == ice.last());
    lemma_bigram_free_concat(x4, h_c(), x, y);
    assert(x5.last() == h_c().last());
    lemma_bigram_free_concat(x5, ile, x, y);
    assert(x6.last() == ile.last());
    lemma_bigram_free_concat(x6, h_d(), x, y);
    // escape the double quotes of the whole script
    lemma_replace_bigram_free(handler, q, rep, x, y);
    lemma_replace_last(handler, q, rep);
    assert(handler.last() == h_d().last());
    assert(h_d().last() == ';');
}

/// In the copyable widget, for a value free of `<`, a `<` followed by `i`
/// opens only the input element, and a `<` followed by `b` opens only the
/// button.
proof fn lemma_copyable_lt_pos(kind: Seq<char>, value: Seq<char>, i: int, y: char)
    requires
        copyable_kind(kind),
        forall|j: int| 0 <= j < value.len() ==> value[j] != '<',
        y == 'b' || y == 'i',
        0 <= i,
        i + 1 < widget(kind, value).len(),
        widget(kind, value)[i] == '<',
        widget(kind, value)[i + 1] == y,
    ensures
        y == 'i' ==> i == 40,
        y == 'b' ==> i == 126 + kind.len() + value.len(),
{
    reveal_strlit(r#"<div class="flex flex-row custom-input"><input type=""#);
    reveal_strlit(r#"" class="text-xs w-full bg-slate-700 rounded-l py-1" value=""#);
    reveal_strlit(r#"" disabled /><button class="p-1 border border-slate-500 bg-slate-600 border-l-0 rounded-r hover:bg-slate-700" data-value=""#);
    reveal_strlit(r#"" onclick=""#);
    reveal_strlit(r#"">"#);
    reveal_strlit("</button></div>");
    reveal_strlit("text");
    reveal_strlit("password");
    reveal_strlit(r#"<svg stroke="currentColor" fill="currentColor" stroke-width="0" viewBox="0 0 24 24" aria-hidden="true" height="18" width="18" xmlns="http://www.w3.org/2000/svg"><path fill-rule="evenodd" d="M7.502 6h7.128A3.375 3.375 0 0118 9.375v9.375a3 3 0 003-3V6.108c0-1.505-1.125-2.811-2.664-2.94a48.972 48.972 0 00-.673-.05A3 3 0 0015 1.5h-1.5a3 3 0 00-2.663 1.618c-.225.015-.45.032-.673.05C8.662 3.295 7.554 4.542 7.502 6zM13.5 3A1.5 1.5 0 0012 4.5h4.5A1.5 1.5 0 0015 3h-1.5z" clip-rule="evenodd"></path><path fill-rule="evenodd" d="M3 9.375C3 8.339 3.84 7.5 4.875 7.5h9.75c1.036 0 1.875.84 1.875 1.875v11.25c0 1.035-.84 1.875-1.875 1.875h-9.75A1.875 1.875 0 013 20.625V9.375zM6 12a.75.75 0 01.75-.75h.008a.75.75 0 01.75.75v.008a.75.75 0 01-.75.75H6.75a.75.75 0 01-.75-.75V12zm2.25 0a.75.75 0 01.75-.75h3.75a.75.75 0 010 1.5H9a.75.75 0 01-.75-.75zM6 15a.75.75 0 01.75-.75h.008a.75.75 0 01.75.75v.008a.75.75 0 01-.75.75H6.75a.75.75 0 01-.75-.75V15zm2.25 0a.75.75 0 01.75-.75h3.75a.75.75 0 010 1.5H9a.75.75 0 01-.75-.75zM6 18a.75.75 0 01.75-.75h.008a.75.75 0 01.75.75v.008a.75.75 0 01-.75.75H6.75a.75.75 0 01-.75-.75V18zm2.25 0a.75.75 0 01.75-.75h3.75a.75.75 0 010 1.5H9a.75.75 0 01-.75-.75z" clip-rule="evenodd"></path></svg>"#);
    lemma_attr_facts(value, y);
    let w = widget(kind, value);
    let lk = kind.len() as int;
    let lv = value.len() as int;
    let attr = onclick_attr(value);
    let la = attr.len() as int;
    let o1: int = 53;
    let o2 = o1 + lk;
    let o3 = o2 + 60;
    let o4 = o3 + lv;
    let o5 = o4 + 122;
    let o6 = o5 + lv;
    let o7 = o6 + 11;
    let o8 = o7 + la;
    let o9 = o8 + 2;
    let o10 = o9 + 1214;
    let o11 = o10 + 15;
    assert(icon_list().len() == 1214);
    assert(w == w_open() + kind + w_val() + value + w_btn() + value + w_onclick() + attr
        + w_icon() + icon_list() + w_close());
    assert(w.len() == o11);
    if i < o1 {
        assert(w[i] == w_open()[i]);
        assert(i == 0 || i == 40) by {
            assert(forall|j: int| 0 <= j < 53 && #[trigger] w_open()[j] == '<' ==> j == 0 || j
                == 40);
        }
        if i == 0 {
            assert(w[1] == w_open()[1] && w_open()[1] == 'd');
            assert(false);
        } else {
            assert(w[41] == w_open()[41] && w_open()[41] == 'i');
            if y == 'b' {
                assert(false);
            }
        }
    } else if i < o2 {
        assert(w[i] == kind[i - o1]);
        assert(forall|j: int| 0 <= j < "text"@.len() ==> #[trigger] "text"@[j] != '<');
        assert(forall|j: int| 0 <= j < "password"@.len() ==> #[trigger] "password"@[j] != '<');
        assert(false);
    } else if i < o3 {
        assert(w[i] == w_val()[i - o2]);
        assert(forall|j: int| 0 <= j < 60 ==> #[trigger] w_val()[j] != '<');
        assert(false);
    } else if i < o4 {
        assert(w[i] == value[i - o3]);
        assert(false);
    } else if i < o5 {
        assert(w[i] == w_btn()[i - o4]);
        assert(i - o4 == 13) by {
            assert(forall|j: int| 0 <= j < 122 && #[trigger] w_btn()[j] == '<' ==> j == 13);
        }
        assert(w[i + 1] == w_btn()[14] && w_btn()[14] == 'b');
        if y == 'i' {
            assert(false);
        }
    } else if i < o6 {
        assert(w[i] == value[i - o5]);
        assert(false);
    } else if i < o7 {
        assert(w[i] == w_onclick()[i - o6]);
        assert(forall|j: int| 0 <= j < 11 ==> #[trigger] w_onclick()[j] != '<');
        assert(false);
    } else if i < o8 {
        assert(w[i] == attr[i - o7]);
        if i + 1 < o8 {
            assert(w[i + 1] == attr[i - o7 + 1]);
            assert(!(attr[i - o7] == '<' && attr[i - o7 + 1] == y));
            assert(false);
        } else {
            assert(i - o7 == la - 1);
            assert(attr[la - 1] == ';');
            assert(false);
        }
    } else if i < o9 {
        assert(w[i] == w_icon()[i - o8]);
        assert(w_icon()[0] == '"' && w_icon()[1] == '>');
        assert(false);
    } else if i < o10 {
        assert(w[i] == icon_list()[i - o9]);
        if i + 1 < o10 {
            assert(w[i + 1] == icon_list()[i - o9 + 1]);
            if y == 'b' {
                assert(forall|j: int|
                    0 <= j < icon_list().len() - 1 ==> !(#[trigger] icon_list()[j] == '<'
                        && icon_list()[j + 1] == 'b'));
            } else {
                assert(forall|j: int|
                    0 <= j < icon_list().len() - 1 ==> !(#[trigger] icon_list()[j] == '<'
                        && icon_list()[j + 1] == 'i'));
            }
            assert(false);
        } else {
            assert(i - o9 == 1213);
            assert(icon_list()[1213] == '>');
            assert(false);
        }
    } else {
        assert(i < o11);
        assert(w[i] == w_close()[i - o10]);
        assert(i - o10 == 0 || i - o10 == 9) by {
            assert(forall|j: int| 0 <= j < 15 && #[trigger] w_close()[j] == '<' ==> j == 0 || j
                == 9);
        }
        assert(w[i + 1] == w_close()[i - o10 + 1]);
        assert(w_close()[1] == '/' && w_close()[10] == '/');
        assert(false);
    }
}

/// For kind `text` or `password`, with `<` not occurring in the value, the
/// widget holds exactly one input element opener and exactly one button:
/// those that `lemma_copyable_widget_parts` exhibits.
pub proof fn lemma_copyable_widget_counts(kind: Seq<char>, value: Seq<char>)
    requires
        copyable_kind(kind),
        forall|j: int| 0 <= j < value.len() ==> value[j] != '<',
    ensures
        forall|i: int, j: int|
            occurs_at(widget(kind, value), "<input"@, i) && occurs_at(
                widget(kind, value),
                "<input"@,
                j,
            ) ==> i == j,
        forall|i: int, j: int|
            occurs_at(widget(kind, value), "<button"@, i) && occurs_at(
                widget(kind, value),
                "<button"@,
                j,
            ) ==> i == j,
{
    reveal_strlit("<input");
    reveal_strlit("<button");
    let w = widget(kind, value);
    assert forall|i: int, j: int|
        occurs_at(w, "<input"@, i) && occurs_at(w, "<input"@, j) implies i == j by {
        assert(w[i] == "<input"@[0] && w[i + 1] == "<input"@[1]);
        assert(w[j] == "<input"@[0] && w[j + 1] == "<input"@[1]);
        lemma_copyable_lt_pos(kind, value, i, 'i');
        lemma_copyable_lt_pos(kind, value, j, 'i');
    }
    assert forall|i: int, j: int|
        occurs_at(w, "<button"@, i) && occurs_at(w, "<button"@, j) implies i == j by {
        assert(w[i] == "<button"@[0] && w[i + 1] == "<button"@[1]);
        assert(w[j] == "<button"@[0] && w[j + 1] == "<button"@[1]);
        lemma_copyable_lt_pos(kind, value, i, 'b');
        lemma_copyable_lt_pos(kind, value, j, 'b');
    }
}

} // verus!
