//! The XML re-indenter and validator: a single-pass tokenizer over the
//! trimmed character stream that rebuilds indentation from tag nesting
//! depth and checks overall tag balance. It is deliberately a lightweight
//! re-indenter, not a conformant XML parser: comments, CDATA, processing
//! instructions, attribute values containing `>` and entity escaping are
//! not understood and can produce incorrect (but never crashing) output.

use vstd::prelude::*;
use crate::errors::ErrorKind;
use crate::errors::FormatError;
use vstd::string::StringExecFns;
use crate::text::first_idx_of;
use crate::text::indent_sq;
use crate::text::is_ws;
use crate::text::is_ws_char;
use crate::text::lemma_first_idx_of;
use crate::text::lemma_first_idx_of_is;
use crate::text::push_char;
use crate::text::push_indent;
use crate::text::str_to_chars;
use crate::text::trim_chars;
use crate::text::trim_end_of;
use crate::text::trim_of;
use crate::text::trim_start_of;

verus! {

/// One token of the scan: a tag's body (the characters between `<` and
/// `>`), or a trimmed, nonempty text run.
pub enum XmlTok {
    Tag(Seq<char>),
    Text(Seq<char>),
}

/// A tag body whose first character is `/` closes an element.
pub open spec fn is_closing_tag(body: Seq<char>) -> bool {
    body.len() > 0 && body[0] == '/'
}

/// A tag body whose last character is `/` is self-closing.
pub open spec fn is_self_closing_tag(body: Seq<char>) -> bool {
    body.len() > 0 && body[body.len() - 1] == '/'
}

/// The token stream of `s`: tags and trimmed text runs, whitespace between
/// them skipped; `None` when a `<` is never answered by a `>`.
pub open spec fn xml_toks(s: Seq<char>) -> Option<Seq<XmlTok>>
    decreases s.len(),
{
    if s.len() == 0 {
        Some(Seq::empty())
    } else if s[0] == '<' {
        let j = first_idx_of(s, '>');
        if 0 <= j < s.len() {
            match xml_toks(s.subrange(j + 1, s.len() as int)) {
                None => None,
                Some(rest) => Some(seq![XmlTok::Tag(s.subrange(1, j))] + rest),
            }
        } else {
            None
        }
    } else if is_ws(s[0]) {
        xml_toks(s.drop_first())
    } else {
        let j = first_idx_of(s, '<');
        if 1 <= j <= s.len() {
            let txt = trim_of(s.subrange(0, j));
            match xml_toks(s.subrange(j, s.len() as int)) {
                None => None,
                Some(rest) => Some(seq![XmlTok::Text(txt)] + rest),
            }
        } else {
            None
        }
    }
}

/// How one token moves the nesting depth.
pub open spec fn tok_depth_delta(t: XmlTok) -> int {
    match t {
        XmlTok::Tag(body) => if is_closing_tag(body) {
            -1
        } else if is_self_closing_tag(body) {
            0
        } else {
            1
        },
        XmlTok::Text(_) => 0,
    }
}

/// The nesting depth after the whole token sequence.
pub open spec fn depth_after(toks: Seq<XmlTok>) -> int
    decreases toks.len(),
{
    if toks.len() == 0 {
        0
    } else {
        depth_after(toks.drop_last()) + tok_depth_delta(toks.last())
    }
}

pub open spec fn max0(d: int) -> nat {
    if d >= 0 {
        d as nat
    } else {
        0
    }
}

/// A tag as it appears in the input and the output: brackets around the body.
pub open spec fn tag_chars(body: Seq<char>) -> Seq<char> {
    seq!['<'] + body + seq!['>']
}

/// What one token contributes to the output, given the token before it and
/// the depth so far. A closing tag drops a level before indenting and stays
/// on the line when it directly follows text; any other tag starts a new
/// line once output exists; text runs inline.
pub open spec fn emit_tok(prev: Option<XmlTok>, depth_before: int, t: XmlTok) -> Seq<char> {
    match t {
        XmlTok::Text(txt) => txt,
        XmlTok::Tag(body) => {
            if is_closing_tag(body) {
                if prev matches Some(XmlTok::Text(_)) {
                    tag_chars(body)
                } else {
                    seq!['\n'] + indent_sq(max0(depth_before - 1)) + tag_chars(body)
                }
            } else {
                let lead = if prev is Some {
                    seq!['\n']
                } else {
                    Seq::<char>::empty()
                };
                lead + indent_sq(max0(depth_before)) + tag_chars(body)
            }
        },
    }
}

/// The re-indented rendering of a token sequence.
pub open spec fn render_upto(toks: Seq<XmlTok>) -> Seq<char>
    decreases toks.len(),
{
    if toks.len() == 0 {
        Seq::empty()
    } else {
        let i = toks.len() - 1;
        render_upto(toks.drop_last()) + emit_tok(
            if i > 0 {
                Some(toks[i - 1])
            } else {
                None
            },
            depth_after(toks.drop_last()),
            toks[i],
        )
    }
}

pub proof fn lemma_render_push(toks: Seq<XmlTok>, tok: XmlTok)
    ensures
        render_upto(toks.push(tok)) == render_upto(toks) + emit_tok(
            if toks.len() > 0 {
                Some(toks.last())
            } else {
                None
            },
            depth_after(toks),
            tok,
        ),
        depth_after(toks.push(tok)) == depth_after(toks) + tok_depth_delta(tok),
{
    let p = toks.push(tok);
    assert(p.drop_last() =~= toks);
    assert(p.last() == tok);
    if toks.len() > 0 {
        assert(p[p.len() - 2] == toks.last());
    }
}

/// What `format_xml` returns for `text`, with the message of each failure.
pub open spec fn xml_format_spec(text: Seq<char>) -> Result<Seq<char>, Seq<char>> {
    let t = trim_of(text);
    if t.len() == 0 {
        Err("Empty XML input"@)
    } else if t[0] != '<' || t[t.len() - 1] != '>' {
        Err("Invalid XML: Must start with '<' and end with '>'"@)
    } else {
        match xml_toks(t) {
            None => Err("Invalid XML: Unclosed tag found"@),
            Some(toks) => if depth_after(toks) != 0 {
                Err("Invalid XML: Unbalanced tags detected"@)
            } else {
                Ok(render_upto(toks))
            },
        }
    }
}

/// Every character of `w` is whitespace.
pub open spec fn all_ws(w: Seq<char>) -> bool {
    forall|i: int| 0 <= i < w.len() ==> is_ws(#[trigger] w[i])
}

/// What the scan guarantees of each token: tag bodies hold no `>`, text
/// runs are nonempty, hold no `<`, and start and end on non-whitespace.
pub open spec fn tok_wf(tk: XmlTok) -> bool {
    match tk {
        XmlTok::Tag(body) => forall|i: int| 0 <= i < body.len() ==> #[trigger] body[i] != '>',
        XmlTok::Text(x) => x.len() > 0 && !is_ws(x[0]) && !is_ws(x[x.len() - 1]) && (forall|i: int|
            0 <= i < x.len() ==> #[trigger] x[i] != '<'),
    }
}

/// The shape of a whole token stream: every token well formed and no two
/// text runs adjacent.
pub open spec fn toks_wf(toks: Seq<XmlTok>) -> bool {
    &&& forall|i: int| 0 <= i < toks.len() ==> tok_wf(#[trigger] toks[i])
    &&& forall|i: int| 0 < i < toks.len() ==> !((#[trigger] toks[i]) is Text && toks[i - 1] is Text)
}

/// The scan only produces well-formed streams; a source starting with `<`
/// starts with a tag token, and one ending with `>` ends with a tag or
/// with text whose last character is `>`.
proof fn lemma_xml_toks_wf(s: Seq<char>)
    ensures
        match xml_toks(s) {
            Some(toks) => {
                &&& toks_wf(toks)
                &&& (s.len() > 0 && s[0] == '<' ==> toks.len() > 0 && toks[0] is Tag)
                &&& (s.len() > 0 && s[s.len() - 1] == '>' ==> toks.len() > 0 && (match toks[toks.len() - 1] {
                    XmlTok::Text(x) => x[x.len() - 1] == '>',
                    XmlTok::Tag(_) => true,
                }))
            },
            None => true,
        },
    decreases s.len(),
{
    if s.len() == 0 {
    } else if s[0] == '<' {
        let j = first_idx_of(s, '>');
        lemma_first_idx_of(s, '>');
        if 0 <= j < s.len() {
            let tail = s.subrange(j + 1, s.len() as int);
            lemma_xml_toks_wf(tail);
            if xml_toks(tail) is Some {
                let rest = xml_toks(tail).unwrap();
                let toks = seq![XmlTok::Tag(s.subrange(1, j))] + rest;
                assert(tok_wf(XmlTok::Tag(s.subrange(1, j)))) by {
                    assert forall|k: int| 0 <= k < j - 1 implies #[trigger] s.subrange(1, j)[k]
                        != '>' by {
                        assert(s.subrange(1, j)[k] == s[k + 1]);
                    }
                }
                assert forall|i: int| 0 <= i < toks.len() implies tok_wf(#[trigger] toks[i]) by {
                    if i > 0 {
                        assert(toks[i] == rest[i - 1]);
                    }
                }
                assert forall|i: int|
                    0 < i < toks.len() implies !((#[trigger] toks[i]) is Text && toks[i - 1]
                    is Text) by {
                    if i > 1 {
                        assert(toks[i] == rest[i - 1]);
                        assert(toks[i - 1] == rest[i - 2]);
                    }
                }
                if s[s.len() - 1] == '>' {
                    if tail.len() > 0 {
                        assert(tail[tail.len() - 1] == s[s.len() - 1]);
                        assert(toks[toks.len() - 1] == rest[rest.len() - 1]);
                    } else {
                        assert(toks =~= seq![XmlTok::Tag(s.subrange(1, j))]);
                    }
                }
            }
        }
    } else if is_ws(s[0]) {
        lemma_xml_toks_wf(s.drop_first());
        let tail = s.drop_first();
        if xml_toks(tail) is Some {
            let rest = xml_toks(tail).unwrap();
            if s[s.len() - 1] == '>' {
                assert(s.len() > 1) by {
                    assert(s[0] != '>');
                }
                assert(tail[tail.len() - 1] == s[s.len() - 1]);
            }
        }
    } else {
        let j = first_idx_of(s, '<');
        lemma_first_idx_of(s, '<');
        if 1 <= j <= s.len() {
            let run = s.subrange(0, j);
            let txt = trim_of(run);
            let tail = s.subrange(j, s.len() as int);
            lemma_xml_toks_wf(tail);
            if xml_toks(tail) is Some {
                let rest = xml_toks(tail).unwrap();
                let toks = seq![XmlTok::Text(txt)] + rest;
                lemma_trim_text_wf(run);
                assert(tok_wf(XmlTok::Text(txt)));
                assert forall|i: int| 0 <= i < toks.len() implies tok_wf(#[trigger] toks[i]) by {
                    if i > 0 {
                        assert(toks[i] == rest[i - 1]);
                    }
                }
                if rest.len() > 0 {
                    assert(tail.len() > 0 && tail[0] == '<');
                    assert(rest[0] is Tag);
                }
                assert forall|i: int|
                    0 < i < toks.len() implies !((#[trigger] toks[i]) is Text && toks[i - 1]
                    is Text) by {
                    if i == 1 {
                        assert(toks[1] == rest[0]);
                    } else {
                        assert(toks[i] == rest[i - 1]);
                        assert(toks[i - 1] == rest[i - 2]);
                    }
                }
                if s[s.len() - 1] == '>' {
                    if j < s.len() {
                        assert(tail[tail.len() - 1] == s[s.len() - 1]);
                        assert(toks[toks.len() - 1] == rest[rest.len() - 1]);
                    } else {
                        assert(rest.len() == 0);
                        assert(toks =~= seq![XmlTok::Text(txt)]);
                        assert(run == s);
                        lemma_trim_text_last(s);
                    }
                }
            }
        }
    }
}

/// Trimming a run that starts on non-whitespace gives a well-formed text
/// token when the run holds no `<`.
proof fn lemma_trim_text_wf(run: Seq<char>)
    requires
        run.len() > 0,
        !is_ws(run[0]),
        forall|i: int| 0 <= i < run.len() ==> #[trigger] run[i] != '<',
    ensures
        tok_wf(XmlTok::Text(trim_of(run))),
{
    lemma_trim_nonempty(run);
    lemma_trim_end_last(run);
    lemma_trim_is_subrange(run);
}

/// The trim of a sequence is one of its contiguous subranges.
proof fn lemma_trim_is_subrange(s: Seq<char>)
    ensures
        exists|a: int, b: int|
            0 <= a <= b <= s.len() && trim_of(s) == #[trigger] s.subrange(a, b),
{
    lemma_trim_start_is_suffix(s);
    let a = choose|a: int| 0 <= a <= s.len() && trim_start_of(s) == s.subrange(a, s.len() as int);
    lemma_trim_end_is_prefix(trim_start_of(s));
    let st = trim_start_of(s);
    let b = choose|b: int| 0 <= b <= st.len() && trim_end_of(st) == st.subrange(0, b);
    assert(st.subrange(0, b) =~= s.subrange(a, a + b));
    assert(trim_of(s) == s.subrange(a, a + b));
}

proof fn lemma_trim_start_is_suffix(s: Seq<char>)
    ensures
        exists|a: int|
            0 <= a <= s.len() && trim_start_of(s) == #[trigger] s.subrange(a, s.len() as int),
    decreases s.len(),
{
    if s.len() > 0 && is_ws(s[0]) {
        lemma_trim_start_is_suffix(s.drop_first());
        let a = choose|a: int|
            0 <= a <= s.drop_first().len() && trim_start_of(s.drop_first()) == s.drop_first()
                .subrange(a, s.drop_first().len() as int);
        assert(s.drop_first().subrange(a, s.drop_first().len() as int) =~= s.subrange(
            a + 1,
            s.len() as int,
        ));
    } else {
        assert(trim_start_of(s) == s.subrange(0, s.len() as int)) by {
            assert(s.subrange(0, s.len() as int) =~= s);
        }
    }
}

proof fn lemma_trim_end_is_prefix(s: Seq<char>)
    ensures
        exists|b: int| 0 <= b <= s.len() && trim_end_of(s) == #[trigger] s.subrange(0, b),
    decreases s.len(),
{
    if s.len() > 0 && is_ws(s[s.len() - 1]) {
        assert(s.drop_last() =~= s.subrange(0, s.len() - 1));
        lemma_trim_end_is_prefix(s.drop_last());
        let b = choose|b: int|
            0 <= b <= s.drop_last().len() && trim_end_of(s.drop_last()) == s.drop_last().subrange(
                0,
                b,
            );
        assert(s.drop_last().subrange(0, b) =~= s.subrange(0, b));
    } else {
        assert(trim_end_of(s) == s.subrange(0, s.len() as int)) by {
            assert(s.subrange(0, s.len() as int) =~= s);
        }
    }
}

/// The last character of a trimmed nonempty-result sequence is not
/// whitespace.
proof fn lemma_trim_end_last(s: Seq<char>)
    ensures
        trim_of(s).len() > 0 ==> !is_ws(trim_of(s)[trim_of(s).len() - 1]),
    decreases s.len(),
{
    lemma_trim_end_last_of(trim_start_of(s));
}

proof fn lemma_trim_end_last_of(s: Seq<char>)
    ensures
        trim_end_of(s).len() > 0 ==> !is_ws(trim_end_of(s)[trim_end_of(s).len() - 1]),
    decreases s.len(),
{
    if s.len() > 0 && is_ws(s[s.len() - 1]) {
        lemma_trim_end_last_of(s.drop_last());
    }
}

/// A trimmed run keeps its final `>` when the untrimmed run ends with one.
proof fn lemma_trim_text_last(s: Seq<char>)
    requires
        s.len() > 0,
        !is_ws(s[0]),
        s[s.len() - 1] == '>',
    ensures
        trim_of(s).len() > 0 && trim_of(s)[trim_of(s).len() - 1] == '>',
{
    assert(trim_start_of(s) == s);
    assert(!is_ws(s[s.len() - 1]));
    assert(trim_end_of(s) == s);
    lemma_trim_nonempty(s);
}

pub open spec fn prev_of(toks: Seq<XmlTok>, i: int) -> Option<XmlTok> {
    if i > 0 {
        Some(toks[i - 1])
    } else {
        None
    }
}

pub open spec fn depth_before(toks: Seq<XmlTok>, i: int) -> int {
    depth_after(toks.subrange(0, i))
}

/// The rendering unrolled from the front: token `i`'s contribution, then
/// the rest.
pub open spec fn render_from(toks: Seq<XmlTok>, i: int) -> Seq<char>
    decreases toks.len() - i,
{
    if 0 <= i < toks.len() {
        emit_tok(prev_of(toks, i), depth_before(toks, i), toks[i]) + render_from(toks, i + 1)
    } else {
        Seq::empty()
    }
}

proof fn lemma_render_from_snoc(toks: Seq<XmlTok>, i: int)
    requires
        0 <= i <= toks.len() - 1,
    ensures
        render_from(toks, i) == render_from(toks.drop_last(), i) + emit_tok(
            prev_of(toks, toks.len() - 1),
            depth_before(toks, toks.len() - 1),
            toks.last(),
        ),
    decreases toks.len() - i,
{
    let dl = toks.drop_last();
    let n = toks.len() as int;
    if i == n - 1 {
        assert(render_from(dl, i) == Seq::<char>::empty());
        assert(render_from(toks, i + 1) == Seq::<char>::empty());
        assert(render_from(toks, i) =~= render_from(dl, i) + emit_tok(
            prev_of(toks, n - 1),
            depth_before(toks, n - 1),
            toks.last(),
        ));
    } else {
        lemma_render_from_snoc(toks, i + 1);
        assert(dl[i] == toks[i]);
        assert(prev_of(dl, i) == prev_of(toks, i));
        assert(toks.subrange(0, i) =~= dl.subrange(0, i));
        assert(render_from(toks, i) =~= render_from(dl, i) + emit_tok(
            prev_of(toks, n - 1),
            depth_before(toks, n - 1),
            toks.last(),
        ));
    }
}

proof fn lemma_render_eq(toks: Seq<XmlTok>)
    ensures
        render_upto(toks) == render_from(toks, 0),
    decreases toks.len(),
{
    if toks.len() > 0 {
        let dl = toks.drop_last();
        let n = toks.len() as int;
        lemma_render_eq(dl);
        lemma_render_from_snoc(toks, 0);
        assert(dl =~= toks.subrange(0, n - 1));
        assert(render_upto(toks) == render_from(toks, 0));
    }
}

proof fn lemma_toks_ws_prefix(w: Seq<char>, x: Seq<char>)
    requires
        all_ws(w),
    ensures
        xml_toks(w + x) == xml_toks(x),
    decreases w.len(),
{
    if w.len() == 0 {
        assert(w + x =~= x);
    } else {
        let s = w + x;
        assert(s[0] == w[0]);
        assert(is_ws(s[0]));
        assert(s[0] != '<');
        assert(s.drop_first() =~= w.drop_first() + x);
        assert(all_ws(w.drop_first()));
        lemma_toks_ws_prefix(w.drop_first(), x);
    }
}

proof fn lemma_toks_tag_prefix(body: Seq<char>, rest: Seq<char>)
    requires
        forall|i: int| 0 <= i < body.len() ==> #[trigger] body[i] != '>',
    ensures
        xml_toks(tag_chars(body) + rest) == (match xml_toks(rest) {
            None => None,
            Some(rt) => Some(seq![XmlTok::Tag(body)] + rt),
        }),
{
    let s = tag_chars(body) + rest;
    let b = body.len() as int;
    assert(s[0] == '<');
    assert forall|k: int| 0 <= k < b + 1 implies s[k] != '>' by {
        if k > 0 {
            assert(s[k] == body[k - 1]);
        }
    }
    assert(s[b + 1] == '>');
    lemma_first_idx_of_is(s, '>', b + 1);
    assert(s.subrange(1, b + 1) =~= body);
    assert(s.subrange(b + 2, s.len() as int) =~= rest);
}

proof fn lemma_trim_end_ws_suffix(x: Seq<char>, w: Seq<char>)
    requires
        all_ws(w),
    ensures
        trim_end_of(x + w) == trim_end_of(x),
    decreases w.len(),
{
    if w.len() == 0 {
        assert(x + w =~= x);
    } else {
        let s = x + w;
        assert(s[s.len() - 1] == w[w.len() - 1]);
        assert(is_ws(s[s.len() - 1]));
        assert(s.drop_last() =~= x + w.drop_last());
        assert(all_ws(w.drop_last()));
        lemma_trim_end_ws_suffix(x, w.drop_last());
    }
}

proof fn lemma_trim_text_ws(x: Seq<char>, w: Seq<char>)
    requires
        x.len() > 0,
        !is_ws(x[0]),
        !is_ws(x[x.len() - 1]),
        all_ws(w),
    ensures
        trim_of(x + w) == x,
{
    assert((x + w)[0] == x[0]);
    assert(trim_start_of(x + w) == x + w);
    lemma_trim_end_ws_suffix(x, w);
    assert(trim_end_of(x) == x);
}

proof fn lemma_trim_start_ws_prefix(w: Seq<char>, x: Seq<char>)
    requires
        all_ws(w),
    ensures
        trim_start_of(w + x) == trim_start_of(x),
    decreases w.len(),
{
    if w.len() == 0 {
        assert(w + x =~= x);
    } else {
        let s = w + x;
        assert(s[0] == w[0]);
        assert(is_ws(s[0]));
        assert(s.drop_first() =~= w.drop_first() + x);
        assert(all_ws(w.drop_first()));
        lemma_trim_start_ws_prefix(w.drop_first(), x);
    }
}

/// The whitespace a tag emission puts before its `<`.
pub open spec fn emit_lead(prev: Option<XmlTok>, depth_before: int, body: Seq<char>) -> Seq<char> {
    if is_closing_tag(body) {
        if prev matches Some(XmlTok::Text(_)) {
            Seq::<char>::empty()
        } else {
            seq!['\n'] + indent_sq(max0(depth_before - 1))
        }
    } else {
        (if prev is Some {
            seq!['\n']
        } else {
            Seq::<char>::empty()
        }) + indent_sq(max0(depth_before))
    }
}

proof fn lemma_emit_tag_shape(prev: Option<XmlTok>, depth_before: int, body: Seq<char>)
    ensures
        all_ws(emit_lead(prev, depth_before, body)),
        emit_tok(prev, depth_before, XmlTok::Tag(body)) == emit_lead(prev, depth_before, body)
            + tag_chars(body),
{
    let w = emit_lead(prev, depth_before, body);
    assert forall|i: int| 0 <= i < w.len() implies is_ws(#[trigger] w[i]) by {
        assert(w[i] == '\n' || w[i] == ' ');
    }
    assert(emit_tok(prev, depth_before, XmlTok::Tag(body)) =~= w + tag_chars(body));
}

/// The output of a well-formed token stream scans back to exactly the
/// tokens from `i` on.
proof fn lemma_retok(toks: Seq<XmlTok>, i: int)
    requires
        toks_wf(toks),
        0 <= i <= toks.len(),
    ensures
        xml_toks(render_from(toks, i)) == Some(toks.subrange(i, toks.len() as int)),
    decreases toks.len() - i,
{
    let n = toks.len() as int;
    if i == n {
        assert(render_from(toks, i) == Seq::<char>::empty());
        assert(toks.subrange(n, n) =~= Seq::<XmlTok>::empty());
    } else {
        assert(tok_wf(toks[i]));
        match toks[i] {
            XmlTok::Tag(body) => {
                lemma_retok(toks, i + 1);
                let w = emit_lead(prev_of(toks, i), depth_before(toks, i), body);
                lemma_emit_tag_shape(prev_of(toks, i), depth_before(toks, i), body);
                assert(render_from(toks, i) =~= w + (tag_chars(body) + render_from(toks, i + 1)));
                lemma_toks_ws_prefix(w, tag_chars(body) + render_from(toks, i + 1));
                lemma_toks_tag_prefix(body, render_from(toks, i + 1));
                assert(seq![XmlTok::Tag(body)] + toks.subrange(i + 1, n) =~= toks.subrange(i, n));
            },
            XmlTok::Text(x) => {
                if i + 1 == n {
                    assert(render_from(toks, i + 1) == Seq::<char>::empty());
                    let s = render_from(toks, i);
                    assert(s =~= x);
                    assert(x[0] != '<');
                    assert(!is_ws(x[0]));
                    lemma_first_idx_of_is(x, '<', x.len() as int);
                    assert(x.subrange(0, x.len() as int) =~= x);
                    assert(trim_start_of(x) == x);
                    assert(trim_end_of(x) == x);
                    assert(x.subrange(x.len() as int, x.len() as int) =~= Seq::<char>::empty());
                    assert(trim_of(x) == x);
                    assert(xml_toks(Seq::<char>::empty()) == Some(Seq::<XmlTok>::empty()));
                    assert(seq![XmlTok::Text(x)] + Seq::<XmlTok>::empty() =~= seq![
                        XmlTok::Text(x),
                    ]);
                    assert(xml_toks(s) == Some(seq![XmlTok::Text(x)]));
                    assert(seq![XmlTok::Text(x)] =~= toks.subrange(i, n));
                } else {
                    assert(!(toks[i + 1] is Text));
                    match toks[i + 1] {
                        XmlTok::Tag(body1) => {
                            lemma_retok(toks, i + 2);
                            let w = emit_lead(prev_of(toks, i + 1), depth_before(toks, i + 1), body1);
                            lemma_emit_tag_shape(
                                prev_of(toks, i + 1),
                                depth_before(toks, i + 1),
                                body1,
                            );
                            assert(tok_wf(toks[i + 1]));
                            let s = render_from(toks, i);
                            let rest2 = render_from(toks, i + 2);
                            assert(s =~= x + w + (tag_chars(body1) + rest2));
                            let j = x.len() as int + w.len() as int;
                            assert forall|k: int| 0 <= k < j implies s[k] != '<' by {
                                if k < x.len() {
                                    assert(s[k] == x[k]);
                                } else {
                                    assert(s[k] == w[k - x.len()]);
                                    assert(is_ws(s[k]));
                                }
                            }
                            assert(s[j] == '<');
                            lemma_first_idx_of_is(s, '<', j);
                            assert(s[0] == x[0]);
                            assert(s[0] != '<');
                            assert(!is_ws(s[0]));
                            assert(s.subrange(0, j) =~= x + w);
                            lemma_trim_text_ws(x, w);
                            assert(trim_of(s.subrange(0, j)) == x);
                            assert(s.subrange(j, s.len() as int) =~= tag_chars(body1) + rest2);
                            lemma_toks_tag_prefix(body1, rest2);
                            assert(xml_toks(s.subrange(j, s.len() as int)) == Some(
                                seq![XmlTok::Tag(body1)] + toks.subrange(i + 2, n),
                            ));
                            assert(xml_toks(s) == Some(
                                seq![XmlTok::Text(x)] + (seq![XmlTok::Tag(body1)] + toks.subrange(
                                    i + 2,
                                    n,
                                )),
                            ));
                            assert(seq![XmlTok::Text(x)] + (seq![XmlTok::Tag(body1)]
                                + toks.subrange(i + 2, n)) =~= toks.subrange(i, n));
                        },
                        XmlTok::Text(_) => {
                            assert(false);
                        },
                    }
                }
            },
        }
    }
}

proof fn lemma_render_from_last(toks: Seq<XmlTok>, i: int)
    requires
        toks_wf(toks),
        0 <= i < toks.len(),
    ensures
        render_from(toks, i).len() > 0,
        render_from(toks, i)[render_from(toks, i).len() - 1] == (match toks[toks.len() - 1] {
            XmlTok::Tag(_) => '>',
            XmlTok::Text(x) => x[x.len() - 1],
        }),
    decreases toks.len() - i,
{
    let n = toks.len() as int;
    let e = emit_tok(prev_of(toks, i), depth_before(toks, i), toks[i]);
    assert(tok_wf(toks[i]));
    assert(e.len() > 0) by {
        match toks[i] {
            XmlTok::Tag(body) => {
                lemma_emit_tag_shape(prev_of(toks, i), depth_before(toks, i), body);
            },
            XmlTok::Text(x) => {},
        }
    }
    if i == n - 1 {
        assert(render_from(toks, i + 1) == Seq::<char>::empty());
        assert(render_from(toks, i) =~= e);
        match toks[i] {
            XmlTok::Tag(body) => {
                lemma_emit_tag_shape(prev_of(toks, i), depth_before(toks, i), body);
                let w = emit_lead(prev_of(toks, i), depth_before(toks, i), body);
                assert(e[e.len() - 1] == (w + tag_chars(body))[e.len() - 1]);
                assert(e[e.len() - 1] == '>');
            },
            XmlTok::Text(x) => {},
        }
    } else {
        lemma_render_from_last(toks, i + 1);
        let rest = render_from(toks, i + 1);
        assert(render_from(toks, i) == e + rest);
        assert((e + rest)[(e + rest).len() - 1] == rest[rest.len() - 1]);
    }
}

/// Feeding the re-indented output back through the formatter is the
/// identity: the output scans to the same tag-and-text token stream as the
/// input (the whitespace-insensitive structural round trip), so the second
/// rendering is byte-identical to the first.
pub proof fn lemma_format_xml_idempotent(text: Seq<char>)
    requires
        xml_format_spec(text) is Ok,
    ensures
        xml_format_spec(text) matches Ok(out) ==> xml_toks(trim_of(out)) == xml_toks(trim_of(text))
            && xml_format_spec(out) == Ok::<Seq<char>, Seq<char>>(out),
{
    let t = trim_of(text);
    let toks = xml_toks(t).unwrap();
    let out = render_upto(toks);
    lemma_xml_toks_wf(t);
    lemma_render_eq(toks);
    lemma_retok(toks, 0);
    assert(toks.subrange(0, toks.len() as int) =~= toks);
    assert(xml_toks(out) == Some(toks));
    assert(toks.len() > 0 && toks[0] is Tag);
    match toks[0] {
        XmlTok::Tag(body0) => {
            let w0 = emit_lead(None::<XmlTok>, 0, body0);
            lemma_emit_tag_shape(None::<XmlTok>, 0, body0);
            assert(toks.subrange(0, 0) =~= Seq::<XmlTok>::empty());
            assert(depth_before(toks, 0) == 0);
            assert(prev_of(toks, 0) is None);
            let x0 = tag_chars(body0) + render_from(toks, 1);
            assert(out =~= w0 + x0);
            lemma_trim_start_ws_prefix(w0, x0);
            assert(x0[0] == '<');
            assert(trim_start_of(x0) == x0);
            lemma_render_from_last(toks, 0);
            assert(out[out.len() - 1] == x0[x0.len() - 1]) by {
                assert((w0 + x0)[w0.len() + x0.len() - 1] == x0[x0.len() - 1]);
            }
            assert(!is_ws(out[out.len() - 1]) && out[out.len() - 1] == '>') by {
                match toks[toks.len() - 1] {
                    XmlTok::Tag(_) => {},
                    XmlTok::Text(x) => {
                        assert(t[t.len() - 1] == '>');
                        assert(x[x.len() - 1] == '>');
                    },
                }
            }
            assert(trim_end_of(x0) == x0);
            assert(trim_of(out) == x0);
            lemma_toks_ws_prefix(w0, x0);
            assert(xml_toks(x0) == Some(toks));
            assert(x0[x0.len() - 1] == '>');
            assert(xml_format_spec(out) == Ok::<Seq<char>, Seq<char>>(render_upto(toks)));
            assert(xml_toks(trim_of(out)) == xml_toks(trim_of(text)));
        },
        XmlTok::Text(_) => {
            assert(false);
        },
    }
}

proof fn lemma_toks_tag_step(t: Seq<char>, i: int, j: int)
    requires
        0 <= i < j < t.len(),
        t[i] == '<',
        t[j] == '>',
        forall|k: int| i <= k < j ==> t[k] != '>',
    ensures
        xml_toks(t.subrange(i, t.len() as int)) == (match xml_toks(
            t.subrange(j + 1, t.len() as int),
        ) {
            None => None,
            Some(rest) => Some(seq![XmlTok::Tag(t.subrange(i + 1, j))] + rest),
        }),
{
    let s = t.subrange(i, t.len() as int);
    assert(s[0] == '<');
    assert forall|k: int| 0 <= k < j - i implies s[k] != '>' by {
        assert(s[k] == t[k + i]);
    }
    lemma_first_idx_of_is(s, '>', j - i);
    assert(s.subrange(1, j - i) =~= t.subrange(i + 1, j));
    assert(s.subrange(j - i + 1, s.len() as int) =~= t.subrange(j + 1, t.len() as int));
}

proof fn lemma_toks_unclosed(t: Seq<char>, i: int)
    requires
        0 <= i < t.len(),
        t[i] == '<',
        forall|k: int| i <= k < t.len() ==> t[k] != '>',
    ensures
        xml_toks(t.subrange(i, t.len() as int)) is None,
{
    let s = t.subrange(i, t.len() as int);
    assert(s[0] == '<');
    assert forall|k: int| 0 <= k < s.len() implies s[k] != '>' by {
        assert(s[k] == t[k + i]);
    }
    lemma_first_idx_of_is(s, '>', s.len() as int);
}

proof fn lemma_toks_ws(t: Seq<char>, i: int)
    requires
        0 <= i < t.len(),
        is_ws(t[i]),
    ensures
        xml_toks(t.subrange(i, t.len() as int)) == xml_toks(t.subrange(i + 1, t.len() as int)),
{
    let s = t.subrange(i, t.len() as int);
    assert(s[0] == t[i]);
    assert(s[0] != '<');
    assert(s.drop_first() =~= t.subrange(i + 1, t.len() as int));
}

proof fn lemma_toks_text_step(t: Seq<char>, i: int, j: int)
    requires
        0 <= i < j <= t.len(),
        t[i] != '<',
        !is_ws(t[i]),
        forall|k: int| i <= k < j ==> t[k] != '<',
        j == t.len() || t[j] == '<',
    ensures
        xml_toks(t.subrange(i, t.len() as int)) == (match xml_toks(
            t.subrange(j, t.len() as int),
        ) {
            None => None,
            Some(rest) => Some(seq![XmlTok::Text(trim_of(t.subrange(i, j)))] + rest),
        }),
{
    let s = t.subrange(i, t.len() as int);
    assert(s[0] == t[i]);
    assert forall|k: int| 0 <= k < j - i implies s[k] != '<' by {
        assert(s[k] == t[k + i]);
    }
    if j < t.len() {
        assert(s[j - i] == t[j]);
    }
    lemma_first_idx_of_is(s, '<', j - i);
    assert(s.subrange(0, j - i) =~= t.subrange(i, j));
    assert(s.subrange(j - i, s.len() as int) =~= t.subrange(j, t.len() as int));
}

/// Trimming a run that starts with a non-whitespace character keeps at
/// least that character.
pub proof fn lemma_trim_nonempty(s: Seq<char>)
    requires
        s.len() > 0,
        !is_ws(s[0]),
    ensures
        trim_of(s).len() > 0,
        trim_of(s)[0] == s[0],
    decreases s.len(),
{
    assert(trim_start_of(s) == s);
    lemma_trim_end_keeps_head(s);
}

proof fn lemma_trim_end_keeps_head(s: Seq<char>)
    requires
        s.len() > 0,
        !is_ws(s[0]),
    ensures
        trim_end_of(s).len() > 0,
        trim_end_of(s)[0] == s[0],
    decreases s.len(),
{
    if s.len() > 0 && is_ws(s[s.len() - 1]) {
        assert(s.drop_last()[0] == s[0]);
        lemma_trim_end_keeps_head(s.drop_last());
    }
}

proof fn lemma_xml_msgs_distinct()
    ensures
        "Invalid XML: Must start with '<' and end with '>'"@ != "Empty XML input"@,
        "Invalid XML: Unclosed tag found"@ != "Empty XML input"@,
        "Invalid XML: Unbalanced tags detected"@ != "Empty XML input"@,
{
    reveal_strlit("Empty XML input");
    reveal_strlit("Invalid XML: Must start with '<' and end with '>'");
    reveal_strlit("Invalid XML: Unclosed tag found");
    reveal_strlit("Invalid XML: Unbalanced tags detected");
    assert("Empty XML input"@.len() == 15);
    assert("Invalid XML: Must start with '<' and end with '>'"@.len() != 15);
    assert("Invalid XML: Unclosed tag found"@.len() != 15);
    assert("Invalid XML: Unbalanced tags detected"@.len() != 15);
}

/// Re-indents `text`: tags go one per line, indented two spaces per nesting
/// level, inline text keeps its closing tag on the same line, and the scan
/// fails on an unclosed tag or unbalanced nesting.
#[verifier::rlimit(100)]
pub fn format_xml(text: &str) -> (r: Result<String, FormatError>)
    ensures
        xml_format_spec(text@) matches Ok(out) ==> (r matches Ok(o) && o@ == out),
        xml_format_spec(text@) matches Err(m) ==> (r matches Err(e) && e.message@ == m
            && e.location is None && e.kind == (if m == "Empty XML input"@ {
            ErrorKind::InvalidInput
        } else {
            ErrorKind::ParseFailure
        })),
{
    let chars0 = str_to_chars(text);
    let chars = trim_chars(&chars0);
    let ghost t = trim_of(text@);
    let n = chars.len();
    if n == 0 {
        return Err(
            FormatError::new(ErrorKind::InvalidInput, String::from_str("Empty XML input")),
        );
    }
    if chars[0] != '<' || chars[n - 1] != '>' {
        proof {
            lemma_xml_msgs_distinct();
        }
        return Err(
            FormatError::new(
                ErrorKind::ParseFailure,
                String::from_str("Invalid XML: Must start with '<' and end with '>'"),
            ),
        );
    }
    let mut formatted = String::new();
    let mut depth: i128 = 0;
    let mut i: usize = 0;
    let mut last_was_text = false;
    let mut started = false;
    let ghost mut toks: Seq<XmlTok> = Seq::empty();
    proof {
        assert(t.subrange(0, t.len() as int) =~= t);
        match xml_toks(t) {
            Some(rest) => {
                assert(Seq::<XmlTok>::empty() + rest =~= rest);
            },
            None => {},
        }
    }
    while i < n
        invariant
            chars@ == t,
            n == t.len(),
            0 < n <= usize::MAX,
            t[0] == '<',
            t[t.len() - 1] == '>',
            i <= n,
            toks.len() <= i,
            xml_toks(t) == (match xml_toks(t.subrange(i as int, t.len() as int)) {
                None => None::<Seq<XmlTok>>,
                Some(rest) => Some(toks + rest),
            }),
            depth == depth_after(toks),
            -(toks.len() as int) <= depth <= toks.len() as int,
            last_was_text == (toks.len() > 0 && toks.last() is Text),
            started == (toks.len() > 0),
            formatted@ == render_upto(toks),
        decreases n - i,
    {
        let c = chars[i];
        if c == '<' {
            let mut j = i;
            while j < n && chars[j] != '>'
                invariant
                    chars@ == t,
                    n == t.len(),
                    i <= j <= n,
                    forall|k: int| i <= k < j ==> t[k] != '>',
                decreases n - j,
            {
                j += 1;
            }
            if j >= n {
                proof {
                    lemma_toks_unclosed(t, i as int);
                    lemma_xml_msgs_distinct();
                }
                return Err(
                    FormatError::new(
                        ErrorKind::ParseFailure,
                        String::from_str("Invalid XML: Unclosed tag found"),
                    ),
                );
            }
            let ghost body = t.subrange(i as int + 1, j as int);
            let is_closing = j > i + 1 && chars[i + 1] == '/';
            let is_self_closing = j > i + 1 && chars[j - 1] == '/';
            proof {
                assert(is_closing == is_closing_tag(body));
                assert(is_self_closing == is_self_closing_tag(body));
            }
            let ghost prev = if toks.len() > 0 {
                Some(toks.last())
            } else {
                None
            };
            let ghost tok = XmlTok::Tag(body);
            let ghost pre_out = formatted@;
            let ghost pre_depth = depth as int;
            if is_closing {
                depth = depth - 1;
                if !last_was_text {
                    push_char(&mut formatted, '\n');
                    let lvl: usize = if depth > 0 {
                        depth as usize
                    } else {
                        0
                    };
                    push_indent(&mut formatted, lvl);
                }
                last_was_text = false;
            } else {
                if started {
                    push_char(&mut formatted, '\n');
                }
                let lvl: usize = if depth > 0 {
                    depth as usize
                } else {
                    0
                };
                push_indent(&mut formatted, lvl);
                if !is_self_closing {
                    depth = depth + 1;
                }
                last_was_text = false;
            }
            let ghost mid_out = formatted@;
            let mut k = i;
            while k <= j
                invariant
                    chars@ == t,
                    n == t.len(),
                    i <= k <= j + 1,
                    j < n,
                    formatted@ =~= mid_out + t.subrange(i as int, k as int),
                decreases j + 1 - k,
            {
                push_char(&mut formatted, chars[k]);
                k += 1;
                assert(formatted@ =~= mid_out + t.subrange(i as int, k as int));
            }
            proof {
                assert(t.subrange(i as int, j as int + 1) =~= tag_chars(body));
                lemma_render_push(toks, tok);
                assert(formatted@ =~= render_upto(toks) + emit_tok(prev, depth_after(toks), tok));
                lemma_toks_tag_step(t, i as int, j as int);
                match xml_toks(t.subrange(j as int + 1, t.len() as int)) {
                    Some(rest) => {
                        assert(toks + (seq![tok] + rest) =~= toks.push(tok) + rest);
                    },
                    None => {},
                }
                toks = toks.push(tok);
                assert(formatted@ == render_upto(toks));
            }
            started = true;
            i = j + 1;
        } else if !is_ws_char(c) {
            let text_start = i;
            let mut j = i;
            while j < n && chars[j] != '<'
                invariant
                    chars@ == t,
                    n == t.len(),
                    i <= j <= n,
                    forall|k: int| i <= k < j ==> t[k] != '<',
                decreases n - j,
            {
                j += 1;
            }
            let mut run: Vec<char> = Vec::new();
            let mut k = text_start;
            while k < j
                invariant
                    chars@ == t,
                    n == t.len(),
                    text_start <= k <= j <= n,
                    run@ =~= t.subrange(text_start as int, k as int),
                decreases j - k,
            {
                run.push(chars[k]);
                k += 1;
            }
            assert(run@ =~= t.subrange(text_start as int, j as int));
            let txt = trim_chars(&run);
            proof {
                lemma_trim_nonempty(run@);
            }
            let ghost prev = if toks.len() > 0 {
                Some(toks.last())
            } else {
                None
            };
            let ghost tok = XmlTok::Text(txt@);
            let ghost pre_out = formatted@;
            let mut k2: usize = 0;
            while k2 < txt.len()
                invariant
                    k2 <= txt@.len(),
                    formatted@ =~= pre_out + txt@.subrange(0, k2 as int),
                decreases txt@.len() - k2,
            {
                push_char(&mut formatted, txt[k2]);
                k2 += 1;
                assert(formatted@ =~= pre_out + txt@.subrange(0, k2 as int));
            }
            proof {
                assert(txt@.subrange(0, txt@.len() as int) =~= txt@);
                lemma_render_push(toks, tok);
                assert(formatted@ =~= render_upto(toks) + emit_tok(prev, depth_after(toks), tok));
                lemma_toks_text_step(t, i as int, j as int);
                match xml_toks(t.subrange(j as int, t.len() as int)) {
                    Some(rest) => {
                        assert(toks + (seq![tok] + rest) =~= toks.push(tok) + rest);
                    },
                    None => {},
                }
                toks = toks.push(tok);
                assert(formatted@ == render_upto(toks));
            }
            last_was_text = true;
            started = true;
            i = j;
        } else {
            proof {
                lemma_toks_ws(t, i as int);
            }
            i += 1;
        }
    }
    proof {
        assert(t.subrange(n as int, t.len() as int) =~= Seq::<char>::empty());
        assert(xml_toks(t) == Some(toks + Seq::<XmlTok>::empty()));
        assert(toks + Seq::<XmlTok>::empty() =~= toks);
    }
    if depth != 0 {
        proof {
            lemma_xml_msgs_distinct();
        }
        return Err(
            FormatError::new(
                ErrorKind::ParseFailure,
                String::from_str("Invalid XML: Unbalanced tags detected"),
            ),
        );
    }
    Ok(formatted)
}

} // verus!
