//! JSON parsing and pretty-printing, delegated to `serde_json`, together
//! with the verified logic around it: the tree model the summarizer walks
//! and the caret-marker diagnostic built on a parse failure.

use vstd::prelude::*;
use vstd::string::StringExecFns;
use crate::errors::ErrLocation;
use crate::errors::ErrorKind;
use crate::errors::FormatError;
use crate::text::dec_str;
use crate::text::line_at;
use crate::text::nth_line;
use crate::text::push_char;
use crate::text::push_dec;
use crate::text::str_to_chars;
use crate::text::chars_to_string;

verus! {

#[verifier::external_type_specification]
#[verifier::external_body]
pub struct ExJsonValue(serde_json::Value);

/// A JSON document as plain values: objects keep entry order, numbers are
/// held through their rendered text.
pub enum JsonNode {
    Object(Vec<(String, JsonNode)>),
    Array(Vec<JsonNode>),
    Text(String),
    Number(String),
    Bool(bool),
    Null,
}

/// The mathematical shape of a [`JsonNode`].
pub enum JsonVal {
    Object(Seq<(Seq<char>, JsonVal)>),
    Array(Seq<JsonVal>),
    Text(Seq<char>),
    Number(Seq<char>),
    Bool(bool),
    Null,
}

pub open spec fn node_view(n: JsonNode) -> JsonVal
    decreases n,
{
    match n {
        JsonNode::Object(entries) => JsonVal::Object(entries_view(entries@)),
        JsonNode::Array(items) => JsonVal::Array(items_view(items@)),
        JsonNode::Text(s) => JsonVal::Text(s@),
        JsonNode::Number(s) => JsonVal::Number(s@),
        JsonNode::Bool(b) => JsonVal::Bool(b),
        JsonNode::Null => JsonVal::Null,
    }
}

pub open spec fn entries_view(entries: Seq<(String, JsonNode)>) -> Seq<(Seq<char>, JsonVal)>
    decreases entries,
{
    if entries.len() == 0 {
        Seq::empty()
    } else {
        seq![(entries[0].0@, node_view(entries[0].1))] + entries_view(entries.drop_first())
    }
}

pub open spec fn items_view(items: Seq<JsonNode>) -> Seq<JsonVal>
    decreases items,
{
    if items.len() == 0 {
        Seq::empty()
    } else {
        seq![node_view(items[0])] + items_view(items.drop_first())
    }
}

impl View for JsonNode {
    type V = JsonVal;

    open spec fn view(&self) -> JsonVal {
        node_view(*self)
    }
}

/// The nesting height of a value: scalars sit at 0, containers one level
/// above their deepest child.
pub open spec fn height_of(v: JsonVal) -> nat
    decreases v,
{
    match v {
        JsonVal::Object(entries) => 1 + entries_height(entries),
        JsonVal::Array(items) => 1 + items_height(items),
        _ => 0,
    }
}

pub open spec fn entries_height(entries: Seq<(Seq<char>, JsonVal)>) -> nat
    decreases entries,
{
    if entries.len() == 0 {
        0
    } else {
        let h0 = height_of(entries[0].1);
        let hr = entries_height(entries.drop_first());
        if h0 >= hr {
            h0
        } else {
            hr
        }
    }
}

pub open spec fn items_height(items: Seq<JsonVal>) -> nat
    decreases items,
{
    if items.len() == 0 {
        0
    } else {
        let h0 = height_of(items[0]);
        let hr = items_height(items.drop_first());
        if h0 >= hr {
            h0
        } else {
            hr
        }
    }
}

pub proof fn lemma_entries_height(entries: Seq<(Seq<char>, JsonVal)>)
    ensures
        forall|i: int|
            0 <= i < entries.len() ==> height_of(#[trigger] entries[i].1) <= entries_height(
                entries,
            ),
    decreases entries.len(),
{
    if entries.len() > 0 {
        lemma_entries_height(entries.drop_first());
        assert forall|i: int|
            0 <= i < entries.len() implies height_of(#[trigger] entries[i].1) <= entries_height(
            entries,
        ) by {
            if i > 0 {
                assert(entries.drop_first()[i - 1] == entries[i]);
            }
        }
    }
}

pub proof fn lemma_items_height(items: Seq<JsonVal>)
    ensures
        forall|i: int|
            0 <= i < items.len() ==> height_of(#[trigger] items[i]) <= items_height(items),
    decreases items.len(),
{
    if items.len() > 0 {
        lemma_items_height(items.drop_first());
        assert forall|i: int|
            0 <= i < items.len() implies height_of(#[trigger] items[i]) <= items_height(items) by {
            if i > 0 {
                assert(items.drop_first()[i - 1] == items[i]);
            }
        }
    }
}

pub proof fn lemma_entries_view(s: Seq<(String, JsonNode)>)
    ensures
        entries_view(s).len() == s.len(),
        forall|i: int|
            0 <= i < s.len() ==> entries_view(s)[i] == (#[trigger] s[i].0@, node_view(s[i].1)),
    decreases s.len(),
{
    if s.len() > 0 {
        lemma_entries_view(s.drop_first());
        assert forall|i: int|
            0 <= i < s.len() implies entries_view(s)[i] == (#[trigger] s[i].0@, node_view(
            s[i].1,
        )) by {
            if i > 0 {
                assert(s.drop_first()[i - 1] == s[i]);
            }
        }
    }
}

pub proof fn lemma_items_view(s: Seq<JsonNode>)
    ensures
        items_view(s).len() == s.len(),
        forall|i: int| 0 <= i < s.len() ==> items_view(s)[i] == node_view(#[trigger] s[i]),
    decreases s.len(),
{
    if s.len() > 0 {
        lemma_items_view(s.drop_first());
        assert forall|i: int|
            0 <= i < s.len() implies items_view(s)[i] == node_view(#[trigger] s[i]) by {
            if i > 0 {
                assert(s.drop_first()[i - 1] == s[i]);
            }
        }
    }
}

/// What `serde_json` parses `s` to, `None` on a parse failure.
pub uninterp spec fn json_tree_of(s: Seq<char>) -> Option<JsonVal>;

/// The one-based line `serde_json` cites for a parse failure on `s`.
pub uninterp spec fn json_err_line_of(s: Seq<char>) -> int;

/// The column `serde_json` cites for a parse failure on `s`.
pub uninterp spec fn json_err_col_of(s: Seq<char>) -> int;

/// How `serde_json` renders the parse failure on `s`.
pub uninterp spec fn json_err_msg_of(s: Seq<char>) -> Seq<char>;

/// How `serde_json` pretty-prints (two-space indent) the value `v`.
pub uninterp spec fn json_pretty_of(v: JsonVal) -> Seq<char>;

/// The position and rendering of a JSON parse failure.
pub struct JsonDiag {
    pub line: usize,
    pub column: usize,
    pub message: String,
}

/// The conversion `parse_json_text` applies to a parsed `serde_json::Value`:
/// one node per value, object entries in iteration order, numbers through
/// their canonical rendering.
#[verifier::external_body]
fn node_of_value(v: &serde_json::Value) -> JsonNode {
    match v {
        serde_json::Value::Object(m) => JsonNode::Object(
            m.iter().map(|e| (e.0.clone(), node_of_value(e.1))).collect(),
        ),
        serde_json::Value::Array(a) => JsonNode::Array(a.iter().map(node_of_value).collect()),
        serde_json::Value::String(s) => JsonNode::Text(s.clone()),
        serde_json::Value::Number(n) => JsonNode::Number(n.to_string()),
        serde_json::Value::Bool(b) => JsonNode::Bool(*b),
        serde_json::Value::Null => JsonNode::Null,
    }
}

/// The inverse conversion `pretty_print_node` applies; a fabricated number
/// whose text does not parse back becomes JSON null, keeping the result a
/// function of the node alone.
#[verifier::external_body]
fn value_of_node(n: &JsonNode) -> serde_json::Value {
    match n {
        JsonNode::Object(entries) => serde_json::Value::Object(
            entries.iter().map(|e| (e.0.clone(), value_of_node(&e.1))).collect(),
        ),
        JsonNode::Array(items) => serde_json::Value::Array(items.iter().map(value_of_node).collect()),
        JsonNode::Text(s) => serde_json::Value::String(s.clone()),
        JsonNode::Number(s) => match s.parse::<serde_json::Number>() {
            Ok(num) => serde_json::Value::Number(num),
            Err(_) => serde_json::Value::Null,
        },
        JsonNode::Bool(b) => serde_json::Value::Bool(*b),
        JsonNode::Null => serde_json::Value::Null,
    }
}

/// Relies on `serde_json::from_str::<Value>`, `Error::line`, `Error::column`
/// and the error's rendering: all are functions of the text alone. The
/// round-trip clause relies on `Value` serialization being lossless: a value
/// obtained by parsing re-parses unchanged from its pretty rendering. The
/// column a parse failure cites lies within the input, so it is below
/// `usize::MAX`. The height clause relies on the deserializer's recursion
/// limit: nesting beyond 128 levels is rejected, so a parsed value is at
/// most that high.
#[verifier::external_body]
pub(crate) fn parse_json_text(text: &str) -> (r: Result<JsonNode, JsonDiag>)
    ensures
        r matches Ok(node) ==> json_tree_of(text@) == Some(node@),
        r matches Ok(node) ==> height_of(node@) <= 128,
        r is Err <==> json_tree_of(text@) is None,
        r matches Ok(node) ==> json_tree_of(json_pretty_of(node@)) == Some(node@),
        r matches Err(d) ==> (d.line as int == json_err_line_of(text@) && d.column as int
            == json_err_col_of(text@) && d.message@ == json_err_msg_of(text@) && d.column
            < usize::MAX),
{
    match serde_json::from_str::<serde_json::Value>(text) {
        Ok(v) => Ok(node_of_value(&v)),
        Err(e) => Err(JsonDiag { line: e.line(), column: e.column(), message: e.to_string() }),
    }
}

/// Relies on `serde_json::to_string_pretty`: a function of the value alone;
/// serializing a string-keyed tree cannot fail, so the fallback arm is
/// unreachable.
#[verifier::external_body]
pub(crate) fn pretty_print_node(n: &JsonNode) -> (r: String)
    ensures
        r@ == json_pretty_of(n@),
{
    match serde_json::to_string_pretty(&value_of_node(n)) {
        Ok(s) => s,
        Err(_) => String::new(),
    }
}

/// The caret marker under a failing line: `col` dashes then a caret.
pub open spec fn json_marker(col: int) -> Seq<char> {
    Seq::new(if col >= 0 {
        col as nat
    } else {
        0
    }, |i: int| '-').push('^')
}

/// The full diagnostic for a parse failure on `text`: position header, the
/// offending source line, the caret marker, then the parser's own message.
/// The marker uses the raw column count while the header shows it one-based.
pub open spec fn json_diag_message(text: Seq<char>) -> Seq<char> {
    let line = json_err_line_of(text);
    let col = json_err_col_of(text);
    let idx = if line >= 1 {
        line - 1
    } else {
        0
    };
    "Parse error on line "@ + dec_str(line as nat) + " column "@ + dec_str((col + 1) as nat)
        + ":\n"@ + line_at(text, idx) + "\n"@ + json_marker(col) + "\n"@ + json_err_msg_of(text)
}

/// What `format_json` returns for `text`, at the message level.
pub open spec fn format_json_spec(text: Seq<char>) -> Result<Seq<char>, Seq<char>> {
    match json_tree_of(text) {
        Some(v) => Ok(json_pretty_of(v)),
        None => Err(json_diag_message(text)),
    }
}

/// Pretty-prints `text` as JSON, or reports a caret-marker diagnostic that
/// cites the parser's line and column. Formatting a successful result again
/// returns it unchanged (the idempotence clause).
pub fn format_json(text: &str) -> (r: Result<String, FormatError>)
    ensures
        json_tree_of(text@) matches Some(v) ==> (r matches Ok(out) && out@ == json_pretty_of(v)),
        json_tree_of(text@) is None ==> (r matches Err(e) && e.kind == ErrorKind::ParseFailure
            && e.message@ == json_diag_message(text@) && (e.location matches Some(loc)
            && loc.line as int == json_err_line_of(text@) && loc.column as int == json_err_col_of(
            text@,
        ))),
        r matches Ok(out) ==> (json_tree_of(out@) matches Some(v2) && json_pretty_of(v2) == out@),
        match format_json_spec(text@) {
            Ok(x) => r matches Ok(o) && o@ == x,
            Err(m) => r matches Err(e) && e.message@ == m,
        },
{
    match parse_json_text(text) {
        Ok(node) => {
            let out = pretty_print_node(&node);
            Ok(out)
        },
        Err(d) => {
            let mut msg = String::from_str("Parse error on line ");
            push_dec(&mut msg, d.line);
            msg.append(" column ");
            push_dec(&mut msg, d.column + 1);
            msg.append(":\n");
            let chars = str_to_chars(text);
            let idx = if d.line >= 1 {
                d.line - 1
            } else {
                0
            };
            let line_chars = nth_line(&chars, idx);
            let line_str = chars_to_string(&line_chars);
            msg.append(line_str.as_str());
            msg.append("\n");
            let ghost pre = msg@;
            let mut i: usize = 0;
            while i < d.column
                invariant
                    i <= d.column,
                    msg@ =~= pre + Seq::new(i as nat, |k: int| '-'),
                decreases d.column - i,
            {
                push_char(&mut msg, '-');
                i += 1;
                assert(msg@ =~= pre + Seq::new(i as nat, |k: int| '-'));
            }
            push_char(&mut msg, '^');
            assert(msg@ =~= pre + json_marker(d.column as int));
            msg.append("\n");
            msg.append(d.message.as_str());
            assert(msg@ =~= json_diag_message(text@));
            Err(
                FormatError {
                    kind: ErrorKind::ParseFailure,
                    message: msg,
                    location: Some(ErrLocation { line: d.line, column: d.column }),
                },
            )
        },
    }
}

} // verus!
