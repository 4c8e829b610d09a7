//! The JSON structural summarizer and statistics collector: a recursive
//! walk that annotates every node with its type and size, plus an
//! independent pass counting objects, arrays, primitives, keys and depth.
//! Counters saturate at `usize::MAX` instead of wrapping.

use vstd::prelude::*;
use vstd::string::StrSliceExecFns;
use vstd::string::StringExecFns;
use crate::errors::ErrorKind;
use crate::errors::FormatError;
use crate::json::entries_height;
use crate::json::entries_view;
use crate::json::height_of;
use crate::json::items_height;
use crate::json::items_view;
use crate::json::node_view;
use crate::json::lemma_entries_height;
use crate::json::lemma_entries_view;
use crate::json::lemma_items_height;
use crate::json::lemma_items_view;
use crate::json::json_err_msg_of;
use crate::json::json_tree_of;
use crate::json::parse_json_text;
use crate::json::JsonNode;
use crate::json::JsonVal;
use crate::text::dec_str;
use crate::text::indent_sq;
use crate::text::eq_str;
use crate::text::push_dec;
use crate::text::push_indent;
use crate::text::chars_to_string;
use crate::text::str_to_chars;
use crate::text::trim_chars;
use crate::text::trim_of;

verus! {

/// The type annotation the summary prints for a node.
pub open spec fn type_name_of(v: JsonVal) -> Seq<char> {
    match v {
        JsonVal::Object(_) => "Object"@,
        JsonVal::Array(_) => "Array"@,
        JsonVal::Text(_) => "String"@,
        JsonVal::Number(_) => "Number"@,
        JsonVal::Bool(_) => "Boolean"@,
        JsonVal::Null => "null"@,
    }
}

/// The type annotation for `value`.
pub fn get_value_type(value: &JsonNode) -> (r: String)
    ensures
        r@ == type_name_of(value@),
{
    match value {
        JsonNode::Object(_) => String::from_str("Object"),
        JsonNode::Array(_) => String::from_str("Array"),
        JsonNode::Text(_) => String::from_str("String"),
        JsonNode::Number(_) => String::from_str("Number"),
        JsonNode::Bool(_) => String::from_str("Boolean"),
        JsonNode::Null => String::from_str("null"),
    }
}

/// Whether every element shares the first element's type.
pub open spec fn all_same_type(items: Seq<JsonVal>) -> bool {
    forall|i: int| 0 <= i < items.len() ==> type_name_of(#[trigger] items[i]) == type_name_of(
        items[0],
    )
}

/// The distinct type names present, in order of first appearance.
pub open spec fn distinct_types(items: Seq<JsonVal>) -> Seq<Seq<char>>
    decreases items.len(),
{
    if items.len() == 0 {
        Seq::empty()
    } else {
        let pre = distinct_types(items.drop_last());
        let tn = type_name_of(items.last());
        if pre.contains(tn) {
            pre
        } else {
            pre.push(tn)
        }
    }
}

/// The parts joined with a comma and a space.
pub open spec fn join_comma(parts: Seq<Seq<char>>) -> Seq<char>
    decreases parts.len(),
{
    if parts.len() == 0 {
        Seq::empty()
    } else if parts.len() == 1 {
        parts[0]
    } else {
        join_comma(parts.drop_last()) + ", "@ + parts.last()
    }
}

/// A string preview bounded at 50 characters: longer strings are cut at 47
/// characters and marked with an ellipsis.
pub open spec fn preview_of(s: Seq<char>) -> Seq<char> {
    if s.len() > 50 {
        s.subrange(0, 47) + "..."@
    } else {
        s
    }
}

/// The structural summary of `v` labelled `key` at `depth`: a header line
/// per node, object entries one level deeper, arrays annotated with their
/// element types and, for object elements, a sample of the first one.
pub open spec fn summary_of(v: JsonVal, key: Seq<char>, depth: nat) -> Seq<char>
    decreases v,
{
    let ind = indent_sq(depth);
    match v {
        JsonVal::Object(entries) => {
            let header = if depth == 0 {
                ind + "\u{1F4C1} "@ + key + " (Object with "@ + dec_str(entries.len())
                    + " keys)\n"@
            } else {
                ind + "\u{1F4C1} "@ + key + ": Object ("@ + dec_str(entries.len()) + " keys)\n"@
            };
            header + entries_summary(entries, depth + 1)
        },
        JsonVal::Array(items) => {
            let header = ind + "\u{1F4CB} "@ + key + ": Array ("@ + dec_str(items.len())
                + " items)\n"@;
            let type_line = if items.len() == 0 {
                Seq::<char>::empty()
            } else if all_same_type(items) {
                ind + "   \u{2514}\u{2500} All items are: "@ + type_name_of(items[0]) + "\n"@
            } else {
                ind + "   \u{2514}\u{2500} Mixed types: "@ + join_comma(distinct_types(items))
                    + "\n"@
            };
            let sample = if items.len() > 0 && items[0] is Object {
                ind + "   \u{2514}\u{2500} First item structure:\n"@ + summary_of(
                    items[0],
                    "item"@,
                    depth + 2,
                )
            } else {
                Seq::<char>::empty()
            };
            header + type_line + sample
        },
        JsonVal::Text(s) => ind + "\u{1F4DD} "@ + key + ": String ("@ + dec_str(s.len())
            + " chars) - \""@ + preview_of(s) + "\"\n"@,
        JsonVal::Number(s) => ind + "\u{1F522} "@ + key + ": Number - "@ + s + "\n"@,
        JsonVal::Bool(b) => ind + "\u{2705} "@ + key + ": Boolean - "@ + (if b {
            "true"@
        } else {
            "false"@
        }) + "\n"@,
        JsonVal::Null => ind + "\u{274C} "@ + key + ": null\n"@,
    }
}

/// The concatenated summaries of an object's entries, each under its key.
pub open spec fn entries_summary(entries: Seq<(Seq<char>, JsonVal)>, depth: nat) -> Seq<char>
    decreases entries,
{
    if entries.len() == 0 {
        Seq::<char>::empty()
    } else {
        summary_of(entries[0].1, entries[0].0, depth) + entries_summary(
            entries.drop_first(),
            depth,
        )
    }
}

proof fn lemma_entries_summary_append(a: Seq<(Seq<char>, JsonVal)>, b: Seq<(Seq<char>, JsonVal)>, depth: nat)
    ensures
        entries_summary(a + b, depth) == entries_summary(a, depth) + entries_summary(b, depth),
    decreases a.len(),
{
    if a.len() == 0 {
        assert(a + b =~= b);
        assert(entries_summary(a, depth) + entries_summary(b, depth) =~= entries_summary(
            b,
            depth,
        ));
    } else {
        assert((a + b).len() > 0);
        assert((a + b)[0] == a[0]);
        assert((a + b).drop_first() =~= a.drop_first() + b);
        lemma_entries_summary_append(a.drop_first(), b, depth);
        assert(entries_summary(a + b, depth) =~= entries_summary(a, depth) + entries_summary(
            b,
            depth,
        ));
    }
}

/// Whether the node is an object.
fn is_object_node(n: &JsonNode) -> (r: bool)
    ensures
        r == (n@ is Object),
{
    match n {
        JsonNode::Object(_) => true,
        _ => false,
    }
}

/// Renders the structural summary of `value` labelled `key` at `depth`.
/// The depth bound only rules out nesting no real tree reaches.
#[verifier::rlimit(100)]
pub fn generate_json_summary(value: &JsonNode, key: &str, depth: usize) -> (r: String)
    requires
        depth + 2 * height_of(value@) <= usize::MAX,
    ensures
        r@ == summary_of(value@, key@, depth as nat),
    decreases value,
{
    let mut out = String::new();
    push_indent(&mut out, depth);
    let ghost ind = indent_sq(depth as nat);
    match value {
        JsonNode::Object(entries) => {
            let ghost ev = entries_view(entries@);
            proof {
                lemma_entries_view(entries@);
                lemma_entries_height(ev);
            }
            out.append("\u{1F4C1} ");
            out.append(key);
            if depth == 0 {
                out.append(" (Object with ");
            } else {
                out.append(": Object (");
            }
            push_dec(&mut out, entries.len());
            out.append(" keys)\n");
            let ghost header = out@;
            let mut i: usize = 0;
            while i < entries.len()
                invariant
                    depth + 2 * height_of(value@) <= usize::MAX,
                    *value == JsonNode::Object(*entries),
                    value@ == JsonVal::Object(ev),
                    ev == entries_view(entries@),
                    ev.len() == entries@.len(),
                    forall|k: int|
                        0 <= k < entries@.len() ==> ev[k] == (
                        #[trigger] entries@[k].0@,
                        node_view(entries@[k].1),
                        ),
                    forall|k: int|
                        0 <= k < ev.len() ==> height_of(#[trigger] ev[k].1) <= entries_height(ev),
                    i <= entries@.len(),
                    out@ =~= header + entries_summary(ev.subrange(0, i as int), depth as nat + 1),
                decreases entries@.len() - i,
            {
                proof {
                    assert(height_of(value@) == 1 + entries_height(ev));
                    assert(height_of(ev[i as int].1) <= entries_height(ev));
                    assert(*value == JsonNode::Object(*entries));
                    assert(decreases_to!(*value => (*value)->Object_0));
                    assert((*value)->Object_0 == *entries);
                    assert(decreases_to!(*entries => entries@));
                    assert(decreases_to!(entries@ => entries@[i as int]));
                    assert(decreases_to!(entries@[i as int] => entries@[i as int].1));
                }
                let child = generate_json_summary(&entries[i].1, entries[i].0.as_str(), depth + 1);
                out.append(child.as_str());
                proof {
                    assert(ev.subrange(0, i + 1) =~= ev.subrange(0, i as int) + seq![
                        ev[i as int],
                    ]);
                    lemma_entries_summary_append(
                        ev.subrange(0, i as int),
                        seq![ev[i as int]],
                        depth as nat + 1,
                    );
                    assert(seq![ev[i as int]].drop_first() =~= Seq::<(Seq<char>, JsonVal)>::empty());
                    assert(entries_summary(Seq::<(Seq<char>, JsonVal)>::empty(), depth as nat + 1)
                        == Seq::<char>::empty());
                    assert(entries_summary(seq![ev[i as int]], depth as nat + 1) =~= summary_of(
                        ev[i as int].1,
                        ev[i as int].0,
                        depth as nat + 1,
                    ));
                }
                i += 1;
                assert(out@ =~= header + entries_summary(
                    ev.subrange(0, i as int),
                    depth as nat + 1,
                ));
            }
            proof {
                assert(ev.subrange(0, ev.len() as int) =~= ev);
            }
            assert(out@ =~= summary_of(value@, key@, depth as nat));
            out
        },
        JsonNode::Array(items) => {
            let ghost iv = items_view(items@);
            proof {
                lemma_items_view(items@);
                lemma_items_height(iv);
                assert(value@ == JsonVal::Array(iv));
            }
            out.append("\u{1F4CB} ");
            out.append(key);
            out.append(": Array (");
            push_dec(&mut out, items.len());
            out.append(" items)\n");
            let ghost header = out@;
            proof {
                assert(header =~= ind + "\u{1F4CB} "@ + key@ + ": Array ("@ + dec_str(
                    items@.len() as nat,
                ) + " items)\n"@);
            }
            if items.len() > 0 {
                let first_type = get_value_type(&items[0]);
                let mut same = true;
                let mut i: usize = 1;
                while i < items.len()
                    invariant
                        items@.len() > 0,
                        iv == items_view(items@),
                        iv.len() == items@.len(),
                        forall|k: int|
                            0 <= k < items@.len() ==> iv[k] == node_view(#[trigger] items@[k]),
                        first_type@ == type_name_of(iv[0]),
                        1 <= i <= items@.len(),
                        same == (forall|k: int|
                            0 <= k < i ==> type_name_of(#[trigger] iv[k]) == type_name_of(iv[0])),
                    decreases items@.len() - i,
                {
                    let tn = get_value_type(&items[i]);
                    if !eq_str(tn.as_str(), first_type.as_str()) {
                        same = false;
                    }
                    i += 1;
                }
                if same {
                    push_indent(&mut out, depth);
                    out.append("   \u{2514}\u{2500} All items are: ");
                    out.append(first_type.as_str());
                    out.append("\n");
                    assert(out@ =~= header + (ind + "   \u{2514}\u{2500} All items are: "@
                        + type_name_of(iv[0]) + "\n"@));
                } else {
                    push_indent(&mut out, depth);
                    out.append("   \u{2514}\u{2500} Mixed types: ");
                    let mut seen: Vec<String> = Vec::new();
                    let ghost mut seenv: Seq<Seq<char>> = Seq::empty();
                    let mut i2: usize = 0;
                    while i2 < items.len()
                        invariant
                            iv == items_view(items@),
                            iv.len() == items@.len(),
                            forall|k: int|
                                0 <= k < items@.len() ==> iv[k] == node_view(#[trigger] items@[k]),
                            i2 <= items@.len(),
                            seenv == distinct_types(iv.subrange(0, i2 as int)),
                            seen@.len() == seenv.len(),
                            forall|k: int| 0 <= k < seenv.len() ==> #[trigger] seen@[k]@ == seenv[k],
                        decreases items@.len() - i2,
                    {
                        let tn = get_value_type(&items[i2]);
                        let mut found = false;
                        let mut k: usize = 0;
                        while k < seen.len()
                            invariant
                                seen@.len() == seenv.len(),
                                forall|q: int|
                                    0 <= q < seenv.len() ==> #[trigger] seen@[q]@ == seenv[q],
                                k <= seenv.len(),
                                tn@ == type_name_of(iv[i2 as int]),
                                i2 < iv.len(),
                                found == (exists|q: int| 0 <= q < k && seenv[q] == tn@),
                            decreases seenv.len() - k,
                        {
                            if eq_str(seen[k].as_str(), tn.as_str()) {
                                found = true;
                            }
                            k += 1;
                        }
                        proof {
                            assert(found == seenv.contains(tn@));
                            assert(iv.subrange(0, i2 + 1).drop_last() =~= iv.subrange(
                                0,
                                i2 as int,
                            ));
                            assert(iv.subrange(0, i2 + 1).last() == iv[i2 as int]);
                        }
                        if !found {
                            seen.push(tn);
                            proof {
                                seenv = seenv.push(tn@);
                            }
                        }
                        i2 += 1;
                        assert(seenv == distinct_types(iv.subrange(0, i2 as int)));
                    }
                    proof {
                        assert(iv.subrange(0, iv.len() as int) =~= iv);
                    }
                    let ghost mid = out@;
                    let mut k2: usize = 0;
                    while k2 < seen.len()
                        invariant
                            seen@.len() == seenv.len(),
                            forall|q: int| 0 <= q < seenv.len() ==> #[trigger] seen@[q]@ == seenv[q],
                            k2 <= seenv.len(),
                            out@ =~= mid + join_comma(seenv.subrange(0, k2 as int)),
                        decreases seenv.len() - k2,
                    {
                        if k2 > 0 {
                            out.append(", ");
                        }
                        out.append(seen[k2].as_str());
                        proof {
                            assert(seenv.subrange(0, k2 + 1).drop_last() =~= seenv.subrange(
                                0,
                                k2 as int,
                            ));
                            assert(seenv.subrange(0, k2 + 1).last() == seenv[k2 as int]);
                            if k2 == 0 {
                                assert(join_comma(seenv.subrange(0, 1)) == seenv[0]);
                            }
                        }
                        k2 += 1;
                        assert(out@ =~= mid + join_comma(seenv.subrange(0, k2 as int)));
                    }
                    proof {
                        assert(seenv.subrange(0, seenv.len() as int) =~= seenv);
                    }
                    out.append("\n");
                    assert(out@ =~= header + (ind + "   \u{2514}\u{2500} Mixed types: "@
                        + join_comma(distinct_types(iv)) + "\n"@));
                }
                let ghost after_types = out@;
                let is_obj = is_object_node(&items[0]);
                if is_obj {
                    push_indent(&mut out, depth);
                    out.append("   \u{2514}\u{2500} First item structure:\n");
                    proof {
                        assert(height_of(value@) == 1 + items_height(iv));
                        assert(height_of(iv[0]) <= items_height(iv));
                        assert(*value == JsonNode::Array(*items));
                        assert(decreases_to!(*value => (*value)->Array_0));
                        assert((*value)->Array_0 == *items);
                        assert(decreases_to!(*items => items@));
                        assert(decreases_to!(items@ => items@[0]));
                    }
                    let child = generate_json_summary(&items[0], "item", depth + 2);
                    out.append(child.as_str());
                    assert(out@ =~= after_types + (ind
                        + "   \u{2514}\u{2500} First item structure:\n"@ + summary_of(
                        iv[0],
                        "item"@,
                        depth as nat + 2,
                    )));
                }
            }
            assert(out@ =~= summary_of(value@, key@, depth as nat));
            out
        },
        JsonNode::Text(s) => {
            let cl = s.as_str().unicode_len();
            out.append("\u{1F4DD} ");
            out.append(key);
            out.append(": String (");
            push_dec(&mut out, cl);
            out.append(" chars) - \"");
            if cl > 50 {
                let p = s.as_str().substring_char(0, 47);
                out.append(p);
                out.append("...");
            } else {
                out.append(s.as_str());
            }
            out.append("\"\n");
            assert(out@ =~= summary_of(value@, key@, depth as nat));
            out
        },
        JsonNode::Number(s) => {
            out.append("\u{1F522} ");
            out.append(key);
            out.append(": Number - ");
            out.append(s.as_str());
            out.append("\n");
            assert(out@ =~= summary_of(value@, key@, depth as nat));
            out
        },
        JsonNode::Bool(b) => {
            out.append("\u{2705} ");
            out.append(key);
            out.append(": Boolean - ");
            if *b {
                out.append("true");
            } else {
                out.append("false");
            }
            out.append("\n");
            assert(out@ =~= summary_of(value@, key@, depth as nat));
            out
        },
        JsonNode::Null => {
            out.append("\u{274C} ");
            out.append(key);
            out.append(": null\n");
            assert(out@ =~= summary_of(value@, key@, depth as nat));
            out
        },
    }
}

/// The aggregate counters of a tree, as unbounded naturals.
pub struct StatsView {
    pub objects: nat,
    pub arrays: nat,
    pub primitives: nat,
    pub total_keys: nat,
}

pub open spec fn sv_zero() -> StatsView {
    StatsView { objects: 0, arrays: 0, primitives: 0, total_keys: 0 }
}

pub open spec fn sv_add(a: StatsView, b: StatsView) -> StatsView {
    StatsView {
        objects: a.objects + b.objects,
        arrays: a.arrays + b.arrays,
        primitives: a.primitives + b.primitives,
        total_keys: a.total_keys + b.total_keys,
    }
}

/// The exact counts over `v`: objects, arrays, scalar leaves, and the sum
/// of key counts across all objects.
pub open spec fn stats_of(v: JsonVal) -> StatsView
    decreases v,
{
    match v {
        JsonVal::Object(entries) => {
            let c = entries_stats(entries);
            StatsView {
                objects: c.objects + 1,
                arrays: c.arrays,
                primitives: c.primitives,
                total_keys: c.total_keys + entries.len(),
            }
        },
        JsonVal::Array(items) => {
            let c = items_stats(items);
            StatsView {
                objects: c.objects,
                arrays: c.arrays + 1,
                primitives: c.primitives,
                total_keys: c.total_keys,
            }
        },
        _ => StatsView { objects: 0, arrays: 0, primitives: 1, total_keys: 0 },
    }
}

pub open spec fn entries_stats(entries: Seq<(Seq<char>, JsonVal)>) -> StatsView
    decreases entries,
{
    if entries.len() == 0 {
        sv_zero()
    } else {
        sv_add(stats_of(entries[0].1), entries_stats(entries.drop_first()))
    }
}

pub open spec fn items_stats(items: Seq<JsonVal>) -> StatsView
    decreases items,
{
    if items.len() == 0 {
        sv_zero()
    } else {
        sv_add(stats_of(items[0]), items_stats(items.drop_first()))
    }
}

/// A count as the saturating `usize` arithmetic of the collector reports it.
pub open spec fn cap_usize(x: nat) -> nat {
    if x > usize::MAX as nat {
        usize::MAX as nat
    } else {
        x
    }
}

pub open spec fn max2(a: nat, b: nat) -> nat {
    if a >= b {
        a
    } else {
        b
    }
}

/// The deepest node position reached when walking `v` starting at depth
/// `d`, with the saturating depth increment the collector uses.
pub open spec fn stat_depth(v: JsonVal, d: nat) -> nat
    decreases v,
{
    match v {
        JsonVal::Object(entries) => max2(d, entries_depth(entries, cap_usize(d + 1))),
        JsonVal::Array(items) => max2(d, items_depth(items, cap_usize(d + 1))),
        _ => d,
    }
}

pub open spec fn entries_depth(entries: Seq<(Seq<char>, JsonVal)>, d: nat) -> nat
    decreases entries,
{
    if entries.len() == 0 {
        0
    } else {
        max2(stat_depth(entries[0].1, d), entries_depth(entries.drop_first(), d))
    }
}

pub open spec fn items_depth(items: Seq<JsonVal>, d: nat) -> nat
    decreases items,
{
    if items.len() == 0 {
        0
    } else {
        max2(stat_depth(items[0], d), items_depth(items.drop_first(), d))
    }
}

proof fn lemma_entries_stats_append(a: Seq<(Seq<char>, JsonVal)>, b: Seq<(Seq<char>, JsonVal)>)
    ensures
        entries_stats(a + b) == sv_add(entries_stats(a), entries_stats(b)),
    decreases a.len(),
{
    if a.len() == 0 {
        assert(a + b =~= b);
    } else {
        assert((a + b)[0] == a[0]);
        assert((a + b).drop_first() =~= a.drop_first() + b);
        lemma_entries_stats_append(a.drop_first(), b);
    }
}

proof fn lemma_items_stats_append(a: Seq<JsonVal>, b: Seq<JsonVal>)
    ensures
        items_stats(a + b) == sv_add(items_stats(a), items_stats(b)),
    decreases a.len(),
{
    if a.len() == 0 {
        assert(a + b =~= b);
    } else {
        assert((a + b)[0] == a[0]);
        assert((a + b).drop_first() =~= a.drop_first() + b);
        lemma_items_stats_append(a.drop_first(), b);
    }
}

proof fn lemma_entries_depth_append(a: Seq<(Seq<char>, JsonVal)>, b: Seq<(Seq<char>, JsonVal)>, d: nat)
    ensures
        entries_depth(a + b, d) == max2(entries_depth(a, d), entries_depth(b, d)),
    decreases a.len(),
{
    if a.len() == 0 {
        assert(a + b =~= b);
    } else {
        assert((a + b)[0] == a[0]);
        assert((a + b).drop_first() =~= a.drop_first() + b);
        lemma_entries_depth_append(a.drop_first(), b, d);
    }
}

proof fn lemma_items_depth_append(a: Seq<JsonVal>, b: Seq<JsonVal>, d: nat)
    ensures
        items_depth(a + b, d) == max2(items_depth(a, d), items_depth(b, d)),
    decreases a.len(),
{
    if a.len() == 0 {
        assert(a + b =~= b);
    } else {
        assert((a + b)[0] == a[0]);
        assert((a + b).drop_first() =~= a.drop_first() + b);
        lemma_items_depth_append(a.drop_first(), b, d);
    }
}

/// The aggregate statistics block: counters saturate at `usize::MAX`.
#[derive(PartialEq, Eq, Structural, Clone, Copy, Debug)]
pub struct JsonStats {
    pub objects: usize,
    pub arrays: usize,
    pub primitives: usize,
    pub max_depth: usize,
    pub total_keys: usize,
}

proof fn lemma_cap_add(x: nat, y: nat)
    ensures
        cap_usize(cap_usize(x) + y) == cap_usize(x + y),
{
}

fn sat_add(a: usize, b: usize) -> (r: usize)
    ensures
        r as nat == cap_usize(a as nat + b as nat),
{
    if a <= usize::MAX - b {
        a + b
    } else {
        usize::MAX
    }
}

/// Accumulates the counts of `value` into `stats`, visiting every node at
/// its depth.
#[verifier::rlimit(100)]
pub fn calculate_stats_recursive(value: &JsonNode, stats: &mut JsonStats, depth: usize)
    ensures
        final(stats).objects as nat == cap_usize(
            old(stats).objects as nat + stats_of(value@).objects,
        ),
        final(stats).arrays as nat == cap_usize(
            old(stats).arrays as nat + stats_of(value@).arrays,
        ),
        final(stats).primitives as nat == cap_usize(
            old(stats).primitives as nat + stats_of(value@).primitives,
        ),
        final(stats).total_keys as nat == cap_usize(
            old(stats).total_keys as nat + stats_of(value@).total_keys,
        ),
        final(stats).max_depth as nat == max2(
            old(stats).max_depth as nat,
            stat_depth(value@, depth as nat),
        ),
    decreases value,
{
    if stats.max_depth < depth {
        stats.max_depth = depth;
    }
    match value {
        JsonNode::Object(entries) => {
            let ghost ev = entries_view(entries@);
            proof {
                lemma_entries_view(entries@);
            }
            stats.objects = sat_add(stats.objects, 1);
            stats.total_keys = sat_add(stats.total_keys, entries.len());
            let d1 = sat_add(depth, 1);
            let ghost base = *stats;
            let mut i: usize = 0;
            while i < entries.len()
                invariant
                    *value == JsonNode::Object(*entries),
                    value@ == JsonVal::Object(ev),
                    ev == entries_view(entries@),
                    ev.len() == entries@.len(),
                    forall|k: int|
                        0 <= k < entries@.len() ==> #[trigger] ev[k] == (
                        entries@[k].0@,
                        node_view(entries@[k].1),
                        ),
                    i <= entries@.len(),
                    d1 as nat == cap_usize(depth as nat + 1),
                    stats.objects as nat == cap_usize(
                        base.objects as nat + entries_stats(ev.subrange(0, i as int)).objects,
                    ),
                    stats.arrays as nat == cap_usize(
                        base.arrays as nat + entries_stats(ev.subrange(0, i as int)).arrays,
                    ),
                    stats.primitives as nat == cap_usize(
                        base.primitives as nat + entries_stats(ev.subrange(0, i as int)).primitives,
                    ),
                    stats.total_keys as nat == cap_usize(
                        base.total_keys as nat + entries_stats(ev.subrange(0, i as int)).total_keys,
                    ),
                    stats.max_depth as nat == max2(
                        base.max_depth as nat,
                        entries_depth(ev.subrange(0, i as int), d1 as nat),
                    ),
                decreases entries@.len() - i,
            {
                proof {
                    assert(decreases_to!(*value => (*value)->Object_0));
                    assert((*value)->Object_0 == *entries);
                    assert(decreases_to!(*entries => entries@));
                    assert(decreases_to!(entries@ => entries@[i as int]));
                    assert(decreases_to!(entries@[i as int] => entries@[i as int].1));
                }
                calculate_stats_recursive(&entries[i].1, stats, d1);
                proof {
                    assert(ev[i as int].1 == node_view(entries@[i as int].1));
                    assert(ev.subrange(0, i + 1) =~= ev.subrange(0, i as int) + seq![
                        ev[i as int],
                    ]);
                    assert(seq![ev[i as int]].drop_first() =~= Seq::<(Seq<char>, JsonVal)>::empty());
                    assert(entries_stats(Seq::<(Seq<char>, JsonVal)>::empty()) == sv_zero());
                    assert(entries_depth(Seq::<(Seq<char>, JsonVal)>::empty(), d1 as nat) == 0);
                    lemma_entries_stats_append(ev.subrange(0, i as int), seq![ev[i as int]]);
                    lemma_entries_depth_append(
                        ev.subrange(0, i as int),
                        seq![ev[i as int]],
                        d1 as nat,
                    );
                    let pre = entries_stats(ev.subrange(0, i as int));
                    let ch = stats_of(ev[i as int].1);
                    assert(entries_stats(seq![ev[i as int]]) == sv_add(ch, sv_zero()));
                    assert(entries_depth(seq![ev[i as int]], d1 as nat) == max2(stat_depth(ev[i as int].1, d1 as nat), 0));
                    lemma_cap_add(base.objects as nat + pre.objects, ch.objects);
                    lemma_cap_add(base.arrays as nat + pre.arrays, ch.arrays);
                    lemma_cap_add(base.primitives as nat + pre.primitives, ch.primitives);
                    lemma_cap_add(base.total_keys as nat + pre.total_keys, ch.total_keys);
                }
                i += 1;
            }
            proof {
                assert(ev.subrange(0, ev.len() as int) =~= ev);
            }
        },
        JsonNode::Array(items) => {
            let ghost iv = items_view(items@);
            proof {
                lemma_items_view(items@);
            }
            stats.arrays = sat_add(stats.arrays, 1);
            let d1 = sat_add(depth, 1);
            let ghost base = *stats;
            let mut i: usize = 0;
            while i < items.len()
                invariant
                    *value == JsonNode::Array(*items),
                    value@ == JsonVal::Array(iv),
                    iv == items_view(items@),
                    iv.len() == items@.len(),
                    forall|k: int| 0 <= k < items@.len() ==> #[trigger] iv[k] == node_view(items@[k]),
                    i <= items@.len(),
                    d1 as nat == cap_usize(depth as nat + 1),
                    stats.objects as nat == cap_usize(
                        base.objects as nat + items_stats(iv.subrange(0, i as int)).objects,
                    ),
                    stats.arrays as nat == cap_usize(
                        base.arrays as nat + items_stats(iv.subrange(0, i as int)).arrays,
                    ),
                    stats.primitives as nat == cap_usize(
                        base.primitives as nat + items_stats(iv.subrange(0, i as int)).primitives,
                    ),
                    stats.total_keys as nat == cap_usize(
                        base.total_keys as nat + items_stats(iv.subrange(0, i as int)).total_keys,
                    ),
                    stats.max_depth as nat == max2(
                        base.max_depth as nat,
                        items_depth(iv.subrange(0, i as int), d1 as nat),
                    ),
                decreases items@.len() - i,
            {
                proof {
                    assert(decreases_to!(*value => (*value)->Array_0));
                    assert((*value)->Array_0 == *items);
                    assert(decreases_to!(*items => items@));
                    assert(decreases_to!(items@ => items@[i as int]));
                }
                calculate_stats_recursive(&items[i], stats, d1);
                proof {
                    assert(iv.subrange(0, i + 1) =~= iv.subrange(0, i as int) + seq![iv[i as int]]);
                    assert(seq![iv[i as int]].drop_first() =~= Seq::<JsonVal>::empty());
                    assert(items_stats(Seq::<JsonVal>::empty()) == sv_zero());
                    assert(items_depth(Seq::<JsonVal>::empty(), d1 as nat) == 0);
                    lemma_items_stats_append(iv.subrange(0, i as int), seq![iv[i as int]]);
                    lemma_items_depth_append(iv.subrange(0, i as int), seq![iv[i as int]], d1 as nat);
                    let pre = items_stats(iv.subrange(0, i as int));
                    let ch = stats_of(iv[i as int]);
                    assert(items_stats(seq![iv[i as int]]) == sv_add(ch, sv_zero()));
                    assert(items_depth(seq![iv[i as int]], d1 as nat) == max2(stat_depth(iv[i as int], d1 as nat), 0));
                    lemma_cap_add(base.objects as nat + pre.objects, ch.objects);
                    lemma_cap_add(base.arrays as nat + pre.arrays, ch.arrays);
                    lemma_cap_add(base.primitives as nat + pre.primitives, ch.primitives);
                    lemma_cap_add(base.total_keys as nat + pre.total_keys, ch.total_keys);
                }
                i += 1;
            }
            proof {
                assert(iv.subrange(0, iv.len() as int) =~= iv);
            }
        },
        _ => {
            stats.primitives = sat_add(stats.primitives, 1);
        },
    }
}

/// The counters for `value`, counted from depth zero.
pub fn calculate_json_stats(value: &JsonNode) -> (r: JsonStats)
    ensures
        r.objects as nat == cap_usize(stats_of(value@).objects),
        r.arrays as nat == cap_usize(stats_of(value@).arrays),
        r.primitives as nat == cap_usize(stats_of(value@).primitives),
        r.total_keys as nat == cap_usize(stats_of(value@).total_keys),
        r.max_depth as nat == stat_depth(value@, 0),
{
    let mut stats = JsonStats { objects: 0, arrays: 0, primitives: 0, max_depth: 0, total_keys: 0 };
    calculate_stats_recursive(value, &mut stats, 0);
    stats
}

/// The statistics block appended to every report, rendered from the
/// saturating counters.
pub open spec fn stats_block(v: JsonVal) -> Seq<char> {
    "\n\nStatistics:\n-----------\n"@ + "Total objects: "@ + dec_str(cap_usize(stats_of(v).objects))
        + "\n"@ + "Total arrays: "@ + dec_str(cap_usize(stats_of(v).arrays)) + "\n"@
        + "Total primitive values: "@ + dec_str(cap_usize(stats_of(v).primitives)) + "\n"@
        + "Maximum depth: "@ + dec_str(stat_depth(v, 0)) + "\n"@ + "Total keys: "@ + dec_str(
        cap_usize(stats_of(v).total_keys),
    ) + "\n"@
}

/// The full report: a fixed header, the structural summary of the root,
/// then the statistics block.
pub open spec fn summary_report(v: JsonVal) -> Seq<char> {
    "JSON Structure Summary:\n"@ + "======================\n\n"@ + summary_of(v, "root"@, 0)
        + stats_block(v)
}

/// What `summarize_json` returns for `text`, at the message level.
pub open spec fn summarize_json_spec(text: Seq<char>) -> Result<Seq<char>, Seq<char>> {
    let t = trim_of(text);
    if t.len() == 0 {
        Err("Empty JSON input"@)
    } else {
        match json_tree_of(t) {
            None => Err("Invalid JSON: "@ + json_err_msg_of(t)),
            Some(v) => Ok(summary_report(v)),
        }
    }
}

/// Summarizes the trimmed input as a structural report with statistics;
/// empty input and invalid JSON fail with the cited messages.
pub fn summarize_json(text: &str) -> (r: Result<String, FormatError>)
    ensures
        match summarize_json_spec(text@) {
            Ok(x) => r matches Ok(o) && o@ == x,
            Err(m) => r matches Err(e) && e.message@ == m,
        },
        trim_of(text@).len() == 0 ==> (r matches Err(e) && e.kind == ErrorKind::InvalidInput
            && e.location is None),
        trim_of(text@).len() > 0 && json_tree_of(trim_of(text@)) is None ==> (r matches Err(e)
            && e.kind == ErrorKind::ParseFailure),
{
    let chars = str_to_chars(text);
    let trimmed_chars = trim_chars(&chars);
    if trimmed_chars.len() == 0 {
        return Err(
            FormatError::new(ErrorKind::InvalidInput, String::from_str("Empty JSON input")),
        );
    }
    let trimmed = chars_to_string(&trimmed_chars);
    match parse_json_text(trimmed.as_str()) {
        Err(d) => {
            let mut msg = String::from_str("Invalid JSON: ");
            msg.append(d.message.as_str());
            Err(FormatError::new(ErrorKind::ParseFailure, msg))
        },
        Ok(node) => {
            let summary = generate_json_summary(&node, "root", 0);
            let mut result = String::from_str("JSON Structure Summary:\n");
            result.append("======================\n\n");
            result.append(summary.as_str());
            let stats = calculate_json_stats(&node);
            result.append("\n\nStatistics:\n-----------\n");
            result.append("Total objects: ");
            push_dec(&mut result, stats.objects);
            result.append("\n");
            result.append("Total arrays: ");
            push_dec(&mut result, stats.arrays);
            result.append("\n");
            result.append("Total primitive values: ");
            push_dec(&mut result, stats.primitives);
            result.append("\n");
            result.append("Maximum depth: ");
            push_dec(&mut result, stats.max_depth);
            result.append("\n");
            result.append("Total keys: ");
            push_dec(&mut result, stats.total_keys);
            result.append("\n");
            assert(result@ =~= summary_report(node@));
            Ok(result)
        },
    }
}

} // verus!
