//! The JWT structural decoder: a token splits on dots into exactly three
//! segments; the first two are base64url-decoded and parsed as JSON, the
//! third is reported as an opaque reference — no signature is ever
//! verified, and the output says so.

use vstd::prelude::*;
use vstd::string::StringExecFns;
use vstd::utf8::decode_utf8;
use vstd::utf8::valid_utf8;
use crate::codec::b64_decode;
use crate::codec::b64_decode_err_of;
use crate::codec::b64_decode_of;
use crate::codec::string_from_utf8;
use crate::codec::utf8_err_of;
use crate::errors::ErrorKind;
use crate::errors::FormatError;
use crate::json::json_err_msg_of;
use crate::json::json_pretty_of;
use crate::json::json_tree_of;
use crate::json::entries_view;
use crate::json::node_view;
use crate::json::lemma_entries_view;
use crate::json::parse_json_text;
use crate::json::pretty_print_node;
use crate::json::JsonNode;
use crate::json::JsonVal;
use crate::text::first_idx_of;
use crate::text::lemma_first_idx_of_is;
use crate::text::str_to_chars;
use crate::text::trim_chars;
use crate::text::trim_of;
use crate::text::chars_to_string;

verus! {

/// The segments of `s` split on `'.'`, empty segments kept.
pub open spec fn split_dots(s: Seq<char>) -> Seq<Seq<char>>
    decreases s.len(),
{
    let j = first_idx_of(s, '.');
    if 0 <= j < s.len() {
        seq![s.subrange(0, j)] + split_dots(s.subrange(j + 1, s.len() as int))
    } else {
        seq![s]
    }
}

fn split_from(v: &Vec<char>, start: usize) -> (r: Vec<Vec<char>>)
    requires
        start <= v@.len(),
    ensures
        r@.len() == split_dots(v@.subrange(start as int, v@.len() as int)).len(),
        forall|k: int|
            0 <= k < r@.len() ==> #[trigger] r@[k]@ == split_dots(
                v@.subrange(start as int, v@.len() as int),
            )[k],
    decreases v@.len() - start,
{
    let ghost s = v@.subrange(start as int, v@.len() as int);
    let n = v.len();
    let mut j = start;
    while j < n && v[j] != '.'
        invariant
            start <= j <= n,
            n == v@.len(),
            forall|k: int| start <= k < j ==> v@[k] != '.',
        decreases n - j,
    {
        j += 1;
    }
    proof {
        assert forall|k: int| 0 <= k < j - start implies s[k] != '.' by {
            assert(s[k] == v@[k + start]);
        }
        lemma_first_idx_of_is(s, '.', j - start);
    }
    let mut seg: Vec<char> = Vec::new();
    let mut i = start;
    while i < j
        invariant
            start <= i <= j <= v@.len(),
            seg@ =~= v@.subrange(start as int, i as int),
        decreases j - i,
    {
        seg.push(v[i]);
        i += 1;
    }
    if j < n {
        proof {
            assert(seg@ =~= s.subrange(0, j - start));
            assert(v@.subrange(j + 1, n as int) =~= s.subrange(j - start + 1, s.len() as int));
        }
        let mut rest = split_from(v, j + 1);
        rest.insert(0, seg);
        proof {
            assert forall|k: int|
                0 <= k < rest@.len() implies #[trigger] rest@[k]@ == split_dots(s)[k] by {
                if k > 0 {
                    assert(split_dots(s)[k] == split_dots(
                        s.subrange(j - start + 1, s.len() as int),
                    )[k - 1]);
                }
            }
        }
        rest
    } else {
        proof {
            assert(seg@ =~= s);
        }
        let mut r: Vec<Vec<char>> = Vec::new();
        r.push(seg);
        r
    }
}

/// The segment padded with `'='` to a multiple of four characters.
pub open spec fn pad_b64(s: Seq<char>) -> Seq<char> {
    if s.len() % 4 == 0 {
        s
    } else {
        s + Seq::new((4 - s.len() % 4) as nat, |i: int| '=')
    }
}

/// The URL-safe alphabet characters replaced by their standard ones.
pub open spec fn b64_urlsafe_to_std(s: Seq<char>) -> Seq<char> {
    s.map_values(
        |c: char|
            if c == '-' {
                '+'
            } else if c == '_' {
                '/'
            } else {
                c
            },
    )
}

/// What decoding one JWT segment yields: pad, substitute, base64-decode,
/// read as UTF-8, parse as JSON; each step failing gives its message.
pub open spec fn jwt_part_spec(seg: Seq<char>) -> Result<JsonVal, Seq<char>> {
    let standard = b64_urlsafe_to_std(pad_b64(seg));
    match b64_decode_of(standard) {
        None => Err("Invalid base64 encoding: "@ + b64_decode_err_of(standard)),
        Some(bytes) => if !valid_utf8(bytes) {
            Err("Invalid UTF-8 in JWT part: "@ + utf8_err_of(bytes))
        } else {
            match json_tree_of(decode_utf8(bytes)) {
                None => Err("Invalid JSON in JWT part: "@ + json_err_msg_of(decode_utf8(bytes))),
                Some(v) => Ok(v),
            }
        },
    }
}

/// Base64url-decodes one JWT segment and parses it as JSON.
pub fn decode_jwt_part(encoded: &str) -> (r: Result<JsonNode, String>)
    ensures
        jwt_part_spec(encoded@) matches Ok(v) ==> (r matches Ok(node) && node@ == v),
        jwt_part_spec(encoded@) matches Err(m) ==> (r matches Err(out) && out@ == m),
{
    let chars = str_to_chars(encoded);
    let mut padded = chars;
    let rem = padded.len() % 4;
    if rem != 0 {
        let need = 4 - rem;
        let mut k: usize = 0;
        while k < need
            invariant
                k <= need,
                padded@ =~= encoded@ + Seq::new(k as nat, |i: int| '='),
            decreases need - k,
        {
            padded.push('=');
            k += 1;
            assert(padded@ =~= encoded@ + Seq::new(k as nat, |i: int| '='));
        }
    }
    proof {
        assert(padded@ =~= pad_b64(encoded@));
    }
    let mut subst: Vec<char> = Vec::new();
    let mut i: usize = 0;
    while i < padded.len()
        invariant
            i <= padded@.len(),
            subst@.len() == i,
            forall|k: int|
                0 <= k < i ==> #[trigger] subst@[k] == (if padded@[k] == '-' {
                    '+'
                } else if padded@[k] == '_' {
                    '/'
                } else {
                    padded@[k]
                }),
        decreases padded@.len() - i,
    {
        let c = padded[i];
        let c2 = if c == '-' {
            '+'
        } else if c == '_' {
            '/'
        } else {
            c
        };
        subst.push(c2);
        i += 1;
    }
    proof {
        assert(subst@ =~= b64_urlsafe_to_std(padded@));
    }
    let standard = chars_to_string(&subst);
    match b64_decode(standard.as_str()) {
        Err(m) => {
            let mut msg = String::from_str("Invalid base64 encoding: ");
            msg.append(m.as_str());
            Err(msg)
        },
        Ok(bytes) => {
            match string_from_utf8(bytes) {
                Err(m) => {
                    let mut msg = String::from_str("Invalid UTF-8 in JWT part: ");
                    msg.append(m.as_str());
                    Err(msg)
                },
                Ok(decoded) => {
                    match parse_json_text(decoded.as_str()) {
                        Err(d) => {
                            let mut msg = String::from_str("Invalid JSON in JWT part: ");
                            msg.append(d.message.as_str());
                            Err(msg)
                        },
                        Ok(node) => Ok(node),
                    }
                },
            }
        },
    }
}

/// The object the decoder assembles: decoded header and payload, a note
/// carrying the raw signature, and the three raw segments for reference.
pub open spec fn jwt_result_val(h: JsonVal, p: JsonVal, segs: Seq<Seq<char>>) -> JsonVal {
    JsonVal::Object(
        seq![
            ("header"@, h),
            ("payload"@, p),
            ("signature"@, JsonVal::Text("Signature (base64): "@ + segs[2])),
            (
                "token_parts"@,
                JsonVal::Object(
                    seq![
                        ("header"@, JsonVal::Text(segs[0])),
                        ("payload"@, JsonVal::Text(segs[1])),
                        ("signature"@, JsonVal::Text(segs[2])),
                    ],
                ),
            ),
        ],
    )
}

/// What `parse_jwt` returns for `token`, at the message level.
pub open spec fn parse_jwt_spec(token: Seq<char>) -> Result<Seq<char>, Seq<char>> {
    let t = trim_of(token);
    if t.len() == 0 {
        Err("Empty JWT token"@)
    } else if split_dots(t).len() != 3 {
        Err("Invalid JWT format. Expected 3 parts separated by dots."@)
    } else {
        match jwt_part_spec(split_dots(t)[0]) {
            Err(m) => Err("Failed to decode JWT header: "@ + m),
            Ok(h) => match jwt_part_spec(split_dots(t)[1]) {
                Err(m) => Err("Failed to decode JWT payload: "@ + m),
                Ok(p) => Ok(json_pretty_of(jwt_result_val(h, p, split_dots(t)))),
            },
        }
    }
}

/// Decodes a JWT structurally: header and payload as JSON, the signature
/// surfaced but never verified, all rendered as pretty JSON.
pub fn parse_jwt(token: &str) -> (r: Result<String, FormatError>)
    ensures
        match parse_jwt_spec(token@) {
            Ok(x) => r matches Ok(o) && o@ == x,
            Err(m) => r matches Err(e) && e.message@ == m && e.location is None,
        },
        trim_of(token@).len() == 0 ==> (r matches Err(e) && e.kind == ErrorKind::InvalidInput),
        trim_of(token@).len() > 0 ==> (r matches Err(e) ==> e.kind == ErrorKind::ParseFailure),
{
    let chars0 = str_to_chars(token);
    let trimmed = trim_chars(&chars0);
    let ghost t = trim_of(token@);
    if trimmed.len() == 0 {
        return Err(FormatError::new(ErrorKind::InvalidInput, String::from_str("Empty JWT token")));
    }
    let parts = split_from(&trimmed, 0);
    proof {
        assert(trimmed@.subrange(0, trimmed@.len() as int) =~= t);
    }
    if parts.len() != 3 {
        return Err(
            FormatError::new(
                ErrorKind::ParseFailure,
                String::from_str("Invalid JWT format. Expected 3 parts separated by dots."),
            ),
        );
    }
    let seg0 = chars_to_string(&parts[0]);
    let seg1 = chars_to_string(&parts[1]);
    let seg2 = chars_to_string(&parts[2]);
    let header = match decode_jwt_part(seg0.as_str()) {
        Ok(h) => h,
        Err(m) => {
            let mut msg = String::from_str("Failed to decode JWT header: ");
            msg.append(m.as_str());
            return Err(FormatError::new(ErrorKind::ParseFailure, msg));
        },
    };
    let payload = match decode_jwt_part(seg1.as_str()) {
        Ok(p) => p,
        Err(m) => {
            let mut msg = String::from_str("Failed to decode JWT payload: ");
            msg.append(m.as_str());
            return Err(FormatError::new(ErrorKind::ParseFailure, msg));
        },
    };
    let ghost hv = header@;
    let ghost pv = payload@;
    let ghost s0 = seg0@;
    let ghost s1 = seg1@;
    let ghost s2 = seg2@;
    let mut sig_note = String::from_str("Signature (base64): ");
    sig_note.append(seg2.as_str());
    let mut token_parts: Vec<(String, JsonNode)> = Vec::new();
    token_parts.push((String::from_str("header"), JsonNode::Text(seg0)));
    token_parts.push((String::from_str("payload"), JsonNode::Text(seg1)));
    token_parts.push((String::from_str("signature"), JsonNode::Text(seg2)));
    let mut entries: Vec<(String, JsonNode)> = Vec::new();
    entries.push((String::from_str("header"), header));
    entries.push((String::from_str("payload"), payload));
    entries.push((String::from_str("signature"), JsonNode::Text(sig_note)));
    entries.push((String::from_str("token_parts"), JsonNode::Object(token_parts)));
    let assembled = JsonNode::Object(entries);
    proof {
        let segs = split_dots(t);
        lemma_entries_view(entries@);
        lemma_entries_view(token_parts@);
        assert(entries_view(token_parts@)[0] == (token_parts@[0].0@, node_view(
            token_parts@[0].1,
        )));
        assert(entries_view(token_parts@)[1] == (token_parts@[1].0@, node_view(
            token_parts@[1].1,
        )));
        assert(entries_view(token_parts@)[2] == (token_parts@[2].0@, node_view(
            token_parts@[2].1,
        )));
        assert(entries_view(entries@)[0] == (entries@[0].0@, node_view(entries@[0].1)));
        assert(entries_view(entries@)[1] == (entries@[1].0@, node_view(entries@[1].1)));
        assert(entries_view(entries@)[2] == (entries@[2].0@, node_view(entries@[2].1)));
        assert(entries_view(entries@)[3] == (entries@[3].0@, node_view(entries@[3].1)));
        assert(entries_view(token_parts@) =~= seq![
            ("header"@, JsonVal::Text(segs[0])),
            ("payload"@, JsonVal::Text(segs[1])),
            ("signature"@, JsonVal::Text(segs[2])),
        ]);
        assert(entries_view(entries@) =~= seq![
            ("header"@, hv),
            ("payload"@, pv),
            ("signature"@, JsonVal::Text("Signature (base64): "@ + segs[2])),
            ("token_parts"@, JsonVal::Object(entries_view(token_parts@))),
        ]);
        assert(assembled@ == jwt_result_val(hv, pv, segs));
    }
    let out = pretty_print_node(&assembled);
    Ok(out)
}

} // verus!
