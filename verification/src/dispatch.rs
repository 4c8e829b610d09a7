//! The format dispatcher: routes a request to the matching component,
//! falls back to the stored raw content when the text is empty, and on a
//! successful non-codec format stores the result for chunked retrieval.

use vstd::prelude::*;
use vstd::string::StringExecFns;
use crate::codec::decode_base64;
use crate::codec::decode_base64_spec;
use crate::codec::encode_base64;
use crate::codec::encode_base64_spec;
use crate::errors::FormatError;
use crate::json::format_json;
use crate::json::format_json_spec;
use crate::jwt::parse_jwt;
use crate::jwt::parse_jwt_spec;
use crate::store::ContentStore;
use crate::summary::summarize_json;
use crate::summary::summarize_json_spec;
use crate::text::eq_str;
use crate::xml::format_xml;
use crate::xml::xml_format_spec;

verus! {

/// Whether the flat result `r` carries the message-level outcome `s`.
pub open spec fn flat_agrees(r: Result<String, String>, s: Result<Seq<char>, Seq<char>>) -> bool {
    match s {
        Ok(x) => r matches Ok(o) && o@ == x,
        Err(m) => r matches Err(e) && e@ == m,
    }
}

/// The text a request operates on: the explicit text, or the stored raw
/// content when the text is empty.
pub open spec fn effective_text(text: Seq<char>, store: ContentStore) -> Seq<char> {
    if text.len() == 0 {
        match store.raw_content {
            Some(s) => s@,
            None => Seq::<char>::empty(),
        }
    } else {
        text
    }
}

proof fn lemma_format_names_distinct()
    ensures
        "json"@ != "xml"@,
        "json"@ != "jwt"@,
        "json"@ != "json-summary"@,
        "json"@ != "encode"@,
        "json"@ != "decode"@,
        "xml"@ != "jwt"@,
        "xml"@ != "json-summary"@,
        "xml"@ != "encode"@,
        "xml"@ != "decode"@,
        "jwt"@ != "json-summary"@,
        "jwt"@ != "encode"@,
        "jwt"@ != "decode"@,
        "json-summary"@ != "encode"@,
        "json-summary"@ != "decode"@,
        "encode"@ != "decode"@,
{
    reveal_strlit("json");
    reveal_strlit("xml");
    reveal_strlit("jwt");
    reveal_strlit("json-summary");
    reveal_strlit("encode");
    reveal_strlit("decode");
    assert("json"@.len() == 4);
    assert("xml"@.len() == 3);
    assert("jwt"@.len() == 3);
    assert("json-summary"@.len() == 12);
    assert("encode"@.len() == 6);
    assert("decode"@.len() == 6);
    assert("xml"@[0] == 'x');
    assert("jwt"@[0] == 'j');
    assert("encode"@[0] == 'e');
    assert("decode"@[0] == 'd');
}

/// Routes `text` (or the stored raw content, when `text` is empty) to the
/// component for `format_type`; a successful non-codec format overwrites
/// the stored formatted content, codec operations leave the store alone.
pub fn format_text(text: &str, format_type: &str, store: &mut ContentStore) -> (r: Result<
    String,
    String,
>)
    ensures
        final(store).raw_content == old(store).raw_content,
        ({
            let content = effective_text(text@, *old(store));
            &&& format_type@ == "json"@ ==> flat_agrees(r, format_json_spec(content))
            &&& format_type@ == "xml"@ ==> flat_agrees(r, xml_format_spec(content))
            &&& format_type@ == "jwt"@ ==> flat_agrees(r, parse_jwt_spec(content))
            &&& format_type@ == "json-summary"@ ==> flat_agrees(r, summarize_json_spec(content))
            &&& format_type@ == "encode"@ ==> flat_agrees(r, encode_base64_spec(content))
            &&& format_type@ == "decode"@ ==> flat_agrees(r, decode_base64_spec(content))
            &&& (format_type@ != "json"@ && format_type@ != "xml"@ && format_type@ != "jwt"@
                && format_type@ != "json-summary"@ && format_type@ != "encode"@ && format_type@
                != "decode"@) ==> (r matches Err(m) && m@ == "Unknown format type"@)
        }),
        (format_type@ == "encode"@ || format_type@ == "decode"@ || r is Err)
            ==> final(store).formatted_content == old(store).formatted_content,
        format_type@ != "encode"@ && format_type@ != "decode"@ ==> (r matches Ok(out)
            ==> final(store).formatted_content == Some(out)),
{
    proof {
        lemma_format_names_distinct();
    }
    let content: String = if text.is_empty() {
        match &store.raw_content {
            Some(s) => s.clone(),
            None => String::new(),
        }
    } else {
        text.to_owned()
    };
    proof {
        assert(content@ == effective_text(text@, *old(store)));
    }
    let is_encode = eq_str(format_type, "encode");
    let is_decode = eq_str(format_type, "decode");
    let result: Result<String, FormatError> = if eq_str(format_type, "json") {
        format_json(content.as_str())
    } else if eq_str(format_type, "xml") {
        format_xml(content.as_str())
    } else if eq_str(format_type, "jwt") {
        parse_jwt(content.as_str())
    } else if eq_str(format_type, "json-summary") {
        summarize_json(content.as_str())
    } else if is_encode {
        encode_base64(content.as_str())
    } else if is_decode {
        decode_base64(content.as_str())
    } else {
        return Err(String::from_str("Unknown format type"));
    };
    match result {
        Ok(out) => {
            if !(is_encode || is_decode) {
                store.formatted_content = Some(out.clone());
            }
            Ok(out)
        },
        Err(e) => Err(e.render()),
    }
}

} // verus!
