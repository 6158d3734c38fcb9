//! The contributions of a metrics report in JSON.

use vstd::prelude::*;

use crate::text::{add_text, chars_of, string_of};

verus! {

/// What a JSON text holds under a key: nothing, or the member's text with
/// indentation, or why that could not be written; or why the text is not JSON.
pub ghost struct Member {
    pub found: Result<Option<Result<Seq<char>, Seq<char>>>, Seq<char>>,
}

/// What the member of a key is in a JSON text.
pub uninterp spec fn member_of(json: Seq<u8>, key: Seq<char>) -> Member;

/// What a looked-up member says.
pub open spec fn seen_member(r: Result<Option<Result<String, String>>, String>) -> Member {
    Member {
        found: match r {
            Ok(Some(Ok(text))) => Ok(Some(Ok(text@))),
            Ok(Some(Err(why))) => Ok(Some(Err(why@))),
            Ok(None) => Ok(None),
            Err(why) => Err(why@),
        },
    }
}

/// `serde_json::from_slice` into a `Value`, `Value::get` of a key, and
/// `serde_json::to_string_pretty` of the member. The result depends on the bytes
/// and the key alone; how JSON is read and written is left unsaid.
#[verifier::external_body]
fn look_up(json: &Vec<u8>, key: &str) -> (r: Result<Option<Result<String, String>>, String>)
    ensures
        seen_member(r) == member_of(json@, key@),
{
    let report: serde_json::Value = serde_json::from_slice(json).map_err(|e| e.to_string())?;
    let member = report.get(key);
    Ok(member.map(|v| serde_json::to_string_pretty(v).map_err(|e| e.to_string())))
}

/// The contributions of a report, given what the report holds of them. A report
/// without any has an empty list.
pub open spec fn rendered(m: Member) -> Result<Seq<char>, Seq<char>> {
    match m.found {
        Ok(Some(Ok(text))) => Ok(text),
        Ok(Some(Err(why))) => Err("failed to render contributions: "@ + why),
        Ok(None) => Ok("[]"@),
        Err(why) => Err("mehen returned invalid JSON: "@ + why),
    }
}

/// Whether a result says what is expected of it.
pub open spec fn says(r: Result<String, String>, want: Result<Seq<char>, Seq<char>>) -> bool {
    match r {
        Ok(text) => want == Ok::<Seq<char>, Seq<char>>(text@),
        Err(why) => want == Err::<Seq<char>, Seq<char>>(why@),
    }
}

/// The contributions of a report, given what was found of them.
pub fn render_member(found: Result<Option<Result<String, String>>, String>) -> (r: Result<
    String,
    String,
>)
    ensures
        says(r, rendered(seen_member(found))),
{
    match found {
        Ok(Some(Ok(text))) => Ok(text),
        Ok(Some(Err(why))) => {
            let mut out = chars_of("failed to render contributions: ");
            add_text(&mut out, why.as_str());
            Err(string_of(&out))
        },
        Ok(None) => {
            let out = chars_of("[]");
            Ok(string_of(&out))
        },
        Err(why) => {
            let mut out = chars_of("mehen returned invalid JSON: ");
            add_text(&mut out, why.as_str());
            Err(string_of(&out))
        },
    }
}

/// The contributions of a metrics report in JSON.
pub fn contributions_from_metrics_json(bytes: &Vec<u8>) -> (r: Result<String, String>)
    ensures
        says(r, rendered(member_of(bytes@, "contributions"@))),
{
    render_member(look_up(bytes, "contributions"))
}

} // verus!
