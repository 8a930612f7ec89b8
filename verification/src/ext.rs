//! Trusted boundary to the outside crates.
//!
//! Each function here wraps one probe into `serde_json`, `chrono`, or an
//! unspecified part of `std`. What such a probe returns is a function of its
//! arguments alone but has no short description, so each result is given a
//! name (an uninterpreted spec function); the verified logic elsewhere in the
//! crate speaks only of those names.

use vstd::prelude::*;

verus! {

/// One element of a message's content array, as far as text display needs it:
/// its `type` tag and its `text` payload, when that payload is a string.
pub struct TextBlock {
    pub kind: String,
    pub text: Option<String>,
}

#[verifier::ext_equal]
pub ghost struct TextBlockV {
    pub kind: Seq<char>,
    pub text: Option<Seq<char>>,
}

impl DeepView for TextBlock {
    type V = TextBlockV;

    open spec fn deep_view(&self) -> TextBlockV {
        TextBlockV { kind: self.kind@, text: self.text.deep_view() }
    }
}

/// One element of a message's content array, as far as tool-invocation
/// scanning needs it: its `type` tag, its tool `name`, and the two file-path
/// fields of its `input` object.
pub struct ToolBlock {
    pub kind: String,
    pub name: String,
    pub file_path: Option<String>,
    pub file_path_alt: Option<String>,
}

#[verifier::ext_equal]
pub ghost struct ToolBlockV {
    pub kind: Seq<char>,
    pub name: Seq<char>,
    pub file_path: Option<Seq<char>>,
    pub file_path_alt: Option<Seq<char>>,
}

impl DeepView for ToolBlock {
    type V = ToolBlockV;

    open spec fn deep_view(&self) -> ToolBlockV {
        ToolBlockV {
            kind: self.kind@,
            name: self.name@,
            file_path: self.file_path.deep_view(),
            file_path_alt: self.file_path_alt.deep_view(),
        }
    }
}

/// The pieces of an RFC 3339 timestamp that the aggregator reads: seconds
/// since the Unix epoch, hour of day, and day of week (Monday = 0).
#[derive(Clone, Copy)]
pub struct ParsedTs {
    pub secs: i64,
    pub hour: u8,
    pub weekday: u8,
}

#[verifier::ext_equal]
pub ghost struct ParsedTsV {
    pub secs: int,
    pub hour: int,
    pub weekday: int,
}

impl DeepView for ParsedTs {
    type V = ParsedTsV;

    open spec fn deep_view(&self) -> ParsedTsV {
        ParsedTsV { secs: self.secs as int, hour: self.hour as int, weekday: self.weekday as int }
    }
}

/// The named top-level string field of a line that parses as a JSON object.
pub uninterp spec fn str_field_of(line: Seq<char>, key: Seq<char>) -> Option<Seq<char>>;

/// The named string field of the line's `message` object.
pub uninterp spec fn msg_str_field_of(line: Seq<char>, key: Seq<char>) -> Option<Seq<char>>;

/// The `(input_tokens, output_tokens)` of the line's `message.usage` object,
/// each zero when missing; `None` when the line has no `message.usage`.
pub uninterp spec fn usage_of(line: Seq<char>) -> Option<(u64, u64)>;

/// The line's `message.content` array seen as text blocks; `None` when
/// `message.content` is not an array.
pub uninterp spec fn text_blocks_of(line: Seq<char>) -> Option<Seq<TextBlockV>>;

/// The line's `message.content` array seen as tool-invocation blocks; `None`
/// when `message.content` is not an array.
pub uninterp spec fn tool_blocks_of(line: Seq<char>) -> Option<Seq<ToolBlockV>>;

/// The lowercase form of a string.
pub uninterp spec fn lower_of(s: Seq<char>) -> Seq<char>;

/// Whether a character has the Unicode `White_Space` property.
pub uninterp spec fn is_ws(c: char) -> bool;

/// The parse of an RFC 3339 timestamp string.
pub uninterp spec fn rfc3339_of(s: Seq<char>) -> Option<ParsedTsV>;

/// Relies on `serde_json::from_str` and `Value::get`/`Value::as_str`: the
/// named top-level field of a JSON-object line, when it is a string.
#[verifier::external_body]
pub(crate) fn json_str_field(line: &str, key: &str) -> (r: Option<String>)
    ensures
        r.deep_view() == str_field_of(line@, key@),
{
    let v: serde_json::Value = serde_json::from_str(line).ok()?;
    Some(v.get(key)?.as_str()?.to_string())
}

/// Relies on `serde_json::from_str` and `Value::get`/`Value::as_str`: the
/// named field of the line's `message` object, when it is a string.
#[verifier::external_body]
pub(crate) fn json_msg_str_field(line: &str, key: &str) -> (r: Option<String>)
    ensures
        r.deep_view() == msg_str_field_of(line@, key@),
{
    let v: serde_json::Value = serde_json::from_str(line).ok()?;
    Some(v.get("message")?.get(key)?.as_str()?.to_string())
}

/// Relies on `serde_json::from_str` and `Value::get`/`Value::as_u64`: the
/// token counters of `message.usage`, defaulting each missing one to zero.
#[verifier::external_body]
pub(crate) fn json_usage(line: &str) -> (r: Option<(u64, u64)>)
    ensures
        r == usage_of(line@),
{
    let v: serde_json::Value = serde_json::from_str(line).ok()?;
    let u = v.get("message")?.get("usage")?;
    Some((
        u.get("input_tokens").and_then(|t| t.as_u64()).unwrap_or(0),
        u.get("output_tokens").and_then(|t| t.as_u64()).unwrap_or(0),
    ))
}

/// Relies on `serde_json::from_str` and `Value::get`/`Value::as_array`/
/// `Value::as_str`: the `message.content` array as text blocks.
#[verifier::external_body]
pub(crate) fn json_text_blocks(line: &str) -> (r: Option<Vec<TextBlock>>)
    ensures
        r.deep_view() == text_blocks_of(line@),
{
    let v: serde_json::Value = serde_json::from_str(line).ok()?;
    let arr = v.get("message")?.get("content")?.as_array()?;
    Some(arr.iter().map(|b| TextBlock {
        kind: b.get("type").and_then(|t| t.as_str()).unwrap_or("").to_string(),
        text: b.get("text").and_then(|t| t.as_str()).map(String::from),
    }).collect())
}

/// Relies on `serde_json::from_str` and `Value::get`/`Value::as_array`/
/// `Value::as_str`: the `message.content` array as tool-invocation blocks.
#[verifier::external_body]
pub(crate) fn json_tool_blocks(line: &str) -> (r: Option<Vec<ToolBlock>>)
    ensures
        r.deep_view() == tool_blocks_of(line@),
{
    let v: serde_json::Value = serde_json::from_str(line).ok()?;
    let arr = v.get("message")?.get("content")?.as_array()?;
    Some(arr.iter().map(|b| ToolBlock {
        kind: b.get("type").and_then(|t| t.as_str()).unwrap_or("").to_string(),
        name: b.get("name").and_then(|t| t.as_str()).unwrap_or("").to_string(),
        file_path: b.get("input").and_then(|i| i.get("file_path")).and_then(|f| f.as_str()).map(String::from),
        file_path_alt: b.get("input").and_then(|i| i.get("filePath")).and_then(|f| f.as_str()).map(String::from),
    }).collect())
}

/// Relies on `str::to_lowercase`: the result depends on the characters alone.
#[verifier::external_body]
pub(crate) fn lowercase(s: &str) -> (r: String)
    ensures
        r@ == lower_of(s@),
{
    s.to_lowercase()
}

/// Relies on `char::is_whitespace`: the Unicode `White_Space` property.
#[verifier::external_body]
pub(crate) fn char_is_ws(c: char) -> (r: bool)
    ensures
        r == is_ws(c),
{
    c.is_whitespace()
}

/// Relies on `String::push`: appends exactly one character.
#[verifier::external_body]
pub(crate) fn push_char(s: &mut String, c: char)
    ensures
        final(s)@ == old(s)@.push(c),
{
    s.push(c)
}

/// Relies on `chrono::DateTime::parse_from_rfc3339`, `DateTime::timestamp`,
/// `Timelike::hour` (always below 24) and
/// `Weekday::num_days_from_monday` (always below 7).
#[verifier::external_body]
pub(crate) fn parse_rfc3339(s: &str) -> (r: Option<ParsedTs>)
    ensures
        r.deep_view() == rfc3339_of(s@),
        match r {
            Some(t) => t.hour < 24 && t.weekday < 7,
            None => true,
        },
{
    let dt = chrono::DateTime::parse_from_rfc3339(s).ok()?;
    Some(ParsedTs {
        secs: dt.timestamp(),
        hour: chrono::Timelike::hour(&dt) as u8,
        weekday: chrono::Datelike::weekday(&dt).num_days_from_monday() as u8,
    })
}

} // verus!
