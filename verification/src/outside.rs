//! Calls into other crates, each with the contract that the rest of the library relies on.

use crate::collector::e_hentai::{image_page_link, PAGE_RE};
use crate::collector::SUPPORTED_URL_PATTERN;
use crate::text::has_text;
use vstd::prelude::*;
use vstd::utf8::{decode_utf8, encode_utf8, valid_utf8};

verus! {

// ---------------------------------------------------------------------------
// Regular expressions
// ---------------------------------------------------------------------------

/// What the first group of `pattern` matches, at the first place in `text` where the pattern
/// matches.
pub uninterp spec fn regex_first_group(pattern: Seq<char>, text: Seq<char>) -> Option<Seq<char>>;

/// What the first group of `pattern` matches, at each place in `text` where the pattern matches.
pub uninterp spec fn regex_all_groups(pattern: Seq<char>, text: Seq<char>) -> Seq<
    Option<Seq<char>>,
>;

/// `text` with each match of `pattern` replaced by `with`.
pub uninterp spec fn regex_replaced(pattern: Seq<char>, text: Seq<char>, with: Seq<char>) -> Seq<
    char,
>;

/// `regex::Regex::captures`, then group 1 of what was captured. `None` where the pattern does not
/// match, where its first group takes no part in the match, and where it is no regular expression.
/// A group is a part of the text.
///
/// Of the pattern of the addresses that collectors know: it is one group as a whole, and nothing in
/// it looks at what stands before or behind a match. The crate documents that of the matches at one
/// place it gives the one that the pattern prefers. So what is found in a text is preferred as well
/// where it stands alone, and the same pattern behind a `^` finds it again whole.
#[verifier::external_body]
pub(crate) fn first_group<'a>(pattern: &str, text: &'a str) -> (r: Option<&'a str>)
    ensures
        r.deep_view() == regex_first_group(pattern@, text@),
        r matches Some(g) ==> has_text(text@, g@),
        pattern@ == SUPPORTED_URL_PATTERN@ ==> (r matches Some(g) ==> regex_first_group(
            "^"@ + pattern@,
            g@,
        ) == Some(g@)),
{
    let captured = regex::Regex::new(pattern).ok()?.captures(text)?;
    captured.get(1).map(|m| m.as_str())
}

/// `regex::Regex::captures_iter`, with group 1 of each match, in the order of the matches. Empty
/// where the pattern is no regular expression. A group is a part of the text.
///
/// Of the pattern of the links to the pages of images: what the crate documents of literals, `\s`,
/// `[^"]` and `+` says what a group of it holds and what stands around the group.
#[verifier::external_body]
pub(crate) fn all_groups(pattern: &str, text: &str) -> (r: Vec<Option<String>>)
    ensures
        r.deep_view() == regex_all_groups(pattern@, text@),
        forall|i: int|
            0 <= i < r.deep_view().len() ==> ((#[trigger] r.deep_view()[i]) matches Some(g)
                ==> has_text(text@, g)),
        pattern@ == PAGE_RE@ ==> forall|i: int|
            0 <= i < r.deep_view().len() ==> ((#[trigger] r.deep_view()[i]) matches Some(g)
                ==> image_page_link(text@, g)),
{
    match regex::Regex::new(pattern) {
        Ok(re) => re.captures_iter(text).map(|c| c.get(1).map(|m| m.as_str().to_string())).collect(),
        Err(_) => Vec::new(),
    }
}

/// `regex::Regex::replace_all`, which reads a `$` in `with` as a reference to a group. The text
/// itself where the pattern is no regular expression.
#[verifier::external_body]
pub(crate) fn replace_matches(pattern: &str, text: &str, with: &str) -> (r: String)
    ensures
        r@ == regex_replaced(pattern@, text@, with@),
{
    match regex::Regex::new(pattern) {
        Ok(re) => re.replace_all(text, with).into_owned(),
        Err(_) => text.to_string(),
    }
}

// ---------------------------------------------------------------------------
// URLs
// ---------------------------------------------------------------------------

/// The parts of a URL that the library reads.
pub struct UrlParts {
    pub scheme: String,
    pub username: String,
    pub password: Option<String>,
    pub host: Option<String>,
    pub path: String,
    pub query: Option<String>,
    pub text: String,
}

/// The parts of a URL, each as its characters.
#[verifier::ext_equal]
pub struct UrlPartsView {
    pub scheme: Seq<char>,
    pub username: Seq<char>,
    pub password: Option<Seq<char>>,
    pub host: Option<Seq<char>>,
    pub path: Seq<char>,
    pub query: Option<Seq<char>>,
    pub text: Seq<char>,
}

impl View for UrlParts {
    type V = UrlPartsView;

    open spec fn view(&self) -> UrlPartsView {
        UrlPartsView {
            scheme: self.scheme@,
            username: self.username@,
            password: self.password.deep_view(),
            host: self.host.deep_view(),
            path: self.path@,
            query: self.query.deep_view(),
            text: self.text@,
        }
    }
}

/// What a URL consists of, its view tells.
pub proof fn urls_are_as_viewed(u: UrlParts)
    ensures
        u@.scheme == u.scheme@,
        u@.username == u.username@,
        u.password is None <==> u@.password is None,
        u.password matches Some(p) ==> u@.password == Some(p@),
        u.host is None <==> u@.host is None,
        u.host matches Some(h) ==> u@.host == Some(h@),
        u@.path == u.path@,
        u.query is None <==> u@.query is None,
        u.query matches Some(q) ==> u@.query == Some(q@),
        u@.text == u.text@,
{
}

/// The URL that a text stands for, or what is wrong with the text.
pub uninterp spec fn url_of(text: Seq<char>) -> Result<UrlPartsView, Seq<char>>;

/// `reqwest::Url::parse`, with the parts of the URL or the text of the error.
#[verifier::external_body]
pub(crate) fn parse_url(text: &str) -> (r: Result<UrlParts, String>)
    ensures
        match r {
            Ok(u) => url_of(text@) == Ok::<UrlPartsView, Seq<char>>(u@),
            Err(e) => url_of(text@) == Err::<UrlPartsView, Seq<char>>(e@),
        },
{
    match reqwest::Url::parse(text) {
        Ok(u) => Ok(UrlParts {
            scheme: u.scheme().to_string(),
            username: u.username().to_string(),
            password: u.password().map(|s| s.to_string()),
            host: u.host_str().map(|s| s.to_string()),
            path: u.path().to_string(),
            query: u.query().map(|s| s.to_string()),
            text: u.to_string(),
        }),
        Err(e) => Err(e.to_string()),
    }
}

// ---------------------------------------------------------------------------
// HTTP
// ---------------------------------------------------------------------------

/// The value type of a header map.
#[verifier::external_type_specification]
#[verifier::external_body]
pub struct ExHeaderValue(reqwest::header::HeaderValue);

/// The header map of the `http` crate, which `reqwest` hands on.
#[verifier::external_type_specification]
#[verifier::external_body]
#[verifier::reject_recursive_types(T)]
pub struct ExHeaderMap<T>(reqwest::header::HeaderMap<T>);

/// The headers of a request.
pub type Headers = reqwest::header::HeaderMap<reqwest::header::HeaderValue>;

/// What a header map holds: under each header name its first value.
pub uninterp spec fn header_entries(
    map: Headers,
) -> Map<Seq<char>, Seq<char>>;

/// The contents of an empty header map.
pub open spec fn no_headers() -> Map<Seq<char>, Seq<char>> {
    Map::empty()
}

/// The characters that a header value may hold: the horizontal tab, and everything from the space
/// upwards but for DEL.
pub open spec fn header_char(c: char) -> bool {
    c as u32 == 9 || (c as u32 >= 32 && c as u32 != 127)
}

/// A text that a header value can hold.
pub open spec fn header_text(s: Seq<char>) -> bool {
    forall|i: int| 0 <= i < s.len() ==> header_char(#[trigger] s[i])
}

/// A header name in lower case.
pub open spec fn header_name(s: Seq<char>) -> bool {
    &&& 0 < s.len() <= 64
    &&& forall|i: int|
        0 <= i < s.len() ==> ('a' <= #[trigger] s[i] <= 'z' || '0' <= s[i] <= '9' || s[i] == '-')
}

/// `HeaderMap::new`: a header map that holds nothing.
#[verifier::external_body]
pub(crate) fn new_headers() -> (r: Headers)
    ensures
        header_entries(r) == no_headers(),
{
    reqwest::header::HeaderMap::new()
}

/// `HeaderMap::insert` with `HeaderName::from_static` and `HeaderValue::from_str`: the value takes
/// the place of what stood under the name. Where `HeaderValue::from_str` refuses the text, the map
/// stays as it is.
#[verifier::external_body]
pub(crate) fn set_header(
    map: &mut Headers,
    name: &'static str,
    value: &str,
) -> (r: Result<(), String>)
    requires
        header_name(name@),
        header_entries(*old(map)).dom().finite(),
        header_entries(*old(map)).len() < 1000,
    ensures
        match r {
            Ok(_) => header_text(value@) && header_entries(*final(map)) == header_entries(
                *old(map),
            ).insert(name@, value@),
            Err(e) => !header_text(value@) && *final(map) == *old(map) && e@
                == "failed to parse header value"@,
        },
{
    match reqwest::header::HeaderValue::from_str(value) {
        Ok(v) => {
            map.insert(reqwest::header::HeaderName::from_static(name), v);
            Ok(())
        },
        Err(e) => Err(e.to_string()),
    }
}

/// An HTTP status as text: its number and its reason phrase.
pub uninterp spec fn status_text(code: u16) -> Seq<char>;

/// The `Display` text of `reqwest::StatusCode`.
#[verifier::external_body]
pub(crate) fn status_line(code: u16) -> (r: String)
    requires
        100 <= code < 1000,
    ensures
        r@ == status_text(code),
{
    reqwest::StatusCode::from_u16(code).unwrap().to_string()
}

// ---------------------------------------------------------------------------
// JSON
// ---------------------------------------------------------------------------

/// The JSON value that bytes stand for, written out as text, or what is wrong with the bytes.
pub uninterp spec fn json_of(bytes: Seq<u8>) -> Result<Seq<char>, Seq<char>>;

/// The member under `key` of the JSON object that a text stands for, written out as text.
pub uninterp spec fn json_member_of(text: Seq<char>, key: Seq<char>) -> Option<Seq<char>>;

/// The string that a JSON text stands for, or why it stands for none.
pub uninterp spec fn json_string_of(text: Seq<char>) -> Result<Seq<char>, Seq<char>>;

/// JSON that could be read.
pub open spec fn read_as(text: Seq<char>) -> Result<Seq<char>, Seq<char>> {
    Ok(text)
}

/// A string written as JSON.
pub uninterp spec fn json_written(s: Seq<char>) -> Seq<char>;

/// The text that the `Display` of a `serde_json::Value::String` gives. Parsed again it is the same
/// string, with the same text; and it is no object, so it has no members.
#[verifier::external_body]
pub(crate) fn json_text(s: &str) -> (r: String)
    ensures
        r@ == json_written(s@),
        json_of(encode_utf8(r@)) == read_as(r@),
        json_string_of(r@) == read_as(s@),
        forall|key: Seq<char>| #[trigger] json_member_of(r@, key) is None,
{
    serde_json::Value::String(s.to_string()).to_string()
}

/// `serde_json::from_slice` into a `serde_json::Value`, and the text that the value's `Display`
/// gives; or the text of the error.
#[verifier::external_body]
pub(crate) fn json_value(bytes: &[u8]) -> (r: Result<String, String>)
    ensures
        match r {
            Ok(v) => json_of(bytes@) == Ok::<Seq<char>, Seq<char>>(v@),
            Err(e) => json_of(bytes@) == Err::<Seq<char>, Seq<char>>(e@),
        },
{
    match serde_json::from_slice::<serde_json::Value>(bytes) {
        Ok(v) => Ok(v.to_string()),
        Err(e) => Err(e.to_string()),
    }
}

/// `serde_json::Value::get` with a string, and the text that the member's `Display` gives: `true`
/// and `false` for the two booleans alone. `None` where the text is no JSON object, or one without
/// that member.
#[verifier::external_body]
pub(crate) fn json_member(text: &str, key: &str) -> (r: Option<String>)
    ensures
        r.deep_view() == json_member_of(text@, key@),
{
    let value = serde_json::from_str::<serde_json::Value>(text).ok()?;
    value.get(key).map(|member| member.to_string())
}

/// `serde_json::from_value` into a `String`; or the text of the error.
#[verifier::external_body]
pub(crate) fn json_string(text: &str) -> (r: Result<String, String>)
    ensures
        match r {
            Ok(v) => json_string_of(text@) == Ok::<Seq<char>, Seq<char>>(v@),
            Err(e) => json_string_of(text@) == Err::<Seq<char>, Seq<char>>(e@),
        },
{
    match serde_json::from_str::<serde_json::Value>(text) {
        Ok(v) => serde_json::from_value::<String>(v).map_err(|e| e.to_string()),
        Err(e) => Err(e.to_string()),
    }
}

// ---------------------------------------------------------------------------
// Telegram's MarkdownV2
// ---------------------------------------------------------------------------

/// The characters that MarkdownV2 gives a meaning outside of code.
pub open spec fn markdown_special(c: char) -> bool {
    c == '_' || c == '*' || c == '[' || c == ']' || c == '(' || c == ')' || c == '~' || c == '`'
        || c == '>' || c == '#' || c == '+' || c == '-' || c == '=' || c == '|' || c == '{' || c
        == '}' || c == '.' || c == '!'
}

/// A text with a backslash before each character that MarkdownV2 gives a meaning.
pub open spec fn escaped(s: Seq<char>) -> Seq<char>
    decreases s.len(),
{
    if s.len() == 0 {
        Seq::empty()
    } else if markdown_special(s.last()) {
        escaped(s.drop_last()) + seq!['\\', s.last()]
    } else {
        escaped(s.drop_last()).push(s.last())
    }
}

/// A text with a backslash before each backslash and each backtick.
pub open spec fn code_escaped(s: Seq<char>) -> Seq<char>
    decreases s.len(),
{
    if s.len() == 0 {
        Seq::empty()
    } else if s.last() == '\\' || s.last() == '`' {
        code_escaped(s.drop_last()) + seq!['\\', s.last()]
    } else {
        code_escaped(s.drop_last()).push(s.last())
    }
}

/// `teloxide::utils::markdown::escape`: a backslash before each special character, and nothing
/// else changed.
#[verifier::external_body]
pub(crate) fn escape_markdown(s: &str) -> (r: String)
    ensures
        r@ == escaped(s@),
{
    teloxide::utils::markdown::escape(s)
}

/// `teloxide::utils::markdown::code_inline`: the text between backticks, with a backslash before
/// each backslash and each backtick of it.
#[verifier::external_body]
pub(crate) fn inline_code(s: &str) -> (r: String)
    ensures
        r@ == seq!['`'] + code_escaped(s@) + seq!['`'],
{
    teloxide::utils::markdown::code_inline(s)
}

// ---------------------------------------------------------------------------
// The standard library
// ---------------------------------------------------------------------------

/// A text in lower case.
pub uninterp spec fn lower_case(s: Seq<char>) -> Seq<char>;

/// A text as the `Debug` format writes it, in quotes and with escapes.
pub uninterp spec fn quoted(s: Seq<char>) -> Seq<char>;

/// Bytes read as UTF-8, with U+FFFD in the place of what is none.
pub uninterp spec fn utf8_lossy(bytes: Seq<u8>) -> Seq<char>;

/// `str::to_lowercase`.
#[verifier::external_body]
pub(crate) fn to_lower_case(s: &str) -> (r: String)
    ensures
        r@ == lower_case(s@),
{
    s.to_lowercase()
}

/// The `Debug` format of a string.
#[verifier::external_body]
pub(crate) fn debug_text(s: &str) -> (r: String)
    ensures
        r@ == quoted(s@),
{
    format!("{s:?}")
}

/// `String::from_utf8_lossy`. Bytes that are valid UTF-8 give the characters that they encode.
#[verifier::external_body]
pub(crate) fn lossy_text(bytes: &[u8]) -> (r: String)
    ensures
        r@ == utf8_lossy(bytes@),
        valid_utf8(bytes@) ==> r@ == decode_utf8(bytes@),
{
    String::from_utf8_lossy(bytes).into_owned()
}

} // verus!
