//! Pixiv collector.
//!
//! Supported inputs include:
//! - `/artworks/12345678`
//! - `https://www.pixiv.net/artworks/12345678`
//! - `https://www.pixiv.net/en/artworks/12345678`
//! - legacy `member_illust.php?...&illust_id=12345678`
//!
//! Public artworks work without authentication. If `pixiv.php_sessid` is set, the requests are made
//! directly with that session first; the private HTTP proxy is only used as a fallback.

use crate::collector::{queue_of, AlbumMeta, AlbumView, Collector, ImageMeta, ImageView, Loaded};
use crate::error::{error, text_result, Error};
use crate::outside::{
    debug_text, header_char, header_entries, header_text, lossy_text, new_headers, no_headers,
    parse_url, quoted, regex_replaced, replace_matches, set_header, status_line, status_text,
    url_of, utf8_lossy, Headers, UrlParts, UrlPartsView,
};
use crate::stream::AsyncStream;
use crate::text::{
    after_prefix, already_trimmed, ascii_digit, chars_of, contains_char, cut, cut_of_sum,
    cuts_are_at_the_first, decimal, first_at, first_occurrences_are_replaced, first_pieces, is_at, joined, joined_texts_come_apart, number, opt_text,
    opt_texts, pieces, pieces_of_plain, pieces_of_sum, pieces_of_two, prefixes_come_off, replace,
    replaced, same, space_around_comes_off, split, split_once, strip_prefix, texts,
    texts_without_it_stay, trim,
    trim_end_matches, trimmed, trimming_is_final, white_space, without_end,
};
use crate::unique::{adding_items, distinct, push_unique, some_unless_empty, unless_empty};
use std::collections::VecDeque;
use vstd::prelude::*;
use vstd::string::*;

verus! {

/// The host of the site.
pub const PIXIV_HOST: &'static str = "www.pixiv.net";

/// The start page of the site.
pub const PIXIV_REFERER: &'static str = "https://www.pixiv.net/";

/// The header by which the proxy is told the session.
pub const PIXIV_SESSION_PROXY_HEADER: &'static str = "x-pixiv-phpsessid";

/// How much of the body of an answer goes into an error message.
pub const MAX_ERROR_BODY_CHARS: usize = 512;

/// A line break in HTML.
pub const BR_RE: &'static str = r"(?i)<br\s*/?>";

/// A tag in HTML.
pub const HTML_TAG_RE: &'static str = r"(?s)<[^>]+>";

// ---------------------------------------------------------------------------
// Configuration
// ---------------------------------------------------------------------------

/// What the configuration says of Pixiv.
#[derive(Debug, Clone)]
pub struct PixivConfig {
    /// The value of Pixiv's PHPSESSID cookie, without `PHPSESSID=`.
    pub php_sessid: Option<String>,
    /// Try the configured private HTTP proxy after a direct Pixiv request fails. True when omitted.
    pub proxy_fallback: Option<bool>,
}

impl Default for PixivConfig {
    fn default() -> (r: Self)
        ensures
            r.php_sessid is None,
            r.proxy_fallback is None,
    {
        PixivConfig { php_sessid: None, proxy_fallback: None }
    }
}

/// The session that the configured text stands for: the text without white space around it and
/// without a leading `PHPSESSID=`. No session where nothing is left; `None` outside where the text
/// is more than the value of one cookie.
pub open spec fn session_of(raw: Option<Seq<char>>) -> Option<Option<Seq<char>>> {
    match raw {
        None => Some(None),
        Some(r) => {
            let t = trimmed(r);
            let value = match after_prefix(t, "PHPSESSID="@) {
                Some(v) => trimmed(v),
                None => trimmed(t),
            };
            if t.len() == 0 || value.len() == 0 {
                Some(None)
            } else if value.contains(';') || value.contains('\r') || value.contains('\n') {
                None
            } else {
                Some(Some(value))
            }
        },
    }
}

/// What is said of a session that is more than the value of one cookie.
pub open spec fn bad_session() -> Seq<char> {
    "pixiv.php_sessid must contain only the PHPSESSID value, not a full Cookie header"@
}

/// The headers of every request to the site.
pub open spec fn base_entries() -> Map<Seq<char>, Seq<char>> {
    no_headers().insert("accept"@, "application/json"@).insert(
        "accept-language"@,
        "en-US,en;q=0.9,ja;q=0.8"@,
    ).insert("referer"@, PIXIV_REFERER@).insert("origin"@, "https://www.pixiv.net"@).insert(
        "x-requested-with"@,
        "XMLHttpRequest"@,
    )
}

/// The cookie of a session.
pub open spec fn session_cookie(session: Seq<char>) -> Seq<char> {
    "PHPSESSID="@ + session
}

/// The headers of direct requests with a session.
pub open spec fn direct_entries(session: Seq<char>) -> Map<Seq<char>, Seq<char>> {
    base_entries().insert("cookie"@, session_cookie(session))
}

/// The headers of requests with a session that go through the proxy.
pub open spec fn proxy_entries(session: Seq<char>) -> Map<Seq<char>, Seq<char>> {
    base_entries().insert(PIXIV_SESSION_PROXY_HEADER@, session).insert(
        "cookie"@,
        session_cookie(session),
    )
}

/// What is said of a session that no header can hold.
pub open spec fn unsendable_session() -> Seq<char> {
    "invalid pixiv PHPSESSID: "@ + "failed to parse header value"@
}

/// The headers of every request to the site.
pub fn base_headers() -> (r: Headers)
    ensures
        header_entries(r) == base_entries(),
        header_entries(r).dom().finite(),
        header_entries(r).len() <= 5,
{
    let mut headers = new_headers();
    proof {
        reveal_strlit("accept");
        reveal_strlit("application/json");
    }
    let _ = set_header(&mut headers, "accept", "application/json");
    proof {
        reveal_strlit("accept-language");
        reveal_strlit("en-US,en;q=0.9,ja;q=0.8");
    }
    let _ = set_header(&mut headers, "accept-language", "en-US,en;q=0.9,ja;q=0.8");
    proof {
        reveal_strlit("referer");
        reveal_strlit("https://www.pixiv.net/");
    }
    let _ = set_header(&mut headers, "referer", PIXIV_REFERER);
    proof {
        reveal_strlit("origin");
        reveal_strlit("https://www.pixiv.net");
    }
    let _ = set_header(&mut headers, "origin", "https://www.pixiv.net");
    proof {
        reveal_strlit("x-requested-with");
        reveal_strlit("XMLHttpRequest");
    }
    let _ = set_header(&mut headers, "x-requested-with", "XMLHttpRequest");
    headers
}

impl PixivConfig {
    /// The session of the configuration.
    pub fn session_value(&self) -> (r: Result<Option<&str>, Error>)
        ensures
            match r {
                Ok(s) => session_of(opt_text(self.php_sessid)) == Some(s.deep_view()),
                Err(e) => session_of(opt_text(self.php_sessid)) is None && e@ == bad_session(),
            },
    {
        let raw = match &self.php_sessid {
            Some(s) => trim(s.as_str()),
            None => {
                return Ok(None);
            },
        };
        if raw.is_empty() {
            return Ok(None);
        }
        let value = match strip_prefix(raw, "PHPSESSID=") {
            Some(v) => trim(v),
            None => trim(raw),
        };
        if value.is_empty() {
            return Ok(None);
        }
        if contains_char(value, ';') || contains_char(value, '\r') || contains_char(value, '\n') {
            return Err(
                error(
                    "pixiv.php_sessid must contain only the PHPSESSID value, not a full Cookie header".to_owned(),
                ),
            );
        }
        Ok(Some(value))
    }

    /// Whether the proxy may be tried.
    pub open spec fn falls_back(&self) -> bool {
        match self.proxy_fallback {
            Some(b) => b,
            None => true,
        }
    }

    /// Whether the proxy may be tried.
    pub fn proxy_fallback_enabled(&self) -> (r: bool)
        ensures
            r == self.falls_back(),
    {
        match self.proxy_fallback {
            Some(b) => b,
            None => true,
        }
    }

    /// The headers of direct requests and, where there is a session, of requests through the proxy.
    pub fn build_header_sets(&self) -> (r: Result<(Headers, Option<Headers>), Error>)
        ensures
            match (session_of(opt_text(self.php_sessid)), r) {
                (None, Err(e)) => e@ == bad_session(),
                (Some(None), Ok((direct, proxy))) => header_entries(direct) == base_entries()
                    && proxy is None,
                (Some(Some(s)), Ok((direct, Some(proxy)))) => header_text(s) && header_entries(
                    direct,
                ) == direct_entries(s) && header_entries(proxy) == proxy_entries(s),
                (Some(Some(s)), Err(e)) => !header_text(s) && e@ == unsendable_session(),
                _ => false,
            },
    {
        let session = match self.session_value() {
            Ok(s) => s,
            Err(e) => {
                return Err(e);
            },
        };
        let mut direct = base_headers();
        let session = match session {
            Some(s) => s,
            None => {
                return Ok((direct, None));
            },
        };
        let mut cookie = "PHPSESSID=".to_owned();
        cookie.append(session);
        proof {
            reveal_strlit("x-pixiv-phpsessid");
            reveal_strlit("cookie");
            reveal_strlit("PHPSESSID=");
            lemma_header_text_sum("PHPSESSID="@, session@);
        }
        let mut proxy = base_headers();
        if let Err(e) = set_header(&mut proxy, PIXIV_SESSION_PROXY_HEADER, session) {
            let mut message = "invalid pixiv PHPSESSID: ".to_owned();
            message.append(e.as_str());
            return Err(error(message));
        }
        let _ = set_header(&mut direct, "cookie", cookie.as_str());
        let _ = set_header(&mut proxy, "cookie", cookie.as_str());
        Ok((direct, Some(proxy)))
    }
}

proof fn lemma_header_text_sum(a: Seq<char>, b: Seq<char>)
    requires
        header_text(a),
    ensures
        header_text(a + b) == header_text(b),
{
    if header_text(a + b) {
        assert forall|i: int| 0 <= i < b.len() implies header_char(#[trigger] b[i]) by {
            assert((a + b)[a.len() + i] == b[i]);
        }
    }
}

/// What the library makes of a configured session is one cookie value that can stand in a header
/// line by itself: it is not empty, has no white space at its ends, and no `;`, CR or LF in it.
pub proof fn session_is_one_value(raw: Seq<char>)
    ensures
        session_of(Some(raw)) matches Some(Some(s)) ==> s.len() > 0 && trimmed(s) == s
            && !s.contains(';') && !s.contains('\r') && !s.contains('\n'),
{
    let t = trimmed(raw);
    trimming_is_final(raw);
    trimming_is_final(t);
    if let Some(v) = after_prefix(t, "PHPSESSID="@) {
        trimming_is_final(v);
    }
}

/// A configured session is its value, whatever white space stands around it and whether or not the name
/// of the cookie stands before it; white space alone is no session; and a value that holds more than one
/// cookie is refused.
pub proof fn sessions_are_read(front: Seq<char>, gap: Seq<char>, value: Seq<char>, back: Seq<char>)
    requires
        value.len() > 0 ==> !white_space(value[0]) && !white_space(value.last()),
        forall|k: int| 0 <= k < front.len() ==> white_space(#[trigger] front[k]),
        forall|k: int| 0 <= k < gap.len() ==> white_space(#[trigger] gap[k]),
        forall|k: int| 0 <= k < back.len() ==> white_space(#[trigger] back[k]),
    ensures
        session_of(None) == Some(None::<Seq<char>>),
        ({
            let read = if value.len() == 0 {
                Some(None::<Seq<char>>)
            } else if value.contains(';') || value.contains('\r') || value.contains('\n') {
                None
            } else {
                Some(Some(value))
            };
            &&& after_prefix(value, "PHPSESSID="@) is None ==> session_of(
                Some(front + value + back),
            ) == read
            &&& session_of(Some(front + ("PHPSESSID="@ + gap + value) + back)) == read
        }),
{
    reveal_strlit("PHPSESSID=");
    let none: Seq<char> = Seq::empty();
    space_around_comes_off(front, value, back);
    space_around_comes_off(none, value, none);
    assert(none + value + none =~= value);
    space_around_comes_off(gap, value, none);
    assert(gap + value + none =~= gap + value);
    let name = "PHPSESSID="@;
    let long = name + gap + value;
    let whole = front + long + back;
    if value.len() > 0 {
        assert(long.last() == value.last());
        assert(long[0] == 'P');
        space_around_comes_off(front, long, back);
        prefixes_come_off(long, name, gap + value);
        assert(long =~= name + (gap + value));
    } else {
        assert(whole =~= front + name + (gap + back));
        assert forall|k: int| 0 <= k < (gap + back).len() implies white_space(
            #[trigger] (gap + back)[k],
        ) by {
            if k < gap.len() {
                assert((gap + back)[k] == gap[k]);
            } else {
                assert((gap + back)[k] == back[k - gap.len()]);
            }
        }
        space_around_comes_off(front, name, gap + back);
        prefixes_come_off(name, name, none);
        assert(name + none =~= name);
        space_around_comes_off(none, none, none);
        assert(none + none + none =~= none);
    }
}

/// What the requests say of themselves. Without a session they carry no cookie; with one, those that go
/// directly carry it as their cookie, and those that go through the proxy as their cookie and under a name
/// of its own.
pub proof fn requests_carry_the_session(session: Seq<char>)
    ensures
        base_entries()["accept"@] == "application/json"@,
        base_entries()["accept-language"@] == "en-US,en;q=0.9,ja;q=0.8"@,
        base_entries()["referer"@] == "https://www.pixiv.net/"@,
        base_entries()["origin"@] == "https://www.pixiv.net"@,
        base_entries()["x-requested-with"@] == "XMLHttpRequest"@,
        !base_entries().dom().contains("cookie"@),
        !base_entries().dom().contains("x-pixiv-phpsessid"@),
        direct_entries(session)["cookie"@] == "PHPSESSID="@ + session,
        direct_entries(session).remove("cookie"@) == base_entries(),
        proxy_entries(session)["cookie"@] == "PHPSESSID="@ + session,
        proxy_entries(session)["x-pixiv-phpsessid"@] == session,
        proxy_entries(session).remove("cookie"@).remove("x-pixiv-phpsessid"@) == base_entries(),
{
    reveal_strlit("accept");
    reveal_strlit("accept-language");
    reveal_strlit("referer");
    reveal_strlit("origin");
    reveal_strlit("x-requested-with");
    reveal_strlit("cookie");
    reveal_strlit("x-pixiv-phpsessid");
    assert("accept"@.len() == 6 && "origin"@.len() == 6 && "cookie"@.len() == 6);
    assert("accept-language"@.len() == 15 && "referer"@.len() == 7);
    assert("x-requested-with"@.len() == 16 && "x-pixiv-phpsessid"@.len() == 17);
    assert("accept"@[0] == 'a' && "origin"@[0] == 'o' && "cookie"@[0] == 'c');
    assert(direct_entries(session).remove("cookie"@) =~= base_entries());
    assert(proxy_entries(session).remove("cookie"@).remove("x-pixiv-phpsessid"@)
        =~= base_entries());
}

// ---------------------------------------------------------------------------
// The two ways to the site
// ---------------------------------------------------------------------------

/// A way to the site, with the headers of the requests that take it.
#[derive(Debug)]
pub enum PixivHttpClient {
    Direct(Headers),
    Proxy(Headers),
}

/// What the two ways are called.
pub open spec fn label_of(direct: bool) -> Seq<char> {
    if direct {
        "direct connection"@
    } else {
        "private proxy"@
    }
}

impl PixivHttpClient {
    /// What this way is called.
    pub open spec fn spec_label(&self) -> Seq<char> {
        label_of(self is Direct)
    }

    /// What this way is called.
    pub fn label(&self) -> (r: &'static str)
        ensures
            r@ == self.spec_label(),
    {
        match self {
            PixivHttpClient::Direct(_) => "direct connection",
            PixivHttpClient::Proxy(_) => "private proxy",
        }
    }
}

/// The collector asks by `primary` first, then by `fallback`.
#[derive(Debug)]
pub struct PixivCollector {
    pub primary: PixivHttpClient,
    pub fallback: Option<PixivHttpClient>,
    pub authenticated: bool,
}

impl PixivCollector {
    /// The requests go out without a session, directly, and there is no other way.
    pub open spec fn is_plain(&self) -> bool {
        &&& self.primary matches PixivHttpClient::Direct(h) && header_entries(h) == base_entries()
        &&& self.fallback is None
        &&& !self.authenticated
    }

    /// The requests go out with session `s`: directly first and, where `proxied`, through the proxy
    /// next.
    pub open spec fn acts_for(&self, s: Seq<char>, proxied: bool) -> bool {
        &&& self.primary matches PixivHttpClient::Direct(h) && header_entries(h) == direct_entries(s)
        &&& match self.fallback {
            Some(PixivHttpClient::Proxy(h)) => proxied && header_entries(h) == proxy_entries(s),
            Some(PixivHttpClient::Direct(_)) => false,
            None => !proxied,
        }
        &&& self.authenticated
    }

    /// What is built for a configuration.
    pub open spec fn built_for(config: PixivConfig, r: Result<Self, Error>) -> bool {
        match (session_of(opt_text(config.php_sessid)), r) {
            (None, Err(e)) => e@ == bad_session(),
            (Some(None), Ok(c)) => c.is_plain(),
            (Some(Some(s)), Ok(c)) => header_text(s) && c.acts_for(s, config.falls_back()),
            (Some(Some(s)), Err(e)) => !header_text(s) && e@ == unsendable_session(),
            _ => false,
        }
    }

    /// What is built for what stands in the configuration.
    pub open spec fn built_from(config: Option<PixivConfig>, r: Result<Self, Error>) -> bool {
        match config {
            Some(c) => Self::built_for(c, r),
            None => r matches Ok(c) && c.is_plain(),
        }
    }

    /// A collector without a session.
    pub fn new() -> (r: Self)
        ensures
            r.is_plain(),
    {
        PixivCollector {
            primary: PixivHttpClient::Direct(base_headers()),
            fallback: None,
            authenticated: false,
        }
    }

    /// A collector for the given configuration. A session is used on direct requests; the proxy
    /// serves only as a fallback.
    pub fn new_with_config(config: &PixivConfig) -> (r: Result<Self, Error>)
        ensures
            Self::built_for(*config, r),
    {
        let (direct, proxy) = match config.build_header_sets() {
            Ok(sets) => sets,
            Err(e) => {
                return Err(e);
            },
        };
        let authenticated = proxy.is_some();
        let fallback = match proxy {
            Some(headers) => if config.proxy_fallback_enabled() {
                Some(PixivHttpClient::Proxy(headers))
            } else {
                None
            },
            None => None,
        };
        Ok(PixivCollector { primary: PixivHttpClient::Direct(direct), fallback, authenticated })
    }

    /// A collector for what stands in the configuration; without a session where nothing does.
    pub fn new_from_config(config: Option<PixivConfig>) -> (r: Result<Self, Error>)
        ensures
            Self::built_from(config, r),
    {
        let config = match config {
            Some(c) => c,
            None => PixivConfig::default(),
        };
        PixivCollector::new_with_config(&config)
    }
}

/// A collector asks directly, and through the proxy only where there is a session and the proxy is not
/// forbidden. What it sends is the session that was configured, or none.
pub proof fn collectors_act_for_their_session(config: PixivConfig, c: PixivCollector)
    requires
        PixivCollector::built_for(config, Ok(c)),
    ensures
        session_of(opt_text(config.php_sessid)) matches Some(session),
        c.authenticated <==> session_of(opt_text(config.php_sessid))->0 is Some,
        c.primary matches PixivHttpClient::Direct(h) && header_entries(h) == (match session_of(
            opt_text(config.php_sessid),
        )->0 {
            Some(s) => direct_entries(s),
            None => base_entries(),
        }),
        c.fallback is Some <==> c.authenticated && config.proxy_fallback != Some(false),
        c.fallback matches Some(f) ==> (f matches PixivHttpClient::Proxy(h) && header_entries(h)
            == proxy_entries(session_of(opt_text(config.php_sessid))->0->0)),
{
}

/// Without a configuration a collector has no session, asks directly and has no other way.
pub proof fn collectors_need_no_configuration(
    config: PixivConfig,
    r: Result<PixivCollector, Error>,
    plain: Result<PixivCollector, Error>,
)
    requires
        PixivCollector::built_from(Some(config), r),
        PixivCollector::built_from(None, plain),
    ensures
        PixivCollector::built_for(config, r),
        plain matches Ok(c) && !c.authenticated && c.fallback is None && (c.primary matches
            PixivHttpClient::Direct(h) && header_entries(h) == base_entries()),
        r is Err <==> (match session_of(opt_text(config.php_sessid)) {
            None => true,
            Some(Some(s)) => !header_text(s),
            Some(None) => false,
        }),
{
}

// ---------------------------------------------------------------------------
// The API
// ---------------------------------------------------------------------------

/// The answer to a request.
#[derive(Debug)]
pub struct ApiReply {
    pub status: u16,
    pub proxy_stage: Option<String>,
    pub body: Vec<u8>,
}

impl ApiReply {
    /// An HTTP status has three digits.
    pub open spec fn wf(&self) -> bool {
        100 <= self.status < 1000
    }
}

/// What the API wraps its answers in; `body` is `None` where it is null.
#[derive(Debug)]
pub struct PixivApiResponse<B> {
    pub error: bool,
    pub message: String,
    pub body: Option<B>,
}

/// The part of a body's text that is shown in an error message.
pub open spec fn snippet(text: Seq<char>) -> Seq<char> {
    let t = trimmed(text);
    if t.len() == 0 {
        "empty response body"@
    } else if t.len() <= MAX_ERROR_BODY_CHARS {
        t
    } else {
        t.take(MAX_ERROR_BODY_CHARS as int).push('…')
    }
}

/// The part of a body's text that is shown in an error message.
pub fn text_snippet(text: &str) -> (r: String)
    ensures
        r@ == snippet(text@),
{
    let t = trim(text);
    if t.is_empty() {
        return "empty response body".to_owned();
    }
    let chars = chars_of(t);
    if chars.len() <= MAX_ERROR_BODY_CHARS {
        return t.to_owned();
    }
    let mut out = t.substring_char(0, MAX_ERROR_BODY_CHARS).to_owned();
    assert(t@.subrange(0, MAX_ERROR_BODY_CHARS as int) =~= t@.take(MAX_ERROR_BODY_CHARS as int));
    out.push('…');
    out
}

/// The part of a body that is shown in an error message.
pub fn response_body_snippet(body: &[u8]) -> (r: String)
    ensures
        r@ == snippet(utf8_lossy(body@)),
{
    let text = lossy_text(body);
    text_snippet(text.as_str())
}

/// However long the answer was, an error message shows at most so much of it, and one mark more.
pub proof fn snippet_is_short(text: Seq<char>)
    ensures
        snippet(text).len() <= MAX_ERROR_BODY_CHARS + 1,
        snippet(text).len() > 0,
{
    reveal_strlit("empty response body");
}

/// An error message shows the beginning of the answer, without white space around it: all of it where it
/// has at most 512 characters, else the first 512 and a mark.
pub proof fn snippets_show_the_beginning(text: Seq<char>)
    ensures
        trimmed(text).len() == 0 ==> snippet(text) == "empty response body"@,
        0 < trimmed(text).len() <= 512 ==> snippet(text) == trimmed(text),
        trimmed(text).len() > 512 ==> snippet(text) == trimmed(text).take(512) + seq!['…'],
{
    if trimmed(text).len() > 512 {
        assert(snippet(text) =~= trimmed(text).take(512) + seq!['…']);
    }
}

/// The stage at which the proxy failed, as it is named in an error message.
pub open spec fn stage_note(stage: Option<Seq<char>>) -> Seq<char> {
    match stage {
        Some(s) => ", stage="@ + s,
        None => Seq::empty(),
    }
}

/// What is said of an answer whose status is no success, given the text of the status and the part
/// of the body that is shown.
pub open spec fn status_failure(
    label: Seq<char>,
    status: Seq<char>,
    stage: Option<Seq<char>>,
    shown: Seq<char>,
) -> Seq<char> {
    "HTTP "@ + status + " through "@ + label + stage_note(stage) + ": "@ + shown
}

/// What is said of an answer whose status is no success.
pub fn status_failed(label: &str, status: &str, stage: &Option<String>, shown: &str) -> (r: Error)
    ensures
        r@ == status_failure(label@, status@, opt_text(*stage), shown@),
{
    let note = match stage {
        Some(s) => {
            let mut note = ", stage=".to_owned();
            note.append(s.as_str());
            note
        },
        None => String::new(),
    };
    let mut message = "HTTP ".to_owned();
    message.append(status);
    message.append(" through ");
    message.append(label);
    message.append(note.as_str());
    message.append(": ");
    message.append(shown);
    error(message)
}

/// The message of the API, as it stands in an error message.
pub open spec fn message_note(message: Seq<char>) -> Seq<char> {
    if trimmed(message).len() == 0 {
        Seq::empty()
    } else {
        ": "@ + trimmed(message)
    }
}

/// What to do about a refusal.
pub open spec fn auth_hint(authenticated: bool) -> Seq<char> {
    if authenticated {
        "the configured Pixiv session may be expired, or its account may not have permission to view this work"@
    } else {
        "set pixiv.php_sessid to access works that require a Pixiv login"@
    }
}

/// What is said of answers that are no success, of what the API says itself, and of what may help.
pub proof fn refusals_are_told(
    label: Seq<char>,
    status: Seq<char>,
    stage: Seq<char>,
    shown: Seq<char>,
    message: Seq<char>,
)
    ensures
        status_failure(label, status, None, shown) == "HTTP "@ + status + " through "@ + label + ": "@
            + shown,
        status_failure(label, status, Some(stage), shown) == "HTTP "@ + status + " through "@ + label
            + ", stage="@ + stage + ": "@ + shown,
        trimmed(message).len() > 0 ==> message_note(message) == ": "@ + trimmed(message),
        trimmed(message).len() == 0 ==> message_note(message).len() == 0,
        auth_hint(true)
            == "the configured Pixiv session may be expired, or its account may not have permission to view this work"@,
        auth_hint(false) == "set pixiv.php_sessid to access works that require a Pixiv login"@,
        label_of(true) == "direct connection"@,
        label_of(false) == "private proxy"@,
        bad_session()
            == "pixiv.php_sessid must contain only the PHPSESSID value, not a full Cookie header"@,
        unsendable_session() == "invalid pixiv PHPSESSID: "@ + "failed to parse header value"@,
{
    let begin = "HTTP "@ + status + " through "@ + label;
    assert(begin + stage_note(None) + ": "@ + shown =~= begin + ": "@ + shown);
    assert(begin + stage_note(Some(stage)) + ": "@ + shown =~= begin + ", stage="@ + stage + ": "@
        + shown);
}

/// What to do next about a request to the API.
pub enum ApiStep<T> {
    /// It is over.
    Done(Result<T, Error>),
    /// It failed by the first way, for this reason; there is another way.
    TryFallback(Error),
}

impl PixivCollector {
    /// The first way was tried.
    pub fn after_primary<T>(&self, result: Result<T, Error>) -> (r: ApiStep<T>)
        ensures
            match result {
                Ok(_) => r == ApiStep::Done(result),
                Err(e) => if self.fallback is Some {
                    r == ApiStep::<T>::TryFallback(e)
                } else {
                    r == ApiStep::Done(result)
                },
            },
    {
        match result {
            Ok(value) => ApiStep::Done(Ok(value)),
            Err(e) => match &self.fallback {
                Some(_) => ApiStep::TryFallback(e),
                None => ApiStep::Done(Err(e)),
            },
        }
    }

    /// The other way was tried as well.
    pub fn after_fallback<T>(
        &self,
        fallback: &PixivHttpClient,
        primary_error: Error,
        result: Result<T, Error>,
    ) -> (r: Result<T, Error>)
        ensures
            match result {
                Ok(value) => r == Ok::<T, Error>(value),
                Err(fallback_error) => r matches Err(e) && e@ == "pixiv "@
                    + self.primary.spec_label() + " failed: "@ + primary_error@ + "; "@
                    + fallback.spec_label() + " fallback failed: "@ + fallback_error@,
            },
    {
        match result {
            Ok(value) => Ok(value),
            Err(fallback_error) => {
                let mut message = "pixiv ".to_owned();
                message.append(self.primary.label());
                message.append(" failed: ");
                message.append(primary_error.message.as_str());
                message.append("; ");
                message.append(fallback.label());
                message.append(" fallback failed: ");
                message.append(fallback_error.message.as_str());
                Err(error(message))
            },
        }
    }

    /// The body of an answer, where the answer came and its status says success.
    pub fn check_reply(client: &PixivHttpClient, url: &str, reply: Loaded<ApiReply>) -> (r: Result<
        Vec<u8>,
        Error,
    >)
        requires
            reply matches Loaded::Done(a) ==> a.wf(),
        ensures
            match reply {
                Loaded::TimedOut => r matches Err(e) && e@ == "pixiv request through "@
                    + client.spec_label() + " timed out: "@ + url@,
                Loaded::Failed(cause) => r == Err::<Vec<u8>, Error>(cause),
                Loaded::Done(a) => if 200 <= a.status < 300 {
                    r == Ok::<Vec<u8>, Error>(a.body)
                } else {
                    r matches Err(e) && e@ == status_failure(
                        client.spec_label(),
                        status_text(a.status),
                        opt_text(a.proxy_stage),
                        snippet(utf8_lossy(a.body@)),
                    )
                },
            },
    {
        let answer = match reply {
            Loaded::Done(a) => a,
            Loaded::TimedOut => {
                let mut message = "pixiv request through ".to_owned();
                message.append(client.label());
                message.append(" timed out: ");
                message.append(url);
                return Err(error(message));
            },
            Loaded::Failed(cause) => {
                return Err(cause);
            },
        };
        if answer.status < 200 || answer.status >= 300 {
            let status = status_line(answer.status);
            let shown = response_body_snippet(answer.body.as_slice());
            return Err(
                status_failed(
                    client.label(),
                    status.as_str(),
                    &answer.proxy_stage,
                    shown.as_str(),
                ),
            );
        }
        Ok(answer.body)
    }

    /// What the API says, where its wrapping could be read and it does not refuse.
    pub fn read_response<B>(
        &self,
        client: &PixivHttpClient,
        url: &str,
        body: &[u8],
        parsed: Result<PixivApiResponse<B>, String>,
    ) -> (r: Result<B, Error>)
        ensures
            match parsed {
                Err(cause) => r matches Err(e) && e@
                    == "unable to parse Pixiv API response through "@ + client.spec_label()
                    + " from "@ + url@ + ": "@ + cause@ + "; body: "@ + snippet(utf8_lossy(body@)),
                Ok(response) => if response.error {
                    r matches Err(e) && e@ == "Pixiv API rejected the request through "@
                        + client.spec_label() + message_note(response.message@) + "; "@ + auth_hint(
                        self.authenticated,
                    )
                } else {
                    match response.body {
                        Some(b) => r == Ok::<B, Error>(b),
                        None => r matches Err(e) && e@
                            == "Pixiv API returned an empty body through "@ + client.spec_label()
                            + ": "@ + url@,
                    }
                },
            },
    {
        let response = match parsed {
            Ok(response) => response,
            Err(cause) => {
                let mut message = "unable to parse Pixiv API response through ".to_owned();
                message.append(client.label());
                message.append(" from ");
                message.append(url);
                message.append(": ");
                message.append(cause.as_str());
                message.append("; body: ");
                message.append(response_body_snippet(body).as_str());
                return Err(error(message));
            },
        };
        if response.error {
            let said = trim(response.message.as_str());
            let note = if said.is_empty() {
                String::new()
            } else {
                let mut n = ": ".to_owned();
                n.append(said);
                n
            };
            let hint = if self.authenticated {
                "the configured Pixiv session may be expired, or its account may not have permission to view this work"
            } else {
                "set pixiv.php_sessid to access works that require a Pixiv login"
            };
            let mut message = "Pixiv API rejected the request through ".to_owned();
            message.append(client.label());
            message.append(note.as_str());
            message.append("; ");
            message.append(hint);
            return Err(error(message));
        }
        match response.body {
            Some(b) => Ok(b),
            None => {
                let mut message = "Pixiv API returned an empty body through ".to_owned();
                message.append(client.label());
                message.append(": ");
                message.append(url);
                Err(error(message))
            },
        }
    }

    /// The body of the API's answer has been decoded, or could not be.
    pub fn decoded<T>(client: &PixivHttpClient, url: &str, value: Result<T, String>) -> (r: Result<
        T,
        Error,
    >)
        ensures
            match value {
                Ok(v) => r == Ok::<T, Error>(v),
                Err(cause) => r matches Err(e) && e@ == "unable to decode Pixiv API body through "@
                    + client.spec_label() + " from "@ + url@ + ": "@ + cause@,
            },
    {
        match value {
            Ok(v) => Ok(v),
            Err(cause) => {
                let mut message = "unable to decode Pixiv API body through ".to_owned();
                message.append(client.label());
                message.append(" from ");
                message.append(url);
                message.append(": ");
                message.append(cause.as_str());
                Err(error(message))
            },
        }
    }
}

// ---------------------------------------------------------------------------
// What the API tells of an artwork
// ---------------------------------------------------------------------------

/// What the API tells of an artwork.
#[derive(Debug)]
pub struct PixivIllust {
    pub illust_title: String,
    pub title: String,
    pub illust_comment: String,
    pub description: String,
    pub user_name: String,
    pub illust_type: PixivIllustType,
    pub page_count: usize,
    pub tags: Option<PixivTags>,
}

/// The kind of an artwork, by its number.
#[derive(Debug, Clone, Copy)]
pub struct PixivIllustType(pub u8);

/// The name of a kind of artwork.
pub open spec fn class_of(kind: u8) -> Seq<char> {
    if kind == 0 {
        "illustration"@
    } else if kind == 1 {
        "manga"@
    } else if kind == 2 {
        "ugoira"@
    } else {
        "pixiv"@
    }
}

impl PixivIllustType {
    /// The name of this kind of artwork.
    pub fn class_name(self) -> (r: &'static str)
        ensures
            r@ == class_of(self.0),
    {
        match self.0 {
            0 => "illustration",
            1 => "manga",
            2 => "ugoira",
            _ => "pixiv",
        }
    }
}

/// The tags of an artwork.
#[derive(Debug)]
pub struct PixivTags {
    pub tags: Vec<PixivTag>,
}

/// One tag of an artwork.
#[derive(Debug)]
pub struct PixivTag {
    pub tag: String,
}

/// The texts without white space around them, and without those of which nothing is left.
pub open spec fn non_blank(s: Seq<Seq<char>>) -> Seq<Seq<char>>
    decreases s.len(),
{
    if s.len() == 0 {
        Seq::empty()
    } else {
        let t = trimmed(s.last());
        if t.len() == 0 {
            non_blank(s.drop_last())
        } else {
            non_blank(s.drop_last()).push(t)
        }
    }
}

impl PixivTags {
    /// The tags as the API gives them.
    pub open spec fn raw(&self) -> Seq<Seq<char>> {
        self.tags@.map_values(|t: PixivTag| t.tag@)
    }

    /// The tags without white space around them, each once and in the order in which they came.
    /// `None` where there is none.
    pub fn into_names(self) -> (r: Option<Vec<String>>)
        ensures
            opt_texts(r) == unless_empty(distinct(non_blank(self.raw()))),
    {
        let ghost raw = self.raw();
        let mut names: Vec<String> = Vec::new();
        let mut i: usize = 0;
        assert(raw.take(0) =~= Seq::empty());
        assert(texts(names@) =~= Seq::empty());
        while i < self.tags.len()
            invariant
                i <= self.tags.len(),
                raw == self.raw(),
                texts(names@) == distinct(non_blank(raw.take(i as int))),
            decreases self.tags.len() - i,
        {
            assert(raw.take(i + 1).drop_last() =~= raw.take(i as int));
            assert(raw.take(i + 1).last() == self.tags@[i as int].tag@);
            let tag = trim(self.tags[i].tag.as_str());
            if !tag.is_empty() {
                let ghost prev = non_blank(raw.take(i as int));
                assert(prev.push(tag@).drop_last() =~= prev);
                push_unique(&mut names, tag.to_owned());
            }
            i += 1;
        }
        assert(raw.take(i as int) =~= raw);
        assert(texts(names@).len() == names.len());
        some_unless_empty(names)
    }
}

/// The names of the kinds of artworks.
pub proof fn kinds_have_names(kind: u8)
    ensures
        class_of(0) == "illustration"@,
        class_of(1) == "manga"@,
        class_of(2) == "ugoira"@,
        kind > 2 ==> class_of(kind) == "pixiv"@,
{
}

/// Of the texts those count of which anything is left without the white space around them: all of them,
/// and in their order.
pub proof fn blank_texts_do_not_count(s: Seq<Seq<char>>)
    ensures
        non_blank(s) == s.map_values(|t: Seq<char>| trimmed(t)).filter(|t: Seq<char>| t.len() > 0),
    decreases s.len(),
{
    reveal(Seq::filter);
    let m = s.map_values(|t: Seq<char>| trimmed(t));
    if s.len() > 0 {
        blank_texts_do_not_count(s.drop_last());
        assert(m.drop_last() =~= s.drop_last().map_values(|t: Seq<char>| trimmed(t)));
        assert(m.last() == trimmed(s.last()));
    }
}

/// One page of an artwork.
#[derive(Debug)]
pub struct PixivPage {
    pub urls: PixivPageUrls,
}

/// The addresses of the image of a page, in several sizes.
#[derive(Debug)]
pub struct PixivPageUrls {
    pub original: Option<String>,
    pub regular: Option<String>,
    pub small: Option<String>,
}

/// The address of the largest size that there is.
pub open spec fn best_url(urls: PixivPageUrls) -> Option<String> {
    match urls.original {
        Some(u) => Some(u),
        None => match urls.regular {
            Some(u) => Some(u),
            None => urls.small,
        },
    }
}

/// What is said of an address, shown in quotes, that is no URL.
pub open spec fn invalid_url(shown: Seq<char>, cause: Seq<char>) -> Seq<char> {
    "invalid pixiv image URL "@ + shown + ": "@ + cause
}

/// What is said of an address whose host, shown in quotes, is not that of the images.
pub open spec fn unexpected_host(shown: Seq<char>, text: Seq<char>) -> Seq<char> {
    "unexpected pixiv image host "@ + shown + " in URL "@ + text
}

/// What is said of an address, shown in quotes, that is no URL.
pub fn invalid_url_error(shown: &str, cause: &str) -> (r: Error)
    ensures
        r@ == invalid_url(shown@, cause@),
{
    let mut message = "invalid pixiv image URL ".to_owned();
    message.append(shown);
    message.append(": ");
    message.append(cause);
    error(message)
}

/// What is said of an address whose host, shown in quotes, is not that of the images.
pub fn unexpected_host_error(shown: &str, url: &str) -> (r: Error)
    ensures
        r@ == unexpected_host(shown@, url@),
{
    let mut message = "unexpected pixiv image host ".to_owned();
    message.append(shown);
    message.append(" in URL ");
    message.append(url);
    error(message)
}

/// Whether a URL is the address of an image of the site, given what the URL consists of; the URL
/// as it is written in full, or what is wrong with it.
pub open spec fn image_url(text: Seq<char>, parsed: Result<UrlPartsView, Seq<char>>) -> Result<
    Seq<char>,
    Seq<char>,
> {
    match parsed {
        Err(cause) => Err(invalid_url(quoted(text), cause)),
        Ok(u) => if u.scheme != "https"@ || u.username.len() != 0 || u.password is Some {
            Err("unsafe pixiv image URL: "@ + text)
        } else {
            match u.host {
                None => Err("pixiv image URL has no host: "@ + text),
                Some(host) => if host != "i.pximg.net"@ {
                    Err(unexpected_host(quoted(host), text))
                } else {
                    Ok(u.text)
                },
            }
        },
    }
}

/// An address that passes leads to the image host of the site, over an encrypted connection and
/// without credentials.
pub proof fn image_addresses_are_safe(text: Seq<char>, parsed: Result<UrlPartsView, Seq<char>>)
    ensures
        image_url(text, parsed) matches Ok(url) ==> (parsed matches Ok(u) && u.text == url
            && u.scheme == "https"@ && u.username.len() == 0 && u.password is None && u.host
            == Some("i.pximg.net"@)),
{
}

/// An address is that of an image exactly where it is a URL to the image host of the site, over an
/// encrypted connection and without credentials; then it is the URL as it is written in full.
pub proof fn image_addresses_are_taken(text: Seq<char>, parsed: Result<UrlPartsView, Seq<char>>)
    ensures
        parsed matches Ok(u) ==> (u.scheme == "https"@ && u.username.len() == 0 && u.password is None
            && u.host == Some("i.pximg.net"@) ==> image_url(text, parsed) == Ok::<
            Seq<char>,
            Seq<char>,
        >(u.text)),
        image_url(text, parsed) matches Ok(url) ==> (parsed matches Ok(u) && u.text == url
            && u.scheme == "https"@ && u.username.len() == 0 && u.password is None && u.host
            == Some("i.pximg.net"@)),
{
}

/// What is said of an address that is not that of an image.
pub proof fn other_addresses_are_refused(text: Seq<char>, u: UrlPartsView, cause: Seq<char>)
    ensures
        image_url(text, Err(cause)) == Err::<Seq<char>, Seq<char>>(
            "invalid pixiv image URL "@ + quoted(text) + ": "@ + cause,
        ),
        ({
            let unsafe_address = u.scheme != "https"@ || u.username.len() > 0 || u.password is Some;
            let r = image_url(text, Ok(u));
            &&& unsafe_address ==> r == Err::<Seq<char>, Seq<char>>("unsafe pixiv image URL: "@ + text)
            &&& !unsafe_address && u.host is None ==> r == Err::<Seq<char>, Seq<char>>(
                "pixiv image URL has no host: "@ + text,
            )
            &&& !unsafe_address ==> (u.host matches Some(host) ==> (host != "i.pximg.net"@ ==> r == Err::<
                Seq<char>,
                Seq<char>,
            >("unexpected pixiv image host "@ + quoted(host) + " in URL "@ + text)))
        }),
{
}

/// Checks what a URL consists of.
pub fn check_image_url(url: &str, parsed: Result<UrlParts, String>) -> (r: Result<String, Error>)
    ensures
        text_result(r) == image_url(
            url@,
            match parsed {
                Ok(u) => Ok(u@),
                Err(e) => Err(e@),
            },
        ),
{
    let parts = match parsed {
        Ok(parts) => parts,
        Err(cause) => {
            let shown = debug_text(url);
            return Err(invalid_url_error(shown.as_str(), cause.as_str()));
        },
    };
    if !same(parts.scheme.as_str(), "https") || !parts.username.as_str().is_empty()
        || parts.password.is_some() {
        let mut message = "unsafe pixiv image URL: ".to_owned();
        message.append(url);
        return Err(error(message));
    }
    match &parts.host {
        None => {
            let mut message = "pixiv image URL has no host: ".to_owned();
            message.append(url);
            Err(error(message))
        },
        Some(host) => {
            if !same(host.as_str(), "i.pximg.net") {
                let shown = debug_text(host.as_str());
                return Err(unexpected_host_error(shown.as_str(), url));
            }
            Ok(parts.text)
        },
    }
}

/// Checks that a URL is the address of an image of the site.
pub fn validate_image_url(url: String) -> (r: Result<String, Error>)
    ensures
        text_result(r) == image_url(url@, url_of(url@)),
{
    let parsed = parse_url(url.as_str());
    check_image_url(url.as_str(), parsed)
}

/// The image of page `index`, counted from 0, at an address that has been checked.
pub open spec fn image_at(
    illust_id: Seq<char>,
    index: nat,
    checked: Result<Seq<char>, Seq<char>>,
) -> Result<ImageView, Seq<char>> {
    match checked {
        Err(e) => Err(e),
        Ok(url) => Ok(
            ImageView { id: illust_id + "-p"@ + decimal(index), url, description: None },
        ),
    }
}

/// An image or a message, as its characters.
pub open spec fn image_result(r: Result<ImageMeta, Error>) -> Result<ImageView, Seq<char>> {
    match r {
        Ok(image) => Ok(image@),
        Err(e) => Err(e@),
    }
}

/// The image of page `index`, counted from 0, at an address that has been checked.
pub fn checked_image(illust_id: &str, index: usize, checked: Result<String, Error>) -> (r: Result<
    ImageMeta,
    Error,
>)
    ensures
        image_result(r) == image_at(illust_id@, index as nat, text_result(checked)),
{
    match checked {
        Ok(url) => {
            let mut id = illust_id.to_owned();
            id.append("-p");
            id.append(number(index as u64).as_str());
            Ok(ImageMeta { id, url, description: None })
        },
        Err(e) => Err(e),
    }
}

/// A page of an artwork as an image, or why it is none.
pub open spec fn page_image(urls: PixivPageUrls, illust_id: Seq<char>, index: nat) -> Result<
    ImageView,
    Seq<char>,
> {
    match best_url(urls) {
        None => Err(
            "pixiv page "@ + decimal(index + 1) + " of artwork "@ + illust_id
                + " has no usable image URL"@,
        ),
        Some(u) => image_at(illust_id, index, image_url(u@, url_of(u@))),
    }
}

/// A page shows its image in the largest size that there is: the original, or else the regular, or else
/// the small one. The image is named by the artwork and the number of the page, counted from 0.
pub proof fn pages_show_their_largest_image(urls: PixivPageUrls, id: Seq<char>, index: nat)
    ensures
        ({
            let largest = if urls.original is Some {
                urls.original
            } else if urls.regular is Some {
                urls.regular
            } else {
                urls.small
            };
            match largest {
                None => page_image(urls, id, index) == Err::<ImageView, Seq<char>>(
                    "pixiv page "@ + decimal(index + 1) + " of artwork "@ + id
                        + " has no usable image URL"@,
                ),
                Some(u) => match image_url(u@, url_of(u@)) {
                    Err(e) => page_image(urls, id, index) == Err::<ImageView, Seq<char>>(e),
                    Ok(url) => page_image(urls, id, index) matches Ok(image) && image.url == url
                        && image.id == id + "-p"@ + decimal(index) && image.description is None,
                },
            }
        }),
{
}

impl PixivPage {
    /// The page as an image.
    pub fn into_image_meta(self, illust_id: &str, index: usize) -> (r: Result<ImageMeta, Error>)
        requires
            index < usize::MAX,
        ensures
            image_result(r) == page_image(self.urls, illust_id@, index as nat),
    {
        let url = match self.urls.original {
            Some(u) => Some(u),
            None => match self.urls.regular {
                Some(u) => Some(u),
                None => self.urls.small,
            },
        };
        let url = match url {
            Some(u) => u,
            None => {
                let mut message = "pixiv page ".to_owned();
                message.append(number((index + 1) as u64).as_str());
                message.append(" of artwork ");
                message.append(illust_id);
                message.append(" has no usable image URL");
                return Err(error(message));
            },
        };
        checked_image(illust_id, index, validate_image_url(url))
    }
}

// ---------------------------------------------------------------------------
// The number of an artwork
// ---------------------------------------------------------------------------

/// The number of an artwork: one ASCII digit or more, and nothing else.
pub open spec fn valid_id(s: Seq<char>) -> bool {
    s.len() > 0 && forall|i: int| 0 <= i < s.len() ==> ascii_digit(#[trigger] s[i])
}

/// Whether a text is the number of an artwork.
pub fn is_valid_illust_id(value: &str) -> (r: bool)
    ensures
        r == valid_id(value@),
{
    let chars = chars_of(value);
    let mut i: usize = 0;
    while i < chars.len()
        invariant
            i <= chars.len(),
            chars@ == value@,
            forall|j: int| 0 <= j < i ==> ascii_digit(#[trigger] value@[j]),
        decreases chars.len() - i,
    {
        if chars[i] < '0' || chars[i] > '9' {
            assert(!ascii_digit(value@[i as int]));
            return false;
        }
        i += 1;
    }
    chars.len() > 0
}

/// The number that a query pair `illust_id=...` gives.
pub open spec fn id_of_pair(pair: Seq<char>) -> Option<Seq<char>> {
    match cut(pair, '=') {
        Some((key, value)) => if key == "illust_id"@ && valid_id(value) {
            Some(value)
        } else {
            None
        },
        None => None,
    }
}

/// The number that the first of the pairs which gives one gives.
pub open spec fn id_of_pairs(pairs: Seq<Seq<char>>) -> Option<Seq<char>>
    decreases pairs.len(),
{
    if pairs.len() == 0 {
        None
    } else {
        match id_of_pairs(pairs.drop_last()) {
            Some(id) => Some(id),
            None => id_of_pair(pairs.last()),
        }
    }
}

/// The number of an artwork is made of digits alone.
pub proof fn numbers_are_digits(s: Seq<char>)
    ensures
        valid_id(s) <==> s.len() > 0 && forall|i: int|
            0 <= i < s.len() ==> '0' <= #[trigger] s[i] && s[i] <= '9',
{
}

/// A pair gives a number exactly where it is `illust_id=` and the number.
pub proof fn pairs_give_their_number(pair: Seq<char>, id: Seq<char>)
    ensures
        id_of_pair(pair) == Some(id) <==> pair == "illust_id="@ + id && valid_id(id),
{
    reveal_strlit("illust_id=");
    reveal_strlit("illust_id");
    let key = "illust_id"@;
    assert("illust_id="@ + id =~= key + seq!['='] + id);
    cuts_are_at_the_first(pair, '=', key, id);
}

/// The number in the pairs of a query is that of the first pair which gives one, wherever it stands; `k`
/// is its place. There is none exactly where no pair gives one.
pub proof fn first_fitting_pair_counts(pairs: Seq<Seq<char>>) -> (k: int)
    ensures
        id_of_pairs(pairs) matches Some(id) ==> 0 <= k < pairs.len() && pairs[k] == "illust_id="@ + id
            && valid_id(id) && forall|j: int, other: Seq<char>|
            0 <= j < k && valid_id(other) ==> #[trigger] pairs[j] != #[trigger] ("illust_id="@ + other),
        id_of_pairs(pairs) is None ==> forall|j: int, other: Seq<char>|
            0 <= j < pairs.len() && valid_id(other) ==> #[trigger] pairs[j] != #[trigger] ("illust_id="@
                + other),
    decreases pairs.len(),
{
    if pairs.len() > 0 {
        let before = pairs.drop_last();
        let k = first_fitting_pair_counts(before);
        let n = pairs.len() - 1;
        let last = pairs.last();
        match id_of_pairs(before) {
            Some(id) => {
                assert forall|j: int, other: Seq<char>| 0 <= j < k && valid_id(
                    other,
                ) implies #[trigger] pairs[j] != #[trigger] ("illust_id="@ + other) by {
                    assert(before[j] == pairs[j]);
                }
                k
            },
            None => {
                assert forall|j: int, other: Seq<char>| 0 <= j < n && valid_id(
                    other,
                ) implies #[trigger] pairs[j] != #[trigger] ("illust_id="@ + other) by {
                    assert(before[j] == pairs[j]);
                }
                if let Some(id) = id_of_pair(last) {
                    pairs_give_their_number(last, id);
                } else {
                    assert forall|other: Seq<char>| valid_id(other) implies last
                        != #[trigger] ("illust_id="@ + other) by {
                        pairs_give_their_number(last, other);
                    }
                }
                n
            },
        }
    } else {
        0
    }
}

/// The number that the query of an address gives: what stands between the first `?` and a `#`.
pub open spec fn id_of_query(input: Seq<char>) -> Option<Seq<char>> {
    match cut(input, '?') {
        Some((_, query)) => id_of_pairs(pieces(pieces(query, '#')[0], '&')),
        None => None,
    }
}

/// The texts that are not empty, in order.
pub open spec fn non_empties(s: Seq<Seq<char>>) -> Seq<Seq<char>>
    decreases s.len(),
{
    if s.len() == 0 {
        Seq::empty()
    } else if s.last().len() == 0 {
        non_empties(s.drop_last())
    } else {
        non_empties(s.drop_last()).push(s.last())
    }
}

/// The path of an address in segments: what stands before the first `?` or `#`, cut at the slashes.
pub open spec fn segments_of(input: Seq<char>) -> Seq<Seq<char>> {
    non_empties(pieces(without_end(pieces(pieces(input, '?')[0], '#')[0], Some('/')), '/'))
}

/// The number that the segments of a path give: a single number, or one that ends the path behind
/// `artworks`.
pub open spec fn id_of_segments(segments: Seq<Seq<char>>) -> Option<Seq<char>> {
    let n = segments.len();
    if n == 1 && valid_id(segments[0]) {
        Some(segments[0])
    } else if n >= 2 && segments[n - 2] == "artworks"@ && valid_id(segments[n - 1]) {
        Some(segments[n - 1])
    } else {
        None
    }
}

/// The number of the artwork that an input names.
pub open spec fn illust_id_of(input: Seq<char>) -> Option<Seq<char>> {
    let t = trimmed(input);
    match id_of_query(t) {
        Some(id) => Some(id),
        None => id_of_segments(segments_of(t)),
    }
}

/// What is said of an input that names no artwork.
pub open spec fn bad_input(input: Seq<char>) -> Seq<char> {
    "invalid input path("@ + trimmed(input)
        + "); a Pixiv artwork URL is expected, like https://www.pixiv.net/artworks/12345678"@
}

/// The pairs of the query of an address are what stands between the first `?` and a `#`, or the end, cut
/// at each `&`: all of them are looked at, from the first to the last.
pub proof fn all_pairs_are_looked_at(before: Seq<char>, pairs: Seq<Seq<char>>, after: Seq<char>)
    requires
        !before.contains('?'),
        pairs.len() > 0,
        forall|i: int|
            0 <= i < pairs.len() ==> !(#[trigger] pairs[i]).contains('&') && !pairs[i].contains('#'),
    ensures
        id_of_query(before) is None,
        id_of_query(before + "?"@ + joined(pairs, "&"@)) == id_of_pairs(pairs),
        id_of_query(before + "?"@ + joined(pairs, "&"@) + "#"@ + after) == id_of_pairs(pairs),
{
    reveal_strlit("?");
    reveal_strlit("&");
    reveal_strlit("#");
    assert("&"@ =~= seq!['&']);
    let query = joined(pairs, "&"@);
    lemma_joined_holds_no(pairs, '#');
    joined_texts_come_apart(pairs, '&');
    assert(before + "?"@ + query =~= before + seq!['?'] + query);
    cut_of_sum(before, query, '?');
    pieces_of_plain(query, '#');
    let long = query + seq!['#'] + after;
    assert(before + "?"@ + query + "#"@ + after =~= before + seq!['?'] + long);
    cut_of_sum(before, long, '?');
    pieces_of_two(query, after, '#');
}

proof fn lemma_joined_holds_no(pairs: Seq<Seq<char>>, c: char)
    requires
        forall|i: int| 0 <= i < pairs.len() ==> !(#[trigger] pairs[i]).contains(c),
        c != '&',
    ensures
        !joined(pairs, "&"@).contains(c),
    decreases pairs.len(),
{
    reveal_strlit("&");
    if pairs.len() > 1 {
        let before = pairs.drop_last();
        assert forall|i: int| 0 <= i < before.len() implies !(#[trigger] before[i]).contains(c) by {
            assert(before[i] == pairs[i]);
        }
        lemma_joined_holds_no(before, c);
        assert(!pairs[pairs.len() - 1].contains(c));
        lemma_plain_sum(joined(before, "&"@), "&"@, c);
        lemma_plain_sum(joined(before, "&"@) + "&"@, pairs.last(), c);
    } else if pairs.len() == 1 {
        assert(!pairs[0].contains(c));
    }
}

/// The segments of an address are what stands between the slashes before a `?` or a `#`, where anything
/// stands there.
pub proof fn segments_stand_between_slashes(path: Seq<char>, after: Seq<char>)
    requires
        !path.contains('?'),
        !path.contains('#'),
    ensures
        segments_of(path) == pieces(path, '/').filter(|t: Seq<char>| t.len() > 0),
        segments_of(path + "?"@ + after) == segments_of(path),
        segments_of(path + "#"@ + after) == segments_of(path),
{
    reveal_strlit("?");
    reveal_strlit("#");
    pieces_of_plain(path, '?');
    pieces_of_plain(path, '#');
    lemma_slashes_at_the_end(path);
    lemma_non_empties(pieces(path, '/'));
    let a = path + seq!['?'] + after;
    assert(path + "?"@ + after =~= a);
    pieces_of_two(path, after, '?');
    let b = path + seq!['#'] + after;
    assert(path + "#"@ + after =~= b);
    first_pieces(b, '?');
    if b.contains('?') {
        let (x, y) = cut(b, '?')->0;
        cuts_are_at_the_first(b, '?', x, y);
        let n = path.len() as int;
        if x.len() <= n {
            assert(b[x.len() as int] == '?');
            if x.len() < n {
                assert(path[x.len() as int] == '?');
            }
        }
        let rest = x.skip(n + 1);
        assert(x =~= path + seq!['#'] + rest) by {
            assert(b.take(x.len() as int) =~= x);
        }
        pieces_of_two(path, rest, '#');
    } else {
        pieces_of_two(path, after, '#');
    }
}

proof fn lemma_non_empties(s: Seq<Seq<char>>)
    ensures
        non_empties(s) == s.filter(|t: Seq<char>| t.len() > 0),
    decreases s.len(),
{
    reveal(Seq::filter);
    if s.len() > 0 {
        lemma_non_empties(s.drop_last());
    }
}

proof fn lemma_slashes_at_the_end(path: Seq<char>)
    ensures
        non_empties(pieces(without_end(path, Some('/')), '/')) == non_empties(pieces(path, '/')),
    decreases path.len(),
{
    if path.len() > 0 && path.last() == '/' {
        lemma_slashes_at_the_end(path.drop_last());
        let p = pieces(path.drop_last(), '/');
        assert(p.push(Seq::empty()).drop_last() =~= p);
    }
}

/// Segments name an artwork exactly where they are a single number, or end with `artworks` and a number.
pub proof fn segments_name_artworks(before: Seq<Seq<char>>, segments: Seq<Seq<char>>, id: Seq<char>)
    ensures
        valid_id(id) ==> id_of_segments(seq![id]) == Some(id) && id_of_segments(
            before + seq!["artworks"@, id],
        ) == Some(id),
        id_of_segments(segments) == Some(id) ==> valid_id(id) && (segments == seq![id] || segments
            == segments.take(segments.len() - 2) + seq!["artworks"@, id]),
{
    let n = segments.len();
    if id_of_segments(segments) == Some(id) {
        if n == 1 {
            assert(segments =~= seq![id]);
        } else {
            assert(segments =~= segments.take(n - 2) + seq!["artworks"@, id]);
        }
    }
}

/// What an input names is what its query gives, or else what its path gives; white space around it does
/// not count.
pub proof fn inputs_name_artworks(front: Seq<char>, input: Seq<char>, back: Seq<char>)
    requires
        input.len() > 0 ==> !white_space(input[0]) && !white_space(input.last()),
        forall|k: int| 0 <= k < front.len() ==> white_space(#[trigger] front[k]),
        forall|k: int| 0 <= k < back.len() ==> white_space(#[trigger] back[k]),
    ensures
        illust_id_of(front + input + back) == (if id_of_query(input) is Some {
            id_of_query(input)
        } else {
            id_of_segments(segments_of(input))
        }),
{
    space_around_comes_off(front, input, back);
}

fn id_in_query(query: &str) -> (r: Option<String>)
    ensures
        opt_text(r) == id_of_pairs(pieces(pieces(query@, '#')[0], '&')),
{
    let parts = split(query, '#');
    assert(texts(parts@)[0] == parts@[0]@);
    let pairs = split(parts[0].as_str(), '&');
    let ghost all = texts(pairs@);
    let mut i: usize = 0;
    assert(all.take(0) =~= Seq::empty());
    while i < pairs.len()
        invariant
            i <= pairs.len(),
            all == texts(pairs@),
            all == pieces(pieces(query@, '#')[0], '&'),
            id_of_pairs(all.take(i as int)) is None,
        decreases pairs.len() - i,
    {
        assert(all.take(i + 1).drop_last() =~= all.take(i as int));
        assert(all.take(i + 1).last() == pairs@[i as int]@);
        if let Some((key, value)) = split_once(pairs[i].as_str(), '=') {
            if same(key, "illust_id") && is_valid_illust_id(value) {
                let found = value.to_owned();
                proof {
                    assert(id_of_pairs(all.take(i + 1)) == Some(found@));
                    lemma_first_pair_stays(all, i + 1);
                }
                return Some(found);
            }
        }
        i += 1;
    }
    assert(all.take(i as int) =~= all);
    None
}

proof fn lemma_first_pair_stays(pairs: Seq<Seq<char>>, n: int)
    requires
        0 <= n <= pairs.len(),
        id_of_pairs(pairs.take(n)) is Some,
    ensures
        id_of_pairs(pairs) == id_of_pairs(pairs.take(n)),
    decreases pairs.len() - n,
{
    if n < pairs.len() {
        assert(pairs.take(n + 1).drop_last() =~= pairs.take(n));
        lemma_first_pair_stays(pairs, n + 1);
    } else {
        assert(pairs.take(n) =~= pairs);
    }
}

fn path_segments(input: &str) -> (r: Vec<String>)
    ensures
        texts(r@) == segments_of(input@),
{
    let before_query = split(input, '?');
    assert(texts(before_query@)[0] == before_query@[0]@);
    let before_hash = split(before_query[0].as_str(), '#');
    assert(texts(before_hash@)[0] == before_hash@[0]@);
    let parts = split(trim_end_matches(before_hash[0].as_str(), '/'), '/');
    let ghost all = texts(parts@);
    let mut out: Vec<String> = Vec::new();
    let mut i: usize = 0;
    assert(all.take(0) =~= Seq::empty());
    assert(texts(out@) =~= Seq::empty());
    while i < parts.len()
        invariant
            i <= parts.len(),
            all == texts(parts@),
            texts(out@) == non_empties(all.take(i as int)),
        decreases parts.len() - i,
    {
        assert(all.take(i + 1).drop_last() =~= all.take(i as int));
        assert(all.take(i + 1).last() == parts@[i as int]@);
        if !parts[i].as_str().is_empty() {
            let ghost before = texts(out@);
            out.push(parts[i].clone());
            assert(texts(out@) =~= before.push(parts@[i as int]@));
        }
        i += 1;
    }
    assert(all.take(i as int) =~= all);
    out
}

/// Reads the number of the artwork that an input names.
pub fn parse_illust_id(input: &str) -> (r: Result<String, Error>)
    ensures
        match r {
            Ok(id) => illust_id_of(input@) == Some(id@),
            Err(e) => illust_id_of(input@) is None && e@ == bad_input(input@),
        },
{
    let input = trim(input);
    if let Some((_, query)) = split_once(input, '?') {
        if let Some(id) = id_in_query(query) {
            return Ok(id);
        }
    }
    let segments = path_segments(input);
    let n = segments.len();
    let ghost all = texts(segments@);
    assert(forall|i: int| 0 <= i < n ==> all[i] == #[trigger] segments@[i]@);
    if n == 1 && is_valid_illust_id(segments[0].as_str()) {
        return Ok(segments[0].clone());
    }
    if n >= 2 && same(segments[n - 2].as_str(), "artworks") && is_valid_illust_id(
        segments[n - 1].as_str(),
    ) {
        return Ok(segments[n - 1].clone());
    }
    let mut message = "invalid input path(".to_owned();
    message.append(input);
    message.append(
        "); a Pixiv artwork URL is expected, like https://www.pixiv.net/artworks/12345678",
    );
    Err(error(message))
}

proof fn lemma_pair_ids_valid(pairs: Seq<Seq<char>>)
    ensures
        id_of_pairs(pairs) matches Some(id) ==> valid_id(id),
    decreases pairs.len(),
{
    if pairs.len() > 0 {
        lemma_pair_ids_valid(pairs.drop_last());
    }
}

/// Whatever the input, what is read from it as the number of an artwork is a number.
pub proof fn illust_ids_are_numbers(input: Seq<char>)
    ensures
        illust_id_of(input) matches Some(id) ==> valid_id(id),
{
    let t = trimmed(input);
    if let Some((_, query)) = cut(t, '?') {
        lemma_pair_ids_valid(pieces(pieces(query, '#')[0], '&'));
    }
}

proof fn lemma_plain_sum(a: Seq<char>, b: Seq<char>, c: char)
    requires
        !a.contains(c),
        !b.contains(c),
    ensures
        !(a + b).contains(c),
{
    assert forall|i: int| 0 <= i < (a + b).len() implies (a + b)[i] != c by {
        if i < a.len() {
            assert(a[i] == (a + b)[i]);
        } else {
            assert(b[i - a.len()] == (a + b)[i]);
        }
    }
}

proof fn lemma_digits_only(id: Seq<char>, c: char)
    requires
        valid_id(id),
        !ascii_digit(c),
    ensures
        !id.contains(c),
{
}

/// An address that ends in `/artworks/` and a number is read as that number, whatever stands before
/// it: the host, a language, or nothing.
pub proof fn artwork_addresses_are_read(before: Seq<char>, id: Seq<char>)
    requires
        valid_id(id),
        !before.contains('?'),
        !before.contains('#'),
        before.len() > 0 ==> !white_space(before[0]),
    ensures
        illust_id_of(before + "/artworks/"@ + id) == Some(id),
{
    reveal_strlit("/artworks/");
    reveal_strlit("artworks");
    let mark = "/artworks/"@;
    let s = before + mark + id;
    assert(ascii_digit(id[id.len() - 1]));
    assert(s.last() == id.last());
    assert(s[0] == if before.len() > 0 {
        before[0]
    } else {
        '/'
    });
    already_trimmed(s);
    lemma_digits_only(id, '?');
    lemma_digits_only(id, '#');
    lemma_digits_only(id, '/');
    lemma_plain_sum(before, mark, '?');
    lemma_plain_sum(before + mark, id, '?');
    lemma_plain_sum(before, mark, '#');
    lemma_plain_sum(before + mark, id, '#');
    pieces_of_plain(s, '?');
    pieces_of_plain(s, '#');
    assert(without_end(s, Some('/')) == s);
    let word = "artworks"@;
    assert(s =~= before + seq!['/'] + word + seq!['/'] + id);
    pieces_of_sum(before, word, '/');
    pieces_of_sum(before + seq!['/'] + word, id, '/');
    let p = pieces(before, '/');
    assert(p.push(word).push(id).drop_last() =~= p.push(word));
    assert(p.push(word).drop_last() =~= p);
    assert(non_empties(p.push(word)) == non_empties(p).push(word));
    assert(non_empties(p.push(word).push(id)) == non_empties(p.push(word)).push(id));
    assert(segments_of(s) == non_empties(p).push(word).push(id));
}

/// A legacy address is read as the number that its `illust_id` gives, where no pair of the query
/// before it gives one.
pub proof fn legacy_addresses_are_read(before: Seq<char>, pairs: Seq<char>, id: Seq<char>)
    requires
        valid_id(id),
        !before.contains('?'),
        !pairs.contains('#'),
        id_of_pairs(pieces(pairs, '&')) is None,
        before.len() > 0 ==> !white_space(before[0]),
    ensures
        illust_id_of(before + "?"@ + pairs + "&illust_id="@ + id) == Some(id),
{
    reveal_strlit("?");
    reveal_strlit("&illust_id=");
    reveal_strlit("illust_id");
    let mark = "&illust_id="@;
    let s = before + "?"@ + pairs + mark + id;
    assert(ascii_digit(id[id.len() - 1]));
    assert(s.last() == id.last());
    assert(s[0] == if before.len() > 0 {
        before[0]
    } else {
        '?'
    });
    already_trimmed(s);
    lemma_digits_only(id, '#');
    lemma_digits_only(id, '&');
    let query = pairs + mark + id;
    assert(s =~= before + seq!['?'] + query);
    cut_of_sum(before, query, '?');
    lemma_plain_sum(pairs, mark, '#');
    lemma_plain_sum(pairs + mark, id, '#');
    pieces_of_plain(query, '#');
    let key = "illust_id"@;
    let pair = key + seq!['='] + id;
    assert(query =~= pairs + seq!['&'] + pair);
    lemma_plain_sum(key, seq!['='], '&');
    lemma_plain_sum(key + seq!['='], id, '&');
    pieces_of_sum(pairs, pair, '&');
    cut_of_sum(key, id, '=');
    let p = pieces(pairs, '&');
    assert(p.push(pair).drop_last() =~= p);
}

/// A legacy address is read as the number that its first `illust_id` gives: where that is the first pair
/// of the query, alone or with others behind it, and where it stands anywhere else.
pub proof fn legacy_addresses_are_read_anywhere(
    before: Seq<char>,
    pairs: Seq<Seq<char>>,
    k: int,
    id: Seq<char>,
)
    requires
        valid_id(id),
        !before.contains('?'),
        before.len() > 0 ==> !white_space(before[0]),
        0 <= k < pairs.len(),
        pairs[k] == "illust_id="@ + id,
        forall|j: int, other: Seq<char>|
            0 <= j < k && valid_id(other) ==> #[trigger] pairs[j] != #[trigger] ("illust_id="@ + other),
        forall|i: int|
            0 <= i < pairs.len() ==> !(#[trigger] pairs[i]).contains('&') && !pairs[i].contains('#'),
        pairs.last().len() > 0 && !white_space(pairs.last().last()),
    ensures
        illust_id_of(before + "?"@ + joined(pairs, "&"@)) == Some(id),
        illust_id_of(before + "?illust_id="@ + id) == Some(id),
{
    reveal_strlit("?");
    reveal_strlit("illust_id=");
    reveal_strlit("?illust_id=");
    let none: Seq<char> = Seq::empty();
    let s = before + "?"@ + joined(pairs, "&"@);
    lemma_joined_ends(pairs);
    assert(s.last() == pairs.last().last());
    assert(s[0] == if before.len() > 0 {
        before[0]
    } else {
        '?'
    });
    already_trimmed(s);
    all_pairs_are_looked_at(before, pairs, none);
    let found = first_fitting_pair_counts(pairs);
    match id_of_pairs(pairs) {
        Some(got) => {
            if found < k {
                assert(pairs[found] == "illust_id="@ + got);
            }
            assert(found <= k) by {
                if k < found {
                    assert(pairs[k] != "illust_id="@ + id);
                }
            }
            pairs_give_their_number(pairs[k], id);
            pairs_give_their_number(pairs[k], got);
        },
        None => {
            assert(pairs[k] != "illust_id="@ + id);
        },
    }
    let pair = "illust_id="@ + id;
    let one = seq![pair];
    lemma_digits_only(id, '&');
    lemma_digits_only(id, '#');
    lemma_plain_sum("illust_id="@, id, '&');
    lemma_plain_sum("illust_id="@, id, '#');
    all_pairs_are_looked_at(before, one, none);
    let t = before + "?illust_id="@ + id;
    assert(joined(one, "&"@) == pair);
    assert(t =~= before + "?"@ + joined(one, "&"@));
    assert(ascii_digit(id[id.len() - 1]));
    assert(t.last() == id.last());
    already_trimmed(t);
    pairs_give_their_number(pair, id);
    assert(one.drop_last() =~= Seq::empty());
    assert(id_of_pairs(one.drop_last()) is None);
    assert(id_of_pairs(one) == Some(id));
}

proof fn lemma_joined_ends(pairs: Seq<Seq<char>>)
    requires
        pairs.len() > 0,
        pairs.last().len() > 0,
    ensures
        joined(pairs, "&"@).len() > 0,
        joined(pairs, "&"@).last() == pairs.last().last(),
{
}

// ---------------------------------------------------------------------------
// Texts
// ---------------------------------------------------------------------------

/// The text without white space around it, where anything is left.
pub open spec fn unless_blank(s: Seq<char>) -> Option<Seq<char>> {
    if trimmed(s).len() == 0 {
        None
    } else {
        Some(trimmed(s))
    }
}

/// The first of the texts of which anything is left without the white space around it.
pub open spec fn first_unless_blank(s: Seq<Seq<char>>) -> Option<Seq<char>>
    decreases s.len(),
{
    if s.len() == 0 {
        None
    } else {
        match unless_blank(s[0]) {
            Some(t) => Some(t),
            None => first_unless_blank(s.skip(1)),
        }
    }
}

/// Of several texts the first counts of which anything is left without the white space around it; `k` is
/// its place. None counts exactly where nothing is left of any.
pub proof fn first_text_counts(s: Seq<Seq<char>>) -> (k: int)
    ensures
        first_unless_blank(s) matches Some(t) ==> 0 <= k < s.len() && t == trimmed(s[k]) && t.len() > 0
            && forall|j: int| 0 <= j < k ==> trimmed(#[trigger] s[j]).len() == 0,
        first_unless_blank(s) is None ==> forall|j: int|
            0 <= j < s.len() ==> trimmed(#[trigger] s[j]).len() == 0,
        forall|t: Seq<char>|
            trimmed(t).len() > 0 ==> #[trigger] unless_blank(t) == Some(trimmed(t)),
        forall|t: Seq<char>| trimmed(t).len() == 0 ==> #[trigger] unless_blank(t) is None,
    decreases s.len(),
{
    if s.len() == 0 || unless_blank(s[0]) is Some {
        0
    } else {
        let rest = s.skip(1);
        let k = first_text_counts(rest);
        assert forall|j: int| 0 <= j < s.len() && (first_unless_blank(s) is None || j <= k) implies trimmed(
            #[trigger] s[j],
        ).len() == 0 by {
            if j > 0 {
                assert(rest[j - 1] == s[j]);
            }
        }
        k + 1
    }
}

/// The text without white space around it, where anything is left.
pub fn non_empty<'a>(value: &'a str) -> (r: Option<&'a str>)
    ensures
        r.deep_view() == unless_blank(value@),
{
    let value = trim(value);
    if value.is_empty() {
        None
    } else {
        Some(value)
    }
}

/// The first of the texts of which anything is left without the white space around it.
pub fn first_non_empty<'a>(values: &[&'a str]) -> (r: Option<&'a str>)
    ensures
        r.deep_view() == first_unless_blank(values@.map_values(|s: &str| s@)),
{
    let ghost all = values@.map_values(|s: &str| s@);
    let mut i: usize = 0;
    assert(all.skip(0) =~= all);
    while i < values.len()
        invariant
            i <= values.len(),
            all == values@.map_values(|s: &str| s@),
            first_unless_blank(all.skip(i as int)) == first_unless_blank(all),
        decreases values.len() - i,
    {
        assert(all.skip(i as int)[0] == values@[i as int]@);
        assert(all.skip(i as int).skip(1) =~= all.skip(i + 1));
        let found = non_empty(values[i]);
        if found.is_some() {
            return found;
        }
        i += 1;
    }
    None
}

/// A text with the entities of HTML that the site uses turned into their characters.
pub open spec fn entities_decoded(s: Seq<char>) -> Seq<char> {
    let s1 = replaced(s, "&nbsp;"@, " "@);
    let s2 = replaced(s1, "&amp;"@, "&"@);
    let s3 = replaced(s2, "&lt;"@, "<"@);
    let s4 = replaced(s3, "&gt;"@, ">"@);
    let s5 = replaced(s4, "&quot;"@, "\""@);
    let s6 = replaced(s5, "&#39;"@, "'"@);
    replaced(s6, "&#x27;"@, "'"@)
}

/// Each entity becomes its character, and nothing around it changes: a text without `&` stays as it is.
/// `b` holds no `;`, so that what follows `&amp;` does not make another entity of it; where it does, that
/// one becomes its character too.
pub proof fn entities_become_characters(a: Seq<char>, b: Seq<char>)
    requires
        !a.contains('&'),
        !b.contains('&'),
        !b.contains(';'),
    ensures
        entities_decoded(a) == a,
        entities_decoded(a + "&nbsp;"@ + b) == a + " "@ + b,
        entities_decoded(a + "&amp;"@ + b) == a + "&"@ + b,
        entities_decoded(a + "&lt;"@ + b) == a + "<"@ + b,
        entities_decoded(a + "&gt;"@ + b) == a + ">"@ + b,
        entities_decoded(a + "&quot;"@ + b) == a + "\""@ + b,
        entities_decoded(a + "&#39;"@ + b) == a + "'"@ + b,
        entities_decoded(a + "&#x27;"@ + b) == a + "'"@ + b,
        entities_decoded(a + "&amp;lt;"@ + b) == a + "<"@ + b,
        entities_decoded(a + "&amp;nbsp;"@ + b) == a + "&nbsp;"@ + b,
{
    lemma_entities();
    lemma_plain_decoded(a);
    lemma_plain_sum(a, " "@, '&');
    lemma_plain_sum(a + " "@, b, '&');
    lemma_plain_decoded(a + " "@ + b);
    lemma_plain_sum(a, "<"@, '&');
    lemma_plain_sum(a + "<"@, b, '&');
    lemma_plain_decoded(a + "<"@ + b);
    lemma_plain_sum(a, ">"@, '&');
    lemma_plain_sum(a + ">"@, b, '&');
    lemma_plain_decoded(a + ">"@ + b);
    lemma_plain_sum(a, "\""@, '&');
    lemma_plain_sum(a + "\""@, b, '&');
    lemma_plain_decoded(a + "\""@ + b);
    lemma_plain_sum(a, "'"@, '&');
    lemma_plain_sum(a + "'"@, b, '&');
    lemma_plain_decoded(a + "'"@ + b);
    // &nbsp;
    lemma_replaced_here(a, "&nbsp;"@, b, " "@);
    // &amp;
    lemma_other_entity(a, "&amp;"@, b, "&nbsp;"@, " "@, 1);
    lemma_replaced_here(a, "&amp;"@, b, "&"@);
    lemma_lone_mark(a, b, "&lt;"@, "<"@);
    lemma_lone_mark(a, b, "&gt;"@, ">"@);
    lemma_lone_mark(a, b, "&quot;"@, "\""@);
    lemma_lone_mark(a, b, "&#39;"@, "'"@);
    lemma_lone_mark(a, b, "&#x27;"@, "'"@);
    // &lt;
    lemma_other_entity(a, "&lt;"@, b, "&nbsp;"@, " "@, 1);
    lemma_other_entity(a, "&lt;"@, b, "&amp;"@, "&"@, 1);
    lemma_replaced_here(a, "&lt;"@, b, "<"@);
    // &gt;
    lemma_other_entity(a, "&gt;"@, b, "&nbsp;"@, " "@, 1);
    lemma_other_entity(a, "&gt;"@, b, "&amp;"@, "&"@, 1);
    lemma_other_entity(a, "&gt;"@, b, "&lt;"@, "<"@, 1);
    lemma_replaced_here(a, "&gt;"@, b, ">"@);
    // &quot;
    lemma_other_entity(a, "&quot;"@, b, "&nbsp;"@, " "@, 1);
    lemma_other_entity(a, "&quot;"@, b, "&amp;"@, "&"@, 1);
    lemma_other_entity(a, "&quot;"@, b, "&lt;"@, "<"@, 1);
    lemma_other_entity(a, "&quot;"@, b, "&gt;"@, ">"@, 1);
    lemma_replaced_here(a, "&quot;"@, b, "\""@);
    // &#39;
    lemma_other_entity(a, "&#39;"@, b, "&nbsp;"@, " "@, 1);
    lemma_other_entity(a, "&#39;"@, b, "&amp;"@, "&"@, 1);
    lemma_other_entity(a, "&#39;"@, b, "&lt;"@, "<"@, 1);
    lemma_other_entity(a, "&#39;"@, b, "&gt;"@, ">"@, 1);
    lemma_other_entity(a, "&#39;"@, b, "&quot;"@, "\""@, 1);
    lemma_replaced_here(a, "&#39;"@, b, "'"@);
    // &#x27;
    lemma_other_entity(a, "&#x27;"@, b, "&nbsp;"@, " "@, 1);
    lemma_other_entity(a, "&#x27;"@, b, "&amp;"@, "&"@, 1);
    lemma_other_entity(a, "&#x27;"@, b, "&lt;"@, "<"@, 1);
    lemma_other_entity(a, "&#x27;"@, b, "&gt;"@, ">"@, 1);
    lemma_other_entity(a, "&#x27;"@, b, "&quot;"@, "\""@, 1);
    lemma_other_entity(a, "&#x27;"@, b, "&#39;"@, "'"@, 2);
    lemma_replaced_here(a, "&#x27;"@, b, "'"@);
    lemma_entities_in_turn(a, b);
}

/// What begins no entity once a `&` stands before it.
pub open spec fn ends_a_mark(s: Seq<char>) -> bool {
    s.len() == 0 || (s[0] != 'n' && s[0] != 'a' && s[0] != 'l' && s[0] != 'g' && s[0] != 'q' && s[0]
        != '#')
}

/// However many entities there are, each becomes its character: a text is decoded from its beginning to
/// its end, character by character and entity by entity. A `&` that begins no entity stays.
pub proof fn all_entities_become_characters(c: char, s: Seq<char>)
    ensures
        entities_decoded(Seq::empty()) == Seq::<char>::empty(),
        c != '&' ==> entities_decoded(seq![c] + s) == seq![c] + entities_decoded(s),
        entities_decoded("&nbsp;"@ + s) == " "@ + entities_decoded(s),
        entities_decoded("&lt;"@ + s) == "<"@ + entities_decoded(s),
        entities_decoded("&gt;"@ + s) == ">"@ + entities_decoded(s),
        entities_decoded("&quot;"@ + s) == "\""@ + entities_decoded(s),
        entities_decoded("&#39;"@ + s) == "'"@ + entities_decoded(s),
        entities_decoded("&#x27;"@ + s) == "'"@ + entities_decoded(s),
        ends_a_mark(s) ==> entities_decoded("&amp;"@ + s) == "&"@ + entities_decoded(s),
        ends_a_mark(s) ==> entities_decoded("&"@ + s) == "&"@ + entities_decoded(s),
{
    lemma_entities();
    let nbsp = "&nbsp;"@;
    let amp = "&amp;"@;
    let lt = "&lt;"@;
    let gt = "&gt;"@;
    let quot = "&quot;"@;
    let dec = "&#39;"@;
    let hex = "&#x27;"@;
    let s1 = replaced(s, nbsp, " "@);
    let s2 = replaced(s1, amp, "&"@);
    let s3 = replaced(s2, lt, "<"@);
    let s4 = replaced(s3, gt, ">"@);
    let s5 = replaced(s4, quot, "\""@);
    let s6 = replaced(s5, dec, "'"@);
    if c != '&' {
        lemma_past(c, s, nbsp, " "@);
        lemma_past(c, s1, amp, "&"@);
        lemma_past(c, s2, lt, "<"@);
        lemma_past(c, s3, gt, ">"@);
        lemma_past(c, s4, quot, "\""@);
        lemma_past(c, s5, dec, "'"@);
        lemma_past(c, s6, hex, "'"@);
    }
    // &nbsp;
    lemma_now(nbsp, s, " "@);
    lemma_past(' ', s1, amp, "&"@);
    lemma_past(' ', s2, lt, "<"@);
    lemma_past(' ', s3, gt, ">"@);
    lemma_past(' ', s4, quot, "\""@);
    lemma_past(' ', s5, dec, "'"@);
    lemma_past(' ', s6, hex, "'"@);
    // &lt;
    lemma_past_entity(lt, s, nbsp, " "@, 1);
    lemma_past_entity(lt, s1, amp, "&"@, 1);
    lemma_now(lt, s2, "<"@);
    lemma_past('<', s3, gt, ">"@);
    lemma_past('<', s4, quot, "\""@);
    lemma_past('<', s5, dec, "'"@);
    lemma_past('<', s6, hex, "'"@);
    // &gt;
    lemma_past_entity(gt, s, nbsp, " "@, 1);
    lemma_past_entity(gt, s1, amp, "&"@, 1);
    lemma_past_entity(gt, s2, lt, "<"@, 1);
    lemma_now(gt, s3, ">"@);
    lemma_past('>', s4, quot, "\""@);
    lemma_past('>', s5, dec, "'"@);
    lemma_past('>', s6, hex, "'"@);
    // &quot;
    lemma_past_entity(quot, s, nbsp, " "@, 1);
    lemma_past_entity(quot, s1, amp, "&"@, 1);
    lemma_past_entity(quot, s2, lt, "<"@, 1);
    lemma_past_entity(quot, s3, gt, ">"@, 1);
    lemma_now(quot, s4, "\""@);
    lemma_past('"', s5, dec, "'"@);
    lemma_past('"', s6, hex, "'"@);
    // &#39;
    lemma_past_entity(dec, s, nbsp, " "@, 1);
    lemma_past_entity(dec, s1, amp, "&"@, 1);
    lemma_past_entity(dec, s2, lt, "<"@, 1);
    lemma_past_entity(dec, s3, gt, ">"@, 1);
    lemma_past_entity(dec, s4, quot, "\""@, 1);
    lemma_now(dec, s5, "'"@);
    lemma_past('\'', s6, hex, "'"@);
    // &#x27;
    lemma_past_entity(hex, s, nbsp, " "@, 1);
    lemma_past_entity(hex, s1, amp, "&"@, 1);
    lemma_past_entity(hex, s2, lt, "<"@, 1);
    lemma_past_entity(hex, s3, gt, ">"@, 1);
    lemma_past_entity(hex, s4, quot, "\""@, 1);
    lemma_past_entity(hex, s5, dec, "'"@, 2);
    lemma_now(hex, s6, "'"@);
    if ends_a_mark(s) {
        lemma_past_mark(s, nbsp, " "@);
        lemma_past_mark(s1, amp, "&"@);
        lemma_past_mark(s2, lt, "<"@);
        lemma_past_mark(s3, gt, ">"@);
        lemma_past_mark(s4, quot, "\""@);
        lemma_past_mark(s5, dec, "'"@);
        lemma_past_mark(s6, hex, "'"@);
        lemma_past_entity(amp, s, nbsp, " "@, 1);
        lemma_now(amp, s1, "&"@);
    }
}

proof fn lemma_past(c: char, s: Seq<char>, f: Seq<char>, to: Seq<char>)
    requires
        c != '&',
        is_entity(f),
    ensures
        replaced(seq![c] + s, f, to) == seq![c] + replaced(s, f, to),
{
    let whole = seq![c] + s;
    if is_at(whole, f, 0) {
        assert(whole.subrange(0, f.len() as int)[0] == whole[0]);
    }
    assert(whole.skip(1) =~= s);
}

proof fn lemma_past_plain(p: Seq<char>, s: Seq<char>, f: Seq<char>, to: Seq<char>)
    requires
        !p.contains('&'),
        is_entity(f),
    ensures
        replaced(p + s, f, to) == p + replaced(s, f, to),
    decreases p.len(),
{
    if p.len() > 0 {
        let q = p.skip(1);
        assert forall|i: int| 0 <= i < q.len() implies q[i] != '&' by {
            assert(p[i + 1] == q[i]);
        }
        assert(p.contains(p[0]));
        lemma_past_plain(q, s, f, to);
        lemma_past(p[0], q + s, f, to);
        assert(seq![p[0]] + (q + s) =~= p + s);
        assert(seq![p[0]] + (q + replaced(s, f, to)) =~= p + replaced(s, f, to));
    } else {
        assert(p + s =~= s);
        assert(p + replaced(s, f, to) =~= replaced(s, f, to));
    }
}

proof fn lemma_past_entity(e: Seq<char>, s: Seq<char>, f: Seq<char>, to: Seq<char>, k: int)
    requires
        is_entity(e),
        is_entity(f),
        0 <= k < e.len(),
        k < f.len(),
        e[k] != f[k],
    ensures
        replaced(e + s, f, to) == e + replaced(s, f, to),
{
    let whole = e + s;
    let rest = e.skip(1);
    if is_at(whole, f, 0) {
        assert(whole.subrange(0, f.len() as int)[k] == whole[k]);
    }
    assert(whole.skip(1) =~= rest + s);
    assert forall|i: int| 0 <= i < rest.len() implies rest[i] != '&' by {
        assert(e[i + 1] == rest[i]);
    }
    lemma_past_plain(rest, s, f, to);
    assert(seq![e[0]] + (rest + replaced(s, f, to)) =~= e + replaced(s, f, to));
}

proof fn lemma_now(e: Seq<char>, s: Seq<char>, to: Seq<char>)
    requires
        is_entity(e),
    ensures
        replaced(e + s, e, to) == to + replaced(s, e, to),
{
    assert((e + s).subrange(0, e.len() as int) =~= e);
    assert((e + s).skip(e.len() as int) =~= s);
}

proof fn lemma_past_mark(s: Seq<char>, f: Seq<char>, to: Seq<char>)
    requires
        ends_a_mark(s),
        is_entity(f),
        f[1] == 'n' || f[1] == 'a' || f[1] == 'l' || f[1] == 'g' || f[1] == 'q' || f[1] == '#',
        to.len() == 1,
        ends_a_mark(to),
    ensures
        replaced("&"@ + s, f, to) == "&"@ + replaced(s, f, to),
        ends_a_mark(replaced(s, f, to)),
{
    lemma_entities();
    let whole = "&"@ + s;
    if is_at(whole, f, 0) {
        assert(whole.subrange(0, f.len() as int)[1] == whole[1]);
    }
    assert(whole.skip(1) =~= s);
    assert(seq![whole[0]] =~= "&"@);
}

proof fn lemma_entities_in_turn(a: Seq<char>, b: Seq<char>)
    requires
        !a.contains('&'),
        !b.contains('&'),
        !b.contains(';'),
    ensures
        entities_decoded(a + "&amp;lt;"@ + b) == a + "<"@ + b,
        entities_decoded(a + "&amp;nbsp;"@ + b) == a + "&nbsp;"@ + b,
{
    lemma_entities();
    reveal_strlit("lt;");
    reveal_strlit("nbsp;");
    reveal_strlit("&amp;lt;");
    reveal_strlit("&amp;nbsp;");
    reveal_strlit("&amp;");
    reveal_strlit("&lt;");
    reveal_strlit("&nbsp;");
    assert("&amp;lt;"@ =~= "&amp;"@ + "lt;"@);
    assert("&amp;nbsp;"@ =~= "&amp;"@ + "nbsp;"@);
    assert("&lt;"@ =~= "&"@ + "lt;"@);
    assert("&nbsp;"@ =~= "&"@ + "nbsp;"@);
    lemma_plain_sum("lt;"@, b, '&');
    lemma_plain_sum("nbsp;"@, b, '&');
    let x = "lt;"@ + b;
    let y = "nbsp;"@ + b;
    assert(a + "&amp;lt;"@ + b =~= a + "&amp;"@ + x);
    assert(a + "&amp;nbsp;"@ + b =~= a + "&amp;"@ + y);
    assert(a + "&"@ + x =~= a + "&lt;"@ + b);
    assert(a + "&"@ + y =~= a + "&nbsp;"@ + b);
    lemma_other_entity(a, "&amp;"@, x, "&nbsp;"@, " "@, 1);
    lemma_replaced_here(a, "&amp;"@, x, "&"@);
    lemma_replaced_here(a, "&lt;"@, b, "<"@);
    lemma_plain_sum(a, "<"@, '&');
    lemma_plain_sum(a + "<"@, b, '&');
    lemma_plain_decoded(a + "<"@ + b);
    lemma_other_entity(a, "&amp;"@, y, "&nbsp;"@, " "@, 1);
    lemma_replaced_here(a, "&amp;"@, y, "&"@);
    lemma_other_entity(a, "&nbsp;"@, b, "&lt;"@, "<"@, 1);
    lemma_other_entity(a, "&nbsp;"@, b, "&gt;"@, ">"@, 1);
    lemma_other_entity(a, "&nbsp;"@, b, "&quot;"@, "\""@, 1);
    lemma_other_entity(a, "&nbsp;"@, b, "&#39;"@, "'"@, 1);
    lemma_other_entity(a, "&nbsp;"@, b, "&#x27;"@, "'"@, 1);
}

spec fn is_entity(e: Seq<char>) -> bool {
    e.len() > 2 && e[0] == '&' && e.last() == ';' && forall|j: int|
        0 < j < e.len() ==> #[trigger] e[j] != '&'
}

proof fn lemma_entities()
    ensures
        is_entity("&nbsp;"@) && "&nbsp;"@[1] == 'n',
        is_entity("&amp;"@) && "&amp;"@[1] == 'a',
        is_entity("&lt;"@) && "&lt;"@[1] == 'l',
        is_entity("&gt;"@) && "&gt;"@[1] == 'g',
        is_entity("&quot;"@) && "&quot;"@[1] == 'q',
        is_entity("&#39;"@) && "&#39;"@[1] == '#' && "&#39;"@[2] == '3',
        is_entity("&#x27;"@) && "&#x27;"@[1] == '#' && "&#x27;"@[2] == 'x',
        "&"@ == seq!['&'],
        " "@ == seq![' '],
        "<"@ == seq!['<'],
        ">"@ == seq!['>'],
        "\""@ == seq!['"'],
        "'"@ == seq!['\''],
{
    reveal_strlit("&nbsp;");
    reveal_strlit("&amp;");
    reveal_strlit("&lt;");
    reveal_strlit("&gt;");
    reveal_strlit("&quot;");
    reveal_strlit("&#39;");
    reveal_strlit("&#x27;");
    reveal_strlit("&");
    reveal_strlit(" ");
    reveal_strlit("<");
    reveal_strlit(">");
    reveal_strlit("\"");
    reveal_strlit("'");
    assert("&"@ =~= seq!['&']);
    assert(" "@ =~= seq![' ']);
    assert("<"@ =~= seq!['<']);
    assert(">"@ =~= seq!['>']);
    assert("\""@ =~= seq!['"']);
    assert("'"@ =~= seq!['\'']);
}

proof fn lemma_no_mark(s: Seq<char>, e: Seq<char>, to: Seq<char>)
    requires
        is_entity(e),
        !s.contains('&'),
    ensures
        replaced(s, e, to) == s,
{
    assert forall|i: int| !is_at(s, e, i) by {
        if is_at(s, e, i) {
            assert(s.subrange(i, i + e.len())[0] == s[i]);
        }
    }
    texts_without_it_stay(s, e, to);
}

proof fn lemma_plain_decoded(s: Seq<char>)
    requires
        !s.contains('&'),
    ensures
        replaced(s, "&nbsp;"@, " "@) == s,
        replaced(s, "&amp;"@, "&"@) == s,
        replaced(s, "&lt;"@, "<"@) == s,
        replaced(s, "&gt;"@, ">"@) == s,
        replaced(s, "&quot;"@, "\""@) == s,
        replaced(s, "&#39;"@, "'"@) == s,
        replaced(s, "&#x27;"@, "'"@) == s,
{
    lemma_entities();
    lemma_no_mark(s, "&nbsp;"@, " "@);
    lemma_no_mark(s, "&amp;"@, "&"@);
    lemma_no_mark(s, "&lt;"@, "<"@);
    lemma_no_mark(s, "&gt;"@, ">"@);
    lemma_no_mark(s, "&quot;"@, "\""@);
    lemma_no_mark(s, "&#39;"@, "'"@);
    lemma_no_mark(s, "&#x27;"@, "'"@);
}

proof fn lemma_mark_place(a: Seq<char>, e: Seq<char>, b: Seq<char>, f: Seq<char>, i: int)
    requires
        !a.contains('&'),
        !b.contains('&'),
        e.len() > 0,
        forall|j: int| 0 < j < e.len() ==> #[trigger] e[j] != '&',
        f.len() > 0,
        f[0] == '&',
        is_at(a + e + b, f, i),
    ensures
        i == a.len(),
{
    let s = a + e + b;
    assert(s.subrange(i, i + f.len())[0] == s[i]);
    if i < a.len() {
        assert(a[i] == s[i]);
    } else if i >= a.len() + e.len() {
        assert(b[i - a.len() - e.len()] == s[i]);
    } else if i > a.len() {
        assert(e[i - a.len()] == s[i]);
    }
}

proof fn lemma_other_entity(
    a: Seq<char>,
    e: Seq<char>,
    b: Seq<char>,
    f: Seq<char>,
    to: Seq<char>,
    k: int,
)
    requires
        !a.contains('&'),
        !b.contains('&'),
        is_entity(e),
        is_entity(f),
        0 <= k < e.len(),
        k < f.len(),
        e[k] != f[k],
    ensures
        replaced(a + e + b, f, to) == a + e + b,
{
    let s = a + e + b;
    assert forall|i: int| !is_at(s, f, i) by {
        if is_at(s, f, i) {
            lemma_mark_place(a, e, b, f, i);
            assert(s.subrange(i, i + f.len())[k] == s[i + k]);
            assert(s[i + k] == e[k]);
        }
    }
    texts_without_it_stay(s, f, to);
}

proof fn lemma_replaced_here(a: Seq<char>, e: Seq<char>, b: Seq<char>, to: Seq<char>)
    requires
        !a.contains('&'),
        !b.contains('&'),
        is_entity(e),
    ensures
        replaced(a + e + b, e, to) == a + to + b,
{
    let s = a + e + b;
    assert(s.subrange(a.len() as int, (a.len() + e.len()) as int) =~= e);
    assert forall|j: int| 0 <= j < a.len() implies !is_at(s, e, j) by {
        if is_at(s, e, j) {
            lemma_mark_place(a, e, b, e, j);
        }
    }
    first_occurrences_are_replaced(a, e, b, to);
    lemma_no_mark(b, e, to);
}

proof fn lemma_lone_mark(a: Seq<char>, b: Seq<char>, f: Seq<char>, to: Seq<char>)
    requires
        !a.contains('&'),
        !b.contains('&'),
        !b.contains(';'),
        is_entity(f),
    ensures
        replaced(a + "&"@ + b, f, to) == a + "&"@ + b,
{
    lemma_entities();
    let s = a + "&"@ + b;
    assert forall|i: int| !is_at(s, f, i) by {
        if is_at(s, f, i) {
            lemma_mark_place(a, "&"@, b, f, i);
            let k = f.len() - 1;
            assert(s.subrange(i, i + f.len())[k] == s[i + k]);
            assert(b[k - 1] == s[i + k]);
        }
    }
    texts_without_it_stay(s, f, to);
}

/// The plain text of HTML from which the tags are gone: entities become characters, white space at
/// the ends goes. `None` where nothing is left.
pub fn decode_entities(text: &str) -> (r: Option<String>)
    ensures
        opt_text(r) == unless_blank(entities_decoded(text@)),
{
    proof {
        reveal_strlit("&nbsp;");
        reveal_strlit("&amp;");
        reveal_strlit("&lt;");
        reveal_strlit("&gt;");
        reveal_strlit("&quot;");
        reveal_strlit("&#39;");
        reveal_strlit("&#x27;");
    }
    let s1 = replace(text, "&nbsp;", " ");
    let s2 = replace(s1.as_str(), "&amp;", "&");
    let s3 = replace(s2.as_str(), "&lt;", "<");
    let s4 = replace(s3.as_str(), "&gt;", ">");
    let s5 = replace(s4.as_str(), "&quot;", "\"");
    let s6 = replace(s5.as_str(), "&#39;", "'");
    let s7 = replace(s6.as_str(), "&#x27;", "'");
    match non_empty(s7.as_str()) {
        Some(t) => Some(t.to_owned()),
        None => None,
    }
}

/// HTML without its tags: line breaks become line feeds, the other tags go.
pub open spec fn untagged(html: Seq<char>) -> Seq<char> {
    regex_replaced(HTML_TAG_RE@, regex_replaced(BR_RE@, html, "\n"@), ""@)
}

/// The tags go in two steps: first line breaks become line feeds, then every other tag becomes nothing.
pub proof fn tags_are_taken_out(html: Seq<char>)
    ensures
        untagged(html) == regex_replaced(
            r"(?s)<[^>]+>"@,
            regex_replaced(r"(?i)<br\s*/?>"@, html, "\n"@),
            ""@,
        ),
{
}

/// The plain text of a piece of HTML. `None` where nothing is left.
pub fn clean_html_text(value: &str) -> (r: Option<String>)
    ensures
        opt_text(r) == unless_blank(entities_decoded(untagged(value@))),
{
    let with_line_breaks = replace_matches(BR_RE, value, "\n");
    let without_tags = replace_matches(HTML_TAG_RE, with_line_breaks.as_str(), "");
    decode_entities(without_tags.as_str())
}

// ---------------------------------------------------------------------------
// The collector
// ---------------------------------------------------------------------------

/// The address of an artwork.
pub open spec fn artwork_url(id: Seq<char>) -> Seq<char> {
    "https://www.pixiv.net/artworks/"@ + id
}

/// An artwork, by its number.
#[derive(Debug)]
pub struct PixivArtwork {
    pub illust_id: String,
}

impl PixivArtwork {
    /// The address of the artwork.
    pub fn original_url(&self) -> (r: String)
        ensures
            r@ == artwork_url(self.illust_id@),
    {
        let mut out = "https://www.pixiv.net/artworks/".to_owned();
        out.append(self.illust_id.as_str());
        out
    }

    /// Where the API tells of the artwork.
    pub fn metadata_url(&self) -> (r: String)
        ensures
            r@ == "https://www.pixiv.net/ajax/illust/"@ + self.illust_id@,
    {
        let mut out = "https://www.pixiv.net/ajax/illust/".to_owned();
        out.append(self.illust_id.as_str());
        out
    }

    /// Where the API tells of the pages of the artwork.
    pub fn pages_url(&self) -> (r: String)
        ensures
            r@ == "https://www.pixiv.net/ajax/illust/"@ + self.illust_id@ + "/pages"@,
    {
        let mut out = self.metadata_url();
        out.append("/pages");
        out
    }
}

/// The images of the pages, or what is wrong with the first page that gives none.
pub open spec fn page_images(pages: Seq<PixivPage>, id: Seq<char>) -> Result<
    Seq<ImageView>,
    Seq<char>,
>
    decreases pages.len(),
{
    if pages.len() == 0 {
        Ok(Seq::empty())
    } else {
        match page_images(pages.drop_last(), id) {
            Err(e) => Err(e),
            Ok(images) => match page_image(pages.last().urls, id, (pages.len() - 1) as nat) {
                Err(e) => Err(e),
                Ok(image) => Ok(images.push(image)),
            },
        }
    }
}

/// Every page of an artwork becomes one image, the one that it shows itself: image `i` is that of page
/// `i`, with its largest address and its own number. That works exactly where it works for every page;
/// else `k` is the first page for which it does not, and what is said is what is said of that page.
pub proof fn images_follow_the_pages(pages: Seq<PixivPage>, id: Seq<char>) -> (k: int)
    ensures
        page_images(pages, id) matches Ok(images) ==> images.len() == pages.len() && forall|i: int|
            #![trigger images[i]]
            #![trigger pages[i]]
            0 <= i < pages.len() ==> {
                let largest = if pages[i].urls.original is Some {
                    pages[i].urls.original
                } else if pages[i].urls.regular is Some {
                    pages[i].urls.regular
                } else {
                    pages[i].urls.small
                };
                &&& largest matches Some(u) && image_url(u@, url_of(u@)) == Ok::<
                    Seq<char>,
                    Seq<char>,
                >(images[i].url)
                &&& images[i].id == id + "-p"@ + decimal(i as nat)
                &&& images[i].description is None
            },
        page_images(pages, id) matches Err(e) ==> 0 <= k < pages.len() && page_image(
            pages[k].urls,
            id,
            k as nat,
        ) == Err::<ImageView, Seq<char>>(e) && forall|j: int|
            0 <= j < k ==> page_image((#[trigger] pages[j]).urls, id, j as nat) is Ok,
    decreases pages.len(),
{
    if pages.len() > 0 {
        let before = pages.drop_last();
        let k = images_follow_the_pages(before, id);
        let n = pages.len() - 1;
        match page_images(before, id) {
            Err(e) => {
                assert forall|j: int| 0 <= j < k implies page_image(
                    (#[trigger] pages[j]).urls,
                    id,
                    j as nat,
                ) is Ok by {
                    assert(before[j] == pages[j]);
                }
                k
            },
            Ok(old) => {
                assert forall|j: int| 0 <= j < n implies page_image(
                    (#[trigger] pages[j]).urls,
                    id,
                    j as nat,
                ) is Ok by {
                    assert(before[j] == pages[j]);
                    assert(old[j].id == id + "-p"@ + decimal(j as nat));
                }
                if let Ok(images) = page_images(pages, id) {
                    assert forall|i: int|
                        #![trigger images[i]]
                        #![trigger pages[i]]
                        0 <= i < pages.len() implies {
                        let largest = if pages[i].urls.original is Some {
                            pages[i].urls.original
                        } else if pages[i].urls.regular is Some {
                            pages[i].urls.regular
                        } else {
                            pages[i].urls.small
                        };
                        &&& largest matches Some(u) && image_url(u@, url_of(u@)) == Ok::<
                            Seq<char>,
                            Seq<char>,
                        >(images[i].url)
                        &&& images[i].id == id + "-p"@ + decimal(i as nat)
                        &&& images[i].description is None
                    } by {
                        if i < n {
                            assert(before[i] == pages[i]);
                            assert(images[i] == old[i]);
                        }
                    }
                }
                n
            },
        }
    } else {
        0
    }
}

/// Images as their characters.
pub open spec fn image_views(images: Seq<ImageMeta>) -> Seq<ImageView> {
    images.map_values(|i: ImageMeta| i@)
}

/// An image, or a row of them, is what its view tells.
pub proof fn images_are_as_viewed(image: ImageMeta, e: Error, images: Seq<ImageMeta>, i: int)
    ensures
        image_result(Ok(image)) == Ok::<ImageView, Seq<char>>(image@),
        image_result(Err(e)) == Err::<ImageView, Seq<char>>(e@),
        image_views(images).len() == images.len(),
        0 <= i < images.len() ==> image_views(images)[i] == images[i]@,
{
}

/// The album of an artwork, given the plain text of its description.
pub open spec fn album_with(
    id: Seq<char>,
    m: PixivIllust,
    description: Option<Seq<char>>,
) -> AlbumView {
    AlbumView {
        link: artwork_url(id),
        name: match first_unless_blank(seq![m.illust_title@, m.title@]) {
            Some(t) => t,
            None => "pixiv-"@ + id,
        },
        class: Some(class_of(m.illust_type.0)),
        description,
        authors: match unless_blank(m.user_name@) {
            Some(name) => Some(seq![name]),
            None => None,
        },
        tags: match m.tags {
            Some(t) => unless_empty(distinct(non_blank(t.raw()))),
            None => None,
        },
    }
}

/// The album of an artwork.
pub open spec fn album_of(id: Seq<char>, m: PixivIllust) -> AlbumView {
    album_with(
        id,
        m,
        match first_unless_blank(seq![m.illust_comment@, m.description@]) {
            Some(html) => unless_blank(entities_decoded(untagged(html))),
            None => None,
        },
    )
}

/// What an album tells of an artwork: where it is, its title, its kind, its author, its tags, each once
/// and in their order, and the plain text of its description.
pub proof fn albums_tell_of_artworks(id: Seq<char>, m: PixivIllust)
    ensures
        ({
            let a = album_of(id, m);
            &&& a.link == "https://www.pixiv.net/artworks/"@ + id
            &&& trimmed(m.illust_title@).len() > 0 ==> a.name == trimmed(m.illust_title@)
            &&& trimmed(m.illust_title@).len() == 0 && trimmed(m.title@).len() > 0 ==> a.name
                == trimmed(m.title@)
            &&& trimmed(m.illust_title@).len() == 0 && trimmed(m.title@).len() == 0 ==> a.name
                == "pixiv-"@ + id
            &&& a.class == Some(class_of(m.illust_type.0))
            &&& trimmed(m.user_name@).len() > 0 ==> a.authors == Some(seq![trimmed(m.user_name@)])
            &&& trimmed(m.user_name@).len() == 0 ==> a.authors is None
            &&& m.tags is None ==> a.tags is None
            &&& m.tags matches Some(t) ==> (if non_blank(t.raw()).len() == 0 {
                a.tags is None
            } else {
                a.tags == Some(distinct(non_blank(t.raw())))
            })
            &&& trimmed(m.illust_comment@).len() > 0 ==> a.description == unless_blank(
                entities_decoded(untagged(trimmed(m.illust_comment@))),
            )
            &&& trimmed(m.illust_comment@).len() == 0 && trimmed(m.description@).len() > 0
                ==> a.description == unless_blank(
                entities_decoded(untagged(trimmed(m.description@))),
            )
            &&& trimmed(m.illust_comment@).len() == 0 && trimmed(m.description@).len() == 0
                ==> a.description is None
        }),
{
    let titles = seq![m.illust_title@, m.title@];
    let comments = seq![m.illust_comment@, m.description@];
    lemma_first_of_two(m.illust_title@, m.title@);
    lemma_first_of_two(m.illust_comment@, m.description@);
    if let Some(t) = m.tags {
        let empty: Seq<Seq<char>> = Seq::empty();
        let raw = non_blank(t.raw());
        adding_items(empty, raw);
        assert(empty + raw =~= raw);
        if raw.len() > 0 {
            assert(distinct(raw).contains(raw[0]));
        } else if distinct(raw).len() > 0 {
            assert((empty + raw).contains(distinct(raw)[0]));
        }
    }
}

proof fn lemma_first_of_two(a: Seq<char>, b: Seq<char>)
    ensures
        first_unless_blank(seq![a, b]) == (if trimmed(a).len() > 0 {
            Some(trimmed(a))
        } else if trimmed(b).len() > 0 {
            Some(trimmed(b))
        } else {
            None
        }),
{
    reveal_with_fuel(first_unless_blank, 3);
    assert(seq![a, b].skip(1) =~= seq![b]);
    assert(seq![b].skip(1) =~= Seq::empty());
}

/// The tags that the API gives, one by one.
pub proof fn tags_are_as_given(t: PixivTags, i: int)
    ensures
        t.raw().len() == t.tags.len(),
        0 <= i < t.tags.len() ==> t.raw()[i] == t.tags@[i].tag@,
{
}

/// What is said of an artwork without pages.
pub open spec fn no_pages(id: Seq<char>, authenticated: bool) -> Seq<char> {
    "pixiv returned no image pages for artwork "@ + id + "; "@ + if authenticated {
        "the artwork is unavailable or the configured account lacks access"@
    } else {
        "the artwork may require login; configure pixiv.php_sessid"@
    }
}

proof fn lemma_bad_page_stays(pages: Seq<PixivPage>, id: Seq<char>, n: int)
    requires
        0 <= n <= pages.len(),
        page_images(pages.take(n), id) is Err,
    ensures
        page_images(pages, id) == page_images(pages.take(n), id),
    decreases pages.len() - n,
{
    if n < pages.len() {
        assert(pages.take(n + 1).drop_last() =~= pages.take(n));
        lemma_bad_page_stays(pages, id, n + 1);
    } else {
        assert(pages.take(n) =~= pages);
    }
}

/// The images of the pages, in order; the first page that gives none ends it.
pub fn images_of_pages(pages: Vec<PixivPage>, illust_id: &str) -> (r: Result<Vec<ImageMeta>, Error>)
    ensures
        match r {
            Ok(images) => page_images(pages@, illust_id@) == Ok::<Seq<ImageView>, Seq<char>>(
                image_views(images@),
            ),
            Err(e) => page_images(pages@, illust_id@) == Err::<Seq<ImageView>, Seq<char>>(e@),
        },
{
    let ghost all = pages@;
    let mut rest = queue_of(pages);
    let mut images: Vec<ImageMeta> = Vec::new();
    let mut i: usize = 0;
    assert(all.take(0) =~= Seq::empty());
    assert(image_views(images@) =~= Seq::empty());
    assert(all.skip(0) =~= all);
    let total = rest.len();
    while i < total
        invariant
            i <= total,
            total == all.len(),
            all == pages@,
            rest@ == all.skip(i as int),
            page_images(all.take(i as int), illust_id@) == Ok::<Seq<ImageView>, Seq<char>>(
                image_views(images@),
            ),
        decreases total - i,
    {
        assert(all.take(i + 1).drop_last() =~= all.take(i as int));
        assert(all.take(i + 1).last() == all[i as int]);
        assert(rest@[0] == all[i as int]);
        if let Some(page) = rest.pop_front() {
            assert(rest@ =~= all.skip(i + 1));
            match page.into_image_meta(illust_id, i) {
                Ok(image) => {
                    let ghost before = image_views(images@);
                    images.push(image);
                    assert(image_views(images@) =~= before.push(image@));
                },
                Err(e) => {
                    proof {
                        lemma_bad_page_stays(all, illust_id@, i + 1);
                    }
                    return Err(e);
                },
            }
        }
        i += 1;
    }
    assert(all.take(i as int) =~= all);
    Ok(images)
}

/// The album of an artwork and the stream of its images, given the plain text of its description.
pub fn assemble(
    artwork: &PixivArtwork,
    metadata: PixivIllust,
    description: Option<String>,
    images: Vec<ImageMeta>,
) -> (r: (AlbumMeta, PixivImageStream))
    ensures
        r.0@ == album_with(artwork.illust_id@, metadata, opt_text(description)),
        r.1.pending() == images@,
{
    let titles = [metadata.illust_title.as_str(), metadata.title.as_str()];
    assert(titles@.map_values(|s: &str| s@) =~= seq![
        metadata.illust_title@,
        metadata.title@,
    ]);
    let name = match first_non_empty(&titles) {
        Some(t) => t.to_owned(),
        None => {
            let mut n = "pixiv-".to_owned();
            n.append(artwork.illust_id.as_str());
            n
        },
    };
    let authors = match non_empty(metadata.user_name.as_str()) {
        Some(author) => {
            let mut list: Vec<String> = Vec::new();
            list.push(author.to_owned());
            assert(texts(list@) =~= seq![author@]);
            Some(list)
        },
        None => None,
    };
    let tags = match metadata.tags {
        Some(t) => t.into_names(),
        None => None,
    };
    let album = AlbumMeta {
        link: artwork.original_url(),
        name,
        class: Some(metadata.illust_type.class_name().to_owned()),
        description,
        authors,
        tags,
    };
    (album, PixivImageStream { images: queue_of(images) })
}

impl Collector for PixivCollector {
    type Location = PixivArtwork;

    type Reply = (PixivIllust, Vec<PixivPage>);

    type ImageStream = PixivImageStream;

    open spec fn spec_name() -> Seq<char> {
        "pixiv"@
    }

    open spec fn locates(&self, path: Seq<char>, r: Result<PixivArtwork, Error>) -> bool {
        match r {
            Ok(a) => illust_id_of(path) == Some(a.illust_id@),
            Err(e) => illust_id_of(path) is None && e@ == bad_input(path),
        }
    }

    open spec fn fetches(
        &self,
        artwork: PixivArtwork,
        reply: (PixivIllust, Vec<PixivPage>),
        r: Result<(AlbumMeta, PixivImageStream), Error>,
    ) -> bool {
        let id = artwork.illust_id@;
        match r {
            Ok((album, stream)) => {
                &&& reply.1.len() > 0
                &&& page_images(reply.1@, id) == Ok::<Seq<ImageView>, Seq<char>>(
                    image_views(stream.pending()),
                )
                &&& album@ == album_of(id, reply.0)
            },
            Err(e) => if reply.1.len() == 0 {
                e@ == no_pages(id, self.authenticated)
            } else {
                page_images(reply.1@, id) == Err::<Seq<ImageView>, Seq<char>>(e@)
            },
        }
    }

    fn name() -> &'static str {
        "pixiv"
    }

    fn locate(&self, path: &str) -> (r: Result<PixivArtwork, Error>) {
        match parse_illust_id(path) {
            Ok(illust_id) => Ok(PixivArtwork { illust_id }),
            Err(e) => Err(e),
        }
    }

    fn fetch(&self, artwork: PixivArtwork, reply: (PixivIllust, Vec<PixivPage>)) -> (r: Result<
        (AlbumMeta, PixivImageStream),
        Error,
    >) {
        let (metadata, pages) = reply;
        if pages.len() == 0 {
            let reason = if self.authenticated {
                "the artwork is unavailable or the configured account lacks access"
            } else {
                "the artwork may require login; configure pixiv.php_sessid"
            };
            let mut message = "pixiv returned no image pages for artwork ".to_owned();
            message.append(artwork.illust_id.as_str());
            message.append("; ");
            message.append(reason);
            return Err(error(message));
        }
        let images = match images_of_pages(pages, artwork.illust_id.as_str()) {
            Ok(images) => images,
            Err(e) => {
                return Err(e);
            },
        };
        let comments = [metadata.illust_comment.as_str(), metadata.description.as_str()];
        assert(comments@.map_values(|s: &str| s@) =~= seq![
            metadata.illust_comment@,
            metadata.description@,
        ]);
        let description = match first_non_empty(&comments) {
            Some(html) => clean_html_text(html),
            None => None,
        };
        Ok(assemble(&artwork, metadata, description, images))
    }
}

/// An input is located exactly where it names an artwork, and what is located is that artwork.
pub proof fn inputs_are_located(c: PixivCollector, path: Seq<char>, r: Result<PixivArtwork, Error>)
    requires
        c.locates(path, r),
    ensures
        r is Ok <==> illust_id_of(path) is Some,
        r matches Ok(a) ==> illust_id_of(path) == Some(a.illust_id@),
        r matches Err(e) ==> e@ == "invalid input path("@ + trimmed(path)
            + "); a Pixiv artwork URL is expected, like https://www.pixiv.net/artworks/12345678"@,
        PixivCollector::spec_name() == "pixiv"@,
{
}

/// What is read of an artwork: what the API tells of it, and the images of all its pages, in their order.
pub proof fn artworks_are_read_whole(
    c: PixivCollector,
    artwork: PixivArtwork,
    metadata: PixivIllust,
    pages: Vec<PixivPage>,
    r: Result<(AlbumMeta, PixivImageStream), Error>,
)
    requires
        c.fetches(artwork, (metadata, pages), r),
    ensures
        r is Ok <==> pages.len() > 0 && page_images(pages@, artwork.illust_id@) is Ok,
        r matches Ok((album, stream)) ==> album@ == album_of(artwork.illust_id@, metadata)
            && page_images(pages@, artwork.illust_id@) == Ok::<Seq<ImageView>, Seq<char>>(
            stream.pending().map_values(|i: ImageMeta| i@),
        ),
        r matches Err(e) ==> (if pages.len() == 0 {
            e@ == "pixiv returned no image pages for artwork "@ + artwork.illust_id@ + "; "@ + (
            if c.authenticated {
                "the artwork is unavailable or the configured account lacks access"@
            } else {
                "the artwork may require login; configure pixiv.php_sessid"@
            })
        } else {
            page_images(pages@, artwork.illust_id@) == Err::<Seq<ImageView>, Seq<char>>(e@)
        }),
{
    if let Ok((album, stream)) = r {
        assert(image_views(stream.pending()) =~= stream.pending().map_values(|i: ImageMeta| i@));
    }
}

/// The images of an artwork, which need no further loading.
#[derive(Debug)]
pub struct PixivImageStream {
    images: VecDeque<ImageMeta>,
}

impl AsyncStream for PixivImageStream {
    type Item = Result<ImageMeta, Error>;

    type Future = ImageMeta;

    closed spec fn pending(&self) -> Seq<ImageMeta> {
        self.images@
    }

    fn next(&mut self) -> (r: Option<ImageMeta>) {
        let ghost before = self.images@;
        let r = self.images.pop_front();
        assert(before.len() > 0 ==> self.images@ =~= before.skip(1));
        r
    }

    fn size_hint(&self) -> (r: (usize, Option<usize>))
        ensures
            r == (self.pending().len() as usize, Some(self.pending().len() as usize)),
    {
        let n = self.images.len();
        (n, Some(n))
    }
}

} // verus!
