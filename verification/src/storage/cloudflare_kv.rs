//! A key-value store behind a Cloudflare worker, or in memory.

use crate::error::{error, text_result, Error};
use crate::outside::{
    header_entries, header_text, json_member, json_member_of, json_of, json_string, json_string_of,
    json_text, json_value, json_written, lower_case, new_headers, no_headers, set_header,
    status_line, status_text, to_lower_case, Headers,
};
use crate::text::{contains, decimal, has_text, number, opt_text, same};
use vstd::prelude::*;
use vstd::string::*;
use vstd::utf8::encode_utf8;

verus! {

/// The size of the cache where the configuration names none.
pub const DEFAULT_CACHE_SIZE: usize = 10240;

/// The lifetime of a value, 60 days, where the configuration names none.
pub const DEFAULT_EXPIRE_SEC: u64 = 60 * 60 * 24 * 60;

/// Where values are kept.
#[derive(Debug, Clone, Copy, PartialEq, Eq, Structural)]
pub enum StorageMode {
    Cloudflare,
    Memory,
    Auto,
}

impl Default for StorageMode {
    fn default() -> (r: Self)
        ensures
            r == StorageMode::Cloudflare,
    {
        StorageMode::Cloudflare
    }
}

/// What the configuration says of the store.
#[derive(Debug)]
pub struct CFConfig {
    pub endpoint: Option<String>,
    pub token: Option<String>,
    pub cache_size: Option<usize>,
    pub expire_sec: Option<u64>,
    pub mode: StorageMode,
}

/// The answer to a request.
#[derive(Debug)]
pub struct KVReply {
    pub status: u16,
    pub text: String,
}

impl KVReply {
    /// An HTTP status has three digits.
    pub open spec fn wf(&self) -> bool {
        100 <= self.status < 1000
    }
}

/// Requests to the worker go to addresses below `endpoint`, with these headers.
#[derive(Debug)]
pub struct KVClient {
    pub endpoint: String,
    pub headers: Headers,
}

/// An address with a slash at its end.
pub open spec fn with_slash(endpoint: Seq<char>) -> Seq<char> {
    if endpoint.len() > 0 && endpoint.last() == '/' {
        endpoint
    } else {
        endpoint.push('/')
    }
}

/// Whether the text of a JSON value says that nothing was found.
pub open spec fn says_not_found(lower: Seq<char>) -> bool {
    has_text(lower, "notfound"@) || has_text(lower, "not found"@) || has_text(lower, "not_found"@)
}

/// What the worker's answer carries, given the members of the answer: an error where it says that
/// it failed, else the first of `result`, `data` and `value`, else the answer itself.
pub open spec fn payload(
    whole: Seq<char>,
    success: Option<Seq<char>>,
    ok: Option<Seq<char>>,
    result: Option<Seq<char>>,
    data: Option<Seq<char>>,
    value: Option<Seq<char>>,
) -> Result<Seq<char>, Seq<char>> {
    if success == Some("false"@) || ok == Some("false"@) {
        Err("KV proxy returned failure: "@ + whole)
    } else {
        match (result, data, value) {
            (Some(x), _, _) => Ok(x),
            (None, Some(x), _) => Ok(x),
            (None, None, Some(x)) => Ok(x),
            (None, None, None) => Ok(whole),
        }
    }
}

/// What the JSON value `whole` carries.
pub open spec fn payload_of(whole: Seq<char>) -> Result<Seq<char>, Seq<char>> {
    payload(
        whole,
        json_member_of(whole, "success"@),
        json_member_of(whole, "ok"@),
        json_member_of(whole, "result"@),
        json_member_of(whole, "data"@),
        json_member_of(whole, "value"@),
    )
}

/// Whether the text of a JSON value says, in whatever case, that nothing was found.
pub fn is_not_found_payload(value: &str) -> (r: bool)
    ensures
        r == says_not_found(lower_case(value@)),
{
    let lower = to_lower_case(value);
    names_not_found(lower.as_str())
}

/// Whether a text in lower case says that nothing was found.
pub fn names_not_found(lower: &str) -> (r: bool)
    ensures
        r == says_not_found(lower@),
{
    contains(lower, "notfound") || contains(lower, "not found") || contains(lower, "not_found")
}

fn is_false(member: &Option<String>) -> (r: bool)
    ensures
        r == (opt_text(*member) == Some("false"@)),
{
    match member {
        Some(text) => same(text.as_str(), "false"),
        None => false,
    }
}

/// What the worker's answer carries, given its members.
pub fn choose_payload(
    whole: String,
    success: Option<String>,
    ok: Option<String>,
    result: Option<String>,
    data: Option<String>,
    value: Option<String>,
) -> (r: Result<String, Error>)
    ensures
        text_result(r) == payload(
            whole@,
            opt_text(success),
            opt_text(ok),
            opt_text(result),
            opt_text(data),
            opt_text(value),
        ),
{
    if is_false(&success) || is_false(&ok) {
        let mut message = "KV proxy returned failure: ".to_owned();
        message.append(whole.as_str());
        return Err(error(message));
    }
    if let Some(x) = result {
        return Ok(x);
    }
    if let Some(x) = data {
        return Ok(x);
    }
    if let Some(x) = value {
        return Ok(x);
    }
    Ok(whole)
}

/// What the worker's answer, the text of a JSON value, carries.
pub fn unwrap_proxy_payload(value: String) -> (r: Result<String, Error>)
    ensures
        text_result(r) == payload_of(value@),
{
    let success = json_member(value.as_str(), "success");
    let ok = json_member(value.as_str(), "ok");
    let result = json_member(value.as_str(), "result");
    let data = json_member(value.as_str(), "data");
    let inner = json_member(value.as_str(), "value");
    choose_payload(value, success, ok, result, data, inner)
}

/// What was understood of the body of an answer: whether it says that nothing was found, and the
/// string that it carries; or why it is no JSON.
pub type Understood = Result<(bool, Result<String, Error>), String>;

/// What an answer to a read gives, given what was understood of its body: the value, `None` where
/// there is none, or what went wrong.
pub open spec fn read_from(
    status: u16,
    status_error: Option<Seq<char>>,
    body: Result<(bool, Result<Seq<char>, Seq<char>>), Seq<char>>,
) -> Result<Option<Seq<char>>, Seq<char>> {
    if status == 404 {
        Ok(None)
    } else {
        match (status_error, body) {
            (Some(e), _) => Err(e),
            (None, Err(e)) => Err("error decoding response body: "@ + e),
            (None, Ok((true, _))) => Ok(None),
            (None, Ok((false, Err(e)))) => Err(e),
            (None, Ok((false, Ok(s)))) => Ok(Some(s)),
        }
    }
}

/// What is understood of the body of an answer.
pub open spec fn body_of(body: Seq<u8>) -> Result<
    (bool, Result<Seq<char>, Seq<char>>),
    Seq<char>,
> {
    match json_of(body) {
        Err(e) => Err(e),
        Ok(json) => Ok(
            (
                says_not_found(lower_case(json)),
                match payload_of(json) {
                    Err(e) => Err(e),
                    Ok(inner) => json_string_of(inner),
                },
            ),
        ),
    }
}

/// What an answer to a read gives: the value, `None` where there is none, or what went wrong.
pub open spec fn read_of(
    status: u16,
    status_error: Option<Seq<char>>,
    body: Seq<u8>,
) -> Result<Option<Seq<char>>, Seq<char>> {
    read_from(status, status_error, body_of(body))
}

/// What was understood, as its characters.
pub open spec fn understood(u: Understood) -> Result<
    (bool, Result<Seq<char>, Seq<char>>),
    Seq<char>,
> {
    match u {
        Ok((not_found, value)) => Ok((not_found, text_result(value))),
        Err(e) => Err(e@),
    }
}

/// What was read, as its characters.
pub open spec fn read_result(r: Result<Option<String>, Error>) -> Result<
    Option<Seq<char>>,
    Seq<char>,
> {
    match r {
        Ok(v) => Ok(opt_text(v)),
        Err(e) => Err(e@),
    }
}

/// What was read, and what was understood of it, is what the views tell.
pub proof fn reads_are_as_viewed(s: String, e: Error, cause: String, not_found: bool)
    ensures
        read_result(Ok(Some(s))) == Ok::<Option<Seq<char>>, Seq<char>>(Some(s@)),
        read_result(Ok(None)) == Ok::<Option<Seq<char>>, Seq<char>>(None),
        read_result(Err(e)) == Err::<Option<Seq<char>>, Seq<char>>(e@),
        understood(Err(cause)) == Err::<(bool, Result<Seq<char>, Seq<char>>), Seq<char>>(cause@),
        understood(Ok((not_found, Ok(s)))) == Ok::<(bool, Result<Seq<char>, Seq<char>>), Seq<char>>(
            (not_found, Ok(s@)),
        ),
        understood(Ok((not_found, Err(e)))) == Ok::<(bool, Result<Seq<char>, Seq<char>>), Seq<char>>(
            (not_found, Err(e@)),
        ),
{
}

fn understand(body: &[u8]) -> (r: Understood)
    ensures
        understood(r) == body_of(body@),
{
    let json = match json_value(body) {
        Ok(json) => json,
        Err(e) => {
            return Err(e);
        },
    };
    let not_found = is_not_found_payload(json.as_str());
    let value = match unwrap_proxy_payload(json) {
        Ok(inner) => match json_string(inner.as_str()) {
            Ok(s) => Ok(s),
            Err(e) => Err(error(e)),
        },
        Err(e) => Err(e),
    };
    Ok((not_found, value))
}

/// What is said of a write or a removal that the worker refused, given the text of the status.
pub open spec fn refusal(what: Seq<char>, status: Seq<char>, text: Seq<char>) -> Seq<char> {
    what + status + ", body="@ + text
}

/// What is said of a write or a removal that the worker refused, given the text of the status.
pub fn refused(what: &str, status: &str, text: &str) -> (r: Error)
    ensures
        r@ == refusal(what@, status@, text@),
{
    let mut message = what.to_owned();
    message.append(status);
    message.append(", body=");
    message.append(text);
    error(message)
}

/// What an answer of the worker carries: where it says that it failed, that and the whole answer is told;
/// else `result` counts before `data`, `data` before `value`, and the whole answer where none of these is
/// there.
pub proof fn answers_carry_a_value(
    whole: Seq<char>,
    success: Option<Seq<char>>,
    ok: Option<Seq<char>>,
    result: Option<Seq<char>>,
    data: Option<Seq<char>>,
    value: Option<Seq<char>>,
)
    ensures
        ({
            let p = payload(whole, success, ok, result, data, value);
            let failed = success == Some("false"@) || ok == Some("false"@);
            &&& failed ==> p == Err::<Seq<char>, Seq<char>>("KV proxy returned failure: "@ + whole)
            &&& !failed && result is Some ==> p == Ok::<Seq<char>, Seq<char>>(result->0)
            &&& !failed && result is None && data is Some ==> p == Ok::<Seq<char>, Seq<char>>(data->0)
            &&& !failed && result is None && data is None && value is Some ==> p == Ok::<
                Seq<char>,
                Seq<char>,
            >(value->0)
            &&& !failed && result is None && data is None && value is None ==> p == Ok::<
                Seq<char>,
                Seq<char>,
            >(whole)
        }),
        payload_of(whole) == payload(
            whole,
            json_member_of(whole, "success"@),
            json_member_of(whole, "ok"@),
            json_member_of(whole, "result"@),
            json_member_of(whole, "data"@),
            json_member_of(whole, "value"@),
        ),
{
}

/// What a read gives: nothing where the status is 404 or the answer says that nothing was found, in
/// whatever case; the error of the status where it stands for one; what is wrong with the body where it is
/// no JSON; else the string that the answer carries, or why it carries none.
pub proof fn reads_give_what_is_carried(
    status: u16,
    status_error: Option<Seq<char>>,
    body: Seq<u8>,
    json: Seq<char>,
    cause: Seq<char>,
)
    ensures
        ({
            let r = read_of(status, status_error, body);
            let absent = has_text(lower_case(json), "notfound"@) || has_text(
                lower_case(json),
                "not found"@,
            ) || has_text(lower_case(json), "not_found"@);
            &&& status == 404 ==> r == Ok::<Option<Seq<char>>, Seq<char>>(None)
            &&& status != 404 ==> (status_error matches Some(e) ==> r == Err::<
                Option<Seq<char>>,
                Seq<char>,
            >(e))
            &&& status != 404 && status_error is None && json_of(body) == Err::<Seq<char>, Seq<char>>(
                cause,
            ) ==> r == Err::<Option<Seq<char>>, Seq<char>>("error decoding response body: "@ + cause)
            &&& status != 404 && status_error is None && json_of(body) == Ok::<Seq<char>, Seq<char>>(
                json,
            ) ==> (if absent {
                r == Ok::<Option<Seq<char>>, Seq<char>>(None)
            } else {
                match payload_of(json) {
                    Err(e) => r == Err::<Option<Seq<char>>, Seq<char>>(e),
                    Ok(inner) => match json_string_of(inner) {
                        Ok(s) => r == Ok::<Option<Seq<char>>, Seq<char>>(Some(s)),
                        Err(e) => r == Err::<Option<Seq<char>>, Seq<char>>(e),
                    },
                }
            })
        }),
{
}

/// Keys lie below the endpoint, with one slash between them whether or not the endpoint ends with one.
/// What is refused is told with its status and its text.
pub proof fn endpoints_end_with_a_slash(
    endpoint: Seq<char>,
    what: Seq<char>,
    status: Seq<char>,
    text: Seq<char>,
)
    ensures
        with_slash(endpoint + seq!['/']) == endpoint + seq!['/'],
        endpoint.len() == 0 || endpoint.last() != '/' ==> with_slash(endpoint) == endpoint + seq!['/'],
        refusal(what, status, text) == what + status + ", body="@ + text,
{
    assert(endpoint.push('/') =~= endpoint + seq!['/']);
}

impl KVClient {
    /// A client that names itself by `token`.
    pub fn new(endpoint: String, token: String) -> (r: Result<Self, Error>)
        ensures
            match r {
                Ok(c) => header_text(token@) && c.endpoint@ == with_slash(endpoint@)
                    && header_entries(c.headers) == no_headers().insert("authorization"@, token@),
                Err(e) => !header_text(token@) && e@ == "failed to parse header value"@,
            },
    {
        let mut endpoint = endpoint;
        let n = endpoint.as_str().unicode_len();
        if n == 0 || endpoint.as_str().get_char(n - 1) != '/' {
            endpoint.push('/');
        }
        let mut headers = new_headers();
        proof {
            reveal_strlit("authorization");
        }
        match set_header(&mut headers, "authorization", token.as_str()) {
            Ok(_) => Ok(KVClient { endpoint, headers }),
            Err(e) => Err(error(e)),
        }
    }

    /// The address of a key.
    pub fn url(&self, key: &str) -> (r: String)
        ensures
            r@ == self.endpoint@ + key@,
    {
        let mut out = self.endpoint.clone();
        out.append(key);
        out
    }

    /// Reads the answer to a read. `status_error` is the error that the status stands for, if it
    /// stands for one.
    pub fn get(status: u16, status_error: Option<String>, body: &[u8]) -> (r: Result<
        Option<String>,
        Error,
    >)
        ensures
            read_result(r) == read_of(status, opt_text(status_error), body@),
    {
        KVClient::read(status, status_error, understand(body))
    }

    /// Reads the answer to a read, given what was understood of its body.
    pub fn read(status: u16, status_error: Option<String>, body: Understood) -> (r: Result<
        Option<String>,
        Error,
    >)
        ensures
            read_result(r) == read_from(status, opt_text(status_error), understood(body)),
    {
        if status == 404 {
            return Ok(None);
        }
        if let Some(e) = status_error {
            return Err(error(e));
        }
        match body {
            Err(e) => {
                let mut message = "error decoding response body: ".to_owned();
                message.append(e.as_str());
                Err(error(message))
            },
            Ok((true, _)) => Ok(None),
            Ok((false, Ok(s))) => Ok(Some(s)),
            Ok((false, Err(e))) => Err(e),
        }
    }

    /// The body of a write: the value as JSON. A read that is answered by this body gives the value
    /// back, unless the body says that nothing was found.
    pub fn body(value: &str) -> (r: String)
        ensures
            r@ == json_written(value@),
            read_of(200, None, encode_utf8(r@)) == (if says_not_found(lower_case(r@)) {
                Ok::<Option<Seq<char>>, Seq<char>>(None)
            } else {
                Ok(Some(value@))
            }),
    {
        json_text(value)
    }

    /// The header `ttl` of a write: the lifetime of the value in seconds.
    pub fn ttl_header(ttl: Option<usize>) -> (r: Option<String>)
        ensures
            opt_text(r) == match ttl {
                Some(n) => Some(decimal(n as nat)),
                None => None,
            },
    {
        match ttl {
            Some(n) => Some(number(n as u64)),
            None => None,
        }
    }

    /// Reads the answer to a write.
    pub fn put(reply: KVReply) -> (r: Result<(), Error>)
        requires
            reply.wf(),
        ensures
            match r {
                Ok(_) => 200 <= reply.status < 300,
                Err(e) => !(200 <= reply.status < 300) && e@ == refusal(
                    "KV put failed: status="@,
                    status_text(reply.status),
                    reply.text@,
                ),
            },
    {
        if reply.status >= 200 && reply.status < 300 {
            return Ok(());
        }
        let status = status_line(reply.status);
        Err(refused("KV put failed: status=", status.as_str(), reply.text.as_str()))
    }

    /// Reads the answer to a removal. What was not there counts as removed.
    pub fn delete(reply: KVReply) -> (r: Result<(), Error>)
        requires
            reply.wf(),
        ensures
            match r {
                Ok(_) => 200 <= reply.status < 300 || reply.status == 404,
                Err(e) => !(200 <= reply.status < 300 || reply.status == 404) && e@ == refusal(
                    "KV delete failed: status="@,
                    status_text(reply.status),
                    reply.text@,
                ),
            },
    {
        if (reply.status >= 200 && reply.status < 300) || reply.status == 404 {
            return Ok(());
        }
        let status = status_line(reply.status);
        Err(refused("KV delete failed: status=", status.as_str(), reply.text.as_str()))
    }
}

/// A store behind a worker.
#[derive(Debug)]
pub struct CFStorage {
    pub client: KVClient,
}

/// What is built for an endpoint and a token, where both are there.
pub open spec fn cf_built(
    endpoint: Option<Seq<char>>,
    token: Option<Seq<char>>,
    r: Result<CFStorage, Error>,
) -> bool {
    match (endpoint, token) {
        (None, _) => r matches Err(e) && e@
            == "worker_kv.endpoint is required for cloudflare mode"@,
        (Some(_), None) => r matches Err(e) && e@
            == "worker_kv.token is required for cloudflare mode"@,
        (Some(x), Some(t)) => match r {
            Ok(s) => header_text(t) && s.client.endpoint@ == with_slash(x) && header_entries(
                s.client.headers,
            ) == no_headers().insert("authorization"@, t),
            Err(e) => !header_text(t) && e@ == "failed to parse header value"@,
        },
    }
}

/// Whether a store behind a worker can be built for an endpoint and a token.
pub open spec fn cf_possible(endpoint: Option<Seq<char>>, token: Option<Seq<char>>) -> bool {
    endpoint is Some && (token matches Some(t) && header_text(t))
}

impl CFStorage {
    /// A store behind the worker at `endpoint`. The size and the lifetime of a cache have no effect
    /// on it.
    pub fn new(endpoint: String, token: String, _cache_size: usize, _expire_sec: u64) -> (r: Result<
        Self,
        Error,
    >)
        ensures
            cf_built(Some(endpoint@), Some(token@), r),
    {
        match KVClient::new(endpoint, token) {
            Ok(client) => Ok(CFStorage { client }),
            Err(e) => Err(e),
        }
    }

    /// The store that the configuration describes.
    pub fn new_from_config(config: CFConfig) -> (r: Result<Self, Error>)
        ensures
            cf_built(opt_text(config.endpoint), opt_text(config.token), r),
    {
        let endpoint = match config.endpoint {
            Some(x) => x,
            None => {
                return Err(error("worker_kv.endpoint is required for cloudflare mode".to_owned()));
            },
        };
        let token = match config.token {
            Some(x) => x,
            None => {
                return Err(error("worker_kv.token is required for cloudflare mode".to_owned()));
            },
        };
        let cache_size = match config.cache_size {
            Some(n) => n,
            None => DEFAULT_CACHE_SIZE,
        };
        let expire_sec = match config.expire_sec {
            Some(n) => n,
            None => DEFAULT_EXPIRE_SEC,
        };
        CFStorage::new(endpoint, token, cache_size, expire_sec)
    }
}

/// The store that is used: in memory, or behind a worker.
#[derive(Debug)]
pub enum CFOrMemStorage {
    Mem,
    CF(CFStorage),
}

impl CFOrMemStorage {
    /// What is chosen for a configuration.
    pub open spec fn chosen(config: CFConfig, r: Result<Self, Error>) -> bool {
        let endpoint = opt_text(config.endpoint);
        let token = opt_text(config.token);
        match config.mode {
            StorageMode::Memory => r == Ok::<Self, Error>(CFOrMemStorage::Mem),
            StorageMode::Cloudflare => match r {
                Ok(CFOrMemStorage::CF(s)) => cf_built(endpoint, token, Ok(s)),
                Ok(CFOrMemStorage::Mem) => false,
                Err(e) => cf_built(endpoint, token, Err(e)),
            },
            StorageMode::Auto => match r {
                Ok(CFOrMemStorage::CF(s)) => cf_built(endpoint, token, Ok(s)),
                Ok(CFOrMemStorage::Mem) => !cf_possible(endpoint, token),
                Err(_) => false,
            },
        }
    }

    /// The store for what stands in the configuration.
    pub fn new_from_config(config: Option<CFConfig>) -> (r: Result<Self, Error>)
        ensures
            match config {
                Some(c) => Self::chosen(c, r),
                None => r matches Err(e) && e@
                    == "cloudflare worker config(key: worker_kv) not found; set worker_kv.mode = memory explicitly if you want in-memory cache"@,
            },
    {
        match config {
            Some(c) => CFOrMemStorage::from_config(c),
            None => Err(
                error(
                    "cloudflare worker config(key: worker_kv) not found; set worker_kv.mode = memory explicitly if you want in-memory cache".to_owned(),
                ),
            ),
        }
    }

    /// The store for a configuration: the worker, memory, or memory only where there can be no
    /// worker.
    pub fn from_config(config: CFConfig) -> (r: Result<Self, Error>)
        ensures
            Self::chosen(config, r),
    {
        match config.mode {
            StorageMode::Cloudflare => match CFStorage::new_from_config(config) {
                Ok(s) => Ok(CFOrMemStorage::CF(s)),
                Err(e) => Err(e),
            },
            StorageMode::Memory => Ok(CFOrMemStorage::Mem),
            StorageMode::Auto => match CFStorage::new_from_config(config) {
                Ok(s) => Ok(CFOrMemStorage::CF(s)),
                Err(_) => Ok(CFOrMemStorage::Mem),
            },
        }
    }
}

impl CFOrMemStorage {
    /// The store that is used once the client for the one that was chosen has been built, or could
    /// not be: in the mode `Auto` memory takes the place of a worker that there is no client for.
    pub fn settled(self, mode: StorageMode, built: Result<(), Error>) -> (r: Result<Self, Error>)
        ensures
            r == (match (self, built) {
                (CFOrMemStorage::CF(_), Err(e)) => if mode == StorageMode::Auto {
                    Ok(CFOrMemStorage::Mem)
                } else {
                    Err(e)
                },
                (chosen, _) => Ok(chosen),
            }),
    {
        match (self, built) {
            (CFOrMemStorage::CF(_), Err(e)) => if mode == StorageMode::Auto {
                Ok(CFOrMemStorage::Mem)
            } else {
                Err(e)
            },
            (chosen, _) => Ok(chosen),
        }
    }
}

/// Which store is chosen: memory where it is asked for; the worker where an endpoint and a token are given
/// that a header can hold; and where they are not, memory in the mode `Auto` and else the reason.
pub proof fn stores_are_chosen_by_mode(config: CFConfig, r: Result<CFOrMemStorage, Error>)
    requires
        CFOrMemStorage::chosen(config, r),
    ensures
        ({
            let possible = config.endpoint is Some && config.token is Some && header_text(
                config.token->0@,
            );
            &&& config.mode == StorageMode::Memory ==> r == Ok::<CFOrMemStorage, Error>(
                CFOrMemStorage::Mem,
            )
            &&& config.mode != StorageMode::Memory && possible ==> (r matches Ok(CFOrMemStorage::CF(s))
                && s.client.endpoint@ == with_slash(config.endpoint->0@) && header_entries(
                s.client.headers,
            ) == no_headers().insert("authorization"@, config.token->0@))
            &&& config.mode == StorageMode::Auto && !possible ==> r == Ok::<CFOrMemStorage, Error>(
                CFOrMemStorage::Mem,
            )
            &&& config.mode == StorageMode::Cloudflare && !possible ==> (r matches Err(e) && e@ == (
            if config.endpoint is None {
                "worker_kv.endpoint is required for cloudflare mode"@
            } else if config.token is None {
                "worker_kv.token is required for cloudflare mode"@
            } else {
                "failed to parse header value"@
            }))
        }),
{
}

/// The worker is used exactly where it can be: whatever the mode, memory is chosen only where it is
/// asked for or, in the mode `Auto`, where no worker can be reached; and only the mode `Cloudflare`
/// can fail.
pub proof fn memory_is_never_silent(config: CFConfig, r: Result<CFOrMemStorage, Error>)
    requires
        CFOrMemStorage::chosen(config, r),
    ensures
        r matches Ok(CFOrMemStorage::Mem) ==> config.mode == StorageMode::Memory || (config.mode
            == StorageMode::Auto && !cf_possible(opt_text(config.endpoint), opt_text(config.token))),
        r is Err ==> config.mode == StorageMode::Cloudflare && !cf_possible(
            opt_text(config.endpoint),
            opt_text(config.token),
        ),
{
}

} // verus!
