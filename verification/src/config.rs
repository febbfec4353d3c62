//! What can be configured, and which messages the bot looks at.

use crate::sync::Synchronizer;
use vstd::prelude::*;

verus! {

/// A day, in microseconds.
pub const DAY: i64 = 86_400_000_000;

/// The configuration.
#[derive(Debug)]
pub struct AppConfig {
    pub base: BaseConfig,
    pub image_proxy: ImageProxyConfig,
}

/// The configuration of the bot.
#[derive(Debug)]
pub struct BaseConfig {
    pub bot_token: String,
    pub telegraph: TelegraphConfig,
    pub admins: Vec<i64>,
    pub polling_timeout_secs: u64,
    pub restart_delay_secs: u64,
}

/// The configuration of the articles.
#[derive(Debug)]
pub struct TelegraphConfig {
    pub tokens: Vec<String>,
    pub author_name: Option<String>,
    pub author_url: Option<String>,
}

/// The configuration of the image proxy.
#[derive(Debug)]
pub struct ImageProxyConfig {
    pub base_url: String,
}

/// How long the bot waits for updates, in seconds, unless told otherwise.
pub fn default_polling_timeout() -> (r: u64)
    ensures
        r == 10,
{
    10
}

/// How long the bot waits before it starts again, in seconds, unless told otherwise.
pub fn default_restart_delay() -> (r: u64)
    ensures
        r == 5,
{
    5
}

/// The synchronizer with the author that was configured. An address without a name is ignored.
pub fn with_configured_author(
    synchronizer: Synchronizer,
    author_name: Option<String>,
    author_url: Option<String>,
) -> (r: Synchronizer)
    ensures
        r == (if author_name is Some {
            Synchronizer { author_name, author_url, ..synchronizer }
        } else {
            synchronizer
        }),
{
    if author_name.is_some() {
        synchronizer.with_author(author_name, author_url)
    } else {
        synchronizer
    }
}

/// From when on messages count, for a bot that starts `now`: a day before. Both in microseconds.
pub fn boundary(now: i64) -> (r: Option<i64>)
    ensures
        match r {
            Some(b) => b == now - DAY,
            None => now - DAY < i64::MIN,
        },
{
    now.checked_sub(DAY)
}

/// Whether a message of this date counts.
pub fn is_recent(date: i64, boundary: i64) -> (r: bool)
    ensures
        r == (date > boundary),
{
    date > boundary
}

/// Whether the bot may not write in a chat. Where nothing is known of its rights it may.
pub fn is_blocked(may_send: Option<bool>) -> (r: bool)
    ensures
        r == (may_send == Some(false)),
{
    match may_send {
        Some(may) => !may,
        None => false,
    }
}

/// Whether a message has a text, or a caption.
pub fn has_content(text: Option<&str>) -> (r: bool)
    ensures
        r == (text matches Some(t) && t@.len() > 0),
{
    match text {
        Some(t) => !t.is_empty(),
        None => false,
    }
}

} // verus!
