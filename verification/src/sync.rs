//! Synchronizing albums with articles: what is looked up, fetched, published and remembered, and in
//! which order.

use crate::collector::{
    queue_of, somes, values_that_are_there, AlbumMeta, AlbumView, Collector, ImageMeta, Registry,
    SUPPORTED_URL_PATTERN,
};
use crate::error::{error, Error};
use crate::outside::{first_group, regex_first_group};
use crate::publish::{
    image_list, image_nodes, in_a_row, paged, paging_keeps_everything, Publication, PublicationView,
};
use crate::stream::AsyncStream;
use crate::text::{
    characters_are_removed, cut_of_sum, decimal, has_text, is_at, join, joined, number, opt_text, opt_texts, replace,
    replaced, texts,
};
use crate::unique::{
    adding_in_a_row, adding_items, all_in, distinct, push_all_unique, some_unless_empty,
    unless_empty,
};
use std::collections::VecDeque;
use vstd::prelude::*;
use vstd::string::*;

verus! {

/// So many images in a row may fail to load.
pub const ERR_THRESHOLD: usize = 10;

/// So many images are loaded at once, unless told otherwise.
pub const DEFAULT_CONCURRENT: usize = 20;

/// So many addresses are warmed at once.
pub const PREWARM_CONCURRENT: usize = 8;

/// How long warming one address may take, in seconds.
pub const PREWARM_TIMEOUT_SECS: u64 = 30;

/// How long the address of a page is remembered, 45 days, unless told otherwise.
pub const DEFAULT_CACHE_TTL: usize = 3600 * 24 * 45;

// ---------------------------------------------------------------------------
// Results
// ---------------------------------------------------------------------------

/// Why an album could not be published.
#[derive(Debug)]
pub enum UploadError<SE> {
    /// The images could not be loaded.
    Stream(SE),
    /// The article could not be created.
    Reqwest(Error),
}

/// What is said of a failure to publish.
pub open spec fn upload_message(e: UploadError<Error>) -> Seq<char> {
    match e {
        UploadError::Stream(cause) => "stream error "@ + cause@,
        UploadError::Reqwest(cause) => "telegraph error "@ + cause@,
    }
}

impl UploadError<Error> {
    /// What is said of this failure.
    pub fn message(&self) -> (r: String)
        ensures
            r@ == upload_message(*self),
    {
        match self {
            UploadError::Stream(cause) => {
                let mut out = "stream error ".to_owned();
                out.append(cause.message.as_str());
                out
            },
            UploadError::Reqwest(cause) => {
                let mut out = "telegraph error ".to_owned();
                out.append(cause.message.as_str());
                out
            },
        }
    }
}

/// An album that has been published, and what the message about it tells.
#[derive(Debug, Clone)]
pub struct SyncResult {
    pub page_url: String,
    pub title: Option<String>,
    pub authors: Option<Vec<String>>,
    pub tags: Option<Vec<String>>,
}

/// What a message about an album tells.
#[verifier::ext_equal]
pub struct MetaView {
    pub title: Option<Seq<char>>,
    pub authors: Option<Seq<Seq<char>>>,
    pub tags: Option<Seq<Seq<char>>>,
}

impl View for SyncResult {
    type V = (Seq<char>, MetaView);

    open spec fn view(&self) -> (Seq<char>, MetaView) {
        (
            self.page_url@,
            MetaView {
                title: opt_text(self.title),
                authors: opt_texts(self.authors),
                tags: opt_texts(self.tags),
            },
        )
    }
}

/// What a message about an album tells, as it is remembered.
#[derive(Debug, Clone)]
pub struct CachedMessageMeta {
    pub title: Option<String>,
    pub authors: Option<Vec<String>>,
    pub tags: Option<Vec<String>>,
}

impl View for CachedMessageMeta {
    type V = MetaView;

    open spec fn view(&self) -> MetaView {
        MetaView {
            title: opt_text(self.title),
            authors: opt_texts(self.authors),
            tags: opt_texts(self.tags),
        }
    }
}

fn clone_list(list: &Option<Vec<String>>) -> (r: Option<Vec<String>>)
    ensures
        opt_texts(r) == opt_texts(*list),
{
    match list {
        Some(v) => {
            let w = v.clone();
            assert(w@ =~= v@);
            Some(w)
        },
        None => None,
    }
}

impl CachedMessageMeta {
    /// What is to be remembered of a published album.
    pub fn from_sync_result(result: &SyncResult) -> (r: Self)
        ensures
            r@ == result@.1,
    {
        CachedMessageMeta {
            title: result.title.clone(),
            authors: clone_list(&result.authors),
            tags: clone_list(&result.tags),
        }
    }

    /// What is remembered, together with the address of the page.
    pub fn into_sync_result(self, page_url: String) -> (r: SyncResult)
        ensures
            r@ == (page_url@, self@),
    {
        SyncResult { page_url, title: self.title, authors: self.authors, tags: self.tags }
    }
}

/// What a message about an album tells.
pub open spec fn album_meta(a: AlbumView) -> MetaView {
    MetaView { title: Some(a.name), authors: a.authors, tags: a.tags }
}

/// What a message tells of an album of which nothing is known.
pub open spec fn no_meta() -> MetaView {
    MetaView { title: None, authors: None, tags: None }
}

// ---------------------------------------------------------------------------
// Keys
// ---------------------------------------------------------------------------

/// The key under which the address of a page is remembered.
pub open spec fn page_key(name: Seq<char>, path: Seq<char>) -> Seq<char> {
    name + "|"@ + path
}

/// The key under which the rest of the message is remembered.
pub open spec fn meta_key(page_key: Seq<char>) -> Seq<char> {
    page_key + "|message_meta_v1"@
}

/// The key under which the address of a page is remembered.
pub fn cache_key(name: &str, path: &str) -> (r: String)
    ensures
        r@ == page_key(name@, path@),
{
    let mut out = name.to_owned();
    out.append("|");
    out.append(path);
    out
}

/// The key under which the rest of the message is remembered.
pub fn message_meta_cache_key(cache_key: &str) -> (r: String)
    ensures
        r@ == meta_key(cache_key@),
{
    let mut out = cache_key.to_owned();
    out.append("|message_meta_v1");
    out
}

/// The key of a page names its album: no two albums share one, whatever their sites, as long as
/// no name of a site holds the separator.
pub proof fn keys_name_the_album(m: Seq<char>, p: Seq<char>, n: Seq<char>, q: Seq<char>)
    requires
        !m.contains('|'),
        !n.contains('|'),
        page_key(m, p) == page_key(n, q),
    ensures
        m == n,
        p == q,
{
    reveal_strlit("|");
    assert("|"@ =~= seq!['|']);
    cut_of_sum(m, p, '|');
    cut_of_sum(n, q, '|');
}

/// The two keys of an album differ, and two pages never share the key of their messages.
pub proof fn message_keys_are_apart(p: Seq<char>, q: Seq<char>)
    ensures
        meta_key(p) != p,
        meta_key(p) == meta_key(q) ==> p == q,
{
    reveal_strlit("|message_meta_v1");
    assert(meta_key(p).len() == p.len() + 16);
    assert(meta_key(p).take(meta_key(p).len() - 16) =~= p);
    assert(meta_key(q).take(meta_key(q).len() - 16) =~= q);
}

/// How the two keys of an album are made of the name of its site and its path.
pub proof fn keys_are_made_of_name_and_path(name: Seq<char>, path: Seq<char>)
    ensures
        page_key(name, path) == name + "|"@ + path,
        meta_key(page_key(name, path)) == name + "|"@ + path + "|message_meta_v1"@,
{
}

/// The keys of one album.
pub struct CacheKeys {
    pub page: String,
    pub meta: String,
}

/// The keys of the album that a collector finds under a path.
pub fn cache_keys<C: Collector>(path: &str) -> (r: CacheKeys)
    ensures
        r.page@ == page_key(C::spec_name(), path@),
        r.meta@ == meta_key(r.page@),
{
    let page = cache_key(C::name(), path);
    let meta = message_meta_cache_key(page.as_str());
    CacheKeys { page, meta }
}

/// What a look into the store gave. A store that cannot be read counts as one that holds nothing.
pub fn remembered(read: Result<Option<String>, Error>) -> (r: Option<String>)
    ensures
        r == (match read {
            Ok(value) => value,
            Err(_) => None,
        }),
{
    match read {
        Ok(value) => value,
        Err(_) => None,
    }
}

/// What to do about a request to forget an album.
pub enum DeleteStep {
    /// Forget what stands under this key too; it does not matter whether that works.
    Also(String),
    /// Forgetting failed.
    Failed(Error),
}

// ---------------------------------------------------------------------------
// Synchronizing one album
// ---------------------------------------------------------------------------

/// How far the synchronization of an album has come.
pub enum SyncState {
    /// The address of the page is being looked up.
    LookUp,
    /// The page exists; the rest of the message is being looked up.
    LookUpMeta { page_url: String },
    /// The page exists; the album is being fetched for the message alone.
    Refresh { page_url: String },
    /// The album is being fetched.
    Collect,
    /// The album is being published.
    Publish { title: String, authors: Option<Vec<String>>, tags: Option<Vec<String>> },
    /// Nothing is left to be done.
    Done,
}

/// What has happened.
pub enum SyncEvent {
    /// The address of the page was looked up; `None` where it was not found or could not be read.
    Url(Option<String>),
    /// The rest of the message was looked up; `None` where it was not found or could not be read.
    Meta(Option<CachedMessageMeta>),
    /// The album was fetched.
    Fetched(Result<AlbumMeta, Error>),
    /// The album was published, at this address.
    Published(Result<String, UploadError<Error>>),
}

/// How a synchronization ended, and what of it is to be remembered.
pub struct SyncEnd {
    pub result: Result<SyncResult, Error>,
    pub write_url: bool,
    pub write_meta: bool,
}

/// What to do next.
pub enum SyncAction {
    /// Look up the rest of the message.
    ReadMeta,
    /// Fetch the album.
    Fetch,
    /// Publish the album.
    Publish(AlbumMeta),
    /// Remember what is to be remembered, and answer.
    Finish(SyncEnd),
}

/// The events that can happen in a state.
pub open spec fn expects(state: SyncState, event: SyncEvent) -> bool {
    match state {
        SyncState::LookUp => event is Url,
        SyncState::LookUpMeta { .. } => event is Meta,
        SyncState::Refresh { .. } => event is Fetched,
        SyncState::Collect => event is Fetched,
        SyncState::Publish { .. } => event is Published,
        SyncState::Done => false,
    }
}

/// The end of a synchronization that worked.
pub open spec fn ends_well(
    r: (SyncState, SyncAction),
    url: Seq<char>,
    meta: MetaView,
    write_url: bool,
    write_meta: bool,
) -> bool {
    &&& r.0 is Done
    &&& r.1 matches SyncAction::Finish(end) && (end.result matches Ok(x) && x@ == (url, meta))
        && end.write_url == write_url && end.write_meta == write_meta
}

/// The end of a synchronization that did not work: nothing is remembered.
pub open spec fn ends_badly(r: (SyncState, SyncAction), message: Seq<char>) -> bool {
    &&& r.0 is Done
    &&& r.1 matches SyncAction::Finish(end) && (end.result matches Err(e) && e@ == message)
        && !end.write_url && !end.write_meta
}

/// What follows from an event. A page that exists is kept; only a message about it that is not
/// remembered is put together anew. A page that does not exist is published, and then its address
/// and the message are remembered.
pub open spec fn syncs(state: SyncState, event: SyncEvent, r: (SyncState, SyncAction)) -> bool {
    match (state, event) {
        (SyncState::LookUp, SyncEvent::Url(Some(url))) => r.0 == (SyncState::LookUpMeta {
            page_url: url,
        }) && r.1 is ReadMeta,
        (SyncState::LookUp, SyncEvent::Url(None)) => r.0 is Collect && r.1 is Fetch,
        (SyncState::LookUpMeta { page_url }, SyncEvent::Meta(Some(m))) => ends_well(
            r,
            page_url@,
            m@,
            false,
            false,
        ),
        (SyncState::LookUpMeta { page_url }, SyncEvent::Meta(None)) => r.0 == (SyncState::Refresh {
            page_url,
        }) && r.1 is Fetch,
        (SyncState::Refresh { page_url }, SyncEvent::Fetched(Ok(a))) => ends_well(
            r,
            page_url@,
            album_meta(a@),
            false,
            true,
        ),
        (SyncState::Refresh { page_url }, SyncEvent::Fetched(Err(_))) => ends_well(
            r,
            page_url@,
            no_meta(),
            false,
            false,
        ),
        (SyncState::Collect, SyncEvent::Fetched(Ok(a))) => {
            &&& r.0 matches SyncState::Publish { title, authors, tags } && title@ == a.name@
                && opt_texts(authors) == opt_texts(a.authors) && opt_texts(tags) == opt_texts(
                a.tags,
            )
            &&& r.1 == SyncAction::Publish(a)
        },
        (SyncState::Collect, SyncEvent::Fetched(Err(e))) => ends_badly(r, e@),
        (SyncState::Publish { title, authors, tags }, SyncEvent::Published(Ok(url))) => ends_well(
            r,
            url@,
            MetaView {
                title: Some(title@),
                authors: opt_texts(authors),
                tags: opt_texts(tags),
            },
            true,
            true,
        ),
        (SyncState::Publish { .. }, SyncEvent::Published(Err(e))) => ends_badly(
            r,
            upload_message(e),
        ),
        _ => true,
    }
}

fn finish(result: SyncResult, write_url: bool, write_meta: bool) -> (r: (SyncState, SyncAction))
    ensures
        ends_well(r, result@.0, result@.1, write_url, write_meta),
{
    (
        SyncState::Done,
        SyncAction::Finish(SyncEnd { result: Ok(result), write_url, write_meta }),
    )
}

fn fail(e: Error) -> (r: (SyncState, SyncAction))
    ensures
        ends_badly(r, e@),
{
    (
        SyncState::Done,
        SyncAction::Finish(SyncEnd { result: Err(e), write_url: false, write_meta: false }),
    )
}

/// The page at `url` exists, and it is this page that the synchronization is about.
pub open spec fn keeps_page(state: SyncState, url: Seq<char>) -> bool {
    match state {
        SyncState::LookUpMeta { page_url } => page_url@ == url,
        SyncState::Refresh { page_url } => page_url@ == url,
        SyncState::Done => true,
        _ => false,
    }
}

/// A page whose address is remembered is never published again, and the synchronization cannot
/// fail: whatever happens after the address was found, the answer is that page.
pub proof fn remembered_pages_are_kept(
    state: SyncState,
    event: SyncEvent,
    r: (SyncState, SyncAction),
    url: Seq<char>,
)
    requires
        expects(state, event),
        syncs(state, event, r),
        keeps_page(state, url) || (state is LookUp && (event matches SyncEvent::Url(Some(u)) && u@
            == url)),
    ensures
        keeps_page(r.0, url),
        !(r.1 is Publish),
        r.1 matches SyncAction::Finish(end) ==> (end.result matches Ok(x) && x@.0 == url)
            && !end.write_url,
{
}

/// An album is remembered only where it has just been published: an address is written together
/// with the message, and only for a result that worked.
pub proof fn only_published_pages_are_remembered(
    state: SyncState,
    event: SyncEvent,
    r: (SyncState, SyncAction),
)
    requires
        expects(state, event),
        syncs(state, event, r),
    ensures
        r.1 matches SyncAction::Finish(end) ==> {
            &&& end.write_url ==> end.write_meta && end.result is Ok && (event matches
                SyncEvent::Published(Ok(u)) && (end.result matches Ok(x) && x@.0 == u@))
            &&& end.write_meta ==> end.result is Ok
        },
{
}

/// An album whose page is not known is fetched, then published, and then told: the answer is the address
/// at which it was published, with its name, its authors and its tags, and both are remembered.
pub proof fn unknown_albums_are_published(
    album: AlbumMeta,
    url: String,
    first: (SyncState, SyncAction),
    second: (SyncState, SyncAction),
    third: (SyncState, SyncAction),
)
    requires
        syncs(SyncState::LookUp, SyncEvent::Url(None), first),
        syncs(first.0, SyncEvent::Fetched(Ok(album)), second),
        syncs(second.0, SyncEvent::Published(Ok(url)), third),
    ensures
        first.1 is Fetch,
        second.1 == SyncAction::Publish(album),
        third.1 matches SyncAction::Finish(end) && end.write_url && end.write_meta && (end.result
            matches Ok(x) && x@.0 == url@ && x@.1.title == Some(album.name@) && x@.1.authors
            == opt_texts(album.authors) && x@.1.tags == opt_texts(album.tags)),
{
}

/// What goes wrong on the way is the answer, in words, and nothing is remembered.
pub proof fn failures_are_told(
    album: AlbumMeta,
    e: Error,
    failure: UploadError<Error>,
    first: (SyncState, SyncAction),
    unfetched: (SyncState, SyncAction),
    second: (SyncState, SyncAction),
    unpublished: (SyncState, SyncAction),
)
    requires
        syncs(SyncState::LookUp, SyncEvent::Url(None), first),
        syncs(first.0, SyncEvent::Fetched(Err(e)), unfetched),
        syncs(first.0, SyncEvent::Fetched(Ok(album)), second),
        syncs(second.0, SyncEvent::Published(Err(failure)), unpublished),
    ensures
        unfetched.1 matches SyncAction::Finish(end) && !end.write_url && !end.write_meta && (end.result
            matches Err(x) && x@ == e@),
        unpublished.1 matches SyncAction::Finish(end) && !end.write_url && !end.write_meta && (
        end.result matches Err(x) && x@ == (match failure {
            UploadError::Stream(cause) => "stream error "@ + cause@,
            UploadError::Reqwest(cause) => "telegraph error "@ + cause@,
        })),
{
}

/// Where the page of an album is known, the rest of the message is looked up. Where that is known too, it
/// is the answer; else the album is fetched for it, and then it is remembered. Where fetching fails, the
/// address alone is the answer.
pub proof fn known_albums_are_looked_up(
    url: String,
    meta: CachedMessageMeta,
    album: AlbumMeta,
    e: Error,
    first: (SyncState, SyncAction),
    known: (SyncState, SyncAction),
    unknown: (SyncState, SyncAction),
    fetched: (SyncState, SyncAction),
    unfetched: (SyncState, SyncAction),
)
    requires
        syncs(SyncState::LookUp, SyncEvent::Url(Some(url)), first),
        syncs(first.0, SyncEvent::Meta(Some(meta)), known),
        syncs(first.0, SyncEvent::Meta(None), unknown),
        syncs(unknown.0, SyncEvent::Fetched(Ok(album)), fetched),
        syncs(unknown.0, SyncEvent::Fetched(Err(e)), unfetched),
    ensures
        first.1 is ReadMeta,
        known.1 matches SyncAction::Finish(end) && !end.write_url && !end.write_meta && (end.result
            matches Ok(x) && x@.0 == url@ && x@.1.title == opt_text(meta.title) && x@.1.authors
            == opt_texts(meta.authors) && x@.1.tags == opt_texts(meta.tags)),
        unknown.1 is Fetch,
        fetched.1 matches SyncAction::Finish(end) && !end.write_url && end.write_meta && (end.result
            matches Ok(x) && x@.0 == url@ && x@.1.title == Some(album.name@) && x@.1.authors
            == opt_texts(album.authors) && x@.1.tags == opt_texts(album.tags)),
        unfetched.1 matches SyncAction::Finish(end) && !end.write_url && !end.write_meta && (end.result
            matches Ok(x) && x@.0 == url@ && x@.1.title is None && x@.1.authors is None
            && x@.1.tags is None),
{
}

/// What an answer, what is remembered of it, and what is written hold, their views tell.
pub proof fn answers_are_as_viewed(
    r: SyncResult,
    m: CachedMessageMeta,
    w: CacheWrite,
    writes: Seq<CacheWrite>,
    i: int,
)
    ensures
        write_views(writes).len() == writes.len(),
        0 <= i < writes.len() ==> write_views(writes)[i] == writes[i]@,
        r@.0 == r.page_url@,
        r@.1.title == opt_text(r.title),
        r@.1.authors == opt_texts(r.authors),
        r@.1.tags == opt_texts(r.tags),
        m@.title == opt_text(m.title),
        m@.authors == opt_texts(m.authors),
        m@.tags == opt_texts(m.tags),
        w@.key == w.key@,
        w@.ttl == w.ttl,
        w.value matches CacheValue::Page(url) ==> w@.value == ValueView::Page(url@),
        w.value matches CacheValue::Meta(meta) ==> w@.value == ValueView::Meta(meta@),
{
}

/// What is remembered of a message and read again gives the same message.
pub proof fn remembered_messages_come_back(
    result: SyncResult,
    meta: CachedMessageMeta,
    r: (SyncState, SyncAction),
)
    requires
        meta@ == result@.1,
        syncs(
            SyncState::LookUpMeta { page_url: result.page_url },
            SyncEvent::Meta(Some(meta)),
            r,
        ),
    ensures
        ends_well(r, result@.0, result@.1, false, false),
{
}

// ---------------------------------------------------------------------------
// What is remembered
// ---------------------------------------------------------------------------

/// A value that is remembered.
#[derive(Debug)]
pub enum CacheValue {
    /// The address of a page.
    Page(String),
    /// The rest of the message about it.
    Meta(CachedMessageMeta),
}

/// A value that is to be remembered under a key, for so many seconds.
#[derive(Debug)]
pub struct CacheWrite {
    pub key: String,
    pub value: CacheValue,
    pub ttl: usize,
}

/// A remembered value as its characters.
#[verifier::ext_equal]
pub enum ValueView {
    Page(Seq<char>),
    Meta(MetaView),
}

/// A write as its characters.
#[verifier::ext_equal]
pub struct WriteView {
    pub key: Seq<char>,
    pub value: ValueView,
    pub ttl: nat,
}

impl View for CacheWrite {
    type V = WriteView;

    open spec fn view(&self) -> WriteView {
        WriteView {
            key: self.key@,
            value: match self.value {
                CacheValue::Page(url) => ValueView::Page(url@),
                CacheValue::Meta(meta) => ValueView::Meta(meta@),
            },
            ttl: self.ttl as nat,
        }
    }
}

/// Writes as their characters.
pub open spec fn write_views(writes: Seq<CacheWrite>) -> Seq<WriteView> {
    writes.map_values(|w: CacheWrite| w@)
}

/// What is written when a synchronization has ended: the address of the page under the key of the
/// page, and the rest of the message under the key of the message, as far as they are to be written.
pub open spec fn writes_of(page: Seq<char>, meta: Seq<char>, ttl: nat, end: SyncEnd) -> Seq<
    WriteView,
> {
    match end.result {
        Ok(x) => {
            (if end.write_url {
                seq![WriteView { key: page, value: ValueView::Page(x@.0), ttl }]
            } else {
                Seq::empty()
            }) + (if end.write_meta {
                seq![WriteView { key: meta, value: ValueView::Meta(x@.1), ttl }]
            } else {
                Seq::empty()
            })
        },
        Err(_) => Seq::empty(),
    }
}

/// What stands under a key after some writes: what was written there last.
pub open spec fn stored(writes: Seq<WriteView>, key: Seq<char>) -> Option<ValueView>
    decreases writes.len(),
{
    if writes.len() == 0 {
        None
    } else if writes.last().key == key {
        Some(writes.last().value)
    } else {
        stored(writes.drop_last(), key)
    }
}

/// An album is published once: a first synchronization of an album whose page is not known, and
/// which works, writes the address of the page under the key of the page and the rest of the message
/// under the key of the message, both for the same time. A second one that reads what was written
/// neither fetches nor publishes nor writes anything, and gives the same result in all its parts.
pub proof fn a_second_run_repeats_the_first(
    page: Seq<char>,
    ttl: nat,
    album: AlbumMeta,
    published: String,
    first: (SyncState, SyncAction),
    second: (SyncState, SyncAction),
    third: (SyncState, SyncAction),
    end: SyncEnd,
    read_url: String,
    read_meta: CachedMessageMeta,
    again: (SyncState, SyncAction),
    over: (SyncState, SyncAction),
)
    requires
        syncs(SyncState::LookUp, SyncEvent::Url(None), first),
        syncs(first.0, SyncEvent::Fetched(Ok(album)), second),
        syncs(second.0, SyncEvent::Published(Ok(published)), third),
        third.1 == SyncAction::Finish(end),
        stored(writes_of(page, meta_key(page), ttl, end), page) == Some(ValueView::Page(read_url@)),
        stored(writes_of(page, meta_key(page), ttl, end), meta_key(page)) == Some(
            ValueView::Meta(read_meta@),
        ),
        syncs(SyncState::LookUp, SyncEvent::Url(Some(read_url)), again),
        syncs(again.0, SyncEvent::Meta(Some(read_meta)), over),
    ensures
        end.result matches Ok(x) && x@ == (published@, album_meta(album@)) && writes_of(
            page,
            meta_key(page),
            ttl,
            end,
        ) == seq![
            WriteView { key: page, value: ValueView::Page(x@.0), ttl },
            WriteView { key: meta_key(page), value: ValueView::Meta(x@.1), ttl },
        ] && again.1 is ReadMeta && ends_well(over, x@.0, x@.1, false, false),
{
    message_keys_are_apart(page, page);
    let x = end.result->Ok_0;
    let w = writes_of(page, meta_key(page), ttl, end);
    let one = WriteView { key: page, value: ValueView::Page(x@.0), ttl };
    let two = WriteView { key: meta_key(page), value: ValueView::Meta(x@.1), ttl };
    assert(w =~= seq![one, two]);
    assert(w.drop_last() =~= seq![one]);
    assert(stored(seq![one], page) == Some(one.value));
}

/// What such a first synchronization writes can be read: the address of the page under the key of
/// the page, and the rest of the message under the key of the message.
pub proof fn writes_are_found(page: Seq<char>, ttl: nat, end: SyncEnd)
    requires
        end.write_url,
        end.write_meta,
        end.result is Ok,
    ensures
        end.result matches Ok(x) && stored(writes_of(page, meta_key(page), ttl, end), page) == Some(
            ValueView::Page(x@.0),
        ) && stored(writes_of(page, meta_key(page), ttl, end), meta_key(page)) == Some(
            ValueView::Meta(x@.1),
        ),
{
    message_keys_are_apart(page, page);
    let x = end.result->Ok_0;
    let w = writes_of(page, meta_key(page), ttl, end);
    let one = WriteView { key: page, value: ValueView::Page(x@.0), ttl };
    let two = WriteView { key: meta_key(page), value: ValueView::Meta(x@.1), ttl };
    assert(w =~= seq![one, two]);
    assert(w.drop_last() =~= seq![one]);
    assert(stored(seq![one], page) == Some(one.value));
}

/// What is written at the end of a synchronization: only of one that worked, and of that only what is to be
/// remembered, the address before the message.
pub proof fn writes_are_as_decided(page: Seq<char>, meta: Seq<char>, ttl: nat, end: SyncEnd)
    ensures
        end.result is Err ==> writes_of(page, meta, ttl, end).len() == 0,
        end.result matches Ok(x) ==> {
            let address = WriteView { key: page, value: ValueView::Page(x@.0), ttl };
            let message = WriteView { key: meta, value: ValueView::Meta(x@.1), ttl };
            let w = writes_of(page, meta, ttl, end);
            &&& end.write_url && end.write_meta ==> w == seq![address, message]
            &&& end.write_url && !end.write_meta ==> w == seq![address]
            &&& !end.write_url && end.write_meta ==> w == seq![message]
            &&& !end.write_url && !end.write_meta ==> w.len() == 0
        },
{
    if let Ok(x) = end.result {
        let address = WriteView { key: page, value: ValueView::Page(x@.0), ttl };
        let message = WriteView { key: meta, value: ValueView::Meta(x@.1), ttl };
        let w = writes_of(page, meta, ttl, end);
        if end.write_url && end.write_meta {
            assert(w =~= seq![address, message]);
        } else if end.write_url {
            assert(w =~= seq![address]);
        } else if end.write_meta {
            assert(w =~= seq![message]);
        }
    }
}

// ---------------------------------------------------------------------------
// Loading the images of an album
// ---------------------------------------------------------------------------

/// The images that were loaded so far, and how many failed since the last of them.
#[derive(Debug)]
pub struct Gathering {
    pub images: Vec<ImageMeta>,
    pub errors: usize,
}

/// The images that were loaded, how many failed since the last of them, and whether loading was
/// given up.
#[verifier::ext_equal]
pub struct Gathered<A> {
    pub images: Seq<A>,
    pub errors: nat,
    pub stopped: bool,
}

/// Nothing has been loaded yet.
pub open spec fn nothing_gathered<A>() -> Gathered<A> {
    Gathered { images: Seq::empty(), errors: 0, stopped: false }
}

/// One more image was loaded, or failed to load. Loading is given up once more than
/// `ERR_THRESHOLD` images in a row have failed.
pub open spec fn gather_step<A>(g: Gathered<A>, outcome: Option<A>) -> Gathered<A> {
    if g.stopped {
        g
    } else {
        match outcome {
            Some(image) => Gathered { images: g.images.push(image), errors: 0, stopped: false },
            None => if g.errors < ERR_THRESHOLD {
                Gathered { errors: g.errors + 1, ..g }
            } else {
                Gathered { stopped: true, ..g }
            },
        }
    }
}

/// What is gathered in a row of outcomes.
pub open spec fn gathered<A>(outcomes: Seq<Option<A>>) -> Gathered<A>
    decreases outcomes.len(),
{
    if outcomes.len() == 0 {
        nothing_gathered()
    } else {
        gather_step(gathered(outcomes.drop_last()), outcomes.last())
    }
}

impl Gathering {
    /// What has been gathered.
    pub open spec fn progress(&self) -> Gathered<ImageMeta> {
        Gathered { images: self.images@, errors: self.errors as nat, stopped: false }
    }

    /// No more images in a row have failed than may.
    pub open spec fn wf(&self) -> bool {
        self.errors <= ERR_THRESHOLD
    }

    /// Nothing has been loaded yet.
    pub fn new() -> (r: Self)
        ensures
            r.wf(),
            r.progress() == nothing_gathered::<ImageMeta>(),
    {
        Gathering { images: Vec::new(), errors: 0 }
    }

    /// Takes down how loading one image ended. Where loading is given up, the error comes back.
    pub fn record<E>(&mut self, outcome: Result<ImageMeta, E>) -> (r: Option<E>)
        requires
            old(self).wf(),
        ensures
            final(self).wf(),
            ({
                let next = gather_step(
                    old(self).progress(),
                    match outcome {
                        Ok(image) => Some(image),
                        Err(_) => None,
                    },
                );
                if next.stopped {
                    outcome matches Err(e) && r == Some(e) && *final(self) == *old(self)
                } else {
                    r is None && final(self).progress() == next
                }
            }),
    {
        match outcome {
            Ok(image) => {
                self.errors = 0;
                self.images.push(image);
                None
            },
            Err(e) => {
                if self.errors < ERR_THRESHOLD {
                    self.errors += 1;
                    None
                } else {
                    Some(e)
                }
            },
        }
    }
}

/// What has been gathered are the images that were kept and the number of failures since the last.
pub proof fn gatherings_are_as_viewed(g: Gathering)
    ensures
        g.progress().images == g.images@,
        g.progress().errors == g.errors,
        !g.progress().stopped,
        g.wf() <==> g.errors <= 10,
{
}

/// More images in a row have failed than may, from `i` on.
pub open spec fn failing_streak<A>(outcomes: Seq<Option<A>>, i: int) -> bool {
    &&& 0 <= i
    &&& i + ERR_THRESHOLD < outcomes.len()
    &&& forall|j: int| i <= j <= i + ERR_THRESHOLD ==> (#[trigger] outcomes[j]) is None
}

proof fn lemma_gathered<A>(outcomes: Seq<Option<A>>)
    ensures
        ({
            let g = gathered(outcomes);
            let n = outcomes.len();
            &&& g.stopped ==> exists|i: int| failing_streak(outcomes, i)
            &&& !g.stopped ==> {
                &&& forall|i: int| !failing_streak(outcomes, i)
                &&& g.images == somes(outcomes)
                &&& g.errors <= ERR_THRESHOLD
                &&& g.errors <= n
                &&& forall|j: int| n - g.errors <= j < n ==> (#[trigger] outcomes[j]) is None
                &&& g.errors < n ==> outcomes[n - g.errors - 1] is Some
            }
        }),
    decreases outcomes.len(),
{
    let g = gathered(outcomes);
    let n = outcomes.len();
    if n > 0 {
        let before = outcomes.drop_last();
        lemma_gathered(before);
        let h = gathered(before);
        if h.stopped {
            let i = choose|i: int| failing_streak(before, i);
            assert forall|j: int| i <= j <= i + ERR_THRESHOLD implies (
            #[trigger] outcomes[j]) is None by {
                assert(outcomes[j] == before[j]);
            }
            assert(failing_streak(outcomes, i));
        } else if g.stopped {
            let i = n - 1 - ERR_THRESHOLD;
            assert forall|j: int| i <= j <= i + ERR_THRESHOLD implies (
            #[trigger] outcomes[j]) is None by {
                if j < n - 1 {
                    assert(outcomes[j] == before[j]);
                }
            }
            assert(failing_streak(outcomes, i));
        } else {
            assert forall|j: int| n - g.errors <= j < n implies (#[trigger] outcomes[j]) is None by {
                if j < n - 1 {
                    assert(outcomes[j] == before[j]);
                }
            }
            if g.errors < n && outcomes.last() is None {
                assert(outcomes[n - g.errors - 1] == before[n - g.errors - 1]);
            }
            assert forall|i: int| !failing_streak(outcomes, i) by {
                if failing_streak(outcomes, i) {
                    if i + ERR_THRESHOLD < n - 1 {
                        assert forall|j: int| i <= j <= i + ERR_THRESHOLD implies (
                        #[trigger] before[j]) is None by {
                            assert(outcomes[j] == before[j]);
                        }
                        assert(failing_streak(before, i));
                    } else {
                        let k = n - g.errors - 1;
                        assert(outcomes[k] is Some);
                    }
                }
            }
        }
    }
}

/// Loading is given up exactly where more than `ERR_THRESHOLD` images in a row fail. Failures that
/// are further apart are skipped: otherwise what is gathered are the images that were loaded, in
/// their order.
pub proof fn single_failures_are_skipped<A>(outcomes: Seq<Option<A>>)
    ensures
        gathered(outcomes).stopped <==> exists|i: int| failing_streak(outcomes, i),
        !gathered(outcomes).stopped ==> gathered(outcomes).images == somes(outcomes),
{
    lemma_gathered(outcomes);
}

/// Outcomes are taken down one after the other: an image that was loaded is kept behind those before it, a
/// single failure is only counted, and the eleventh failure in a row ends it. Until then nothing that was
/// loaded is lost.
pub proof fn outcomes_are_taken_down_in_turn<A>(outcomes: Seq<Option<A>>, next: Option<A>, image: A)
    ensures
        gathered(Seq::<Option<A>>::empty()).images.len() == 0,
        !gathered(Seq::<Option<A>>::empty()).stopped,
        gathered(outcomes.push(next)) == gather_step(gathered(outcomes), next),
        gathered(outcomes).stopped <==> exists|i: int|
            0 <= i && i + 10 < outcomes.len() && #[trigger] all_failed(outcomes, i, i + 11),
        !gathered(outcomes).stopped ==> gathered(outcomes).images == outcomes.filter_map(
            |o: Option<A>| o,
        ),
        !gathered(outcomes).stopped ==> gathered(outcomes.push(Some(image))).images == gathered(
            outcomes,
        ).images + seq![image],
{
    assert(outcomes.push(next).drop_last() =~= outcomes);
    assert(outcomes.push(Some(image)).drop_last() =~= outcomes);
    lemma_gathered(outcomes);
    values_that_are_there(outcomes);
    let g = gathered(outcomes);
    assert(g.images.push(image) =~= g.images + seq![image]);
    if g.stopped {
        let i = choose|i: int| failing_streak(outcomes, i);
        assert(all_failed(outcomes, i, i + 11));
    }
    if exists|i: int| 0 <= i && i + 10 < outcomes.len() && #[trigger] all_failed(
        outcomes,
        i,
        i + 11,
    ) {
        let i = choose|i: int|
            0 <= i && i + 10 < outcomes.len() && #[trigger] all_failed(outcomes, i, i + 11);
        assert(failing_streak(outcomes, i));
    }
}

/// All images from `i` up to `j` failed to load.
pub open spec fn all_failed<A>(outcomes: Seq<Option<A>>, i: int, j: int) -> bool {
    forall|k: int| i <= k < j ==> (#[trigger] outcomes[k]) is None
}

// ---------------------------------------------------------------------------
// Batches
// ---------------------------------------------------------------------------

/// A gallery that has been fetched, together with the addresses of its images.
#[derive(Debug, Clone)]
pub struct StashedGallery {
    pub source_url: String,
    pub meta: AlbumMeta,
    pub images: Vec<ImageMeta>,
}

/// A list that is not there is empty.
pub open spec fn or_empty(list: Option<Seq<Seq<char>>>) -> Seq<Seq<char>> {
    match list {
        Some(items) => items,
        None => Seq::empty(),
    }
}

/// The authors of all galleries in a row.
pub open spec fn all_authors(galleries: Seq<StashedGallery>) -> Seq<Seq<char>>
    decreases galleries.len(),
{
    if galleries.len() == 0 {
        Seq::empty()
    } else {
        all_authors(galleries.drop_last()) + or_empty(opt_texts(galleries.last().meta.authors))
    }
}

/// The tags of all galleries in a row.
pub open spec fn all_tags(galleries: Seq<StashedGallery>) -> Seq<Seq<char>>
    decreases galleries.len(),
{
    if galleries.len() == 0 {
        Seq::empty()
    } else {
        all_tags(galleries.drop_last()) + or_empty(opt_texts(galleries.last().meta.tags))
    }
}

/// The images of all galleries in a row.
pub open spec fn all_images(galleries: Seq<StashedGallery>) -> Seq<ImageMeta>
    decreases galleries.len(),
{
    if galleries.len() == 0 {
        Seq::empty()
    } else {
        all_images(galleries.drop_last()) + galleries.last().images@
    }
}

/// The addresses that the galleries came from.
pub open spec fn source_urls(galleries: Seq<StashedGallery>) -> Seq<Seq<char>> {
    galleries.map_values(|g: StashedGallery| g.source_url@)
}

/// The title of a batch: that of its first gallery, and how many more there are.
pub open spec fn batch_title(galleries: Seq<StashedGallery>) -> Seq<char> {
    if galleries.len() == 1 {
        galleries[0].meta.name@
    } else {
        galleries[0].meta.name@ + " (+"@ + decimal((galleries.len() - 1) as nat) + " galleries)"@
    }
}

/// The originals that the article names: those that were sent in, or else those that were stashed.
pub open spec fn batch_links(galleries: Seq<StashedGallery>, sent: Seq<Seq<char>>) -> Seq<
    Seq<char>,
> {
    if sent.len() == 0 {
        source_urls(galleries)
    } else {
        sent
    }
}

/// The album that a batch makes.
pub open spec fn batch_album(galleries: Seq<StashedGallery>, sent: Seq<Seq<char>>) -> AlbumView {
    AlbumView {
        link: batch_links(galleries, sent)[0],
        name: batch_title(galleries),
        class: Some("batch"@),
        description: Some("FIFO batch of "@ + decimal(galleries.len()) + " galleries"@),
        authors: unless_empty(distinct(all_authors(galleries))),
        tags: unless_empty(distinct(all_tags(galleries))),
    }
}

/// A batch that is ready to be published as one album.
#[derive(Debug)]
pub struct Batch {
    pub meta: AlbumMeta,
    pub images: Vec<ImageMeta>,
    pub links: Vec<String>,
}

impl Batch {
    /// The batch has been published, at this address, or could not be.
    pub fn published(self, page: Result<String, Error>) -> (r: Result<SyncResult, Error>)
        ensures
            match page {
                Ok(url) => r matches Ok(x) && x@ == (url@, album_meta(self.meta@)),
                Err(e) => r == Err::<SyncResult, Error>(e),
            },
    {
        match page {
            Ok(page_url) => Ok(
                SyncResult {
                    page_url,
                    title: Some(self.meta.name),
                    authors: self.meta.authors,
                    tags: self.meta.tags,
                },
            ),
            Err(e) => Err(e),
        }
    }
}

/// Nothing of a batch is lost and its order is kept: every author and every tag of a gallery is one
/// of the batch, none occurs twice, and none was made up.
pub proof fn batches_unite(galleries: Seq<StashedGallery>, i: int)
    requires
        0 <= i < galleries.len(),
    ensures
        distinct(all_authors(galleries)).no_duplicates(),
        distinct(all_tags(galleries)).no_duplicates(),
        all_in(
            or_empty(opt_texts(galleries[i].meta.authors)),
            distinct(all_authors(galleries)),
        ),
        all_in(or_empty(opt_texts(galleries[i].meta.tags)), distinct(all_tags(galleries))),
        all_in(distinct(all_authors(galleries)), all_authors(galleries)),
        all_in(distinct(all_tags(galleries)), all_tags(galleries)),
{
    let empty: Seq<Seq<char>> = Seq::empty();
    let a = all_authors(galleries);
    let t = all_tags(galleries);
    adding_items(empty, a);
    adding_items(empty, t);
    assert(empty + a =~= a);
    assert(empty + t =~= t);
    lemma_in_a_row(galleries, i);
    lemma_all_in(or_empty(opt_texts(galleries[i].meta.authors)), a, distinct(a));
    lemma_all_in(or_empty(opt_texts(galleries[i].meta.tags)), t, distinct(t));
}

proof fn lemma_all_in(a: Seq<Seq<char>>, b: Seq<Seq<char>>, c: Seq<Seq<char>>)
    requires
        all_in(a, b),
        all_in(b, c),
    ensures
        all_in(a, c),
{
    assert forall|i: int| 0 <= i < a.len() implies c.contains(#[trigger] a[i]) by {
        let k = choose|k: int| 0 <= k < b.len() && b[k] == a[i];
        assert(c.contains(b[k]));
    }
}

proof fn lemma_in_a_row(galleries: Seq<StashedGallery>, i: int)
    requires
        0 <= i < galleries.len(),
    ensures
        all_in(or_empty(opt_texts(galleries[i].meta.authors)), all_authors(galleries)),
        all_in(or_empty(opt_texts(galleries[i].meta.tags)), all_tags(galleries)),
    decreases galleries.len(),
{
    let before = galleries.drop_last();
    let a = or_empty(opt_texts(galleries[i].meta.authors));
    let t = or_empty(opt_texts(galleries[i].meta.tags));
    if i < before.len() {
        lemma_in_a_row(before, i);
        assert(before[i] == galleries[i]);
        assert forall|k: int| 0 <= k < all_authors(before).len() implies all_authors(
            galleries,
        ).contains(#[trigger] all_authors(before)[k]) by {
            assert(all_authors(galleries)[k] == all_authors(before)[k]);
        }
        assert forall|k: int| 0 <= k < all_tags(before).len() implies all_tags(galleries).contains(
            #[trigger] all_tags(before)[k],
        ) by {
            assert(all_tags(galleries)[k] == all_tags(before)[k]);
        }
        lemma_all_in(a, all_authors(before), all_authors(galleries));
        lemma_all_in(t, all_tags(before), all_tags(galleries));
    } else {
        assert forall|k: int| 0 <= k < a.len() implies all_authors(galleries).contains(
            #[trigger] a[k],
        ) by {
            assert(all_authors(galleries)[all_authors(before).len() + k] == a[k]);
        }
        assert forall|k: int| 0 <= k < t.len() implies all_tags(galleries).contains(
            #[trigger] t[k],
        ) by {
            assert(all_tags(galleries)[all_tags(before).len() + k] == t[k]);
        }
    }
}

/// A batch keeps the order in which its galleries came: the images of a gallery stand together, in
/// their order, after those of all galleries before it.
pub proof fn batches_are_first_in_first_out(galleries: Seq<StashedGallery>, i: int)
    requires
        0 <= i < galleries.len(),
    ensures
        ({
            let start = all_images(galleries.take(i)).len() as int;
            let n = galleries[i].images@.len() as int;
            &&& start + n <= all_images(galleries).len()
            &&& all_images(galleries).subrange(start, start + n) == galleries[i].images@
        }),
    decreases galleries.len(),
{
    let before = galleries.drop_last();
    let start = all_images(galleries.take(i)).len() as int;
    let n = galleries[i].images@.len() as int;
    if i < before.len() {
        batches_are_first_in_first_out(before, i);
        assert(before.take(i) =~= galleries.take(i));
        assert(all_images(galleries).subrange(start, start + n) =~= all_images(before).subrange(
            start,
            start + n,
        ));
    } else {
        assert(galleries.take(i) =~= before);
    }
    assert(all_images(galleries).subrange(start, start + n) =~= galleries[i].images@);
}

/// The images, the authors and the tags of galleries in a row are those of one gallery behind those of the
/// other, and all of them.
pub proof fn galleries_stand_in_a_row(galleries: Seq<StashedGallery>)
    ensures
        all_images(galleries) == galleries.map_values(|g: StashedGallery| g.images@).flatten(),
        all_authors(galleries) == galleries.map_values(
            |g: StashedGallery|
                match opt_texts(g.meta.authors) {
                    Some(list) => list,
                    None => Seq::empty(),
                },
        ).flatten(),
        all_tags(galleries) == galleries.map_values(
            |g: StashedGallery|
                match opt_texts(g.meta.tags) {
                    Some(list) => list,
                    None => Seq::empty(),
                },
        ).flatten(),
    decreases galleries.len(),
{
    let images = |g: StashedGallery| g.images@;
    let authors = |g: StashedGallery|
        match opt_texts(g.meta.authors) {
            Some(list) => list,
            None => Seq::empty(),
        };
    let tags = |g: StashedGallery|
        match opt_texts(g.meta.tags) {
            Some(list) => list,
            None => Seq::empty(),
        };
    if galleries.len() > 0 {
        let before = galleries.drop_last();
        let last = galleries.last();
        galleries_stand_in_a_row(before);
        before.map_values(images).lemma_flatten_push(images(last));
        before.map_values(authors).lemma_flatten_push(authors(last));
        before.map_values(tags).lemma_flatten_push(tags(last));
        assert(galleries.map_values(images) =~= before.map_values(images).push(images(last)));
        assert(galleries.map_values(authors) =~= before.map_values(authors).push(authors(last)));
        assert(galleries.map_values(tags) =~= before.map_values(tags).push(tags(last)));
    } else {
        assert(galleries.map_values(images).flatten() =~= Seq::empty());
        assert(galleries.map_values(authors).flatten() =~= Seq::empty());
        assert(galleries.map_values(tags).flatten() =~= Seq::empty());
    }
}

/// What a batch is called, where it leads to, and what is told of it. Its originals are the links that
/// were sent in, or else those of its galleries, each of them and in their order.
pub proof fn batches_are_told_of(galleries: Seq<StashedGallery>, sent: Seq<Seq<char>>, i: int)
    requires
        galleries.len() > 0,
    ensures
        ({
            let a = batch_album(galleries, sent);
            &&& galleries.len() == 1 ==> a.name == galleries[0].meta.name@
            &&& galleries.len() > 1 ==> a.name == galleries[0].meta.name@ + " (+"@ + decimal(
                (galleries.len() - 1) as nat,
            ) + " galleries)"@
            &&& sent.len() > 0 ==> a.link == sent[0] && batch_links(galleries, sent) == sent
            &&& sent.len() == 0 ==> a.link == galleries[0].source_url@ && batch_links(
                galleries,
                sent,
            ).len() == galleries.len() && (0 <= i < galleries.len() ==> batch_links(galleries, sent)[i]
                == galleries[i].source_url@)
            &&& a.class == Some("batch"@)
            &&& a.description == Some("FIFO batch of "@ + decimal(galleries.len()) + " galleries"@)
            &&& all_authors(galleries).len() == 0 ==> a.authors is None
            &&& all_authors(galleries).len() > 0 ==> a.authors == Some(
                distinct(all_authors(galleries)),
            )
            &&& all_tags(galleries).len() == 0 ==> a.tags is None
            &&& all_tags(galleries).len() > 0 ==> a.tags == Some(distinct(all_tags(galleries)))
        }),
{
    lemma_distinct_of_some(all_authors(galleries));
    lemma_distinct_of_some(all_tags(galleries));
}

proof fn lemma_distinct_of_some(items: Seq<Seq<char>>)
    ensures
        distinct(items).len() == 0 <==> items.len() == 0,
{
    let empty: Seq<Seq<char>> = Seq::empty();
    adding_items(empty, items);
    assert(empty + items =~= items);
    if items.len() > 0 {
        assert(distinct(items).contains(items[0]));
    } else if distinct(items).len() > 0 {
        assert((empty + items).contains(distinct(items)[0]));
    }
}

/// Images that have been loaded already, as a stream.
#[derive(Debug)]
pub struct ReadyImageStream {
    images: VecDeque<ImageMeta>,
}

impl ReadyImageStream {
    /// A stream of the given images.
    pub fn new(images: Vec<ImageMeta>) -> (r: Self)
        ensures
            r.pending() == images@,
    {
        ReadyImageStream { images: queue_of(images) }
    }
}

impl AsyncStream for ReadyImageStream {
    type Item = ImageMeta;

    type Future = ImageMeta;

    closed spec fn pending(&self) -> Seq<ImageMeta> {
        self.images@
    }

    fn next(&mut self) -> (r: Option<ImageMeta>) {
        let ghost before = self.images@;
        let r = self.images.pop_front();
        assert(before.len() > 0 ==> self.images@ =~= before.skip(1));
        r
    }

    fn size_hint(&self) -> (r: (usize, Option<usize>))
        ensures
            r == (self.pending().len() as usize, Some(self.pending().len() as usize)),
    {
        let n = self.images.len();
        (n, Some(n))
    }
}

// ---------------------------------------------------------------------------
// The synchronizer
// ---------------------------------------------------------------------------

/// How albums are synchronized.
#[derive(Debug)]
pub struct Synchronizer {
    pub image_proxy_base: String,
    pub limit: Option<usize>,
    pub author_name: Option<String>,
    pub author_url: Option<String>,
    pub cache_ttl: Option<usize>,
    pub registry: Registry,
}

/// The author that an article names: the one that was configured, or else those of the album.
pub open spec fn author_of(configured: Option<Seq<char>>, album: Option<Seq<Seq<char>>>) -> Option<
    Seq<char>,
> {
    match configured {
        Some(name) => Some(name),
        None => match album {
            Some(authors) => Some(joined(authors, ", "@)),
            None => None,
        },
    }
}

impl Synchronizer {
    /// A synchronizer that goes by the defaults.
    pub fn new(registry: Registry, image_proxy_base: String) -> (r: Self)
        ensures
            r == (Synchronizer {
                image_proxy_base,
                limit: None,
                author_name: None,
                author_url: None,
                cache_ttl: None,
                registry,
            }),
    {
        Synchronizer {
            image_proxy_base,
            limit: None,
            author_name: None,
            author_url: None,
            cache_ttl: None,
            registry,
        }
    }

    /// The same synchronizer, which loads so many images at once.
    pub fn with_concurrent_limit(self, limit: usize) -> (r: Self)
        ensures
            r == (Synchronizer { limit: Some(limit), ..self }),
    {
        Synchronizer { limit: Some(limit), ..self }
    }

    /// The same synchronizer, whose articles name this author.
    pub fn with_author(self, name: Option<String>, url: Option<String>) -> (r: Self)
        ensures
            r == (Synchronizer { author_name: name, author_url: url, ..self }),
    {
        Synchronizer { author_name: name, author_url: url, ..self }
    }

    /// The same synchronizer, which remembers pages for so many seconds.
    pub fn with_cache_ttl(self, ttl: Option<usize>) -> (r: Self)
        ensures
            r == (Synchronizer { cache_ttl: ttl, ..self }),
    {
        Synchronizer { cache_ttl: ttl, ..self }
    }

    /// For how many seconds pages are remembered.
    pub open spec fn spec_cache_ttl(&self) -> usize {
        match self.cache_ttl {
            Some(ttl) => ttl,
            None => DEFAULT_CACHE_TTL,
        }
    }

    /// What is to be remembered of a synchronization that has ended.
    pub fn cache_writes(&self, keys: &CacheKeys, end: &SyncEnd) -> (r: Vec<CacheWrite>)
        ensures
            write_views(r@) == writes_of(
                keys.page@,
                keys.meta@,
                self.spec_cache_ttl() as nat,
                *end,
            ),
    {
        let ttl = self.effective_cache_ttl();
        let mut writes: Vec<CacheWrite> = Vec::new();
        if let Ok(result) = &end.result {
            if end.write_url {
                let value = CacheValue::Page(result.page_url.clone());
                writes.push(CacheWrite { key: keys.page.clone(), value, ttl });
            }
            if end.write_meta {
                let value = CacheValue::Meta(CachedMessageMeta::from_sync_result(result));
                writes.push(CacheWrite { key: keys.meta.clone(), value, ttl });
            }
        }
        assert(write_views(writes@) =~= writes_of(keys.page@, keys.meta@, ttl as nat, *end));
        writes
    }

    /// For how many seconds pages are remembered.
    pub fn effective_cache_ttl(&self) -> (r: usize)
        ensures
            r == self.spec_cache_ttl(),
    {
        match self.cache_ttl {
            Some(ttl) => ttl,
            None => DEFAULT_CACHE_TTL,
        }
    }

    /// How many images are loaded at once.
    pub fn effective_limit(&self) -> (r: usize)
        ensures
            r == (match self.limit {
                Some(limit) => limit,
                None => DEFAULT_CONCURRENT,
            }),
    {
        match self.limit {
            Some(limit) => limit,
            None => DEFAULT_CONCURRENT,
        }
    }

    /// What was remembered under `key` has been forgotten, or could not be: then what stands under
    /// the key of its message is to be forgotten too.
    pub fn delete_cache(&self, key: &str, deleted: Result<(), Error>) -> (r: DeleteStep)
        ensures
            match deleted {
                Ok(_) => r matches DeleteStep::Also(k) && k@ == meta_key(key@),
                Err(e) => r == DeleteStep::Failed(e),
            },
    {
        match deleted {
            Ok(_) => DeleteStep::Also(message_meta_cache_key(key)),
            Err(e) => DeleteStep::Failed(e),
        }
    }

    /// Takes the synchronization of an album one step further.
    pub fn sync(&self, state: SyncState, event: SyncEvent) -> (r: (SyncState, SyncAction))
        requires
            expects(state, event),
        ensures
            syncs(state, event, r),
    {
        match (state, event) {
            (SyncState::LookUp, SyncEvent::Url(Some(page_url))) => (
                SyncState::LookUpMeta { page_url },
                SyncAction::ReadMeta,
            ),
            (SyncState::LookUp, SyncEvent::Url(None)) => (SyncState::Collect, SyncAction::Fetch),
            (SyncState::LookUpMeta { page_url }, SyncEvent::Meta(Some(m))) => finish(
                m.into_sync_result(page_url),
                false,
                false,
            ),
            (SyncState::LookUpMeta { page_url }, SyncEvent::Meta(None)) => (
                SyncState::Refresh { page_url },
                SyncAction::Fetch,
            ),
            (SyncState::Refresh { page_url }, SyncEvent::Fetched(Ok(a))) => finish(
                SyncResult { page_url, title: Some(a.name), authors: a.authors, tags: a.tags },
                false,
                true,
            ),
            (SyncState::Refresh { page_url }, SyncEvent::Fetched(Err(_))) => finish(
                SyncResult { page_url, title: None, authors: None, tags: None },
                false,
                false,
            ),
            (SyncState::Collect, SyncEvent::Fetched(Ok(a))) => (
                SyncState::Publish {
                    title: a.name.clone(),
                    authors: clone_list(&a.authors),
                    tags: clone_list(&a.tags),
                },
                SyncAction::Publish(a),
            ),
            (SyncState::Collect, SyncEvent::Fetched(Err(e))) => fail(e),
            (SyncState::Publish { title, authors, tags }, SyncEvent::Published(Ok(page_url))) => finish(
                SyncResult { page_url, title: Some(title), authors, tags },
                true,
                true,
            ),
            (SyncState::Publish { .. }, SyncEvent::Published(Err(e))) => fail(error(e.message())),
            _ => fail(error(String::new())),
        }
    }

    /// A gallery whose images have been loaded, or failed to load: what is stashed of it.
    pub fn stash(
        &self,
        source_url: String,
        meta: AlbumMeta,
        images: Result<Vec<ImageMeta>, Error>,
    ) -> (r: Result<StashedGallery, Error>)
        ensures
            match images {
                Err(e) => r == Err::<StashedGallery, Error>(e),
                Ok(v) => if v.len() == 0 {
                    r matches Err(e) && e@ == "gallery contains no usable images"@
                } else {
                    r == Ok::<StashedGallery, Error>(
                        (StashedGallery { source_url, meta, images: v }),
                    )
                },
            },
    {
        match images {
            Err(e) => Err(e),
            Ok(images) => if images.len() == 0 {
                Err(error("gallery contains no usable images".to_owned()))
            } else {
                Ok(StashedGallery { source_url, meta, images })
            },
        }
    }

    /// Makes one album of the stashed galleries. The order of the galleries and of their images is
    /// kept. `source_links` are all links that were sent in, those of galleries that failed too.
    pub fn sync_stashed_batch(
        &self,
        galleries: Vec<StashedGallery>,
        source_links: Vec<String>,
    ) -> (r: Result<Batch, Error>)
        ensures
            match r {
                Ok(batch) => {
                    &&& galleries.len() > 0
                    &&& all_images(galleries@).len() > 0
                    &&& batch.images@ == all_images(galleries@)
                    &&& texts(batch.links@) == batch_links(galleries@, texts(source_links@))
                    &&& batch.meta@ == batch_album(galleries@, texts(source_links@))
                },
                Err(e) => {
                    ||| galleries.len() == 0 && e@ == "batch contains no stashed galleries"@
                    ||| galleries.len() > 0 && all_images(galleries@).len() == 0 && e@
                        == "batch contains no usable images"@
                },
            },
    {
        if galleries.len() == 0 {
            return Err(error("batch contains no stashed galleries".to_owned()));
        }
        let ghost all = galleries@;
        let count = galleries.len();
        let mut title = galleries[0].meta.name.clone();
        if count > 1 {
            title.append(" (+");
            title.append(number(count as u64 - 1).as_str());
            title.append(" galleries)");
        }
        let mut description = "FIFO batch of ".to_owned();
        description.append(number(count as u64).as_str());
        description.append(" galleries");
        let mut rest = queue_of(galleries);
        let mut authors: Vec<String> = Vec::new();
        let mut tags: Vec<String> = Vec::new();
        let mut images: Vec<ImageMeta> = Vec::new();
        let mut fallback: Vec<String> = Vec::new();
        let mut i: usize = 0;
        assert(all.skip(0) =~= all);
        assert(all.take(0) =~= Seq::empty());
        assert(texts(authors@) =~= Seq::empty());
        assert(texts(tags@) =~= Seq::empty());
        assert(texts(fallback@) =~= Seq::empty());
        assert(source_urls(all.take(0)) =~= Seq::empty());
        while i < count
            invariant
                i <= count,
                count == all.len(),
                rest@ == all.skip(i as int),
                texts(authors@) == distinct(all_authors(all.take(i as int))),
                texts(tags@) == distinct(all_tags(all.take(i as int))),
                images@ == all_images(all.take(i as int)),
                texts(fallback@) == source_urls(all.take(i as int)),
            decreases count - i,
        {
            let ghost prev = all.take(i as int);
            let ghost next = all.take(i + 1);
            let ghost links = texts(fallback@);
            assert(next.drop_last() =~= prev);
            assert(rest@[0] == all[i as int]);
            if let Some(gallery) = rest.pop_front() {
                assert(rest@ =~= all.skip(i + 1));
                assert(next.last() == gallery);
                let mut gallery = gallery;
                proof {
                    let empty: Seq<Seq<char>> = Seq::empty();
                    adding_in_a_row(
                        empty,
                        all_authors(prev),
                        or_empty(opt_texts(gallery.meta.authors)),
                    );
                    adding_in_a_row(empty, all_tags(prev), or_empty(opt_texts(gallery.meta.tags)));
                }
                if let Some(items) = &gallery.meta.authors {
                    push_all_unique(&mut authors, items);
                }
                if let Some(items) = &gallery.meta.tags {
                    push_all_unique(&mut tags, items);
                }
                fallback.push(gallery.source_url);
                assert(texts(fallback@) =~= links.push(next.last().source_url@));
                assert(source_urls(next) =~= source_urls(prev).push(next.last().source_url@));
                images.append(&mut gallery.images);
            }
            i += 1;
        }
        assert(all.take(i as int) =~= all);
        if images.len() == 0 {
            return Err(error("batch contains no usable images".to_owned()));
        }
        let links = if source_links.len() == 0 {
            fallback
        } else {
            source_links
        };
        assert(texts(links@).len() == links.len());
        assert(texts(links@)[0] == links@[0]@);
        let meta = AlbumMeta {
            link: links[0].clone(),
            name: title,
            class: Some("batch".to_owned()),
            description: Some(description),
            authors: some_unless_empty(authors),
            tags: some_unless_empty(tags),
        };
        Ok(Batch { meta, images, links })
    }

    /// The articles that an album becomes, whose images lie at `srcs` and have the given sizes. The
    /// article names the album as its only original.
    pub fn sync_stream(&self, meta: &AlbumMeta, srcs: &Vec<String>, sizes: &Vec<usize>) -> (r:
        Publication)
        requires
            srcs.len() == sizes.len(),
        ensures
            r@ == self.publication_of(meta@, texts(srcs@), sizes@, seq![meta.link@]),
    {
        let mut links: Vec<String> = Vec::new();
        links.push(meta.link.clone());
        assert(texts(links@) =~= seq![meta.link@]);
        self.sync_stream_with_links(meta, srcs, sizes, links)
    }

    /// The articles that an album becomes.
    pub open spec fn publication_of(
        &self,
        album: AlbumView,
        srcs: Seq<Seq<char>>,
        sizes: Seq<usize>,
        links: Seq<Seq<char>>,
    ) -> PublicationView {
        PublicationView {
            pages: paged(image_list(srcs), sizes).0,
            title: replaced(album.name, "|"@, ""@),
            links,
            author_name: author_of(opt_text(self.author_name), album.authors),
            author_url: opt_text(self.author_url),
            last_url: None,
        }
    }

    /// The articles that an album becomes, whose images lie at `srcs` and have the given sizes, and
    /// which names these originals.
    pub fn sync_stream_with_links(
        &self,
        meta: &AlbumMeta,
        srcs: &Vec<String>,
        sizes: &Vec<usize>,
        original_links: Vec<String>,
    ) -> (r: Publication)
        requires
            srcs.len() == sizes.len(),
        ensures
            r@ == self.publication_of(meta@, texts(srcs@), sizes@, texts(original_links@)),
    {
        proof {
            reveal_strlit("|");
        }
        let title = replace(meta.name.as_str(), "|", "");
        let author_name = match &self.author_name {
            Some(name) => Some(name.clone()),
            None => match &meta.authors {
                Some(authors) => Some(join(authors, ", ")),
                None => None,
            },
        };
        Publication::new(
            title,
            image_nodes(srcs),
            sizes,
            original_links,
            author_name,
            self.author_url.clone(),
        )
    }

    /// The first address in a text that a collector knows.
    pub fn match_url_from_text(content: &str) -> (r: Option<&str>)
        ensures
            r.deep_view() == regex_first_group(SUPPORTED_URL_PATTERN@, content@),
            r matches Some(url) ==> has_text(content@, url@) && known_address(url@),
    {
        first_group(SUPPORTED_URL_PATTERN, content)
    }

    /// The address that a collector knows and that the text begins with.
    pub fn match_url_from_url(content: &str) -> (r: Option<&str>)
        ensures
            r.deep_view() == regex_first_group("^"@ + SUPPORTED_URL_PATTERN@, content@),
            r matches Some(url) ==> has_text(content@, url@),
    {
        let mut pattern = "^".to_owned();
        pattern.append(SUPPORTED_URL_PATTERN);
        first_group(pattern.as_str(), content)
    }
}

/// The whole of a text is an address that a collector knows.
pub open spec fn known_address(url: Seq<char>) -> bool {
    regex_first_group("^"@ + SUPPORTED_URL_PATTERN@, url) == Some(url)
}

/// The articles of an album hold all its images, in their order, and there is at least one article.
pub proof fn publications_hold_all_images(
    s: Synchronizer,
    album: AlbumView,
    srcs: Seq<Seq<char>>,
    sizes: Seq<usize>,
    links: Seq<Seq<char>>,
)
    requires
        srcs.len() == sizes.len(),
    ensures
        in_a_row(s.publication_of(album, srcs, sizes, links).pages) == image_list(srcs),
        s.publication_of(album, srcs, sizes, links).pages.len() > 0,
{
    paging_keeps_everything(image_list(srcs), sizes);
}

/// What the articles of an album say: its name, without the vertical bars in it; the author that was
/// configured, or else all authors of the album; and the originals. The images are those of the album, cut
/// into pages.
pub proof fn articles_tell_of_albums(
    s: Synchronizer,
    album: AlbumView,
    srcs: Seq<Seq<char>>,
    sizes: Seq<usize>,
    links: Seq<Seq<char>>,
)
    ensures
        ({
            let p = s.publication_of(album, srcs, sizes, links);
            &&& p.title == album.name.filter(|c: char| c != '|')
            &&& p.links == links
            &&& s.author_name matches Some(name) ==> p.author_name == Some(name@)
            &&& s.author_name is None ==> (album.authors matches Some(authors) ==> p.author_name
                == Some(joined(authors, ", "@)))
            &&& s.author_name is None && album.authors is None ==> p.author_name is None
            &&& s.author_url matches Some(url) ==> p.author_url == Some(url@)
            &&& s.author_url is None ==> p.author_url is None
            &&& p.last_url is None
            &&& p.pages == paged(image_list(srcs), sizes).0
        }),
{
    reveal_strlit("|");
    reveal_strlit("");
    assert("|"@ =~= seq!['|']);
    assert(""@ =~= Seq::empty());
    characters_are_removed(album.name, '|');
}

/// Unless told otherwise a page is remembered for 45 days, and 20 images are loaded at once. Addresses are
/// warmed 8 at once, each for at most 30 seconds.
pub proof fn pages_are_remembered_for_days(s: Synchronizer)
    ensures
        DEFAULT_CONCURRENT == 20,
        PREWARM_CONCURRENT == 8,
        PREWARM_TIMEOUT_SECS == 30,
        s.cache_ttl is None ==> s.spec_cache_ttl() == 3888000,
        s.cache_ttl matches Some(ttl) ==> s.spec_cache_ttl() == ttl,
{
}

/// No title of an article holds a vertical bar.
pub proof fn titles_hold_no_bar(name: Seq<char>)
    ensures
        !replaced(name, "|"@, ""@).contains('|'),
    decreases name.len(),
{
    reveal_strlit("|");
    reveal_strlit("");
    if name.len() > 0 {
        titles_hold_no_bar(name.skip(1));
        let rest = replaced(name.skip(1), "|"@, ""@);
        if is_at(name, "|"@, 0) {
            assert(replaced(name, "|"@, ""@) =~= rest);
        } else {
            if name[0] == '|' {
                assert(name.subrange(0, 1) =~= "|"@);
            }
            let out = replaced(name, "|"@, ""@);
            assert(out =~= seq![name[0]] + rest);
            assert forall|i: int| 0 <= i < out.len() implies out[i] != '|' by {
                if i > 0 {
                    assert(rest.contains(rest[i - 1]));
                }
            }
        }
    }
}

// ---------------------------------------------------------------------------
// Warming the caches of the image proxy
// ---------------------------------------------------------------------------

/// How many addresses are to be warmed, were warmed, and could not be.
#[derive(Debug)]
pub struct Prewarm {
    pub total: usize,
    pub warmed: usize,
    pub failed: usize,
}

impl Prewarm {
    /// No more addresses have been tried than there are.
    pub open spec fn wf(&self) -> bool {
        self.warmed + self.failed <= self.total
    }

    /// None of the addresses has been tried.
    pub fn new(total: usize) -> (r: Self)
        ensures
            r.wf(),
            r == (Prewarm { total, warmed: 0, failed: 0 }),
    {
        Prewarm { total, warmed: 0, failed: 0 }
    }

    /// One more address has been tried.
    pub fn record(&mut self, ok: bool)
        requires
            old(self).wf(),
            old(self).warmed + old(self).failed < old(self).total,
        ensures
            final(self).wf(),
            *final(self) == (if ok {
                Prewarm { warmed: (old(self).warmed + 1) as usize, ..*old(self) }
            } else {
                Prewarm { failed: (old(self).failed + 1) as usize, ..*old(self) }
            }),
    {
        if ok {
            self.warmed += 1;
        } else {
            self.failed += 1;
        }
    }

    /// What is logged of a page once all its addresses have been tried.
    pub fn page_report(&self, page_url: &str) -> (r: String)
        ensures
            r@ == "[prewarm] finished Telegraph page "@ + page_url@ + "; warmed "@ + decimal(
                self.warmed as nat,
            ) + "/"@ + decimal(self.total as nat) + " image(s)"@ + (if self.failed == 0 {
                ""@
            } else {
                ", failed "@ + decimal(self.failed as nat)
            }),
    {
        let mut out = "[prewarm] finished Telegraph page ".to_owned();
        out.append(page_url);
        out.append("; warmed ");
        out.append(number(self.warmed as u64).as_str());
        out.append("/");
        out.append(number(self.total as u64).as_str());
        out.append(" image(s)");
        let mut tail = "".to_owned();
        if self.failed > 0 {
            tail = ", failed ".to_owned();
            tail.append(number(self.failed as u64).as_str());
        }
        out.append(tail.as_str());
        out
    }

    /// What is logged of a stashed gallery once all its addresses have been tried.
    pub fn stash_report(&self) -> (r: String)
        ensures
            r@ == "[batch] image prewarm finished; warmed "@ + decimal(self.warmed as nat) + "/"@
                + decimal(self.total as nat) + ", failed "@ + decimal(self.failed as nat),
    {
        let mut out = "[batch] image prewarm finished; warmed ".to_owned();
        out.append(number(self.warmed as u64).as_str());
        out.append("/");
        out.append(number(self.total as u64).as_str());
        out.append(", failed ");
        out.append(number(self.failed as u64).as_str());
        out
    }
}

} // verus!
