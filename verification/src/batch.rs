//! Batches: galleries that a user collects one by one and then publishes as one article.

use crate::error::{error, Error};
use crate::outside::{parse_url, url_of, UrlParts, UrlPartsView};
use crate::sync::StashedGallery;
use crate::text::{decimal, number, opt_text, same, texts};
use std::collections::VecDeque;
use vstd::prelude::*;
use vstd::string::*;

verus! {

/// So many links a batch may have.
pub const MAX_BATCH_LINKS: usize = 100;

/// So many images the galleries of a batch may have together.
pub const MAX_BATCH_IMAGES: usize = 5000;

/// Who a batch belongs to: a user in a chat.
#[derive(Debug, Clone, Copy, PartialEq, Eq, Structural)]
pub struct BatchKey {
    pub chat_id: i64,
    pub user_id: u64,
}

impl BatchKey {
    /// The key for a message in a chat. A message without a sender counts as one of user 0.
    pub fn from_message(chat_id: i64, sender: Option<u64>) -> (r: Self)
        ensures
            r.chat_id == chat_id,
            r.user_id == (match sender {
                Some(id) => id,
                None => 0,
            }),
    {
        let user_id = match sender {
            Some(id) => id,
            None => 0,
        };
        BatchKey { chat_id, user_id }
    }
}

// ---------------------------------------------------------------------------
// Where a gallery comes from
// ---------------------------------------------------------------------------

/// The sites that galleries come from.
#[derive(Debug, Clone, Copy, PartialEq, Eq, Structural)]
pub enum BatchSource {
    EHentai,
    ExHentai,
    NHentai,
    Pixiv,
}

/// The site that a host belongs to.
pub open spec fn source_of_host(host: Seq<char>) -> Option<BatchSource> {
    if host == "e-hentai.org"@ {
        Some(BatchSource::EHentai)
    } else if host == "exhentai.org"@ {
        Some(BatchSource::ExHentai)
    } else if host == "nhentai.net"@ || host == "nhentai.to"@ {
        Some(BatchSource::NHentai)
    } else if host == "pixiv.net"@ || host == "www.pixiv.net"@ {
        Some(BatchSource::Pixiv)
    } else {
        None
    }
}

/// The host of a URL; a URL without one counts as one with an empty host.
pub open spec fn host_of(u: UrlPartsView) -> Seq<char> {
    match u.host {
        Some(h) => h,
        None => Seq::empty(),
    }
}

/// The site of a URL, or what is said where there is none.
pub open spec fn source_of(u: Result<UrlPartsView, Seq<char>>) -> Result<BatchSource, Seq<char>> {
    match u {
        Err(_) => Err("Invalid url"@),
        Ok(p) => match source_of_host(host_of(p)) {
            Some(s) => Ok(s),
            None => Err("no matching collector"@),
        },
    }
}

/// Which host belongs to which site; no other host belongs to any. A text that is no URL, or whose host
/// belongs to no site, has no site, and it is said why.
pub proof fn hosts_belong_to_sites(host: Seq<char>, u: UrlPartsView, cause: Seq<char>)
    ensures
        source_of_host(host) == Some(BatchSource::EHentai) <==> host == "e-hentai.org"@,
        source_of_host(host) == Some(BatchSource::ExHentai) <==> host == "exhentai.org"@,
        source_of_host(host) == Some(BatchSource::NHentai) <==> host == "nhentai.net"@ || host
            == "nhentai.to"@,
        source_of_host(host) == Some(BatchSource::Pixiv) <==> host == "pixiv.net"@ || host
            == "www.pixiv.net"@,
        source_of(Err(cause)) == Err::<BatchSource, Seq<char>>("Invalid url"@),
        u.host == Some(host) ==> source_of(Ok(u)) == (match source_of_host(host) {
            Some(s) => Ok::<BatchSource, Seq<char>>(s),
            None => Err("no matching collector"@),
        }),
        u.host is None ==> source_of(Ok(u)) == Err::<BatchSource, Seq<char>>(
            "no matching collector"@,
        ),
{
    lemma_hosts_differ();
    if u.host is None {
        assert(host_of(u).len() == 0);
    }
    reveal_strlit("e-hentai.org");
    reveal_strlit("exhentai.org");
    reveal_strlit("nhentai.net");
    reveal_strlit("nhentai.to");
    reveal_strlit("pixiv.net");
    reveal_strlit("www.pixiv.net");
}

proof fn lemma_hosts_differ()
    ensures
        "e-hentai.org"@ != "exhentai.org"@,
        "e-hentai.org"@ != "nhentai.net"@,
        "e-hentai.org"@ != "nhentai.to"@,
        "e-hentai.org"@ != "pixiv.net"@,
        "e-hentai.org"@ != "www.pixiv.net"@,
        "exhentai.org"@ != "nhentai.net"@,
        "exhentai.org"@ != "nhentai.to"@,
        "exhentai.org"@ != "pixiv.net"@,
        "exhentai.org"@ != "www.pixiv.net"@,
        "nhentai.net"@ != "pixiv.net"@,
        "nhentai.net"@ != "www.pixiv.net"@,
        "nhentai.to"@ != "pixiv.net"@,
        "nhentai.to"@ != "www.pixiv.net"@,
{
    reveal_strlit("e-hentai.org");
    reveal_strlit("exhentai.org");
    reveal_strlit("nhentai.net");
    reveal_strlit("nhentai.to");
    reveal_strlit("pixiv.net");
    reveal_strlit("www.pixiv.net");
    assert("e-hentai.org"@[0] == 'e' && "exhentai.org"@[0] == 'e');
    assert("e-hentai.org"@[1] == '-' && "exhentai.org"@[1] == 'x');
    assert("nhentai.net"@[0] == 'n' && "nhentai.to"@[0] == 'n');
    assert("pixiv.net"@[0] == 'p' && "www.pixiv.net"@[0] == 'w');
}

/// The name of a site.
pub open spec fn source_name(s: BatchSource) -> Seq<char> {
    match s {
        BatchSource::EHentai => "e-hentai"@,
        BatchSource::ExHentai => "exhentai"@,
        BatchSource::NHentai => "nhentai"@,
        BatchSource::Pixiv => "pixiv"@,
    }
}

/// A site or a message, as its characters.
pub open spec fn source_result(r: Result<BatchSource, Error>) -> Result<BatchSource, Seq<char>> {
    match r {
        Ok(s) => Ok(s),
        Err(e) => Err(e@),
    }
}

impl BatchSource {
    /// The site that a host belongs to.
    pub fn from_host(host: &str) -> (r: Option<Self>)
        ensures
            r == source_of_host(host@),
    {
        if same(host, "e-hentai.org") {
            Some(BatchSource::EHentai)
        } else if same(host, "exhentai.org") {
            Some(BatchSource::ExHentai)
        } else if same(host, "nhentai.net") || same(host, "nhentai.to") {
            Some(BatchSource::NHentai)
        } else if same(host, "pixiv.net") || same(host, "www.pixiv.net") {
            Some(BatchSource::Pixiv)
        } else {
            None
        }
    }

    /// The site of a URL.
    pub fn from_parts(u: &UrlParts) -> (r: Result<Self, Error>)
        ensures
            source_result(r) == source_of(Ok(u@)),
    {
        let found = match &u.host {
            Some(host) => BatchSource::from_host(host.as_str()),
            None => {
                let host = "";
                proof {
                    reveal_strlit("");
                }
                assert(host@ =~= host_of(u@));
                BatchSource::from_host(host)
            },
        };
        match found {
            Some(s) => Ok(s),
            None => Err(error("no matching collector".to_owned())),
        }
    }

    /// The site of an address.
    pub fn from_url(url: &str) -> (r: Result<Self, Error>)
        ensures
            source_result(r) == source_of(url_of(url@)),
    {
        match parse_url(url) {
            Ok(u) => BatchSource::from_parts(&u),
            Err(_) => Err(error("Invalid url".to_owned())),
        }
    }

    /// The name of the site.
    pub fn name(&self) -> (r: &'static str)
        ensures
            r@ == source_name(*self),
    {
        match self {
            BatchSource::EHentai => "e-hentai",
            BatchSource::ExHentai => "exhentai",
            BatchSource::NHentai => "nhentai",
            BatchSource::Pixiv => "pixiv",
        }
    }
}

/// The name of the site of a batch, which may not have been selected yet.
pub open spec fn selected(source: Option<BatchSource>) -> Seq<char> {
    match source {
        Some(s) => source_name(s),
        None => "not selected"@,
    }
}

/// The name of the site of a batch.
pub fn selected_name(source: Option<BatchSource>) -> (r: &'static str)
    ensures
        r@ == selected(source),
{
    match source {
        Some(s) => s.name(),
        None => "not selected",
    }
}

/// What the sites are called.
pub proof fn sites_have_names()
    ensures
        source_name(BatchSource::EHentai) == "e-hentai"@,
        source_name(BatchSource::ExHentai) == "exhentai"@,
        source_name(BatchSource::NHentai) == "nhentai"@,
        source_name(BatchSource::Pixiv) == "pixiv"@,
        forall|s: BatchSource| #[trigger] selected(Some(s)) == source_name(s),
        selected(None) == "not selected"@,
{
}

// ---------------------------------------------------------------------------
// Routes
// ---------------------------------------------------------------------------

/// Which collector is asked for which path.
#[derive(Debug)]
pub struct Route {
    pub source: BatchSource,
    pub path: String,
}

/// The path that the collector of a site is asked for: pixiv gets the query too.
pub open spec fn route_path(source: BatchSource, u: UrlPartsView) -> Seq<char> {
    match (source, u.query) {
        (BatchSource::Pixiv, Some(query)) => u.path + "?"@ + query,
        _ => u.path,
    }
}

/// The route of a URL, or what is said where there is none.
pub open spec fn route_of(u: Result<UrlPartsView, Seq<char>>) -> Result<
    (BatchSource, Seq<char>),
    Seq<char>,
> {
    match source_of(u) {
        Ok(s) => Ok((s, route_path(s, u->Ok_0))),
        Err(e) => Err(e),
    }
}

/// A route or a message, as its characters.
pub open spec fn route_result(r: Result<Route, Error>) -> Result<
    (BatchSource, Seq<char>),
    Seq<char>,
> {
    match r {
        Ok(route) => Ok((route.source, route.path@)),
        Err(e) => Err(e@),
    }
}

/// The route of a URL.
pub fn route_parts(u: UrlParts) -> (r: Result<Route, Error>)
    ensures
        route_result(r) == route_of(Ok(u@)),
{
    match BatchSource::from_parts(&u) {
        Ok(source) => {
            let mut path = u.path;
            if let BatchSource::Pixiv = source {
                if let Some(query) = u.query {
                    path.append("?");
                    path.append(query.as_str());
                }
            }
            Ok(Route { source, path })
        },
        Err(e) => Err(e),
    }
}

/// The route of an address: the same whether it is to be published or to be stashed.
pub fn route(url: &str) -> (r: Result<Route, Error>)
    ensures
        route_result(r) == route_of(url_of(url@)),
{
    match parse_url(url) {
        Ok(u) => route_parts(u),
        Err(_) => Err(error("Invalid url".to_owned())),
    }
}

/// A site, a route or a reason is what its view tells.
pub proof fn routes_are_as_viewed(s: BatchSource, route: Route, e: Error)
    ensures
        source_result(Ok(s)) == Ok::<BatchSource, Seq<char>>(s),
        source_result(Err(e)) == Err::<BatchSource, Seq<char>>(e@),
        route_result(Ok(route)) == Ok::<(BatchSource, Seq<char>), Seq<char>>(
            (route.source, route.path@),
        ),
        route_result(Err(e)) == Err::<(BatchSource, Seq<char>), Seq<char>>(e@),
{
}

/// A batch takes exactly the addresses that can be routed, and each is routed to the site that the
/// batch was locked to by it; an address that is not taken is refused for the same reason.
pub proof fn batches_take_what_is_routed(u: Result<UrlPartsView, Seq<char>>)
    ensures
        source_of(u) is Ok <==> route_of(u) is Ok,
        source_of(u) is Ok ==> route_of(u)->Ok_0.0 == source_of(u)->Ok_0,
        source_of(u) is Err ==> route_of(u)->Err_0 == source_of(u)->Err_0,
{
}

/// The collector of a site is asked for the path of the URL, and nothing of it is changed. That of pixiv
/// gets the query too, where there is one.
pub proof fn routes_lead_to_the_path(u: UrlPartsView)
    ensures
        route_of(Ok(u)) matches Ok((source, path)) ==> source_of(Ok(u)) == Ok::<
            BatchSource,
            Seq<char>,
        >(source) && path == (if source == BatchSource::Pixiv && u.query is Some {
            u.path + "?"@ + u.query->0
        } else {
            u.path
        }),
{
}

// ---------------------------------------------------------------------------
// One batch
// ---------------------------------------------------------------------------

/// A link that waits to be stashed.
#[derive(Debug)]
pub struct BatchQueueItem {
    pub url: String,
}

/// A link that could not be stashed.
#[derive(Debug)]
pub struct BatchFailure {
    pub url: String,
    pub error: String,
}

/// A batch on its way.
#[derive(Debug)]
pub struct BatchSession {
    pub source: Option<BatchSource>,
    pub queue: VecDeque<BatchQueueItem>,
    pub submitted_links: Vec<String>,
    pub galleries: Vec<StashedGallery>,
    pub failures: Vec<BatchFailure>,
    pub image_count: usize,
    pub processing: bool,
    pub closing: bool,
    /// What the batch has gathered has been handed over.
    pub taken: bool,
}

/// A batch as its characters.
#[verifier::ext_equal]
pub struct SessionView {
    pub source: Option<BatchSource>,
    pub queue: Seq<Seq<char>>,
    pub submitted: Seq<Seq<char>>,
    pub galleries: Seq<StashedGallery>,
    pub failures: Seq<(Seq<char>, Seq<char>)>,
    pub image_count: nat,
    pub processing: bool,
    pub closing: bool,
    pub taken: bool,
}

/// The links that wait.
pub open spec fn queue_texts(queue: Seq<BatchQueueItem>) -> Seq<Seq<char>> {
    queue.map_values(|i: BatchQueueItem| i.url@)
}

/// The links that failed, each with its reason.
pub open spec fn failure_texts(failures: Seq<BatchFailure>) -> Seq<(Seq<char>, Seq<char>)> {
    failures.map_values(|f: BatchFailure| (f.url@, f.error@))
}

/// The number of images of the galleries.
pub open spec fn images_of(galleries: Seq<StashedGallery>) -> nat
    decreases galleries.len(),
{
    if galleries.len() == 0 {
        0
    } else {
        images_of(galleries.drop_last()) + galleries.last().images@.len()
    }
}

impl View for BatchSession {
    type V = SessionView;

    open spec fn view(&self) -> SessionView {
        SessionView {
            source: self.source,
            queue: queue_texts(self.queue@),
            submitted: texts(self.submitted_links@),
            galleries: self.galleries@,
            failures: failure_texts(self.failures@),
            image_count: self.image_count as nat,
            processing: self.processing,
            closing: self.closing,
            taken: self.taken,
        }
    }
}

/// A batch to which nothing has been sent.
pub open spec fn empty_session() -> SessionView {
    SessionView {
        source: None,
        queue: Seq::empty(),
        submitted: Seq::empty(),
        galleries: Seq::empty(),
        failures: Seq::empty(),
        image_count: 0,
        processing: false,
        closing: false,
        taken: false,
    }
}

impl SessionView {
    /// A batch keeps its limits, has selected its site once it has taken a link, and is whole until
    /// it is handed over.
    pub open spec fn wf(self) -> bool {
        &&& self.submitted.len() <= MAX_BATCH_LINKS
        &&& images_of(self.galleries) <= self.image_count <= MAX_BATCH_IMAGES
        &&& self.submitted.len() > 0 ==> self.source is Some
        &&& self.taken || self.whole()
    }

    /// The batch has just the images that it has counted, and it has selected its site only if it
    /// has taken a link.
    pub open spec fn whole(self) -> bool {
        &&& self.image_count == images_of(self.galleries)
        &&& self.source is None <==> self.submitted.len() == 0
    }

    /// Every link that was taken waits, is being stashed (`in_work` of them are), was stashed or
    /// failed.
    pub open spec fn accounts(self, in_work: nat) -> bool {
        self.queue.len() + in_work + self.galleries.len() + self.failures.len()
            == self.submitted.len()
    }

    /// Every link that was taken comes from the site that the batch is locked to.
    pub open spec fn locked(self) -> bool {
        forall|i: int|
            0 <= i < self.submitted.len() ==> source_of(url_of(#[trigger] self.submitted[i])) == (
            match self.source {
                Some(s) => Ok::<BatchSource, Seq<char>>(s),
                None => Err(Seq::empty()),
            })
    }
}

/// Why a link is not taken, if it is not.
pub open spec fn refusal(
    s: SessionView,
    url: Seq<char>,
    source: Result<BatchSource, Seq<char>>,
) -> Option<Seq<char>> {
    if s.submitted.len() >= MAX_BATCH_LINKS {
        Some(url + ": batch link limit "@ + decimal(MAX_BATCH_LINKS as nat) + " reached"@)
    } else {
        match (source, s.source) {
            (Err(e), _) => Some(url + ": "@ + e),
            (Ok(new), Some(old)) => if new != old {
                Some(
                    url + ": source "@ + source_name(new) + " does not match locked source "@
                        + source_name(old),
                )
            } else {
                None
            },
            (Ok(_), None) => None,
        }
    }
}

/// A batch after a link was offered to it.
pub open spec fn offered(
    s: SessionView,
    url: Seq<char>,
    source: Result<BatchSource, Seq<char>>,
) -> SessionView {
    if refusal(s, url, source) is Some {
        s
    } else {
        SessionView {
            source: Some(source->Ok_0),
            queue: s.queue.push(url),
            submitted: s.submitted.push(url),
            ..s
        }
    }
}

/// A batch after links were offered to it one by one, and why some were not taken.
pub open spec fn offered_all(s: SessionView, urls: Seq<Seq<char>>) -> (SessionView, Seq<Seq<char>>)
    decreases urls.len(),
{
    if urls.len() == 0 {
        (s, Seq::empty())
    } else {
        let (t, refused) = offered_all(s, urls.drop_last());
        let source = source_of(url_of(urls.last()));
        (
            offered(t, urls.last(), source),
            match refusal(t, urls.last(), source) {
                Some(reason) => refused.push(reason),
                None => refused,
            },
        )
    }
}

/// A link is taken exactly where the batch has room for it, its site is known, and the batch is locked
/// to that site or to none. A link that is taken goes to the end of the queue and of the links that were
/// sent in, and locks the batch to its site. One that is not taken changes nothing, and it is said why.
pub proof fn links_are_taken_where_they_can_be(
    s: SessionView,
    url: Seq<char>,
    source: Result<BatchSource, Seq<char>>,
)
    ensures
        refusal(s, url, source) is None <==> s.submitted.len() < 100 && source is Ok && (
        s.source is None || s.source == Some(source->Ok_0)),
        refusal(s, url, source) is None ==> offered(s, url, source) == (SessionView {
            source: Some(source->Ok_0),
            queue: s.queue + seq![url],
            submitted: s.submitted + seq![url],
            galleries: s.galleries,
            failures: s.failures,
            image_count: s.image_count,
            processing: s.processing,
            closing: s.closing,
            taken: s.taken,
        }),
        refusal(s, url, source) is Some ==> offered(s, url, source) == s,
        s.submitted.len() >= 100 ==> refusal(s, url, source) == Some(
            url + ": batch link limit "@ + decimal(100) + " reached"@,
        ),
        s.submitted.len() < 100 ==> (source matches Err(e) ==> refusal(s, url, source) == Some(
            url + ": "@ + e,
        )),
        s.submitted.len() < 100 ==> (source matches Ok(new) ==> (s.source matches Some(old) ==> (old
            != new ==> refusal(s, url, source) == Some(
            url + ": source "@ + source_name(new) + " does not match locked source "@ + source_name(
                old,
            ),
        )))),
{
    assert(s.queue.push(url) =~= s.queue + seq![url]);
    assert(s.submitted.push(url) =~= s.submitted + seq![url]);
}

/// Links are offered in turn: each meets the batch as those before it have left it.
pub proof fn links_are_offered_in_turn(s: SessionView, urls: Seq<Seq<char>>, url: Seq<char>)
    ensures
        offered_all(s, Seq::empty()) == (s, Seq::<Seq<char>>::empty()),
        ({
            let (t, refused) = offered_all(s, urls);
            let (u, also) = offered_all(s, urls.push(url));
            let source = source_of(url_of(url));
            &&& u == offered(t, url, source)
            &&& also == (match refusal(t, url, source) {
                Some(reason) => refused.push(reason),
                None => refused,
            })
        }),
{
    assert(urls.push(url).drop_last() =~= urls);
}

/// The queue of a batch grows by just the links by which the links that were sent in grow, in the order
/// in which they were sent: `taken` says which of them these are.
pub proof fn taken_links_wait_in_turn(s: SessionView, urls: Seq<Seq<char>>) -> (taken: Seq<int>)
    ensures
        offered_all(s, urls).0.queue == s.queue + Seq::new(taken.len(), |k: int| urls[taken[k]]),
        offered_all(s, urls).0.submitted == s.submitted + Seq::new(
            taken.len(),
            |k: int| urls[taken[k]],
        ),
        taken.len() + offered_all(s, urls).1.len() == urls.len(),
        forall|k: int| 0 <= k < taken.len() ==> 0 <= #[trigger] taken[k] < urls.len(),
        forall|k: int, l: int|
            0 <= k < l < taken.len() ==> #[trigger] taken[k] < #[trigger] taken[l],
    decreases urls.len(),
{
    if urls.len() == 0 {
        let none: Seq<int> = Seq::empty();
        assert(s.queue + Seq::new(none.len(), |k: int| urls[none[k]]) =~= s.queue);
        assert(s.submitted + Seq::new(none.len(), |k: int| urls[none[k]]) =~= s.submitted);
        none
    } else {
        let before = urls.drop_last();
        let old = taken_links_wait_in_turn(s, before);
        let url = urls.last();
        let (t, refused) = offered_all(s, before);
        let source = source_of(url_of(url));
        let n = urls.len() - 1;
        links_are_taken_where_they_can_be(t, url, source);
        let was = Seq::new(old.len(), |k: int| before[old[k]]);
        if refusal(t, url, source) is Some {
            let now = Seq::new(old.len(), |k: int| urls[old[k]]);
            assert(now =~= was);
            old
        } else {
            let taken = old.push(n);
            let now = Seq::new(taken.len(), |k: int| urls[taken[k]]);
            assert(now =~= was.push(url));
            assert(s.queue + now =~= t.queue + seq![url]);
            assert(s.submitted + now =~= t.submitted + seq![url]);
            taken
        }
    }
}

/// Offering a link keeps a batch in order, loses nothing, and keeps it locked to one site.
pub proof fn offering_keeps_order(
    s: SessionView,
    url: Seq<char>,
    source: Result<BatchSource, Seq<char>>,
    in_work: nat,
)
    requires
        s.wf(),
        source == source_of(url_of(url)),
    ensures
        offered(s, url, source).wf(),
        s.whole() ==> offered(s, url, source).whole(),
        s.accounts(in_work) ==> offered(s, url, source).accounts(in_work),
        s.locked() ==> offered(s, url, source).locked(),
{
    let t = offered(s, url, source);
    if s.locked() {
        assert forall|i: int| 0 <= i < t.submitted.len() implies source_of(
            url_of(#[trigger] t.submitted[i]),
        ) == (match t.source {
            Some(s) => Ok::<BatchSource, Seq<char>>(s),
            None => Err(Seq::empty()),
        }) by {
            if i < s.submitted.len() {
                assert(t.submitted[i] == s.submitted[i]);
            }
        }
    }
}

/// A batch to which links are offered stays within its limits, loses none of them, and is locked to
/// the site of the first link that it took. Each link is either taken or refused with a reason.
pub proof fn offers_are_taken_or_refused(s: SessionView, urls: Seq<Seq<char>>, in_work: nat)
    requires
        s.wf(),
    ensures
        ({
            let (t, refused) = offered_all(s, urls);
            &&& t.wf()
            &&& s.whole() ==> t.whole()
            &&& s.accounts(in_work) ==> t.accounts(in_work)
            &&& s.locked() ==> t.locked()
            &&& t.submitted.len() - s.submitted.len() + refused.len() == urls.len()
            &&& s.source is Some ==> t.source == s.source
            &&& t.galleries == s.galleries && t.failures == s.failures
            &&& t.image_count == s.image_count
            &&& t.processing == s.processing && t.closing == s.closing && t.taken == s.taken
            &&& s.submitted.len() <= t.submitted.len()
            &&& t.submitted.take(s.submitted.len() as int) == s.submitted
        }),
    decreases urls.len(),
{
    if urls.len() > 0 {
        offers_are_taken_or_refused(s, urls.drop_last(), in_work);
        let (t, refused) = offered_all(s, urls.drop_last());
        offering_keeps_order(t, urls.last(), source_of(url_of(urls.last())), in_work);
        let u = offered(t, urls.last(), source_of(url_of(urls.last())));
        assert(u.submitted.take(s.submitted.len() as int) =~= t.submitted.take(
            s.submitted.len() as int,
        ));
    } else {
        assert(s.submitted.take(s.submitted.len() as int) =~= s.submitted);
    }
}

/// A gallery or a message, as its characters.
pub open spec fn stash_result(r: Result<StashedGallery, Error>) -> Result<
    StashedGallery,
    Seq<char>,
> {
    match r {
        Ok(g) => Ok(g),
        Err(e) => Err(e@),
    }
}

/// A stashed gallery or a reason is what its view tells.
pub proof fn stashes_are_as_viewed(g: StashedGallery, e: Error)
    ensures
        stash_result(Ok(g)) == Ok::<StashedGallery, Seq<char>>(g),
        stash_result(Err(e)) == Err::<StashedGallery, Seq<char>>(e@),
{
}

/// A link was stashed, or could not be. A gallery that would exceed the limit on images counts as a
/// failure.
pub open spec fn stash_recorded(
    s: SessionView,
    url: Seq<char>,
    result: Result<StashedGallery, Seq<char>>,
) -> SessionView {
    match result {
        Ok(g) => if s.image_count + g.images@.len() > MAX_BATCH_IMAGES {
            SessionView {
                failures: s.failures.push(
                    (
                        url,
                        "batch image limit "@ + decimal(MAX_BATCH_IMAGES as nat)
                            + " would be exceeded"@,
                    ),
                ),
                ..s
            }
        } else {
            SessionView {
                galleries: s.galleries.push(g),
                image_count: s.image_count + g.images@.len(),
                ..s
            }
        },
        Err(e) => SessionView { failures: s.failures.push((url, e)), ..s },
    }
}

/// A gallery that was stashed stands behind those stashed before it and its images are counted, unless
/// the batch would have more than 5000 images with it; then, and where stashing failed, the link is noted
/// down behind those that failed before, with the reason. Nothing else changes.
pub proof fn stashed_galleries_are_kept(
    s: SessionView,
    url: Seq<char>,
    g: StashedGallery,
    e: Seq<char>,
    galleries: Seq<StashedGallery>,
)
    ensures
        s.image_count + g.images.len() <= 5000 ==> stash_recorded(s, url, Ok(g)) == (SessionView {
            galleries: s.galleries + seq![g],
            image_count: s.image_count + g.images.len() as nat,
            ..s
        }),
        s.image_count + g.images.len() > 5000 ==> stash_recorded(s, url, Ok(g)) == (SessionView {
            failures: s.failures + seq![
                (url, "batch image limit "@ + decimal(5000) + " would be exceeded"@),
            ],
            ..s
        }),
        stash_recorded(s, url, Err(e)) == (SessionView {
            failures: s.failures + seq![(url, e)],
            ..s
        }),
        images_of(Seq::empty()) == 0,
        images_of(galleries.push(g)) == images_of(galleries) + g.images.len(),
{
    assert(galleries.push(g).drop_last() =~= galleries);
    assert(s.galleries.push(g) =~= s.galleries + seq![g]);
    assert(s.failures.push((url, e)) =~= s.failures + seq![(url, e)]);
    let why = "batch image limit "@ + decimal(5000) + " would be exceeded"@;
    assert(s.failures.push((url, why)) =~= s.failures + seq![(url, why)]);
}

/// Taking a link out of the queue and noting down how stashing it ended keeps a batch in order, and
/// the link is accounted for all the time. Galleries are kept in the order in which they were
/// stashed.
pub proof fn stashing_keeps_order(
    s: SessionView,
    url: Seq<char>,
    result: Result<StashedGallery, Seq<char>>,
    in_work: nat,
)
    requires
        s.wf(),
    ensures
        stash_recorded(s, url, result).wf(),
        s.whole() ==> stash_recorded(s, url, result).whole(),
        s.accounts(in_work + 1) ==> stash_recorded(s, url, result).accounts(in_work),
        s.locked() ==> stash_recorded(s, url, result).locked(),
        s.queue.len() > 0 && s.accounts(in_work) ==> (SessionView {
            queue: s.queue.skip(1),
            ..s
        }).accounts(in_work + 1),
{
    let t = stash_recorded(s, url, result);
    if let Ok(g) = result {
        assert(s.galleries.push(g).drop_last() =~= s.galleries);
    }
}

/// Once nothing waits and nothing is being stashed, every link that was taken has become a gallery
/// or a failure.
pub proof fn drained_batches_are_complete(s: SessionView)
    requires
        s.accounts(0),
        s.queue.len() == 0,
    ensures
        s.galleries.len() + s.failures.len() == s.submitted.len(),
{
}

/// A batch whose galleries, links and failures have been handed over.
pub open spec fn handed_over(s: SessionView) -> SessionView {
    SessionView {
        submitted: Seq::empty(),
        galleries: Seq::empty(),
        failures: Seq::empty(),
        taken: true,
        ..s
    }
}

/// A batch begins with nothing. Handing it over takes its links, galleries and failures out of it and
/// leaves the rest as it is.
pub proof fn batches_begin_and_are_handed_over(s: SessionView)
    ensures
        empty_session().source is None,
        empty_session().queue.len() == 0,
        empty_session().submitted.len() == 0,
        empty_session().galleries.len() == 0,
        empty_session().failures.len() == 0,
        empty_session().image_count == 0,
        !empty_session().processing && !empty_session().closing && !empty_session().taken,
        handed_over(s).submitted.len() == 0,
        handed_over(s).galleries.len() == 0,
        handed_over(s).failures.len() == 0,
        handed_over(s).taken,
        handed_over(s).queue == s.queue,
        handed_over(s).source == s.source,
        handed_over(s).image_count == s.image_count,
        handed_over(s).processing == s.processing && handed_over(s).closing == s.closing,
{
}

/// What a batch holds, its view tells: link by link, gallery by gallery, failure by failure.
pub proof fn batches_are_as_viewed(b: BatchSession, i: int)
    ensures
        b@.source == b.source,
        b@.queue.len() == b.queue@.len(),
        0 <= i < b.queue@.len() ==> b@.queue[i] == b.queue@[i].url@,
        b@.submitted.len() == b.submitted_links.len(),
        0 <= i < b.submitted_links.len() ==> b@.submitted[i] == b.submitted_links@[i]@,
        b@.galleries == b.galleries@,
        b@.failures.len() == b.failures.len(),
        0 <= i < b.failures.len() ==> b@.failures[i] == (b.failures@[i].url@, b.failures@[i].error@),
        b@.image_count == b.image_count,
        b@.processing == b.processing && b@.closing == b.closing && b@.taken == b.taken,
{
}

/// What is left of a batch once it is closed.
#[derive(Debug)]
pub struct Closed {
    pub galleries: Vec<StashedGallery>,
    pub links: Vec<String>,
    pub failures: Vec<BatchFailure>,
    pub image_count: usize,
    pub source: Option<BatchSource>,
}

impl BatchSession {
    /// A batch to which nothing has been sent.
    pub fn new() -> (r: Self)
        ensures
            r@ == empty_session(),
            r@.wf(),
            r@.whole(),
            r@.accounts(0),
            r@.locked(),
    {
        let r = BatchSession {
            source: None,
            queue: VecDeque::new(),
            submitted_links: Vec::new(),
            galleries: Vec::new(),
            failures: Vec::new(),
            image_count: 0,
            processing: false,
            closing: false,
            taken: false,
        };
        assert(r@ =~= empty_session());
        r
    }

    /// Offers a link of the given site to the batch. The result is why it is not taken.
    pub fn offer(&mut self, url: String, source: Result<BatchSource, Error>) -> (r: Option<String>)
        ensures
            final(self)@ == offered(old(self)@, url@, source_result(source)),
            opt_text(r) == refusal(old(self)@, url@, source_result(source)),
    {
        let ghost before = self@;
        assert(before.submitted.len() == self.submitted_links.len());
        if self.submitted_links.len() >= MAX_BATCH_LINKS {
            let mut reason = url;
            reason.append(": batch link limit ");
            reason.append(number(MAX_BATCH_LINKS as u64).as_str());
            reason.append(" reached");
            return Some(reason);
        }
        let new = match source {
            Ok(s) => s,
            Err(e) => {
                let mut reason = url;
                reason.append(": ");
                reason.append(e.message.as_str());
                return Some(reason);
            },
        };
        if let Some(locked) = self.source {
            if locked != new {
                let mut reason = url;
                reason.append(": source ");
                reason.append(new.name());
                reason.append(" does not match locked source ");
                reason.append(locked.name());
                return Some(reason);
            }
        }
        self.source = Some(new);
        self.submitted_links.push(url.clone());
        self.queue.push_back(BatchQueueItem { url });
        assert(self@.submitted =~= before.submitted.push(url@));
        assert(self@.queue =~= before.queue.push(url@));
        None
    }

    /// Offers links to the batch, one by one. The result is why some of them are not taken.
    pub fn offer_all(&mut self, urls: Vec<String>) -> (r: Vec<String>)
        requires
            old(self)@.wf(),
        ensures
            (final(self)@, texts(r@)) == offered_all(old(self)@, texts(urls@)),
            final(self)@.wf(),
    {
        let ghost start = self@;
        let ghost all = texts(urls@);
        let mut refused: Vec<String> = Vec::new();
        let mut i: usize = 0;
        assert(all.take(0) =~= Seq::empty());
        assert(texts(refused@) =~= Seq::empty());
        while i < urls.len()
            invariant
                i <= urls.len(),
                all == texts(urls@),
                (self@, texts(refused@)) == offered_all(start, all.take(i as int)),
            decreases urls.len() - i,
        {
            assert(all.take(i + 1).drop_last() =~= all.take(i as int));
            assert(all.take(i + 1).last() == urls@[i as int]@);
            let ghost before = texts(refused@);
            let source = BatchSource::from_url(urls[i].as_str());
            if let Some(reason) = self.offer(urls[i].clone(), source) {
                refused.push(reason);
                assert(texts(refused@) =~= before.push(reason@));
            }
            i += 1;
        }
        assert(all.take(i as int) =~= all);
        proof {
            offers_are_taken_or_refused(start, all, 0);
        }
        refused
    }

    /// Starts the worker of the batch, if there is work and no worker. Says whether it was started.
    pub fn wake(&mut self) -> (r: bool)
        ensures
            r == (!old(self)@.processing && old(self)@.queue.len() > 0),
            final(self)@ == (SessionView { processing: old(self)@.processing || r, ..old(self)@ }),
    {
        assert(self@.queue.len() == self.queue@.len());
        if !self.processing && self.queue.len() > 0 {
            self.processing = true;
            true
        } else {
            false
        }
    }

    /// The next link for the worker. Where none is left, the worker is done.
    pub fn next_item(&mut self) -> (r: Option<String>)
        ensures
            ({
                let s = old(self)@;
                if s.queue.len() == 0 {
                    r is None && final(self)@ == (SessionView { processing: false, ..s })
                } else {
                    opt_text(r) == Some(s.queue[0]) && final(self)@ == (SessionView {
                        queue: s.queue.skip(1),
                        ..s
                    })
                }
            }),
    {
        let ghost s = self@;
        match self.queue.pop_front() {
            Some(item) => {
                assert(self@.queue =~= s.queue.skip(1));
                assert(s.queue[0] == item.url@);
                Some(item.url)
            },
            None => {
                self.processing = false;
                None
            },
        }
    }

    /// Notes down how stashing a link ended.
    pub fn record(&mut self, url: String, result: Result<StashedGallery, Error>)
        requires
            old(self)@.wf(),
        ensures
            final(self)@.wf(),
            final(self)@ == stash_recorded(old(self)@, url@, stash_result(result)),
    {
        let ghost s = self@;
        proof {
            stashing_keeps_order(s, url@, stash_result(result), 0);
        }
        match result {
            Ok(gallery) => {
                let n = gallery.images.len();
                if n > MAX_BATCH_IMAGES || self.image_count + n > MAX_BATCH_IMAGES {
                    let mut reason = "batch image limit ".to_owned();
                    reason.append(number(MAX_BATCH_IMAGES as u64).as_str());
                    reason.append(" would be exceeded");
                    self.failures.push(BatchFailure { url, error: reason });
                    assert(self@.failures =~= s.failures.push((url@, reason@)));
                } else {
                    self.image_count += n;
                    self.galleries.push(gallery);
                }
            },
            Err(e) => {
                self.failures.push(BatchFailure { url, error: e.message });
                assert(self@.failures =~= s.failures.push((url@, e@)));
            },
        }
    }

    /// Whether nothing is left to be stashed.
    pub fn is_drained(&self) -> (r: bool)
        ensures
            r == (!self@.processing && self@.queue.len() == 0),
    {
        assert(self@.queue.len() == self.queue@.len());
        !self.processing && self.queue.len() == 0
    }

    /// Hands over the galleries, the links and the failures. The batch still says how many images it
    /// has counted and which site it was locked to.
    pub fn hand_over(&mut self) -> (r: Closed)
        requires
            old(self)@.wf(),
        ensures
            final(self)@.wf(),
            final(self)@ == handed_over(old(self)@),
            r.galleries@ == old(self)@.galleries,
            texts(r.links@) == old(self)@.submitted,
            failure_texts(r.failures@) == old(self)@.failures,
            r.image_count == old(self)@.image_count,
            r.source == old(self)@.source,
    {
        let mut galleries: Vec<StashedGallery> = Vec::new();
        let mut links: Vec<String> = Vec::new();
        let mut failures: Vec<BatchFailure> = Vec::new();
        std::mem::swap(&mut galleries, &mut self.galleries);
        std::mem::swap(&mut links, &mut self.submitted_links);
        std::mem::swap(&mut failures, &mut self.failures);
        self.taken = true;
        assert(self@ =~= handed_over(old(self)@));
        Closed { galleries, links, failures, image_count: self.image_count, source: self.source }
    }
}

} // verus!
