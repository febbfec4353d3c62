//! The collectors: one for each site, and what they have in common.

use crate::collector::e_hentai::{image_page_link, EHCollector, PAGE_RE};
use crate::collector::exhentai::{EXCollector, ExConfig};
use crate::collector::pixiv::{PixivCollector, PixivConfig};
use crate::error::Error;
use crate::outside::{all_groups, header_entries, no_headers, regex_all_groups};
use crate::stream::AsyncStream;
use crate::text::{contains, decimal, has_text, number, opt_text, opt_texts, texts};
use std::collections::VecDeque;
use vstd::prelude::*;
use vstd::string::*;

pub mod e_hentai;
pub mod exhentai;
pub mod pixiv;

verus! {

/// The addresses that the collectors know.
pub const SUPPORTED_URL_PATTERN: &'static str =
    r#"((?:https://exhentai\.org/g/\w+/[\w-]+)|(?:https://e-hentai\.org/g/\w+/[\w-]+)|(?:https://nhentai\.net/g/\d+)|(?:https://nhentai\.to/g/\d+)|(?:https://(?:www\.)?pixiv\.net/(?:[a-z]{2}/)?artworks/\d+)|(?:https://(?:www\.)?pixiv\.net/member_illust\.php\?[^\s#<>"]*?illust_id=\d+))"#;

/// Which addresses the collectors know: those of galleries on exhentai, e-hentai and nhentai, and those of
/// artworks on Pixiv, new and old.
pub proof fn known_addresses_are_these()
    ensures
        SUPPORTED_URL_PATTERN@
            == r#"((?:https://exhentai\.org/g/\w+/[\w-]+)|(?:https://e-hentai\.org/g/\w+/[\w-]+)|(?:https://nhentai\.net/g/\d+)|(?:https://nhentai\.to/g/\d+)|(?:https://(?:www\.)?pixiv\.net/(?:[a-z]{2}/)?artworks/\d+)|(?:https://(?:www\.)?pixiv\.net/member_illust\.php\?[^\s#<>"]*?illust_id=\d+))"#@,
{
}

/// One image of an album.
#[derive(Debug, Clone)]
pub struct ImageMeta {
    pub id: String,
    pub url: String,
    pub description: Option<String>,
}

/// What is known of an album as a whole.
#[derive(Debug, Clone)]
pub struct AlbumMeta {
    pub link: String,
    pub name: String,
    pub class: Option<String>,
    pub description: Option<String>,
    pub authors: Option<Vec<String>>,
    pub tags: Option<Vec<String>>,
}

/// An image as its characters.
#[verifier::ext_equal]
pub struct ImageView {
    pub id: Seq<char>,
    pub url: Seq<char>,
    pub description: Option<Seq<char>>,
}

/// An album as its characters.
#[verifier::ext_equal]
pub struct AlbumView {
    pub link: Seq<char>,
    pub name: Seq<char>,
    pub class: Option<Seq<char>>,
    pub description: Option<Seq<char>>,
    pub authors: Option<Seq<Seq<char>>>,
    pub tags: Option<Seq<Seq<char>>>,
}

impl View for ImageMeta {
    type V = ImageView;

    open spec fn view(&self) -> ImageView {
        ImageView { id: self.id@, url: self.url@, description: opt_text(self.description) }
    }
}

impl View for AlbumMeta {
    type V = AlbumView;

    open spec fn view(&self) -> AlbumView {
        AlbumView {
            link: self.link@,
            name: self.name@,
            class: opt_text(self.class),
            description: opt_text(self.description),
            authors: opt_texts(self.authors),
            tags: opt_texts(self.tags),
        }
    }
}

/// How a request to a site ended.
#[derive(Debug)]
pub enum Loaded<T> {
    /// The site answered.
    Done(T),
    /// The site did not answer in time.
    TimedOut,
    /// The request failed.
    Failed(Error),
}

/// A collector turns the path of an album into the album and the stream of its images. Asking the
/// site is not its part: `locate` says what to ask for, and `fetch` reads the answer.
pub trait Collector {
    /// What an album is found by.
    type Location;

    /// What the site answers.
    type Reply;

    /// The images of the album, loaded one by one.
    type ImageStream: AsyncStream;

    /// The name of the site.
    spec fn spec_name() -> Seq<char>;

    /// What `locate` gives for a path.
    spec fn locates(&self, path: Seq<char>, r: Result<Self::Location, Error>) -> bool;

    /// What `fetch` gives for an answer of the site.
    spec fn fetches(
        &self,
        location: Self::Location,
        reply: Self::Reply,
        r: Result<(AlbumMeta, Self::ImageStream), Error>,
    ) -> bool;

    /// The name of the site.
    fn name() -> (r: &'static str)
        ensures
            r@ == Self::spec_name(),
    ;

    /// Reads the path of an album.
    fn locate(&self, path: &str) -> (r: Result<Self::Location, Error>)
        ensures
            self.locates(path@, r),
    ;

    /// Reads what the site answered.
    fn fetch(&self, location: Self::Location, reply: Self::Reply) -> (r: Result<
        (AlbumMeta, Self::ImageStream),
        Error,
    >)
        ensures
            self.fetches(location, reply, r),
    ;
}

// ---------------------------------------------------------------------------
// Links in pages
// ---------------------------------------------------------------------------

/// The values that are there, in order.
pub open spec fn somes<A>(s: Seq<Option<A>>) -> Seq<A>
    decreases s.len(),
{
    if s.len() == 0 {
        Seq::empty()
    } else {
        match s.last() {
            Some(a) => somes(s.drop_last()).push(a),
            None => somes(s.drop_last()),
        }
    }
}

/// The texts that the first group of `pattern` matches in the pages, page by page.
pub open spec fn links_of(pattern: Seq<char>, pages: Seq<Seq<char>>) -> Seq<Seq<char>>
    decreases pages.len(),
{
    if pages.len() == 0 {
        Seq::empty()
    } else {
        links_of(pattern, pages.drop_last()) + somes(regex_all_groups(pattern, pages.last()))
    }
}

/// The links of two rows of pages, one after the other, are the links of the first and then those of
/// the second; no page has no links. So links come in the order of the pages, and none that is
/// repeated is left out.
pub proof fn links_come_page_by_page(pattern: Seq<char>, a: Seq<Seq<char>>, b: Seq<Seq<char>>)
    ensures
        links_of(pattern, Seq::empty()) == Seq::<Seq<char>>::empty(),
        links_of(pattern, a + b) == links_of(pattern, a) + links_of(pattern, b),
    decreases b.len(),
{
    if b.len() > 0 {
        links_come_page_by_page(pattern, a, b.drop_last());
        assert((a + b).drop_last() =~= a + b.drop_last());
        assert((a + b).last() == b.last());
        assert(links_of(pattern, a + b) =~= links_of(pattern, a) + links_of(pattern, b));
    } else {
        assert(a + b =~= a);
        assert(links_of(pattern, a) + links_of(pattern, b) =~= links_of(pattern, a));
    }
}

/// The values that are there are all of those and no others, in their order: where all are there, value
/// `i` is the `i`-th.
pub proof fn values_that_are_there<A>(s: Seq<Option<A>>)
    ensures
        somes(s) == s.filter_map(|o: Option<A>| o),
        (forall|i: int| 0 <= i < s.len() ==> (#[trigger] s[i]) is Some) ==> somes(s).len() == s.len()
            && forall|i: int| 0 <= i < s.len() ==> Some(#[trigger] somes(s)[i]) == s[i],
    decreases s.len(),
{
    if s.len() > 0 {
        let before = s.drop_last();
        values_that_are_there(before);
        assert(somes(s) =~= s.filter_map(|o: Option<A>| o));
        if forall|i: int| 0 <= i < s.len() ==> (#[trigger] s[i]) is Some {
            assert forall|i: int| 0 <= i < before.len() implies (#[trigger] before[i]) is Some by {
                assert(before[i] == s[i]);
            }
            assert(s[s.len() - 1] is Some);
            assert forall|i: int| 0 <= i < s.len() implies Some(#[trigger] somes(s)[i]) == s[i] by {
                if i < before.len() {
                    assert(somes(s)[i] == somes(before)[i]);
                    assert(before[i] == s[i]);
                }
            }
        }
    } else {
        assert(somes(s) =~= s.filter_map(|o: Option<A>| o));
    }
}

/// The links of a page are all that the pattern finds in it, in their order and as often as they are
/// found; the links of several pages are those of one after those of the other. None is left out.
pub proof fn no_link_is_left_out(pattern: Seq<char>, pages: Seq<Seq<char>>, page: Seq<char>)
    ensures
        links_of(pattern, seq![page]) == regex_all_groups(pattern, page).filter_map(
            |g: Option<Seq<char>>| g,
        ),
        (forall|i: int|
            0 <= i < regex_all_groups(pattern, page).len() ==> (#[trigger] regex_all_groups(
                pattern,
                page,
            )[i]) is Some) ==> links_of(pattern, seq![page]).len() == regex_all_groups(
            pattern,
            page,
        ).len() && forall|i: int|
            0 <= i < regex_all_groups(pattern, page).len() ==> Some(
                #[trigger] links_of(pattern, seq![page])[i],
            ) == regex_all_groups(pattern, page)[i],
        links_of(pattern, pages) == pages.map_values(
            |p: Seq<char>| links_of(pattern, seq![p]),
        ).flatten(),
    decreases pages.len(),
{
    let each = |p: Seq<char>| links_of(pattern, seq![p]);
    lemma_links_of_one(pattern, page);
    values_that_are_there(regex_all_groups(pattern, page));
    if pages.len() > 0 {
        let before = pages.drop_last();
        no_link_is_left_out(pattern, before, page);
        lemma_links_of_one(pattern, pages.last());
        before.map_values(each).lemma_flatten_push(each(pages.last()));
        assert(pages.map_values(each) =~= before.map_values(each).push(each(pages.last())));
    } else {
        assert(pages.map_values(each).flatten() =~= Seq::empty());
    }
}

proof fn lemma_links_of_one(pattern: Seq<char>, page: Seq<char>)
    ensures
        links_of(pattern, seq![page]) == somes(regex_all_groups(pattern, page)),
{
    let one = seq![page];
    assert(one.drop_last() =~= Seq::empty());
    assert(links_of(pattern, one.drop_last()) =~= Seq::empty());
    assert(links_of(pattern, one) =~= somes(regex_all_groups(pattern, page)));
}

/// What is known of a link that `pattern` finds in a page: it is part of the page, and it has the
/// form that the pattern for image pages of e-hentai asks for, where it is found by that.
pub open spec fn link_in(pattern: Seq<char>, page: Seq<char>, link: Seq<char>) -> bool {
    &&& has_text(page, link)
    &&& pattern == PAGE_RE@ ==> image_page_link(page, link)
}

/// The link is in one of the pages.
pub open spec fn stands_in(pattern: Seq<char>, pages: Seq<Seq<char>>, link: Seq<char>) -> bool {
    exists|p: int| 0 <= p < pages.len() && link_in(pattern, #[trigger] pages[p], link)
}

proof fn lemma_somes(s: Seq<Option<Seq<char>>>, fits: spec_fn(Seq<char>) -> bool)
    requires
        forall|i: int| 0 <= i < s.len() ==> ((#[trigger] s[i]) matches Some(g) ==> fits(g)),
    ensures
        forall|i: int| 0 <= i < somes(s).len() ==> fits(#[trigger] somes(s)[i]),
    decreases s.len(),
{
    if s.len() > 0 {
        let before = s.drop_last();
        assert forall|i: int| 0 <= i < before.len() implies ((#[trigger] before[i]) matches Some(g)
            ==> fits(g)) by {
            assert(before[i] == s[i]);
        }
        lemma_somes(before, fits);
        assert(s[s.len() - 1] == s.last());
        assert forall|i: int| 0 <= i < somes(s).len() implies fits(#[trigger] somes(s)[i]) by {
            if i < somes(before).len() {
                assert(somes(s)[i] == somes(before)[i]);
            }
        }
    }
}

/// Adds the groups that took part in their match to the links found before.
pub fn add_groups(links: &mut Vec<String>, groups: Vec<Option<String>>)
    ensures
        texts(final(links)@) == texts(old(links)@) + somes(groups.deep_view()),
{
    let ghost start = texts(links@);
    let ghost all: Seq<Option<Seq<char>>> = groups.deep_view();
    let mut i: usize = 0;
    assert(all.take(0) =~= Seq::empty());
    assert(texts(links@) =~= start + somes(all.take(0)));
    while i < groups.len()
        invariant
            i <= groups.len(),
            all == groups.deep_view(),
            texts(links@) == start + somes(all.take(i as int)),
        decreases groups.len() - i,
    {
        let ghost before = texts(links@);
        assert(all.take(i + 1).drop_last() =~= all.take(i as int));
        assert(all.take(i + 1).last() == all[i as int]);
        match &groups[i] {
            Some(link) => {
                links.push(link.clone());
                assert(texts(links@) =~= before.push(link@));
                assert(texts(links@) =~= start + somes(all.take(i + 1)));
            },
            None => {
                assert(texts(links@) =~= start + somes(all.take(i + 1)));
            },
        }
        i += 1;
    }
    assert(all.take(i as int) =~= all);
}

/// All links that `pattern` finds in the pages of a gallery, in order.
pub fn collect_links(pattern: &str, pages: &Vec<String>) -> (r: Vec<String>)
    ensures
        texts(r@) == links_of(pattern@, texts(pages@)),
        forall|i: int| 0 <= i < r.len() ==> stands_in(pattern@, texts(pages@), (#[trigger] r@[i])@),
{
    let mut out: Vec<String> = Vec::new();
    let mut i: usize = 0;
    let ghost all = texts(pages@);
    assert(all.take(0) =~= Seq::empty());
    assert(texts(out@) =~= Seq::empty());
    while i < pages.len()
        invariant
            i <= pages.len(),
            all == texts(pages@),
            texts(out@) == links_of(pattern@, all.take(i as int)),
            forall|k: int|
                0 <= k < texts(out@).len() ==> stands_in(pattern@, all, #[trigger] texts(out@)[k]),
        decreases pages.len() - i,
    {
        assert(all.take(i + 1).drop_last() =~= all.take(i as int));
        assert(all.take(i + 1).last() == pages@[i as int]@);
        let groups = all_groups(pattern, pages[i].as_str());
        let ghost before = texts(out@);
        let ghost found: Seq<Option<Seq<char>>> = groups.deep_view();
        proof {
            lemma_somes(found, |link: Seq<char>| link_in(pattern@, all[i as int], link));
        }
        add_groups(&mut out, groups);
        assert forall|k: int| 0 <= k < texts(out@).len() implies stands_in(
            pattern@,
            all,
            #[trigger] texts(out@)[k],
        ) by {
            if k < before.len() {
                assert(texts(out@)[k] == before[k]);
            } else {
                assert(texts(out@)[k] == somes(found)[k - before.len()]);
                assert(link_in(pattern@, all[i as int], texts(out@)[k]));
            }
        }
        i += 1;
    }
    assert(all.take(i as int) =~= all);
    assert forall|k: int| 0 <= k < out.len() implies stands_in(
        pattern@,
        all,
        (#[trigger] out@[k])@,
    ) by {
        assert(texts(out@)[k] == out@[k]@);
    }
    out
}

// ---------------------------------------------------------------------------
// Galleries that come in several pages
// ---------------------------------------------------------------------------

/// Says which pages a gallery has, given the address of its first one.
pub struct PageIndicator {
    pub base: String,
}

/// The address of page `n` of a gallery.
pub open spec fn page_url(base: Seq<char>, n: nat) -> Seq<char> {
    base + "/?p="@ + decimal(n)
}

/// The link to page `n` as it stands in the page before it.
pub open spec fn next_page_link(base: Seq<char>, n: nat) -> Seq<char> {
    "<a href=\""@ + base + "/?p="@ + decimal(n) + "\" onclick=\"return false\">"@
}

impl PageIndicator {
    /// The address of page `n`.
    pub fn format_n(&self, n: usize) -> (r: String)
        ensures
            r@ == page_url(self.base@, n as nat),
    {
        let mut out = self.base.clone();
        out.append("/?p=");
        out.append(number(n as u64).as_str());
        out
    }

    /// Whether `content` is the last page: it does not link to `next_page`.
    pub fn is_last_page(&self, content: &str, next_page: usize) -> (r: bool)
        ensures
            r == !has_text(content@, next_page_link(self.base@, next_page as nat)),
    {
        let mut link = "<a href=\"".to_owned();
        link.append(self.base.as_str());
        link.append("/?p=");
        link.append(number(next_page as u64).as_str());
        link.append("\" onclick=\"return false\">");
        !contains(content, link.as_str())
    }
}

/// The pages of a gallery are asked for by their numbers, and the link that leads from one page to the
/// next is that to the address of the next.
pub proof fn pages_are_asked_for_by_number(base: Seq<char>, n: nat)
    ensures
        page_url(base, n) == base + "/?p="@ + decimal(n),
        next_page_link(base, n) == "<a href=\""@ + page_url(base, n)
            + "\" onclick=\"return false\">"@,
{
    assert(next_page_link(base, n) =~= "<a href=\""@ + page_url(base, n)
        + "\" onclick=\"return false\">"@);
}

/// What is known of an image and of an album, their views tell.
pub proof fn albums_are_as_viewed(image: ImageMeta, album: AlbumMeta)
    ensures
        image@.id == image.id@,
        image@.url == image.url@,
        image@.description == opt_text(image.description),
        album@.link == album.link@,
        album@.name == album.name@,
        album@.class == opt_text(album.class),
        album@.description == opt_text(album.description),
        album@.authors == opt_texts(album.authors),
        album@.tags == opt_texts(album.tags),
{
}

/// The items of a vector as a queue.
pub fn queue_of<T>(items: Vec<T>) -> (r: VecDeque<T>)
    ensures
        r@ == items@,
{
    let mut rest = items;
    let mut out: VecDeque<T> = VecDeque::new();
    let ghost all = rest@;
    while rest.len() > 0
        invariant
            rest@ + out@ == all,
        decreases rest.len(),
    {
        let ghost r0 = rest@;
        let ghost o0 = out@;
        match rest.pop() {
            Some(item) => {
                out.push_front(item);
                assert(rest@ + out@ =~= r0 + o0);
            },
            None => {},
        }
    }
    assert(out@ =~= all);
    out
}

// ---------------------------------------------------------------------------
// All collectors
// ---------------------------------------------------------------------------

/// Something that has a `T`.
pub trait Param<T> {
    /// The `T` that it has.
    spec fn held(&self) -> T;

    /// The `T` that it has.
    fn get(&self) -> (r: &T)
        ensures
            *r == self.held(),
    ;
}

/// The collectors, one for each site.
#[derive(Debug)]
pub struct Registry {
    pub eh: EHCollector,
    pub ex: EXCollector,
    pub pixiv: PixivCollector,
}

impl Param<EHCollector> for Registry {
    open spec fn held(&self) -> EHCollector {
        self.eh
    }

    fn get(&self) -> (r: &EHCollector) {
        &self.eh
    }
}

impl Param<EXCollector> for Registry {
    open spec fn held(&self) -> EXCollector {
        self.ex
    }

    fn get(&self) -> (r: &EXCollector) {
        &self.ex
    }
}

impl Param<PixivCollector> for Registry {
    open spec fn held(&self) -> PixivCollector {
        self.pixiv
    }

    fn get(&self) -> (r: &PixivCollector) {
        &self.pixiv
    }
}

impl Registry {
    /// The collectors for what stands in the configuration: all of them, or the reason why the
    /// first of them that fails cannot be built.
    pub fn new_from_config(ex: Option<ExConfig>, pixiv: Option<PixivConfig>) -> (r: Result<
        Self,
        Error,
    >)
        ensures
            match r {
                Ok(all) => {
                    &&& header_entries(all.eh.headers) == no_headers().insert(
                        "cookie"@,
                        e_hentai::COOKIE_NW@,
                    )
                    &&& all.eh.cf_resolve@ == e_hentai::HOST@
                    &&& EXCollector::built_from(ex, Ok(all.ex))
                    &&& PixivCollector::built_from(pixiv, Ok(all.pixiv))
                },
                Err(e) => if EXCollector::buildable(ex) {
                    PixivCollector::built_from(pixiv, Err(e))
                } else {
                    EXCollector::built_from(ex, Err(e))
                },
            },
    {
        let eh = EHCollector::new();
        let ex = match EXCollector::new_from_config(ex) {
            Ok(c) => c,
            Err(e) => {
                return Err(e);
            },
        };
        let pixiv = match PixivCollector::new_from_config(pixiv) {
            Ok(c) => c,
            Err(e) => {
                return Err(e);
            },
        };
        Ok(Registry { eh, ex, pixiv })
    }
}

} // verus!
