//! e-hentai collector, for the host e-hentai.org.

use crate::collector::{
    collect_links, links_of, queue_of, stands_in, AlbumMeta, AlbumView, Collector, ImageMeta,
    ImageView, Loaded,
};
use crate::error::{error, Error};
use crate::outside::{
    first_group, header_entries, new_headers, no_headers, regex_first_group, set_header, Headers,
};
use crate::stream::AsyncStream;
use crate::text::{
    has_text, is_at, joined, pieces, pieces_joined, pieces_of_plain, pieces_of_sum, same, split, texts,
    trim_matches, trimmed_of, trimming_takes_only, white_space, without_start,
};
use std::collections::VecDeque;
use vstd::prelude::*;
use vstd::string::*;

verus! {

/// The host of the site.
pub const HOST: &'static str = "e-hentai.org";

/// The cookie that skips the content warning.
pub const COOKIE_NW: &'static str = "nw=1";

/// A link to the page of an image, in the page of a gallery.
pub const PAGE_RE: &'static str = r#"<a\s+href="(https://e-hentai\.org/s/[^"]+)""#;

/// The address of the image, in the page of an image.
pub const IMG_RE: &'static str = r#"<img\s+id="img"\s+src="([^"]+)""#;

/// The title of a gallery.
pub const TITLE_RE: &'static str = r#"<h1\s+id="gn">(.*?)</h1>"#;

/// The gallery that a path names: `g`, an id and a token, and nothing else.
pub open spec fn gallery_of(path: Seq<char>) -> Option<(Seq<char>, Seq<char>)> {
    let p = pieces(trimmed_of(path, '/'), '/');
    if p.len() == 3 && p[0] == "g"@ && p[1].len() > 0 && p[2].len() > 0 {
        Some((p[1], p[2]))
    } else {
        None
    }
}

/// What is said of a path that names no gallery.
pub open spec fn bad_path(path: Seq<char>) -> Seq<char> {
    "invalid input path("@ + path
        + "), gallery url is expected, like https://e-hentai.org/g/2127986/da1deffea5"@
}

/// Reads the path of a gallery.
pub fn parse_gallery_path(path: &str) -> (r: Result<(String, String), Error>)
    ensures
        match r {
            Ok((id, token)) => gallery_of(path@) == Some((id@, token@)),
            Err(e) => gallery_of(path@) is None && e@ == bad_path(path@),
        },
{
    let parts = split(trim_matches(path, '/'), '/');
    let ghost p = texts(parts@);
    if parts.len() == 3 && same(parts[0].as_str(), "g") && !parts[1].as_str().is_empty()
        && !parts[2].as_str().is_empty() {
        assert(p[0] == parts@[0]@ && p[1] == parts@[1]@ && p[2] == parts@[2]@);
        return Ok((parts[1].clone(), parts[2].clone()));
    }
    assert(p.len() == 3 ==> p[0] == parts@[0]@ && p[1] == parts@[1]@ && p[2] == parts@[2]@);
    let mut message = "invalid input path(".to_owned();
    message.append(path);
    message.append("), gallery url is expected, like https://e-hentai.org/g/2127986/da1deffea5");
    Err(error(message))
}

/// White space, at least one character of it.
pub open spec fn some_space(s: Seq<char>) -> bool {
    s.len() > 0 && forall|i: int| 0 <= i < s.len() ==> white_space(#[trigger] s[i])
}

/// `link` leads to the page of an image: it goes on behind the address that all of these have, and
/// it holds no quotation mark. In the text it stands as the address of an `<a>` tag.
pub open spec fn image_page_link(text: Seq<char>, link: Seq<char>) -> bool {
    &&& is_at(link, "https://e-hentai.org/s/"@, 0)
    &&& link.len() > "https://e-hentai.org/s/"@.len()
    &&& !link.contains('"')
    &&& exists|space: Seq<char>| #[trigger]
        some_space(space) && has_text(text, "<a"@ + space + "href=\""@ + link + "\""@)
}

/// The link is one of those to the pages of images in one of the pages of a gallery.
pub open spec fn links_from(pages: Seq<Seq<char>>, link: Seq<char>) -> bool {
    exists|p: int| 0 <= p < pages.len() && image_page_link(#[trigger] pages[p], link)
}

/// The links to the pages of the images of a gallery, in order.
pub fn collect_image_page_links(gallery_pages: &Vec<String>) -> (r: Vec<String>)
    ensures
        texts(r@) == links_of(PAGE_RE@, texts(gallery_pages@)),
        forall|i: int| 0 <= i < r.len() ==> links_from(texts(gallery_pages@), (#[trigger] r@[i])@),
{
    let links = collect_links(PAGE_RE, gallery_pages);
    assert forall|i: int| 0 <= i < links.len() implies links_from(
        texts(gallery_pages@),
        (#[trigger] links@[i])@,
    ) by {
        assert(stands_in(PAGE_RE@, texts(gallery_pages@), links@[i]@));
    }
    links
}

/// A path that is written from an id and a token is read back as these, where neither is empty
/// and neither holds a slash; and every path that is read gives such an id and such a token.
pub proof fn gallery_path_round_trip(path: Seq<char>, id: Seq<char>, token: Seq<char>)
    ensures
        id.len() > 0 && token.len() > 0 && !id.contains('/') && !token.contains('/')
            ==> gallery_of("/g/"@ + id + "/"@ + token) == Some((id, token)),
        gallery_of(path) matches Some((i, t)) ==> i.len() > 0 && t.len() > 0 && !i.contains('/')
            && !t.contains('/'),
{
    pieces_joined(trimmed_of(path, '/'), '/');
    if id.len() > 0 && token.len() > 0 && !id.contains('/') && !token.contains('/') {
        let whole = "/g/"@ + id + "/"@ + token;
        reveal_strlit("/g/");
        reveal_strlit("/");
        reveal_strlit("g");
        let inner = "g"@ + seq!['/'] + id + seq!['/'] + token;
        assert(whole.skip(1) =~= inner);
        assert(whole[0] == '/');
        assert(inner[0] == 'g');
        assert(without_start(inner, Some('/')) == inner);
        assert(without_start(whole, Some('/')) == inner);
        assert(inner.last() == token.last());
        assert(token.contains(token.last()));
        assert(trimmed_of(whole, '/') == inner);
        pieces_of_plain("g"@, '/');
        pieces_of_sum("g"@, id, '/');
        pieces_of_sum("g"@ + seq!['/'] + id, token, '/');
    }
}

/// Slashes before and behind the path of a gallery make no difference, however many they are. What is
/// read as the path of a gallery is `g`, the id and the token, with slashes between them, and nothing but
/// slashes before `r.0` and from `r.1` on.
pub proof fn slashes_around_paths_do_not_count(
    path: Seq<char>,
    front: Seq<char>,
    id: Seq<char>,
    token: Seq<char>,
    back: Seq<char>,
) -> (r: (int, int))
    ensures
        gallery_of(path) matches Some((i, t)) ==> 0 <= r.0 <= r.1 <= path.len() && path.subrange(
            r.0,
            r.1,
        ) == "g/"@ + i + "/"@ + t && (forall|k: int| 0 <= k < r.0 ==> #[trigger] path[k] == '/') && (
        forall|k: int| r.1 <= k < path.len() ==> #[trigger] path[k] == '/'),
        id.len() > 0 && token.len() > 0 && !id.contains('/') && !token.contains('/') && (forall|k: int|
            0 <= k < front.len() ==> #[trigger] front[k] == '/') && (forall|k: int|
            0 <= k < back.len() ==> #[trigger] back[k] == '/') ==> gallery_of(
            front + "g/"@ + id + "/"@ + token + back,
        ) == Some((id, token)),
{
    reveal_strlit("g/");
    reveal_strlit("g");
    reveal_strlit("/");
    let inner = "g"@ + seq!['/'] + id + seq!['/'] + token;
    let whole = front + "g/"@ + id + "/"@ + token + back;
    if id.len() > 0 && token.len() > 0 && !id.contains('/') && !token.contains('/') && (forall|k: int|
        0 <= k < front.len() ==> #[trigger] front[k] == '/') && (forall|k: int|
        0 <= k < back.len() ==> #[trigger] back[k] == '/') {
        slashes_come_off(front, inner, back);
        assert(whole =~= front + inner + back);
        pieces_of_plain("g"@, '/');
        pieces_of_sum("g"@, id, '/');
        pieces_of_sum("g"@ + seq!['/'] + id, token, '/');
    }
    let r = trimming_takes_only(path, '/');
    let p = pieces(trimmed_of(path, '/'), '/');
    pieces_joined(trimmed_of(path, '/'), '/');
    if gallery_of(path) is Some {
        reveal_with_fuel(joined, 3);
        assert(p.drop_last().drop_last() =~= seq![p[0]]);
        assert(p.drop_last().last() == p[1]);
        assert(path.subrange(r.0, r.1) =~= "g/"@ + p[1] + "/"@ + p[2]);
    }
    r
}

/// Where slashes stand around a text that neither begins nor ends with one, taking them away leaves the
/// text.
pub proof fn slashes_come_off(front: Seq<char>, inner: Seq<char>, back: Seq<char>)
    requires
        inner.len() > 0,
        inner[0] != '/',
        inner.last() != '/',
        forall|k: int| 0 <= k < front.len() ==> #[trigger] front[k] == '/',
        forall|k: int| 0 <= k < back.len() ==> #[trigger] back[k] == '/',
    ensures
        trimmed_of(front + inner + back, '/') == inner,
{
    let s = front + inner + back;
    let r = trimming_takes_only(s, '/');
    let a = front.len() as int;
    let b = (front.len() + inner.len()) as int;
    assert(s[a] == inner[0]);
    assert(s[b - 1] == inner.last());
    if r.0 < a {
        assert(s[r.0] == front[r.0]);
    }
    if r.1 > b {
        assert(s[r.1 - 1] == back[r.1 - 1 - b]);
    }
    assert(s.subrange(a, b) =~= inner);
}

/// What a gallery without a title is called.
pub open spec fn untitled(id: Seq<char>) -> Seq<char> {
    "e-hentai-"@ + id
}

/// The address of a gallery.
pub open spec fn gallery_url(id: Seq<char>, token: Seq<char>) -> Seq<char> {
    "https://e-hentai.org/g/"@ + id + "/"@ + token
}

/// A gallery of the site, by its id and its token.
#[derive(Debug)]
pub struct EHGallery {
    pub album_id: String,
    pub album_token: String,
}

impl EHGallery {
    /// The address of the gallery.
    pub fn url(&self) -> (r: String)
        ensures
            r@ == gallery_url(self.album_id@, self.album_token@),
    {
        let mut out = "https://e-hentai.org/g/".to_owned();
        out.append(self.album_id.as_str());
        out.append("/");
        out.append(self.album_token.as_str());
        out
    }
}

/// The album of a gallery with the given title, if it has one.
pub open spec fn album_of(id: Seq<char>, token: Seq<char>, title: Option<Seq<char>>) -> AlbumView {
    AlbumView {
        link: gallery_url(id, token),
        name: match title {
            Some(t) => t,
            None => untitled(id),
        },
        class: None,
        description: None,
        authors: None,
        tags: None,
    }
}

/// The album, and the pages of its images: an error where there is no image.
pub fn assemble(gallery: &EHGallery, title: Option<&str>, links: Vec<String>) -> (r: Result<
    (AlbumMeta, EHImageStream),
    Error,
>)
    ensures
        match r {
            Ok((album, stream)) => links.len() > 0 && album@ == album_of(
                gallery.album_id@,
                gallery.album_token@,
                title.deep_view(),
            ) && stream.pending() == links@,
            Err(e) => links.len() == 0 && e@ == "invalid url, maybe resource has been deleted"@,
        },
{
    if links.len() == 0 {
        return Err(error("invalid url, maybe resource has been deleted".to_owned()));
    }
    let name = match title {
        Some(t) => t.to_owned(),
        None => {
            let mut n = "e-hentai-".to_owned();
            n.append(gallery.album_id.as_str());
            n
        },
    };
    let album = AlbumMeta {
        link: gallery.url(),
        name,
        class: None,
        description: None,
        authors: None,
        tags: None,
    };
    Ok((album, EHImageStream { image_page_links: queue_of(links) }))
}

/// The requests to the site carry these headers, and go to these hosts by the addresses of its
/// delivery network.
#[derive(Debug)]
pub struct EHCollector {
    pub headers: Headers,
    pub cf_resolve: &'static str,
}

impl EHCollector {
    /// A collector for the site.
    pub fn new() -> (r: Self)
        ensures
            header_entries(r.headers) == no_headers().insert("cookie"@, COOKIE_NW@),
            r.cf_resolve@ == HOST@,
    {
        let mut headers = new_headers();
        proof {
            reveal_strlit("cookie");
            reveal_strlit("nw=1");
        }
        let _ = set_header(&mut headers, "cookie", COOKIE_NW);
        EHCollector { headers, cf_resolve: HOST }
    }

    /// A collector for what stands in the configuration: the site needs nothing of it.
    pub fn new_from_config() -> (r: Result<Self, Error>)
        ensures
            r matches Ok(c) && header_entries(c.headers) == no_headers().insert(
                "cookie"@,
                COOKIE_NW@,
            ) && c.cf_resolve@ == HOST@,
    {
        Ok(EHCollector::new())
    }
}

impl Collector for EHCollector {
    type Location = EHGallery;

    type Reply = Loaded<Vec<String>>;

    type ImageStream = EHImageStream;

    open spec fn spec_name() -> Seq<char> {
        "e-hentai"@
    }

    open spec fn locates(&self, path: Seq<char>, r: Result<EHGallery, Error>) -> bool {
        match r {
            Ok(g) => gallery_of(path) == Some((g.album_id@, g.album_token@)),
            Err(e) => gallery_of(path) is None && e@ == bad_path(path),
        }
    }

    open spec fn fetches(
        &self,
        gallery: EHGallery,
        reply: Loaded<Vec<String>>,
        r: Result<(AlbumMeta, EHImageStream), Error>,
    ) -> bool {
        match reply {
            Loaded::TimedOut => r matches Err(e) && e@ == "e-hentai gallery page request timed out"@,
            Loaded::Failed(cause) => r == Err::<(AlbumMeta, EHImageStream), Error>(cause),
            Loaded::Done(pages) => {
                let links = links_of(PAGE_RE@, texts(pages@));
                match r {
                    Ok((album, stream)) => {
                        &&& pages.len() > 0
                        &&& links.len() > 0
                        &&& album@ == album_of(
                            gallery.album_id@,
                            gallery.album_token@,
                            regex_first_group(TITLE_RE@, pages@[0]@),
                        )
                        &&& texts(stream.pending()) == links
                    },
                    Err(e) => {
                        ||| pages.len() == 0 && e@ == "empty gallery page response"@
                        ||| pages.len() > 0 && links.len() == 0 && e@
                            == "invalid url, maybe resource has been deleted"@
                    },
                }
            },
        }
    }

    fn name() -> &'static str {
        "e-hentai"
    }

    fn locate(&self, path: &str) -> (r: Result<EHGallery, Error>) {
        match parse_gallery_path(path) {
            Ok((album_id, album_token)) => Ok(EHGallery { album_id, album_token }),
            Err(e) => Err(e),
        }
    }

    fn fetch(&self, gallery: EHGallery, reply: Loaded<Vec<String>>) -> (r: Result<
        (AlbumMeta, EHImageStream),
        Error,
    >) {
        let pages = match reply {
            Loaded::Done(pages) => pages,
            Loaded::TimedOut => {
                return Err(error("e-hentai gallery page request timed out".to_owned()));
            },
            Loaded::Failed(cause) => {
                return Err(cause);
            },
        };
        if pages.len() == 0 {
            return Err(error("empty gallery page response".to_owned()));
        }
        let title = first_group(TITLE_RE, pages[0].as_str());
        let links = collect_image_page_links(&pages);
        assert(texts(links@).len() == links.len());
        assemble(&gallery, title, links)
    }
}

/// A path is located exactly where it names a gallery, and what is located is that gallery. Requests carry
/// the cookie that skips the content warning and go to the host of the site; links, images and titles are
/// looked for in pages by these patterns.
pub proof fn paths_are_located(c: EHCollector, path: Seq<char>, r: Result<EHGallery, Error>)
    requires
        c.locates(path, r),
    ensures
        r is Ok <==> gallery_of(path) is Some,
        r matches Ok(g) ==> gallery_of(path) == Some((g.album_id@, g.album_token@)),
        r matches Err(e) ==> e@ == "invalid input path("@ + path
            + "), gallery url is expected, like https://e-hentai.org/g/2127986/da1deffea5"@,
        EHCollector::spec_name() == "e-hentai"@,
        HOST@ == "e-hentai.org"@,
        COOKIE_NW@ == "nw=1"@,
        PAGE_RE@ == r#"<a\s+href="(https://e-hentai\.org/s/[^"]+)""#@,
        IMG_RE@ == r#"<img\s+id="img"\s+src="([^"]+)""#@,
        TITLE_RE@ == r#"<h1\s+id="gn">(.*?)</h1>"#@,
{
}

/// What is read of a gallery, of which some pages came: its images are behind all the links of all its
/// pages, in their order; its name is the title in its first page, or one made of its id; and it leads
/// back to the gallery. Nothing is read exactly where there is no page, or no link in the pages.
pub proof fn galleries_are_read_whole(
    c: EHCollector,
    g: EHGallery,
    pages: Vec<String>,
    r: Result<(AlbumMeta, EHImageStream), Error>,
)
    requires
        c.fetches(g, Loaded::Done(pages), r),
    ensures
        r is Ok <==> pages.len() > 0 && links_of(PAGE_RE@, texts(pages@)).len() > 0,
        r matches Ok((album, stream)) ==> {
            &&& texts(stream.pending()) == links_of(PAGE_RE@, texts(pages@))
            &&& album@.link == "https://e-hentai.org/g/"@ + g.album_id@ + "/"@ + g.album_token@
            &&& regex_first_group(TITLE_RE@, pages@[0]@) matches Some(title) ==> album@.name == title
            &&& regex_first_group(TITLE_RE@, pages@[0]@) is None ==> album@.name == "e-hentai-"@
                + g.album_id@
            &&& album@.class is None && album@.description is None && album@.authors is None
                && album@.tags is None
        },
        r matches Err(e) ==> e@ == (if pages.len() == 0 {
            "empty gallery page response"@
        } else {
            "invalid url, maybe resource has been deleted"@
        }),
{
}

/// The pages of the images of a gallery, of which each is still to be loaded.
#[derive(Debug)]
pub struct EHImageStream {
    image_page_links: VecDeque<String>,
}

impl AsyncStream for EHImageStream {
    type Item = Result<ImageMeta, Error>;

    type Future = String;

    closed spec fn pending(&self) -> Seq<String> {
        self.image_page_links@
    }

    fn next(&mut self) -> (r: Option<String>) {
        let ghost before = self.image_page_links@;
        let r = self.image_page_links.pop_front();
        assert(before.len() > 0 ==> self.image_page_links@ =~= before.skip(1));
        r
    }

    fn size_hint(&self) -> (r: (usize, Option<usize>))
        ensures
            r == (self.pending().len() as usize, Some(self.pending().len() as usize)),
    {
        let n = self.image_page_links.len();
        (n, Some(n))
    }
}

impl EHImageStream {
    /// The image of a page, where the address of the image was found in it.
    pub fn image_at(image_page_link: String, found: Option<&str>) -> (r: Result<ImageMeta, Error>)
        ensures
            match (found, r) {
                (Some(url), Ok(image)) => image@ == (ImageView {
                    id: image_page_link@,
                    url: url@,
                    description: None,
                }),
                (None, Err(e)) => e@ == "unable to find image in page: "@ + image_page_link@,
                _ => false,
            },
    {
        match found {
            Some(url) => Ok(
                ImageMeta { id: image_page_link, url: url.to_owned(), description: None },
            ),
            None => {
                let mut message = "unable to find image in page: ".to_owned();
                message.append(image_page_link.as_str());
                Err(error(message))
            },
        }
    }

    /// Reads the page of an image.
    pub fn load_image(image_page_link: String, page: Loaded<String>) -> (r: Result<
        ImageMeta,
        Error,
    >)
        ensures
            match page {
                Loaded::TimedOut => r matches Err(e) && e@
                    == "e-hentai image page request timed out: "@ + image_page_link@,
                Loaded::Failed(cause) => r == Err::<ImageMeta, Error>(cause),
                Loaded::Done(content) => match (regex_first_group(IMG_RE@, content@), r) {
                    (Some(url), Ok(image)) => image@ == (ImageView {
                        id: image_page_link@,
                        url,
                        description: None,
                    }),
                    (None, Err(e)) => e@ == "unable to find image in page: "@ + image_page_link@,
                    _ => false,
                },
            },
    {
        match page {
            Loaded::Done(content) => EHImageStream::image_at(
                image_page_link,
                first_group(IMG_RE, content.as_str()),
            ),
            Loaded::TimedOut => {
                let mut message = "e-hentai image page request timed out: ".to_owned();
                message.append(image_page_link.as_str());
                Err(error(message))
            },
            Loaded::Failed(cause) => Err(cause),
        }
    }
}

} // verus!
