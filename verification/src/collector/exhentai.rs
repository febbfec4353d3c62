//! exhentai collector, for the host exhentai.org.

use crate::collector::e_hentai;
use crate::collector::{
    collect_links, links_of, queue_of, AlbumMeta, AlbumView, Collector, ImageMeta, ImageView,
};
use crate::error::{error, Error};
use crate::outside::{
    first_group, header_entries, header_text, new_headers, no_headers, regex_first_group,
    set_header, Headers,
};
use crate::stream::AsyncStream;
use crate::text::{
    is_at, joined, joining_puts_separators_between, pieces, pieces_joined, pieces_of_plain,
    pieces_of_sum, pieces_of_two, same, split, texts, trim_matches, trimmed_of, trimming_takes_only,
};
use std::collections::VecDeque;
use vstd::prelude::*;
use vstd::string::*;

verus! {

/// A link to the page of an image, in the page of a gallery.
pub const PAGE_RE: &'static str = r#"<a href="(https://exhentai\.org/s/\w+/[\w-]+)">"#;

/// The address of the image, in the page of an image.
pub const IMG_RE: &'static str = r#"<img id="img" src="([^"]+)""#;

/// The title of a gallery.
pub const TITLE_RE: &'static str = r#"<h1 id="gn">(.*?)</h1>"#;

/// The cookies of an account that may see the site.
#[derive(Debug)]
pub struct ExConfig {
    pub ipb_pass_hash: String,
    pub ipb_member_id: String,
    pub igneous: String,
}

/// The cookie header of an account.
pub open spec fn cookie(pass_hash: Seq<char>, member_id: Seq<char>, igneous: Seq<char>) -> Seq<
    char,
> {
    "ipb_pass_hash="@ + pass_hash + ";ipb_member_id="@ + member_id + ";igneous="@ + igneous
        + ";nw=1"@
}

impl ExConfig {
    /// The cookie header of this account.
    pub open spec fn spec_cookie(&self) -> Seq<char> {
        cookie(self.ipb_pass_hash@, self.ipb_member_id@, self.igneous@)
    }

    /// The headers that the requests carry: the cookies of the account.
    pub fn build_header(&self) -> (r: Result<Headers, Error>)
        ensures
            match r {
                Ok(headers) => header_text(self.spec_cookie()) && header_entries(headers)
                    == no_headers().insert("cookie"@, self.spec_cookie()),
                Err(e) => !header_text(self.spec_cookie()) && e@
                    == "invalid exhentai cookie header"@,
            },
    {
        let mut value = "ipb_pass_hash=".to_owned();
        value.append(self.ipb_pass_hash.as_str());
        value.append(";ipb_member_id=");
        value.append(self.ipb_member_id.as_str());
        value.append(";igneous=");
        value.append(self.igneous.as_str());
        value.append(";nw=1");
        let mut headers = new_headers();
        proof {
            reveal_strlit("cookie");
        }
        match set_header(&mut headers, "cookie", value.as_str()) {
            Ok(_) => Ok(headers),
            Err(_) => Err(error("invalid exhentai cookie header".to_owned())),
        }
    }
}

/// The cookies of an account, one behind the other, and the one that skips the content warning.
pub proof fn cookies_name_the_account(pass_hash: Seq<char>, member_id: Seq<char>, igneous: Seq<char>)
    ensures
        cookie(pass_hash, member_id, igneous) == "ipb_pass_hash="@ + pass_hash + ";ipb_member_id="@
            + member_id + ";igneous="@ + igneous + ";nw=1"@,
{
}

/// The gallery that a path names: `g`, an id and a token, and whatever follows.
pub open spec fn gallery_of(path: Seq<char>) -> Option<(Seq<char>, Seq<char>)> {
    let p = pieces(trimmed_of(path, '/'), '/');
    if p.len() >= 3 && p[0] == "g"@ && p[1].len() > 0 && p[2].len() > 0 {
        Some((p[1], p[2]))
    } else {
        None
    }
}

/// What is said of a path that names no gallery.
pub open spec fn bad_path(path: Seq<char>) -> Seq<char> {
    "invalid input path("@ + path
        + "), gallery url is expected, like https://exhentai.org/g/2129939/01a6e086b9"@
}

/// A path that is written from an id and a token is read back as these, where neither is empty and
/// neither holds a slash. Where e-hentai reads a path, exhentai reads the same gallery from it.
pub proof fn gallery_path_round_trip(path: Seq<char>, id: Seq<char>, token: Seq<char>)
    ensures
        id.len() > 0 && token.len() > 0 && !id.contains('/') && !token.contains('/')
            ==> gallery_of("/g/"@ + id + "/"@ + token) == Some((id, token)),
        e_hentai::gallery_of(path) is Some ==> gallery_of(path) == e_hentai::gallery_of(path),
{
    e_hentai::gallery_path_round_trip(path, id, token);
}

/// Slashes before and behind the path of a gallery make no difference, and neither does what follows the
/// token behind a slash. What is read as the path of a gallery begins, but for slashes, with `g`, the id
/// and the token.
pub proof fn longer_paths_are_read(
    path: Seq<char>,
    front: Seq<char>,
    id: Seq<char>,
    token: Seq<char>,
    rest: Seq<char>,
) -> (start: int)
    ensures
        gallery_of(path) matches Some((i, t)) ==> 0 <= start <= path.len() && (forall|k: int|
            0 <= k < start ==> #[trigger] path[k] == '/') && is_at(path, "g/"@ + i + "/"@ + t, start)
            && i.len() > 0 && t.len() > 0 && !i.contains('/') && !t.contains('/'),
        id.len() > 0 && token.len() > 0 && !id.contains('/') && !token.contains('/') && (forall|k: int|
            0 <= k < front.len() ==> #[trigger] front[k] == '/') ==> gallery_of(
            front + "g/"@ + id + "/"@ + token,
        ) == Some((id, token)) && gallery_of(front + "g/"@ + id + "/"@ + token + "/"@ + rest) == Some(
            (id, token),
        ),
{
    reveal_strlit("g/");
    reveal_strlit("g");
    reveal_strlit("/");
    let inner = "g"@ + seq!['/'] + id + seq!['/'] + token;
    let none: Seq<char> = Seq::empty();
    if id.len() > 0 && token.len() > 0 && !id.contains('/') && !token.contains('/') && (forall|k: int|
        0 <= k < front.len() ==> #[trigger] front[k] == '/') {
        pieces_of_plain("g"@, '/');
        pieces_of_sum("g"@, id, '/');
        pieces_of_sum("g"@ + seq!['/'] + id, token, '/');
        let three = seq!["g"@].push(id).push(token);
        assert(pieces(inner, '/') == three);
        e_hentai::slashes_come_off(front, inner, none);
        assert(front + "g/"@ + id + "/"@ + token =~= front + inner + none);
        let s = front + "g/"@ + id + "/"@ + token + "/"@ + rest;
        assert(s =~= front + inner + seq!['/'] + rest);
        let a = front.len() as int;
        let b = (front.len() + inner.len()) as int;
        let r = trimming_takes_only(s, '/');
        assert(s[a] == inner[0]);
        assert(s[b - 1] == inner.last());
        assert(token.contains(token.last()));
        if r.0 < a {
            assert(s[r.0] == front[r.0]);
        }
        let t = trimmed_of(s, '/');
        if r.1 == b {
            assert(t =~= inner);
        } else {
            let y = s.subrange(b + 1, r.1);
            assert(t =~= inner + seq!['/'] + y);
            pieces_of_two(inner, y, '/');
        }
    }
    let r = trimming_takes_only(path, '/');
    let t = trimmed_of(path, '/');
    let p = pieces(t, '/');
    pieces_joined(t, '/');
    if gallery_of(path) is Some {
        let three = p.take(3);
        let more = p.skip(3);
        assert(three + more =~= p);
        joining_puts_separators_between(three, more, seq!['/'], none);
        reveal_with_fuel(joined, 3);
        assert(three.drop_last().drop_last() =~= seq![p[0]]);
        assert(three.drop_last().last() == p[1]);
        let begin = "g/"@ + p[1] + "/"@ + p[2];
        assert(joined(three, seq!['/']) =~= begin);
        if more.len() == 0 {
            assert(three =~= p);
        }
        assert(t.subrange(0, begin.len() as int) =~= begin);
        assert(path.subrange(r.0, r.0 + begin.len()) =~= t.subrange(0, begin.len() as int));
    }
    r.0
}

/// A gallery of the site, by its id and its token.
#[derive(Debug, Clone)]
pub struct GalleryPath {
    pub album_id: String,
    pub album_token: String,
}

/// The address of a gallery.
pub open spec fn url_of(id: Seq<char>, token: Seq<char>) -> Seq<char> {
    "https://exhentai.org/g/"@ + id + "/"@ + token
}

impl GalleryPath {
    /// Reads the path of a gallery.
    pub fn parse(path: &str) -> (r: Result<Self, Error>)
        ensures
            match r {
                Ok(g) => gallery_of(path@) == Some((g.album_id@, g.album_token@)),
                Err(e) => gallery_of(path@) is None && e@ == bad_path(path@),
            },
    {
        let parts = split(trim_matches(path, '/'), '/');
        let ghost p = texts(parts@);
        assert(p.len() >= 3 ==> p[0] == parts@[0]@ && p[1] == parts@[1]@ && p[2] == parts@[2]@);
        if parts.len() >= 3 && same(parts[0].as_str(), "g") && !parts[1].as_str().is_empty()
            && !parts[2].as_str().is_empty() {
            return Ok(GalleryPath { album_id: parts[1].clone(), album_token: parts[2].clone() });
        }
        let mut message = "invalid input path(".to_owned();
        message.append(path);
        message.append("), gallery url is expected, like https://exhentai.org/g/2129939/01a6e086b9");
        Err(error(message))
    }

    /// The address of the gallery.
    pub fn gallery_url(&self) -> (r: String)
        ensures
            r@ == url_of(self.album_id@, self.album_token@),
    {
        let mut out = "https://exhentai.org/g/".to_owned();
        out.append(self.album_id.as_str());
        out.append("/");
        out.append(self.album_token.as_str());
        out
    }

    /// The id and the token, for the log.
    pub fn display_key(&self) -> (r: String)
        ensures
            r@ == self.album_id@ + "/"@ + self.album_token@,
    {
        let mut out = self.album_id.clone();
        out.append("/");
        out.append(self.album_token.as_str());
        out
    }
}

/// The requests to the site carry these headers. `cf_resolve` would name a host that is reached by
/// the addresses of a delivery network: the site uses none, so nothing is forced.
#[derive(Debug)]
pub struct EXCollector {
    pub headers: Headers,
    pub cf_resolve: Option<&'static str>,
}

impl EXCollector {
    /// A collector that acts for the given account, or the reason why there is none.
    pub open spec fn built_for(config: ExConfig, r: Result<Self, Error>) -> bool {
        match r {
            Ok(c) => header_text(config.spec_cookie()) && header_entries(c.headers)
                == no_headers().insert("cookie"@, config.spec_cookie()) && c.cf_resolve is None,
            Err(e) => !header_text(config.spec_cookie()) && e@ == "invalid exhentai cookie header"@,
        }
    }

    /// Whether there is a collector for what stands in the configuration.
    pub open spec fn buildable(config: Option<ExConfig>) -> bool {
        config matches Some(x) && header_text(x.spec_cookie())
    }

    /// A collector for what stands in the configuration, or the reason why there is none.
    pub open spec fn built_from(config: Option<ExConfig>, r: Result<Self, Error>) -> bool {
        match config {
            Some(x) => Self::built_for(x, r),
            None => r matches Err(e) && e@ == "exhentai config(key: exhentai) not found"@,
        }
    }

    /// A collector that acts for the given account.
    pub fn new(config: &ExConfig) -> (r: Result<Self, Error>)
        ensures
            Self::built_for(*config, r),
    {
        match config.build_header() {
            Ok(headers) => Ok(EXCollector { headers, cf_resolve: None }),
            Err(e) => Err(e),
        }
    }

    /// A collector for what stands in the configuration.
    pub fn new_from_config(config: Option<ExConfig>) -> (r: Result<Self, Error>)
        ensures
            Self::built_from(config, r),
    {
        match config {
            Some(x) => EXCollector::new(&x),
            None => Err(error("exhentai config(key: exhentai) not found".to_owned())),
        }
    }
}

/// A collector is built exactly where an account is configured whose cookies a header can hold. It sends
/// those cookies and nothing else, and forces no addresses; else it is said what is missing.
pub proof fn collectors_act_for_their_account(config: Option<ExConfig>, r: Result<EXCollector, Error>)
    requires
        EXCollector::built_from(config, r),
    ensures
        config is None ==> (r matches Err(e) && e@ == "exhentai config(key: exhentai) not found"@),
        config matches Some(x) ==> {
            let cookies = "ipb_pass_hash="@ + x.ipb_pass_hash@ + ";ipb_member_id="@ + x.ipb_member_id@
                + ";igneous="@ + x.igneous@ + ";nw=1"@;
            &&& r is Ok <==> header_text(cookies)
            &&& r matches Ok(c) ==> header_entries(c.headers) == Map::<Seq<char>, Seq<char>>::empty().insert(
                "cookie"@,
                cookies,
            ) && c.cf_resolve is None
            &&& r matches Err(e) ==> e@ == "invalid exhentai cookie header"@
        },
        r is Ok <==> EXCollector::buildable(config),
{
}

/// The album of a gallery with the given title, if it has one.
pub open spec fn album_of(id: Seq<char>, token: Seq<char>, title: Option<Seq<char>>) -> AlbumView {
    AlbumView {
        link: url_of(id, token),
        name: match title {
            Some(t) => t,
            None => "exhentai-"@ + id,
        },
        class: None,
        description: None,
        authors: None,
        tags: None,
    }
}

/// What is said of a gallery in which no image was found.
pub open spec fn no_links() -> Seq<char> {
    "no image page links found; resource may be deleted, unavailable, or blocked"@
}

/// The album, and the pages of its images: an error where there is no image.
pub fn assemble(gallery: &GalleryPath, title: Option<&str>, links: Vec<String>) -> (r: Result<
    (AlbumMeta, EXImageStream),
    Error,
>)
    ensures
        match r {
            Ok((album, stream)) => links.len() > 0 && album@ == album_of(
                gallery.album_id@,
                gallery.album_token@,
                title.deep_view(),
            ) && stream.pending() == links@,
            Err(e) => links.len() == 0 && e@ == no_links(),
        },
{
    if links.len() == 0 {
        return Err(
            error(
                "no image page links found; resource may be deleted, unavailable, or blocked".to_owned(),
            ),
        );
    }
    let name = match title {
        Some(t) => t.to_owned(),
        None => {
            let mut n = "exhentai-".to_owned();
            n.append(gallery.album_id.as_str());
            n
        },
    };
    let album = AlbumMeta {
        link: gallery.gallery_url(),
        name,
        class: None,
        description: None,
        authors: None,
        tags: None,
    };
    Ok((album, EXImageStream { image_page_links: queue_of(links) }))
}

impl Collector for EXCollector {
    type Location = GalleryPath;

    type Reply = Result<Vec<String>, Error>;

    type ImageStream = EXImageStream;

    open spec fn spec_name() -> Seq<char> {
        "exhentai"@
    }

    open spec fn locates(&self, path: Seq<char>, r: Result<GalleryPath, Error>) -> bool {
        match r {
            Ok(g) => gallery_of(path) == Some((g.album_id@, g.album_token@)),
            Err(e) => gallery_of(path) is None && e@ == bad_path(path),
        }
    }

    open spec fn fetches(
        &self,
        gallery: GalleryPath,
        reply: Result<Vec<String>, Error>,
        r: Result<(AlbumMeta, EXImageStream), Error>,
    ) -> bool {
        let url = url_of(gallery.album_id@, gallery.album_token@);
        match reply {
            Err(_) => r matches Err(e) && e@ == "[exhentai] failed to load gallery pages for "@ + url,
            Ok(pages) => {
                let links = links_of(PAGE_RE@, texts(pages@));
                match r {
                    Ok((album, stream)) => {
                        &&& pages.len() > 0
                        &&& links.len() > 0
                        &&& album@ == album_of(
                            gallery.album_id@,
                            gallery.album_token@,
                            regex_first_group(TITLE_RE@, pages@[0]@),
                        )
                        &&& texts(stream.pending()) == links
                    },
                    Err(e) => {
                        ||| pages.len() == 0 && e@ == "[exhentai] paged returned no pages for "@ + url
                        ||| pages.len() > 0 && links.len() == 0 && e@ == no_links()
                    },
                }
            },
        }
    }

    fn name() -> &'static str {
        "exhentai"
    }

    fn locate(&self, path: &str) -> (r: Result<GalleryPath, Error>) {
        GalleryPath::parse(path)
    }

    fn fetch(&self, gallery: GalleryPath, reply: Result<Vec<String>, Error>) -> (r: Result<
        (AlbumMeta, EXImageStream),
        Error,
    >) {
        let pages = match reply {
            Ok(pages) => pages,
            Err(_) => {
                let mut message = "[exhentai] failed to load gallery pages for ".to_owned();
                message.append(gallery.gallery_url().as_str());
                return Err(error(message));
            },
        };
        if pages.len() == 0 {
            let mut message = "[exhentai] paged returned no pages for ".to_owned();
            message.append(gallery.gallery_url().as_str());
            return Err(error(message));
        }
        let title = first_group(TITLE_RE, pages[0].as_str());
        let links = collect_links(PAGE_RE, &pages);
        assert(texts(links@).len() == links.len());
        assemble(&gallery, title, links)
    }
}

/// A path is located exactly where it names a gallery, and what is located is that gallery. Links, images
/// and titles are looked for in pages by these patterns.
pub proof fn paths_are_located(c: EXCollector, path: Seq<char>, r: Result<GalleryPath, Error>)
    requires
        c.locates(path, r),
    ensures
        r is Ok <==> gallery_of(path) is Some,
        r matches Ok(g) ==> gallery_of(path) == Some((g.album_id@, g.album_token@)),
        r matches Err(e) ==> e@ == "invalid input path("@ + path
            + "), gallery url is expected, like https://exhentai.org/g/2129939/01a6e086b9"@,
        EXCollector::spec_name() == "exhentai"@,
        PAGE_RE@ == r#"<a href="(https://exhentai\.org/s/\w+/[\w-]+)">"#@,
        IMG_RE@ == r#"<img id="img" src="([^"]+)""#@,
        TITLE_RE@ == r#"<h1 id="gn">(.*?)</h1>"#@,
{
}

/// What is read of a gallery, of which some pages came: its images are behind all the links of all its
/// pages, in their order; its name is the title in its first page, or one made of its id; and it leads
/// back to the gallery. Nothing is read exactly where there is no page, or no link in the pages.
pub proof fn galleries_are_read_whole(
    c: EXCollector,
    g: GalleryPath,
    pages: Vec<String>,
    r: Result<(AlbumMeta, EXImageStream), Error>,
)
    requires
        c.fetches(g, Ok(pages), r),
    ensures
        r is Ok <==> pages.len() > 0 && links_of(PAGE_RE@, texts(pages@)).len() > 0,
        r matches Ok((album, stream)) ==> {
            &&& texts(stream.pending()) == links_of(PAGE_RE@, texts(pages@))
            &&& album@.link == "https://exhentai.org/g/"@ + g.album_id@ + "/"@ + g.album_token@
            &&& regex_first_group(TITLE_RE@, pages@[0]@) matches Some(title) ==> album@.name == title
            &&& regex_first_group(TITLE_RE@, pages@[0]@) is None ==> album@.name == "exhentai-"@
                + g.album_id@
            &&& album@.class is None && album@.description is None && album@.authors is None
                && album@.tags is None
        },
        r matches Err(e) ==> e@ == (if pages.len() == 0 {
            "[exhentai] paged returned no pages for https://exhentai.org/g/"@ + g.album_id@ + "/"@
                + g.album_token@
        } else {
            "no image page links found; resource may be deleted, unavailable, or blocked"@
        }),
{
    reveal_strlit("[exhentai] paged returned no pages for ");
    reveal_strlit("https://exhentai.org/g/");
    reveal_strlit("[exhentai] paged returned no pages for https://exhentai.org/g/");
    assert("[exhentai] paged returned no pages for "@ + "https://exhentai.org/g/"@
        =~= "[exhentai] paged returned no pages for https://exhentai.org/g/"@);
    assert("[exhentai] paged returned no pages for "@ + url_of(g.album_id@, g.album_token@)
        =~= "[exhentai] paged returned no pages for https://exhentai.org/g/"@ + g.album_id@ + "/"@
        + g.album_token@);
}

/// The pages of the images of a gallery, of which each is still to be loaded.
#[derive(Debug)]
pub struct EXImageStream {
    image_page_links: VecDeque<String>,
}

impl AsyncStream for EXImageStream {
    type Item = Result<ImageMeta, Error>;

    type Future = String;

    closed spec fn pending(&self) -> Seq<String> {
        self.image_page_links@
    }

    fn next(&mut self) -> (r: Option<String>) {
        let ghost before = self.image_page_links@;
        let r = self.image_page_links.pop_front();
        assert(before.len() > 0 ==> self.image_page_links@ =~= before.skip(1));
        r
    }

    fn size_hint(&self) -> (r: (usize, Option<usize>))
        ensures
            r == (self.pending().len() as usize, Some(self.pending().len() as usize)),
    {
        let n = self.image_page_links.len();
        (n, Some(n))
    }
}

impl EXImageStream {
    /// The image of a page, where the address of the image was found in it.
    pub fn image_at(link: String, found: Option<&str>) -> (r: Result<ImageMeta, Error>)
        ensures
            match (found, r) {
                (Some(url), Ok(image)) => image@ == (ImageView {
                    id: link@,
                    url: url@,
                    description: None,
                }),
                (None, Err(e)) => e@ == "[exhentai] unable to find image url in page "@ + link@,
                _ => false,
            },
    {
        match found {
            Some(url) => Ok(ImageMeta { id: link, url: url.to_owned(), description: None }),
            None => {
                let mut message = "[exhentai] unable to find image url in page ".to_owned();
                message.append(link.as_str());
                Err(error(message))
            },
        }
    }

    /// Reads the page of an image.
    pub fn load_image(link: String, page: Result<String, Error>) -> (r: Result<ImageMeta, Error>)
        ensures
            match page {
                Err(_) => r matches Err(e) && e@ == "[exhentai] failed to load image page "@
                    + link@,
                Ok(content) => match (regex_first_group(IMG_RE@, content@), r) {
                    (Some(url), Ok(image)) => image@ == (ImageView {
                        id: link@,
                        url,
                        description: None,
                    }),
                    (None, Err(e)) => e@ == "[exhentai] unable to find image url in page "@ + link@,
                    _ => false,
                },
            },
    {
        match page {
            Ok(content) => EXImageStream::image_at(link, first_group(IMG_RE, content.as_str())),
            Err(_) => {
                let mut message = "[exhentai] failed to load image page ".to_owned();
                message.append(link.as_str());
                Err(error(message))
            },
        }
    }
}

} // verus!
