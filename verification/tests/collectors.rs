use eh2telegraph::collector::e_hentai::{
    assemble, collect_image_page_links, parse_gallery_path, EHCollector, EHGallery, EHImageStream,
};
use eh2telegraph::collector::exhentai::{
    EXCollector, EXImageStream, ExConfig, GalleryPath,
};
use eh2telegraph::collector::pixiv::{PixivCollector, PixivConfig};
use eh2telegraph::collector::{
    add_groups, Collector, Loaded, PageIndicator, Param, Registry,
};
use eh2telegraph::error::Error;
use eh2telegraph::stream::AsyncStream;
use eh2telegraph::sync::Synchronizer;

fn failure(text: &str) -> Error {
    Error { message: text.to_string() }
}

fn account() -> ExConfig {
    ExConfig {
        ipb_pass_hash: "hash".to_string(),
        ipb_member_id: "42".to_string(),
        igneous: "stone".to_string(),
    }
}

#[test]
fn parse_gallery_path_accepts_valid_path() {
    let (id, token) = parse_gallery_path("/g/2122174/fd2525031e").unwrap();
    assert_eq!(id, "2122174");
    assert_eq!(token, "fd2525031e");
}

#[test]
fn parse_gallery_path_rejects_invalid_path() {
    assert!(parse_gallery_path("/gallery/2122174/fd2525031e").is_err());
    assert!(parse_gallery_path("/g/2122174").is_err());
    assert!(parse_gallery_path("/g/2122174/fd2525031e/extra").is_err());
}

#[test]
fn regex_match() {
    let h = r#"<div class="gdtm" style="height:170px"><div style="margin:1px auto 0; width:100px; height:140px; background:transparent url(https://ehgt.org/m/002122/2122174-00.jpg) -600px 0 no-repeat"><a href="https://e-hentai.org/s/bd2b37d829/2122174-7"><img alt="007" title="Page 7: 2.png" src="https://ehgt.org/g/blank.gif" style="width:100px; height:139px; margin:-1px 0 0 -1px" /></a></div></div><div class="gdtm" style="height:170px"><div style="margin:1px auto 0; width:100px; height:100px; background:transparent url(https://ehgt.org/m/002122/2122174-00.jpg) -700px 0 no-repeat"><a href="https://e-hentai.org/s/4ca72f757d/2122174-8"><img alt="008" title="Page 8: 3.png" src="https://ehgt.org/g/blank.gif" style="width:100px; height:99px; margin:-1px 0 0 -1px" />"#;

    let links = collect_image_page_links(&vec![h.to_string()]);

    assert_eq!(links.len(), 2);
    assert_eq!(links[0], "https://e-hentai.org/s/bd2b37d829/2122174-7");
    assert_eq!(links[1], "https://e-hentai.org/s/4ca72f757d/2122174-8");
}

#[test]
fn links_come_page_by_page() {
    let page = |ids: &[&str]| -> String {
        ids.iter().map(|i| format!("<a href=\"https://e-hentai.org/s/{i}/1-1\">")).collect()
    };
    let links = |pages: &[String]| collect_image_page_links(&pages.to_vec());
    let (a, b) = (page(&["x", "y"]), page(&["y", "z"]));
    let mut both = links(&[a.clone()]);
    both.extend(links(&[b.clone()]));
    assert_eq!(links(&[a, b]), both);
    assert_eq!(both.len(), 4);
    assert!(links(&[]).is_empty());
    let odd = [
        "<a\n \thref=\"https://e-hentai.org/s/a b>/1\">",
        "<a href=\"https://e-hentai.org/s/\">",
        "<ahref=\"https://e-hentai.org/s/c\">",
        "<a href=\"https://e-hentaixorg/s/d\">",
        "<a href=\"https://e-hentai.org/s/e",
    ];
    assert_eq!(links(&[odd.concat()]), ["https://e-hentai.org/s/a b>/1"]);
}

#[test]
fn recognizes_pixiv_artwork_urls() {
    for url in [
        "https://www.pixiv.net/artworks/12345678",
        "https://pixiv.net/artworks/12345678",
        "https://www.pixiv.net/en/artworks/12345678",
        "https://www.pixiv.net/member_illust.php?mode=medium&illust_id=12345678",
    ] {
        assert_eq!(Synchronizer::match_url_from_url(url), Some(url));
    }
}

#[test]
fn extracts_pixiv_url_from_text_without_trailing_punctuation() {
    let text = "Pixiv: https://www.pixiv.net/en/artworks/12345678).";
    assert_eq!(
        Synchronizer::match_url_from_text(text),
        Some("https://www.pixiv.net/en/artworks/12345678")
    );
}

#[test]
fn ignores_non_artwork_pixiv_urls() {
    assert!(Synchronizer::match_url_from_text("https://www.pixiv.net/users/1234").is_none());
}

#[test]
fn anchored_search_needs_the_address_at_the_start() {
    let text = "see https://e-hentai.org/g/1/ab";
    assert_eq!(Synchronizer::match_url_from_text(text), Some("https://e-hentai.org/g/1/ab"));
    assert_eq!(Synchronizer::match_url_from_url(text), None);
}

#[test]
fn gallery_paths_are_read_back() {
    let (id, token) = parse_gallery_path("g/1/ab/").unwrap();
    assert_eq!((id.as_str(), token.as_str()), ("1", "ab"));
    let e = parse_gallery_path("/g//ab").unwrap_err();
    assert_eq!(
        e.message,
        "invalid input path(/g//ab), gallery url is expected, like https://e-hentai.org/g/2127986/da1deffea5"
    );
    let g = GalleryPath::parse("/g/1/ab/extra").unwrap();
    assert_eq!(g.gallery_url(), "https://exhentai.org/g/1/ab");
    assert_eq!(g.display_key(), "1/ab");
    let e = GalleryPath::parse("/x/1/ab").unwrap_err();
    assert_eq!(
        e.message,
        "invalid input path(/x/1/ab), gallery url is expected, like https://exhentai.org/g/2129939/01a6e086b9"
    );
}

#[test]
fn galleries_come_in_pages() {
    let indicator = PageIndicator { base: "https://e-hentai.org/g/1/ab".to_string() };
    assert_eq!(indicator.format_n(0), "https://e-hentai.org/g/1/ab/?p=0");
    assert_eq!(indicator.format_n(12), "https://e-hentai.org/g/1/ab/?p=12");
    let page = r#"<a href="https://e-hentai.org/g/1/ab/?p=1" onclick="return false">2</a>"#;
    assert!(!indicator.is_last_page(page, 1));
    assert!(indicator.is_last_page(page, 2));
}

#[test]
fn groups_that_took_no_part_are_skipped() {
    let mut links = vec!["a".to_string()];
    add_groups(&mut links, vec![Some("b".to_string()), None, Some("a".to_string())]);
    assert_eq!(links, vec!["a", "b", "a"]);
}

#[test]
fn e_hentai_albums() {
    let collector = EHCollector::new();
    assert_eq!(EHCollector::name(), "e-hentai");
    assert_eq!(collector.headers.get("cookie").unwrap(), "nw=1");
    assert_eq!(collector.headers.len(), 1);
    assert_eq!(collector.cf_resolve, "e-hentai.org");
    assert_eq!(EHCollector::new_from_config().unwrap().cf_resolve, "e-hentai.org");
    let page = r#"<h1 id="gn">A title</h1><a href="https://e-hentai.org/s/x/1-1">"#.to_string();
    let location = collector.locate("/g/1/ab").unwrap();
    let (album, mut stream) = collector.fetch(location, Loaded::Done(vec![page])).unwrap();
    assert_eq!(album.link, "https://e-hentai.org/g/1/ab");
    assert_eq!(album.name, "A title");
    assert!(album.class.is_none() && album.authors.is_none() && album.tags.is_none());
    assert_eq!(stream.size_hint(), (1, Some(1)));
    assert_eq!(stream.next().unwrap(), "https://e-hentai.org/s/x/1-1");
    assert!(stream.next().is_none());
    assert_eq!(stream.size_hint(), (0, Some(0)));
}

#[test]
fn e_hentai_failures() {
    let collector = EHCollector::new();
    let ask = |reply| {
        let location = collector.locate("/g/1/ab").unwrap();
        collector.fetch(location, reply).unwrap_err().message
    };
    assert_eq!(ask(Loaded::TimedOut), "e-hentai gallery page request timed out");
    assert_eq!(ask(Loaded::Failed(failure("down"))), "down");
    assert_eq!(ask(Loaded::Done(vec![])), "empty gallery page response");
    assert_eq!(
        ask(Loaded::Done(vec!["nothing".to_string()])),
        "invalid url, maybe resource has been deleted"
    );
    assert!(collector.locate("/x").is_err());
}

#[test]
fn galleries_without_title() {
    let gallery = EHGallery { album_id: "1".to_string(), album_token: "ab".to_string() };
    let (album, _) = assemble(&gallery, None, vec!["link".to_string()]).unwrap();
    assert_eq!(album.name, "e-hentai-1");
    assert!(assemble(&gallery, Some("t"), vec![]).is_err());
}

#[test]
fn e_hentai_images() {
    let link = || "https://e-hentai.org/s/x/1-1".to_string();
    let page = r#"<img id="img" src="https://host/1.jpg" />"#.to_string();
    let image = EHImageStream::load_image(link(), Loaded::Done(page)).unwrap();
    assert_eq!(image.id, link());
    assert_eq!(image.url, "https://host/1.jpg");
    assert!(image.description.is_none());
    let e = EHImageStream::load_image(link(), Loaded::Done("no".to_string())).unwrap_err();
    assert_eq!(e.message, "unable to find image in page: https://e-hentai.org/s/x/1-1");
    let e = EHImageStream::load_image(link(), Loaded::TimedOut).unwrap_err();
    assert_eq!(e.message, "e-hentai image page request timed out: https://e-hentai.org/s/x/1-1");
    let e = EHImageStream::load_image(link(), Loaded::Failed(failure("x"))).unwrap_err();
    assert_eq!(e.message, "x");
    let e = EHImageStream::image_at(link(), None).unwrap_err();
    assert_eq!(e.message, "unable to find image in page: https://e-hentai.org/s/x/1-1");
}

#[test]
fn exhentai_cookies() {
    let collector = EXCollector::new(&account()).unwrap();
    assert_eq!(
        collector.headers.get("cookie").unwrap(),
        "ipb_pass_hash=hash;ipb_member_id=42;igneous=stone;nw=1"
    );
    assert_eq!(collector.cf_resolve, None);
    let bad = ExConfig { igneous: "a\nb".to_string(), ..account() };
    assert_eq!(
        EXCollector::new(&bad).unwrap_err().message,
        "invalid exhentai cookie header"
    );
    assert_eq!(
        EXCollector::new_from_config(None).unwrap_err().message,
        "exhentai config(key: exhentai) not found"
    );
}

#[test]
fn exhentai_albums() {
    let collector = EXCollector::new_from_config(Some(account())).unwrap();
    assert_eq!(EXCollector::name(), "exhentai");
    let page = r#"<a href="https://exhentai.org/s/x/1-1"><a href="https://exhentai.org/s/y/1-2">"#;
    let location = collector.locate("/g/1/ab").unwrap();
    let (album, mut stream) = collector.fetch(location, Ok(vec![page.to_string()])).unwrap();
    assert_eq!(album.link, "https://exhentai.org/g/1/ab");
    assert_eq!(album.name, "exhentai-1");
    assert_eq!(stream.next().unwrap(), "https://exhentai.org/s/x/1-1");
    assert_eq!(stream.next().unwrap(), "https://exhentai.org/s/y/1-2");
    assert!(stream.next().is_none());
    let ask = |reply| {
        let location = collector.locate("/g/1/ab").unwrap();
        collector.fetch(location, reply).unwrap_err().message
    };
    assert_eq!(
        ask(Err(failure("down"))),
        "[exhentai] failed to load gallery pages for https://exhentai.org/g/1/ab"
    );
    assert_eq!(
        ask(Ok(vec![])),
        "[exhentai] paged returned no pages for https://exhentai.org/g/1/ab"
    );
    assert_eq!(
        ask(Ok(vec!["x".to_string()])),
        "no image page links found; resource may be deleted, unavailable, or blocked"
    );
}

#[test]
fn exhentai_images() {
    let page = r#"<img id="img" src="https://host/1.jpg""#.to_string();
    let image = EXImageStream::load_image("l".to_string(), Ok(page)).unwrap();
    assert_eq!((image.id.as_str(), image.url.as_str()), ("l", "https://host/1.jpg"));
    let e = EXImageStream::load_image("l".to_string(), Err(failure("x"))).unwrap_err();
    assert_eq!(e.message, "[exhentai] failed to load image page l");
    let e = EXImageStream::image_at("l".to_string(), None).unwrap_err();
    assert_eq!(e.message, "[exhentai] unable to find image url in page l");
}

#[test]
fn the_registry_has_all_collectors() {
    let registry = Registry::new_from_config(Some(account()), None).unwrap();
    let eh: &EHCollector = registry.get();
    let ex: &EXCollector = registry.get();
    let pixiv: &PixivCollector = registry.get();
    assert_eq!(eh.cf_resolve, "e-hentai.org");
    assert_eq!(ex.cf_resolve, None);
    assert!(ex.headers.get("cookie").is_some());
    assert!(!pixiv.authenticated);
    assert_eq!(
        Registry::new_from_config(None, None).unwrap_err().message,
        "exhentai config(key: exhentai) not found"
    );
    let pixiv = PixivConfig { php_sessid: Some("a;b".to_string()), proxy_fallback: None };
    assert_eq!(
        Registry::new_from_config(Some(account()), Some(pixiv)).unwrap_err().message,
        "pixiv.php_sessid must contain only the PHPSESSID value, not a full Cookie header"
    );
}
