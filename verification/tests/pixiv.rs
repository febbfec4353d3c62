use eh2telegraph::collector::pixiv::{
    assemble, check_image_url, checked_image, clean_html_text, decode_entities, first_non_empty,
    images_of_pages, invalid_url_error, is_valid_illust_id, non_empty, parse_illust_id,
    response_body_snippet, status_failed, text_snippet, unexpected_host_error, validate_image_url, ApiReply, ApiStep, PixivApiResponse, PixivArtwork, PixivCollector,
    PixivConfig, PixivHttpClient, PixivIllust, PixivIllustType, PixivPage, PixivPageUrls, PixivTag,
    PixivTags,
};
use eh2telegraph::collector::{Collector, Loaded};
use eh2telegraph::error::Error;
use eh2telegraph::outside::UrlParts;
use eh2telegraph::stream::AsyncStream;

fn config(session: &str) -> PixivConfig {
    PixivConfig { php_sessid: Some(session.to_owned()), proxy_fallback: None }
}

fn page(url: Option<&str>) -> PixivPage {
    PixivPage {
        urls: PixivPageUrls { original: None, regular: url.map(str::to_owned), small: None },
    }
}

fn illust() -> PixivIllust {
    PixivIllust {
        illust_title: " ".to_owned(),
        title: " A work ".to_owned(),
        illust_comment: "one<br>two".to_owned(),
        description: "other".to_owned(),
        user_name: " artist ".to_owned(),
        illust_type: PixivIllustType(1),
        page_count: 1,
        tags: Some(PixivTags {
            tags: [" a ", "", "b", "a"]
                .iter()
                .map(|t| PixivTag { tag: t.to_string() })
                .collect(),
        }),
    }
}

fn text_of(value: &serde_json::Value, key: &str) -> String {
    value.get(key).and_then(serde_json::Value::as_str).unwrap_or_default().to_owned()
}

#[test]
fn parse_supported_paths() {
    for input in [
        "12345678",
        "/artworks/12345678",
        "https://www.pixiv.net/artworks/12345678",
        "https://www.pixiv.net/en/artworks/12345678/",
        "https://www.pixiv.net/member_illust.php?mode=medium&illust_id=12345678",
    ] {
        assert_eq!(parse_illust_id(input).unwrap(), "12345678");
    }
}

#[test]
fn reject_invalid_paths() {
    for input in [
        "",
        "/artworks/",
        "/artworks/not-a-number",
        "/artworks/123/extra",
        "https://example.com/12345678",
    ] {
        assert!(parse_illust_id(input).is_err(), "accepted {input:?}");
    }
}

#[test]
fn normalize_session_value() {
    let plain = PixivConfig {
        php_sessid: Some("12345_deadbeef".to_owned()),
        proxy_fallback: None,
    };
    assert_eq!(plain.session_value().unwrap(), Some("12345_deadbeef"));

    let prefixed = PixivConfig {
        php_sessid: Some("PHPSESSID=12345_deadbeef".to_owned()),
        proxy_fallback: None,
    };
    assert_eq!(prefixed.session_value().unwrap(), Some("12345_deadbeef"));

    let full_cookie = PixivConfig {
        php_sessid: Some("PHPSESSID=123; other=value".to_owned()),
        proxy_fallback: None,
    };
    assert!(full_cookie.session_value().is_err());
}

#[test]
fn deserialize_api_response() {
    let raw = r#"{
        "error": false,
        "message": "",
        "body": {
            "illustTitle": "Example",
            "title": "Example",
            "illustComment": "hello<br>world",
            "description": "hello<br>world",
            "userName": "artist",
            "illustType": 0,
            "pageCount": 2,
            "tags": {"tags": [{"tag": "tag-a"}, {"tag": "tag-b"}]}
        }
    }"#;

    let value: serde_json::Value = serde_json::from_str(raw).unwrap();
    let response = PixivApiResponse {
        error: value.get("error").and_then(serde_json::Value::as_bool).unwrap(),
        message: text_of(&value, "message"),
        body: value.get("body").cloned(),
    };
    let collector = PixivCollector::new();
    let body = collector
        .read_response(&collector.primary, "u", raw.as_bytes(), Ok(response))
        .unwrap();
    let tags = body.get("tags").and_then(|t| t.get("tags")).and_then(|t| t.as_array()).unwrap();
    let body = PixivIllust {
        illust_title: text_of(&body, "illustTitle"),
        title: text_of(&body, "title"),
        illust_comment: text_of(&body, "illustComment"),
        description: text_of(&body, "description"),
        user_name: text_of(&body, "userName"),
        illust_type: PixivIllustType(body.get("illustType").and_then(|v| v.as_u64()).unwrap() as u8),
        page_count: body.get("pageCount").and_then(|v| v.as_u64()).unwrap() as usize,
        tags: Some(PixivTags {
            tags: tags.iter().map(|t| PixivTag { tag: text_of(t, "tag") }).collect(),
        }),
    };
    assert_eq!(body.illust_title, "Example");
    assert_eq!(body.page_count, 2);
    assert_eq!(
        body.tags.unwrap().into_names().unwrap(),
        vec!["tag-a".to_owned(), "tag-b".to_owned()]
    );
}

#[test]
fn clean_description_html() {
    assert_eq!(
        clean_html_text("hello<br />world &amp; pixiv").as_deref(),
        Some("hello\nworld & pixiv")
    );
}

#[test]
fn html_becomes_text() {
    assert_eq!(clean_html_text("<b>x</b><BR>y").as_deref(), Some("x\ny"));
    assert_eq!(clean_html_text("<p> </p>"), None);
    assert_eq!(
        decode_entities("&lt;a&gt;&nbsp;&quot;b&quot; &#39;c&#x27; &amp;lt;").as_deref(),
        Some("<a> \"b\" 'c' <")
    );
    assert_eq!(decode_entities(" &nbsp; "), None);
}

#[test]
fn numbers_of_artworks() {
    assert!(is_valid_illust_id("0123456789"));
    assert!(!is_valid_illust_id(""));
    assert!(!is_valid_illust_id("12a"));
    assert!(!is_valid_illust_id("１２"));
    assert_eq!(parse_illust_id(" /artworks/7#x ").unwrap(), "7");
    assert_eq!(parse_illust_id("?illust_id=x&illust_id=8#illust_id=9").unwrap(), "8");
    assert_eq!(
        parse_illust_id(" x ").unwrap_err().message,
        "invalid input path(x); a Pixiv artwork URL is expected, like https://www.pixiv.net/artworks/12345678"
    );
}

#[test]
fn sessions_are_single_values() {
    assert_eq!(config("  ").session_value().unwrap(), None);
    assert_eq!(config("PHPSESSID= ").session_value().unwrap(), None);
    assert_eq!(config(" PHPSESSID= 1_x ").session_value().unwrap(), Some("1_x"));
    assert_eq!(PixivConfig::default().session_value().unwrap(), None);
    assert_eq!(
        config("a\nb").session_value().unwrap_err().message,
        "pixiv.php_sessid must contain only the PHPSESSID value, not a full Cookie header"
    );
}

#[test]
fn headers_of_requests() {
    let (direct, proxy) = PixivConfig::default().build_header_sets().unwrap();
    assert!(proxy.is_none());
    assert_eq!(direct.len(), 5);
    assert_eq!(direct.get("accept").unwrap(), "application/json");
    assert_eq!(direct.get("accept-language").unwrap(), "en-US,en;q=0.9,ja;q=0.8");
    assert_eq!(direct.get("referer").unwrap(), "https://www.pixiv.net/");
    assert_eq!(direct.get("origin").unwrap(), "https://www.pixiv.net");
    assert_eq!(direct.get("x-requested-with").unwrap(), "XMLHttpRequest");
    let (direct, proxy) = config("1_x").build_header_sets().unwrap();
    assert_eq!(direct.get("cookie").unwrap(), "PHPSESSID=1_x");
    assert!(direct.get("x-pixiv-phpsessid").is_none());
    let proxy = proxy.unwrap();
    assert_eq!(proxy.get("cookie").unwrap(), "PHPSESSID=1_x");
    assert_eq!(proxy.get("x-pixiv-phpsessid").unwrap(), "1_x");
    assert_eq!(
        config("a\u{7f}b").build_header_sets().unwrap_err().message,
        "invalid pixiv PHPSESSID: failed to parse header value"
    );
}

#[test]
fn the_proxy_is_a_fallback() {
    let plain = PixivCollector::new();
    assert!(plain.fallback.is_none() && !plain.authenticated);
    assert_eq!(plain.primary.label(), "direct connection");
    let with = PixivCollector::new_with_config(&config("1_x")).unwrap();
    assert!(with.authenticated);
    assert_eq!(with.fallback.as_ref().unwrap().label(), "private proxy");
    let without = PixivConfig { proxy_fallback: Some(false), ..config("1_x") };
    let without = PixivCollector::new_from_config(Some(without)).unwrap();
    assert!(without.authenticated && without.fallback.is_none());
    assert!(!PixivCollector::new_from_config(None).unwrap().authenticated);
    assert!(PixivConfig::default().proxy_fallback_enabled());
}

#[test]
fn both_ways_are_tried() {
    let failed = |text: &str| Err::<u8, Error>(Error { message: text.to_owned() });
    let plain = PixivCollector::new();
    let with = PixivCollector::new_with_config(&config("1_x")).unwrap();
    assert!(matches!(plain.after_primary(Ok::<u8, Error>(1)), ApiStep::Done(Ok(1))));
    assert!(matches!(plain.after_primary(failed("a")), ApiStep::Done(Err(_))));
    match with.after_primary(failed("a")) {
        ApiStep::TryFallback(first) => {
            let fallback = with.fallback.as_ref().unwrap();
            let e = with.after_fallback(fallback, first, failed("b")).unwrap_err();
            assert_eq!(
                e.message,
                "pixiv direct connection failed: a; private proxy fallback failed: b"
            );
        }
        _ => panic!("no fallback"),
    }
}

#[test]
fn replies_of_the_api() {
    let client = PixivCollector::new().primary;
    let reply = |status, stage: Option<&str>, body: &str| {
        Loaded::Done(ApiReply {
            status,
            proxy_stage: stage.map(str::to_owned),
            body: body.as_bytes().to_vec(),
        })
    };
    let check = |reply| PixivCollector::check_reply(&client, "u", reply);
    assert_eq!(check(reply(204, None, "x")).unwrap(), b"x".to_vec());
    assert_eq!(
        check(reply(403, Some("auth"), " no ")).unwrap_err().message,
        "HTTP 403 Forbidden through direct connection, stage=auth: no"
    );
    assert_eq!(
        check(reply(300, None, "")).unwrap_err().message,
        "HTTP 300 Multiple Choices through direct connection: empty response body"
    );
    assert_eq!(
        check(Loaded::TimedOut).unwrap_err().message,
        "pixiv request through direct connection timed out: u"
    );
    let e = check(Loaded::Failed(Error { message: "io".to_owned() })).unwrap_err();
    assert_eq!(e.message, "io");
}

#[test]
fn answers_of_the_api() {
    let plain = PixivCollector::new();
    let with = PixivCollector::new_with_config(&config("1_x")).unwrap();
    let answer = |error, message: &str, body| PixivApiResponse {
        error,
        message: message.to_owned(),
        body,
    };
    let read = |c: &PixivCollector, parsed| {
        c.read_response(&c.primary, "u", b"body", parsed).map_err(|e| e.message)
    };
    assert_eq!(read(&plain, Ok(answer(false, "", Some(5)))), Ok(5));
    assert_eq!(
        read(&plain, Ok(answer(false, "", None))),
        Err("Pixiv API returned an empty body through direct connection: u".to_owned())
    );
    assert_eq!(
        read(&plain, Ok(answer(true, " no ", None))),
        Err("Pixiv API rejected the request through direct connection: no; set pixiv.php_sessid to access works that require a Pixiv login".to_owned())
    );
    assert_eq!(
        read(&with, Ok(answer(true, " ", None))),
        Err("Pixiv API rejected the request through direct connection; the configured Pixiv session may be expired, or its account may not have permission to view this work".to_owned())
    );
    assert_eq!(
        read(&plain, Err("bad".to_owned())),
        Err("unable to parse Pixiv API response through direct connection from u: bad; body: body".to_owned())
    );
    let proxy = PixivHttpClient::Proxy(Default::default());
    assert_eq!(
        PixivCollector::decoded::<u8>(&proxy, "u", Err("bad".to_owned())).unwrap_err().message,
        "unable to decode Pixiv API body through private proxy from u: bad"
    );
    assert_eq!(PixivCollector::decoded(&proxy, "u", Ok(3)).unwrap(), 3);
}

#[test]
fn snippets_are_short() {
    assert_eq!(response_body_snippet(b" a\xffb "), "a\u{fffd}b");
    assert_eq!(response_body_snippet(b""), "empty response body");
    assert_eq!(text_snippet(&"x".repeat(512)), "x".repeat(512));
    let long = text_snippet(&"x".repeat(513));
    assert_eq!(long, format!("{}…", "x".repeat(512)));
}

#[test]
fn first_texts() {
    assert_eq!(non_empty(" a "), Some("a"));
    assert_eq!(non_empty(" \u{3000}"), None);
    assert_eq!(first_non_empty(&["", " b", "c"]), Some("b"));
    assert_eq!(first_non_empty(&[]), None);
}

#[test]
fn kinds_of_artworks() {
    let name = |n| PixivIllustType(n).class_name();
    assert_eq!([name(0), name(1), name(2), name(3)], ["illustration", "manga", "ugoira", "pixiv"]);
}

#[test]
fn image_addresses() {
    let check = |url: &str| validate_image_url(url.to_owned()).map_err(|e| e.message);
    assert_eq!(check("https://i.pximg.net/a b.jpg"), Ok("https://i.pximg.net/a%20b.jpg".to_owned()));
    assert_eq!(
        check("http://i.pximg.net/a"),
        Err("unsafe pixiv image URL: http://i.pximg.net/a".to_owned())
    );
    assert_eq!(
        check("https://u:p@i.pximg.net/a"),
        Err("unsafe pixiv image URL: https://u:p@i.pximg.net/a".to_owned())
    );
    assert_eq!(
        check("https://example.com/a"),
        Err("unexpected pixiv image host \"example.com\" in URL https://example.com/a".to_owned())
    );
    assert_eq!(
        check("a\tb"),
        Err("invalid pixiv image URL \"a\\tb\": relative URL without a base".to_owned())
    );
    let parts = UrlParts {
        scheme: "https".to_owned(),
        username: String::new(),
        password: None,
        host: None,
        path: String::new(),
        query: None,
        text: "https:".to_owned(),
    };
    assert_eq!(
        check_image_url("https:", Ok(parts)).unwrap_err().message,
        "pixiv image URL has no host: https:"
    );
}

#[test]
fn messages_from_their_parts() {
    let stage = Some("s".to_owned());
    assert_eq!(status_failed("l", "418", &stage, "b").message, "HTTP 418 through l, stage=s: b");
    assert_eq!(invalid_url_error("\"x\"", "c").message, "invalid pixiv image URL \"x\": c");
    assert_eq!(
        unexpected_host_error("\"h\"", "u").message,
        "unexpected pixiv image host \"h\" in URL u"
    );
    assert_eq!(checked_image("9", 4, Ok("u".to_owned())).unwrap().id, "9-p4");
    let artwork = PixivArtwork { illust_id: "9".to_owned() };
    let (album, mut stream) = assemble(&artwork, illust(), Some("d".to_owned()), vec![]);
    assert_eq!(album.description.as_deref(), Some("d"));
    assert!(stream.next().is_none());
}

#[test]
fn pages_become_images() {
    let image = page(Some("https://i.pximg.net/1.jpg")).into_image_meta("9", 0).unwrap();
    assert_eq!((image.id.as_str(), image.url.as_str()), ("9-p0", "https://i.pximg.net/1.jpg"));
    let e = page(None).into_image_meta("9", 1).unwrap_err();
    assert_eq!(e.message, "pixiv page 2 of artwork 9 has no usable image URL");
    let both = PixivPage {
        urls: PixivPageUrls {
            original: Some("https://i.pximg.net/o".to_owned()),
            regular: Some("https://i.pximg.net/r".to_owned()),
            small: None,
        },
    };
    assert_eq!(both.into_image_meta("9", 3).unwrap().url, "https://i.pximg.net/o");
    let e = images_of_pages(vec![page(Some("https://i.pximg.net/1")), page(None)], "9").unwrap_err();
    assert_eq!(e.message, "pixiv page 2 of artwork 9 has no usable image URL");
}

#[test]
fn artworks_become_albums() {
    let collector = PixivCollector::new();
    assert_eq!(PixivCollector::name(), "pixiv");
    let artwork = collector.locate("/artworks/9?x=y").unwrap();
    assert_eq!(artwork.original_url(), "https://www.pixiv.net/artworks/9");
    assert_eq!(artwork.metadata_url(), "https://www.pixiv.net/ajax/illust/9");
    assert_eq!(artwork.pages_url(), "https://www.pixiv.net/ajax/illust/9/pages");
    let pages = vec![page(Some("https://i.pximg.net/1")), page(Some("https://i.pximg.net/2"))];
    let (album, mut stream) = collector.fetch(artwork, (illust(), pages)).unwrap();
    assert_eq!(album.link, "https://www.pixiv.net/artworks/9");
    assert_eq!(album.name, "A work");
    assert_eq!(album.class.as_deref(), Some("manga"));
    assert_eq!(album.description.as_deref(), Some("one\ntwo"));
    assert_eq!(album.authors, Some(vec!["artist".to_owned()]));
    assert_eq!(album.tags, Some(vec!["a".to_owned(), "b".to_owned()]));
    assert_eq!(stream.size_hint(), (2, Some(2)));
    assert_eq!(stream.next().unwrap().id, "9-p0");
    assert_eq!(stream.next().unwrap().id, "9-p1");
    assert!(stream.next().is_none());
}

#[test]
fn artworks_without_pages() {
    let plain = PixivCollector::new();
    let with = PixivCollector::new_with_config(&config("1_x")).unwrap();
    let artwork = || PixivArtwork { illust_id: "9".to_owned() };
    assert_eq!(
        plain.fetch(artwork(), (illust(), vec![])).unwrap_err().message,
        "pixiv returned no image pages for artwork 9; the artwork may require login; configure pixiv.php_sessid"
    );
    assert_eq!(
        with.fetch(artwork(), (illust(), vec![])).unwrap_err().message,
        "pixiv returned no image pages for artwork 9; the artwork is unavailable or the configured account lacks access"
    );
    let nameless = PixivIllust {
        title: String::new(),
        illust_comment: String::new(),
        description: String::new(),
        user_name: " ".to_owned(),
        tags: None,
        ..illust()
    };
    let (album, _) = plain
        .fetch(artwork(), (nameless, vec![page(Some("https://i.pximg.net/1"))]))
        .unwrap();
    assert_eq!(album.name, "pixiv-9");
    assert!(album.description.is_none() && album.authors.is_none() && album.tags.is_none());
}
