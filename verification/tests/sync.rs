use eh2telegraph::collector::e_hentai::EHCollector;
use eh2telegraph::collector::exhentai::ExConfig;
use eh2telegraph::collector::{AlbumMeta, ImageMeta, Registry};
use eh2telegraph::config::{
    boundary, default_polling_timeout, default_restart_delay, has_content, is_blocked, is_recent,
    with_configured_author, DAY,
};
use eh2telegraph::error::Error;
use eh2telegraph::sync::{
    cache_key, cache_keys, message_meta_cache_key, remembered, CacheValue, CachedMessageMeta, DeleteStep,
    Gathering, Prewarm, StashedGallery, SyncAction, SyncEnd, SyncEvent, SyncResult, SyncState,
    Synchronizer, UploadError, ERR_THRESHOLD,
};

fn failure(text: &str) -> Error {
    Error { message: text.to_string() }
}

fn some_list(items: &[&str]) -> Option<Vec<String>> {
    Some(items.iter().map(|s| s.to_string()).collect())
}

fn album(name: &str, authors: Option<Vec<String>>, tags: Option<Vec<String>>) -> AlbumMeta {
    AlbumMeta {
        link: format!("https://x/{name}"),
        name: name.to_string(),
        class: None,
        description: None,
        authors,
        tags,
    }
}

fn image(id: &str) -> ImageMeta {
    ImageMeta { id: id.to_string(), url: id.to_string(), description: None }
}

fn synchronizer() -> Synchronizer {
    let account = ExConfig {
        ipb_pass_hash: "a".to_string(),
        ipb_member_id: "b".to_string(),
        igneous: "c".to_string(),
    };
    let registry = Registry::new_from_config(Some(account), None).unwrap();
    Synchronizer::new(registry, "https://proxy".to_string())
}

fn gallery(name: &str, authors: &[&str], images: &[&str]) -> StashedGallery {
    StashedGallery {
        source_url: format!("https://x/{name}"),
        meta: album(name, some_list(authors), None),
        images: images.iter().map(|i| image(i)).collect(),
    }
}

fn ended(action: SyncAction) -> SyncEnd {
    match action {
        SyncAction::Finish(end) => end,
        _ => panic!("not finished"),
    }
}

#[test]
fn keys() {
    assert_eq!(cache_key("e-hentai", "/g/1/ab"), "e-hentai|/g/1/ab");
    assert_eq!(message_meta_cache_key("k"), "k|message_meta_v1");
    let keys = cache_keys::<EHCollector>("/g/1/ab");
    assert_eq!(keys.page, "e-hentai|/g/1/ab");
    assert_eq!(keys.meta, "e-hentai|/g/1/ab|message_meta_v1");
}

#[test]
fn forgetting_covers_both_keys() {
    let sync = synchronizer();
    let keys = cache_keys::<EHCollector>("/g/1/ab");
    match sync.delete_cache(&keys.page, Ok(())) {
        DeleteStep::Also(key) => assert_eq!(key, keys.meta),
        DeleteStep::Failed(_) => panic!("failed"),
    }
    match sync.delete_cache(&keys.page, Err(failure("no"))) {
        DeleteStep::Failed(e) => assert_eq!(e.message, "no"),
        DeleteStep::Also(_) => panic!("went on"),
    }
}

#[test]
fn a_remembered_page_with_its_message() {
    let sync = synchronizer();
    let (state, action) = sync.sync(SyncState::LookUp, SyncEvent::Url(Some("u".to_string())));
    assert!(matches!(action, SyncAction::ReadMeta));
    let result = SyncResult {
        page_url: "u".to_string(),
        title: Some("t".to_string()),
        authors: some_list(&["a"]),
        tags: None,
    };
    let meta = CachedMessageMeta::from_sync_result(&result);
    let (state, action) = sync.sync(state, SyncEvent::Meta(Some(meta)));
    assert!(matches!(state, SyncState::Done));
    let end = ended(action);
    assert!(!end.write_url && !end.write_meta);
    let back = end.result.unwrap();
    assert_eq!(back.page_url, "u");
    assert_eq!(back.title.as_deref(), Some("t"));
    assert_eq!(back.authors, some_list(&["a"]));
    assert_eq!(back.tags, None);
}

#[test]
fn a_remembered_page_without_its_message() {
    let sync = synchronizer();
    let start = || SyncState::LookUpMeta { page_url: "u".to_string() };
    let (state, action) = sync.sync(start(), SyncEvent::Meta(None));
    assert!(matches!(action, SyncAction::Fetch));
    let meta = album("t", None, some_list(&["x"]));
    let end = ended(sync.sync(state, SyncEvent::Fetched(Ok(meta))).1);
    assert!(!end.write_url && end.write_meta);
    let result = end.result.unwrap();
    assert_eq!((result.page_url.as_str(), result.title.as_deref()), ("u", Some("t")));
    assert_eq!(result.tags, some_list(&["x"]));
    let (state, _) = sync.sync(start(), SyncEvent::Meta(None));
    let end = ended(sync.sync(state, SyncEvent::Fetched(Err(failure("down")))).1);
    assert!(!end.write_url && !end.write_meta);
    let result = end.result.unwrap();
    assert_eq!(result.page_url, "u");
    assert!(result.title.is_none() && result.authors.is_none() && result.tags.is_none());
}

#[test]
fn a_page_that_is_new() {
    let sync = synchronizer();
    let collect = || {
        let (state, action) = sync.sync(SyncState::LookUp, SyncEvent::Url(None));
        assert!(matches!(action, SyncAction::Fetch));
        state
    };
    let end = ended(sync.sync(collect(), SyncEvent::Fetched(Err(failure("down")))).1);
    assert_eq!(end.result.unwrap_err().message, "down");
    let fetched = || {
        let (state, action) =
            sync.sync(collect(), SyncEvent::Fetched(Ok(album("t", some_list(&["a"]), None))));
        match action {
            SyncAction::Publish(meta) => assert_eq!(meta.name, "t"),
            _ => panic!("not published"),
        }
        state
    };
    let end = ended(sync.sync(fetched(), SyncEvent::Published(Ok("u".to_string()))).1);
    assert!(end.write_url && end.write_meta);
    let result = end.result.unwrap();
    assert_eq!((result.page_url.as_str(), result.title.as_deref()), ("u", Some("t")));
    assert_eq!(result.authors, some_list(&["a"]));
    let stream = UploadError::Stream(failure("gone"));
    let end = ended(sync.sync(fetched(), SyncEvent::Published(Err(stream))).1);
    assert!(!end.write_url && !end.write_meta);
    assert_eq!(end.result.unwrap_err().message, "stream error gone");
    let api = UploadError::Reqwest(failure("FLOOD"));
    let end = ended(sync.sync(fetched(), SyncEvent::Published(Err(api))).1);
    assert_eq!(end.result.unwrap_err().message, "telegraph error FLOOD");
}

#[test]
fn a_second_run_reads_the_first() {
    let sync = synchronizer().with_cache_ttl(Some(9));
    let keys = cache_keys::<EHCollector>("/g/1/ab");
    let (state, _) = sync.sync(SyncState::LookUp, SyncEvent::Url(None));
    let meta = album("t", some_list(&["a"]), some_list(&["x", "y"]));
    let (state, _) = sync.sync(state, SyncEvent::Fetched(Ok(meta)));
    let end = ended(sync.sync(state, SyncEvent::Published(Ok("u".to_string()))).1);
    let mut writes = sync.cache_writes(&keys, &end).into_iter();
    let page = writes.next().unwrap();
    let message = writes.next().unwrap();
    assert!(writes.next().is_none());
    assert_eq!((page.key.as_str(), page.ttl), ("e-hentai|/g/1/ab", 9));
    assert_eq!((message.key.as_str(), message.ttl), ("e-hentai|/g/1/ab|message_meta_v1", 9));
    let (url, meta) = match (page.value, message.value) {
        (CacheValue::Page(url), CacheValue::Meta(meta)) => (url, meta),
        other => panic!("{other:?}"),
    };
    let (state, action) = sync.sync(SyncState::LookUp, SyncEvent::Url(Some(url)));
    assert!(matches!(action, SyncAction::ReadMeta));
    let again = ended(sync.sync(state, SyncEvent::Meta(Some(meta))).1);
    assert!(sync.cache_writes(&keys, &again).is_empty());
    let (first, second) = (end.result.unwrap(), again.result.unwrap());
    assert_eq!(second.page_url, first.page_url);
    assert_eq!(second.title, first.title);
    assert_eq!(second.authors, first.authors);
    assert_eq!(second.tags, first.tags);
}

#[test]
fn writes_of_other_ends() {
    let sync = synchronizer();
    let keys = cache_keys::<EHCollector>("p");
    let failed = SyncEnd { result: Err(failure("x")), write_url: true, write_meta: true };
    assert!(sync.cache_writes(&keys, &failed).is_empty());
    let start = SyncState::Refresh { page_url: "u".to_string() };
    let end = ended(sync.sync(start, SyncEvent::Fetched(Ok(album("t", None, None)))).1);
    let writes = sync.cache_writes(&keys, &end);
    assert_eq!(writes.len(), 1);
    assert_eq!((writes[0].key.as_str(), writes[0].ttl), ("e-hentai|p|message_meta_v1", 3888000));
}

#[test]
fn unreadable_stores_hold_nothing() {
    assert_eq!(remembered(Ok(Some("u".to_string()))).as_deref(), Some("u"));
    assert_eq!(remembered(Ok(None)), None);
    assert_eq!(remembered(Err(failure("x"))), None);
}

#[test]
fn failures_in_a_row() {
    let mut gathering = Gathering::new();
    for i in 0..30 {
        if i % 11 == 10 {
            assert!(gathering.record(Ok::<_, u32>(image("x"))).is_none());
        } else {
            assert!(gathering.record(Err(i)).is_none());
        }
    }
    assert_eq!(gathering.images.len(), 2);
    let mut gathering = Gathering::new();
    for i in 0..ERR_THRESHOLD {
        assert!(gathering.record(Err(i)).is_none());
    }
    assert_eq!(gathering.record(Err(99)), Some(99));
}

#[test]
fn stashes_need_images() {
    let sync = synchronizer();
    let stash = |images| sync.stash("s".to_string(), album("t", None, None), images);
    assert_eq!(stash(Ok(vec![])).unwrap_err().message, "gallery contains no usable images");
    assert_eq!(stash(Err(failure("x"))).unwrap_err().message, "x");
    let stashed = stash(Ok(vec![image("a")])).unwrap();
    assert_eq!((stashed.source_url.as_str(), stashed.images.len()), ("s", 1));
}

#[test]
fn batches_become_one_album() {
    let sync = synchronizer();
    let galleries = vec![
        gallery("one", &["a", "b"], &["1", "2"]),
        gallery("two", &["b", "c"], &["3"]),
    ];
    let links = vec!["https://l".to_string(), "https://m".to_string()];
    let batch = sync.sync_stashed_batch(galleries, links).unwrap();
    assert_eq!(batch.meta.name, "one (+1 galleries)");
    assert_eq!(batch.meta.link, "https://l");
    assert_eq!(batch.meta.class.as_deref(), Some("batch"));
    assert_eq!(batch.meta.description.as_deref(), Some("FIFO batch of 2 galleries"));
    assert_eq!(batch.meta.authors, some_list(&["a", "b", "c"]));
    assert_eq!(batch.meta.tags, None);
    let ids: Vec<&str> = batch.images.iter().map(|i| i.id.as_str()).collect();
    assert_eq!(ids, ["1", "2", "3"]);
    assert_eq!(batch.links, ["https://l", "https://m"]);
    let result = batch.published(Ok("u".to_string())).unwrap();
    assert_eq!((result.page_url.as_str(), result.title.as_deref()), ("u", Some("one (+1 galleries)")));
    assert_eq!(result.authors, some_list(&["a", "b", "c"]));
}

#[test]
fn small_and_empty_batches() {
    let sync = synchronizer();
    let batch = sync.sync_stashed_batch(vec![gallery("one", &[], &["1"])], vec![]).unwrap();
    assert_eq!(batch.meta.name, "one");
    assert_eq!(batch.links, ["https://x/one"]);
    assert_eq!(batch.meta.authors, None);
    assert_eq!(batch.published(Err(failure("FLOOD"))).unwrap_err().message, "FLOOD");
    assert_eq!(
        sync.sync_stashed_batch(vec![], vec![]).unwrap_err().message,
        "batch contains no stashed galleries"
    );
    assert_eq!(
        sync.sync_stashed_batch(vec![gallery("one", &[], &[])], vec![]).unwrap_err().message,
        "batch contains no usable images"
    );
}

#[test]
fn albums_become_publications() {
    let sync = synchronizer();
    let meta = album("a|b|c", some_list(&["x", "y"]), None);
    let srcs = vec!["https://1".to_string()];
    let publication = sync.sync_stream(&meta, &srcs, &vec![10]);
    assert_eq!(publication.title, "abc");
    assert_eq!(publication.links, ["https://x/a|b|c"]);
    assert_eq!(publication.author_name.as_deref(), Some("x, y"));
    assert_eq!(publication.author_url, None);
    assert_eq!(publication.chunks.len(), 1);
    let sync = sync.with_author(Some("bot".to_string()), Some("https://bot".to_string()));
    let publication = sync.sync_stream_with_links(&meta, &srcs, &vec![10], vec![]);
    assert_eq!(publication.author_name.as_deref(), Some("bot"));
    assert_eq!(publication.author_url.as_deref(), Some("https://bot"));
    assert!(publication.links.is_empty());
    let anonymous = synchronizer().sync_stream(&album("t", None, None), &srcs, &vec![10]);
    assert_eq!(anonymous.author_name, None);
}

#[test]
fn settings_of_the_synchronizer() {
    let sync = synchronizer();
    assert_eq!(sync.effective_cache_ttl(), 3888000);
    assert_eq!(sync.effective_limit(), 20);
    assert_eq!(sync.image_proxy_base, "https://proxy");
    let sync = sync.with_cache_ttl(Some(5)).with_concurrent_limit(3);
    assert_eq!(sync.effective_cache_ttl(), 5);
    assert_eq!(sync.effective_limit(), 3);
    assert_eq!(sync.with_cache_ttl(None).effective_cache_ttl(), 3888000);
}

#[test]
fn warming_is_counted() {
    let mut prewarm = Prewarm::new(3);
    prewarm.record(true);
    prewarm.record(true);
    assert_eq!(prewarm.page_report("u"), "[prewarm] finished Telegraph page u; warmed 2/3 image(s)");
    prewarm.record(false);
    assert_eq!(
        prewarm.page_report("u"),
        "[prewarm] finished Telegraph page u; warmed 2/3 image(s), failed 1"
    );
    assert_eq!(prewarm.stash_report(), "[batch] image prewarm finished; warmed 2/3, failed 1");
}

#[test]
fn the_author_is_optional() {
    let url = || Some("https://a".to_string());
    let named = with_configured_author(synchronizer(), Some("n".to_string()), url());
    assert_eq!(named.author_name.as_deref(), Some("n"));
    assert_eq!(named.author_url.as_deref(), Some("https://a"));
    let nameless = with_configured_author(synchronizer(), None, url());
    assert!(nameless.author_name.is_none() && nameless.author_url.is_none());
}

#[test]
fn messages_that_count() {
    assert_eq!((default_polling_timeout(), default_restart_delay()), (10, 5));
    assert_eq!(boundary(DAY + 1), Some(1));
    assert_eq!(boundary(i64::MIN), None);
    assert!(is_recent(2, 1));
    assert!(!is_recent(1, 1));
    assert!(is_blocked(Some(false)));
    assert!(!is_blocked(Some(true)));
    assert!(!is_blocked(None));
    assert!(has_content(Some("x")));
    assert!(!has_content(Some("")));
    assert!(!has_content(None));
}
