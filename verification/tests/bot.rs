use eh2telegraph::batch::{
    route, route_parts, BatchKey, BatchSession, BatchSource, MAX_BATCH_IMAGES, MAX_BATCH_LINKS,
};
use eh2telegraph::collector::exhentai::ExConfig;
use eh2telegraph::collector::{AlbumMeta, ImageMeta, Registry};
use eh2telegraph::error::Error;
use eh2telegraph::handler::{
    after_url, collect_urls, collect_urls_from_text, next_branch, or_argument, photo_failed,
    push_unique_url, AdminCommand, Branch, Command, FoundAt, FoundImage, Handler, MessageFacts, PhotoError,
    PhotoSearch, PhotoStep, Step,
};
use eh2telegraph::message::sync_response;
use eh2telegraph::outside::UrlParts;
use eh2telegraph::sessions::{
    Batches, Conclusion, FinishAction, FinishEvent, FinishState, FinishStep,
};
use eh2telegraph::sync::{StashedGallery, SyncResult, Synchronizer};
use std::collections::HashSet;

fn failure(text: &str) -> Error {
    Error { message: text.to_string() }
}

fn strings(items: &[&str]) -> Vec<String> {
    items.iter().map(|s| s.to_string()).collect()
}

fn key() -> BatchKey {
    BatchKey::from_message(-5, Some(7))
}

fn handler() -> Handler<Synchronizer> {
    let account = ExConfig {
        ipb_pass_hash: "a".to_string(),
        ipb_member_id: "b".to_string(),
        igneous: "c".to_string(),
    };
    let registry = Registry::new_from_config(Some(account), None).unwrap();
    let admins: HashSet<i64> = [1, 2].into_iter().collect();
    Handler::new(Synchronizer::new(registry, String::new()), admins)
}

fn gallery(url: &str, images: usize) -> StashedGallery {
    StashedGallery {
        source_url: url.to_string(),
        meta: AlbumMeta {
            link: url.to_string(),
            name: "t".to_string(),
            class: None,
            description: None,
            authors: None,
            tags: None,
        },
        images: (0..images)
            .map(|i| ImageMeta { id: i.to_string(), url: i.to_string(), description: None })
            .collect(),
    }
}

fn reply(step: Step) -> String {
    match step {
        Step::Reply(text) => text,
        other => panic!("not a reply: {other:?}"),
    }
}

fn result(title: Option<&str>, authors: &[&str], tags: &[&str]) -> SyncResult {
    SyncResult {
        page_url: "https://telegra.ph/x-1".to_string(),
        title: title.map(str::to_string),
        authors: Some(strings(authors)),
        tags: Some(strings(tags)),
    }
}

const EH: &str = "https://e-hentai.org/g/1/ab";
const EX: &str = "https://exhentai.org/g/1/ab";
const PIXIV: &str = "https://www.pixiv.net/artworks/9";

#[test]
fn addresses_in_a_text() {
    assert_eq!(
        collect_urls_from_text(&format!("{PIXIV} {EH} {PIXIV} {EX} {EH}")),
        [PIXIV, EH, EX]
    );
    let illust = "https://www.pixiv.net/member_illust.php?illust_id=x&mode=m&illust_id=12";
    let mixed = format!("see{illust}illust_id=3 x{EH}-b.https://nhentai.net/g/12ab {PIXIV}?a#{EX}/");
    let found = collect_urls_from_text(&mixed);
    assert_eq!(found.len(), 5);
    for url in &found {
        assert_eq!(Synchronizer::match_url_from_url(url), Some(url.as_str()));
    }
    let text = format!("{EH}, then {PIXIV}; again {EH} and {EX}");
    assert_eq!(collect_urls_from_text(&text), [EH, PIXIV, EX]);
    assert!(collect_urls_from_text("nothing").is_empty());
    assert!(collect_urls_from_text("").is_empty());
    assert_eq!(collect_urls_from_text(EH), [EH]);
    assert_eq!(after_url("axbx", "x"), Some("bx"));
    assert_eq!(after_url("ab", "b"), None);
    assert_eq!(after_url("日本x語", "本"), Some("x語"));
}

#[test]
fn addresses_of_a_message() {
    let links = strings(&[EX, "https://example.com", EH, "see https://e-hentai.org/g/2/cd"]);
    assert_eq!(collect_urls(Some(EH), &links), [EH, EX]);
    assert_eq!(collect_urls(None, &links), [EX, EH]);
    let mut urls = strings(&["a"]);
    push_unique_url(&mut urls, "b".to_string());
    push_unique_url(&mut urls, "a".to_string());
    assert_eq!(urls, ["a", "b"]);
    assert_eq!(or_argument(vec![], "x"), ["x"]);
    assert_eq!(or_argument(strings(&["a"]), "x"), ["a"]);
}

#[test]
fn keys_of_batches() {
    assert_eq!(key(), BatchKey { chat_id: -5, user_id: 7 });
    assert_eq!(BatchKey::from_message(1, None), BatchKey { chat_id: 1, user_id: 0 });
}

#[test]
fn sites_of_addresses() {
    let site = |url: &str| BatchSource::from_url(url).map_err(|e| e.message);
    assert_eq!(site(EH), Ok(BatchSource::EHentai));
    assert_eq!(site(EX), Ok(BatchSource::ExHentai));
    assert_eq!(site("https://nhentai.net/g/1"), Ok(BatchSource::NHentai));
    assert_eq!(site("https://nhentai.to/g/1"), Ok(BatchSource::NHentai));
    assert_eq!(site(PIXIV), Ok(BatchSource::Pixiv));
    assert_eq!(site("https://pixiv.net/x"), Ok(BatchSource::Pixiv));
    assert_eq!(site("https://example.com"), Err("no matching collector".to_string()));
    assert_eq!(site("mailto:x"), Err("no matching collector".to_string()));
    assert_eq!(site("no url"), Err("Invalid url".to_string()));
    let names = [
        BatchSource::EHentai.name(),
        BatchSource::ExHentai.name(),
        BatchSource::NHentai.name(),
        BatchSource::Pixiv.name(),
    ];
    assert_eq!(names, ["e-hentai", "exhentai", "nhentai", "pixiv"]);
    assert_eq!(BatchSource::from_host("e-hentai.org."), None);
}

#[test]
fn routes() {
    let r = route("https://pixiv.net/member_illust.php?mode=medium&illust_id=9#x").unwrap();
    assert_eq!(r.source, BatchSource::Pixiv);
    assert_eq!(r.path, "/member_illust.php?mode=medium&illust_id=9");
    let r = route("https://E-Hentai.org/g/1/ab?p=2").unwrap();
    assert_eq!((r.source, r.path.as_str()), (BatchSource::EHentai, "/g/1/ab"));
    assert_eq!(route("https://example.com").unwrap_err().message, "no matching collector");
    assert_eq!(route("x").unwrap_err().message, "Invalid url");
    let parts = UrlParts {
        scheme: String::new(),
        username: String::new(),
        password: None,
        host: Some("www.pixiv.net".to_string()),
        path: "/a".to_string(),
        query: Some("q".to_string()),
        text: String::new(),
    };
    assert_eq!(route_parts(parts).unwrap().path, "/a?q");
}

#[test]
fn the_first_link_locks_the_source() {
    let mut session = BatchSession::new();
    let refused = session.offer_all(strings(&["x", EH, EX, EH]));
    assert_eq!(
        refused,
        [
            "x: Invalid url".to_string(),
            format!("{EX}: source exhentai does not match locked source e-hentai"),
        ]
    );
    assert_eq!(session.submitted_links, [EH, EH]);
    assert_eq!(session.source, Some(BatchSource::EHentai));
    assert!(session.wake());
    assert!(!session.wake());
    assert!(!session.is_drained());
    assert_eq!(session.next_item().as_deref(), Some(EH));
    assert_eq!(session.next_item().as_deref(), Some(EH));
    assert_eq!(session.next_item(), None);
    assert!(session.is_drained());
}

#[test]
fn batches_have_a_limit_on_links() {
    let mut session = BatchSession::new();
    for _ in 0..MAX_BATCH_LINKS {
        assert_eq!(session.offer(EH.to_string(), Ok(BatchSource::EHentai)), None);
    }
    assert_eq!(
        session.offer(EH.to_string(), Ok(BatchSource::EHentai)),
        Some(format!("{EH}: batch link limit 100 reached"))
    );
    assert_eq!(session.queue.len(), 100);
}

#[test]
fn batches_have_a_limit_on_images() {
    let mut session = BatchSession::new();
    session.record("a".to_string(), Ok(gallery("a", MAX_BATCH_IMAGES - 1)));
    session.record("b".to_string(), Ok(gallery("b", 2)));
    session.record("c".to_string(), Ok(gallery("c", 1)));
    session.record("d".to_string(), Err(failure("down")));
    assert_eq!(session.image_count, 5000);
    assert_eq!(session.galleries.len(), 2);
    let failures: Vec<(&str, &str)> =
        session.failures.iter().map(|f| (f.url.as_str(), f.error.as_str())).collect();
    assert_eq!(failures, [("b", "batch image limit 5000 would be exceeded"), ("d", "down")]);
    let closed = session.hand_over();
    assert_eq!((closed.galleries.len(), closed.failures.len(), closed.image_count), (2, 2, 5000));
    assert_eq!(session.image_count, 5000);
    assert!(session.galleries.is_empty());
}

#[test]
fn a_batch_from_start_to_end() {
    let mut batches = Batches::new();
    let other = BatchKey { chat_id: 1, user_id: 1 };
    assert!(batches.enqueue_batch_urls(key(), strings(&[EH])).is_none());
    assert!(matches!(
        batches.finish_batch(key()),
        FinishStep::Refused("No active batch. Use /batch first.")
    ));
    assert_eq!(
        batches.start_batch(key()),
        "Batch stash started.\nSend supported gallery links. The first accepted link locks the source for this batch. Images are cached while links are processed. Use /batch_end to publish."
    );
    batches.start_batch(other);
    let queued = batches
        .enqueue_batch_urls(key(), strings(&[EH, "1", "2", "3", "4", "5"]))
        .unwrap();
    assert!(queued.start_worker);
    assert_eq!(
        queued.reply,
        "Batch queue updated.\nAccepted: 1\nRejected: 5\nSource: e-hentai\nWaiting: 1\nStashed galleries: 0\nCached images: 0\nRejected details:\n- 1: Invalid url\n- 2: Invalid url\n- 3: Invalid url\n- and 2 more"
    );
    assert!(!batches.enqueue_batch_urls(key(), strings(&[EH])).unwrap().start_worker);
    assert_eq!(batches.next_item(key()).as_deref(), Some(EH));
    batches.record(key(), EH.to_string(), Ok(gallery(EH, 2)));
    assert_eq!(
        batches.start_batch(key()),
        "Batch is already active.\nSource: e-hentai\nQueued: 1\nStashed galleries: 1\nCached images: 2\nUse /batch_end to publish."
    );
    assert!(matches!(
        batches.finish_batch(key()),
        FinishStep::Closing("Finishing batch. Waiting for the stash queue to drain...")
    ));
    batches.reopen(key());
    batches.finish_batch(key());
    assert!(matches!(
        batches.finish_batch(key()),
        FinishStep::Refused("This batch is already being finalized.")
    ));
    let late = batches.enqueue_batch_urls(key(), strings(&[EH])).unwrap();
    assert_eq!(late.reply, "Batch is already closing; no more links are accepted.");
    assert!(!late.start_worker);
    let (state, action) = batches.finish_step(key(), FinishState::Draining, FinishEvent::Look);
    assert!(matches!(state, FinishState::Draining) && matches!(action, FinishAction::Wait));
    assert_eq!(batches.next_item(key()).as_deref(), Some(EH));
    batches.record(key(), EH.to_string(), Err(failure("down")));
    let (state, action) = batches.finish_step(key(), state, FinishEvent::Look);
    assert!(matches!(action, FinishAction::Wait));
    assert_eq!(batches.next_item(key()), None);
    let (state, action) = batches.finish_step(key(), state, FinishEvent::Look);
    match action {
        FinishAction::Publish { galleries, links } => {
            assert_eq!(galleries.len(), 1);
            assert_eq!(links, [EH, EH]);
        }
        other => panic!("{other:?}"),
    }
    let (_, action) = batches.finish_step(key(), FinishState::Draining, FinishEvent::Look);
    assert!(matches!(action, FinishAction::End));
    batches.reopen(key());
    let late = batches.enqueue_batch_urls(key(), strings(&[EH])).unwrap();
    assert_eq!(late.reply, "Batch is already closing; no more links are accepted.");
    let event = FinishEvent::Published(Err(failure("FLOOD.")));
    let (state, action) = batches.finish_step(key(), state, event);
    match action {
        FinishAction::Tell(text) => assert_eq!(
            text,
            "Batch publish failed\\.\nSource: e\\-hentai\nGalleries stashed: 1\nCached images: 2\nError: FLOOD\\."
        ),
        other => panic!("{other:?}"),
    }
    let (state, action) = batches.finish_step(key(), state, FinishEvent::Told);
    assert!(matches!(state, FinishState::Ended) && matches!(action, FinishAction::End));
    assert!(batches.enqueue_batch_urls(key(), strings(&[EH])).is_none());
    assert!(batches.enqueue_batch_urls(other, strings(&[PIXIV])).is_some());
}

#[test]
fn a_batch_without_galleries_ends_too() {
    let mut batches = Batches::new();
    batches.start_batch(key());
    batches.finish_batch(key());
    let (state, action) = batches.finish_step(key(), FinishState::Draining, FinishEvent::Look);
    match action {
        FinishAction::Tell(text) => assert_eq!(
            text,
            "Batch finished without a publishable gallery\\.\nSource: not selected\nFailed: 0"
        ),
        other => panic!("{other:?}"),
    }
    batches.finish_step(key(), state, FinishEvent::Told);
    assert!(matches!(batches.finish_batch(key()), FinishStep::Refused(_)));
    assert!(batches.start_batch(key()).starts_with("Batch stash started."));
}

#[test]
fn what_is_said_of_a_finished_batch() {
    let mut session = BatchSession::new();
    session.offer(EH.to_string(), Ok(BatchSource::EHentai));
    for i in 0..6 {
        session.record(format!("u{i}"), Err(failure("down")));
    }
    let text = match session.hand_over().conclude() {
        Conclusion::Nothing(text) => text,
        other => panic!("{other:?}"),
    };
    assert_eq!(
        text,
        "Batch finished without a publishable gallery.\nSource: e-hentai\nFailed: 6\n- u0: down\n- u1: down\n- u2: down\n- u3: down\n- u4: down"
    );
    let mut session = BatchSession::new();
    session.record("a".to_string(), Ok(gallery("a", 3)));
    let summary = match session.hand_over().conclude() {
        Conclusion::Publish { galleries, links, summary } => {
            assert_eq!((galleries.len(), links.len()), (1, 0));
            summary
        }
        other => panic!("{other:?}"),
    };
    assert_eq!(
        summary.finished(&Ok(result(Some("T."), &["a", "b"], &["x y"]))),
        "Batch sync finished\nSource: not selected\nGalleries: 1\nCached images: 3\nFailed galleries: 0\nTitle: T.\nAuthors: a, b\nTags: #x_y\nURL: https://telegra.ph/x-1"
    );
    assert_eq!(
        summary.finished(&Err(failure("FLOOD"))),
        "Batch publish failed.\nSource: not selected\nGalleries stashed: 1\nCached images: 3\nError: FLOOD"
    );
}

#[test]
fn what_is_said_of_a_synchronization() {
    assert_eq!(
        sync_response(&Ok(result(Some("A_b"), &["x.", "y"], &["a b", "c"]))),
        "Sync to telegraph finished\nTitle: A\\_b\nAuthors: x\\., y\nTags: \\#a\\_b \\#c\nURL: https://telegra\\.ph/x\\-1"
    );
    assert_eq!(
        sync_response(&Ok(result(None, &[], &[]))),
        "Sync to telegraph finished\nURL: https://telegra\\.ph/x\\-1"
    );
    assert_eq!(
        sync_response(&Err(failure("no!"))),
        "Sync to telegraph failed: no\\!"
    );
    let many: Vec<String> = (0..20).map(|i| format!("t{i}")).collect();
    let many: Vec<&str> = many.iter().map(|s| s.as_str()).collect();
    let text = sync_response(&Ok(result(None, &[], &many)));
    assert!(text.contains("\\#t11\n"));
    assert!(!text.contains("t12"));
}

#[test]
fn commands() {
    let mut h = handler();
    let mut ask = |command| h.respond_cmd(key(), command, "Help!", "v1.0");
    assert_eq!(reply(ask(Command::Help)), "Help\\!");
    assert_eq!(reply(ask(Command::Version)), "v1\\.0");
    assert_eq!(
        reply(ask(Command::Id)),
        "Current chat id is `-5` \\(in private chat this is your account id\\)"
    );
    assert_eq!(reply(ask(Command::Sync(String::new()))), "Usage: /sync url");
    match ask(Command::Sync("x-y".to_string())) {
        Step::Sync { url, notice } => {
            assert_eq!(url, "x-y");
            assert_eq!(notice, "Syncing url x\\-y");
        }
        other => panic!("{other:?}"),
    }
    assert_eq!(reply(ask(Command::BatchEnd)), "No active batch\\. Use /batch first\\.");
    assert!(reply(ask(Command::Batch)).starts_with("Batch stash started\\."));
    match ask(Command::Sync("x-y".to_string())) {
        Step::Queued { reply, start_worker } => {
            assert!(reply.ends_with("Rejected details:\n\\- x\\-y: Invalid url"));
            assert!(!start_worker);
        }
        other => panic!("{other:?}"),
    }
    match ask(Command::Sync(format!("{EH} {EX}"))) {
        Step::Queued { reply, start_worker } => {
            assert!(reply.starts_with("Batch queue updated\\.\nAccepted: 1\nRejected: 1\n"));
            assert!(start_worker);
        }
        other => panic!("{other:?}"),
    }
    match ask(Command::BatchEnd) {
        Step::Finish { notice } => assert_eq!(
            notice,
            "Finishing batch\\. Waiting for the stash queue to drain\\.\\.\\."
        ),
        other => panic!("{other:?}"),
    }
}

#[test]
fn commands_of_administrators() {
    let h = handler();
    assert!(h.is_admin(1) && !h.is_admin(3));
    let delete = || AdminCommand::Delete("a|b".to_string());
    assert_eq!(reply(h.respond_admin_cmd(delete(), Ok(()))), "Key a\\|b deleted\\.");
    assert_eq!(
        reply(h.respond_admin_cmd(delete(), Err(failure("x")))),
        "Failed to delete key a\\|b: x"
    );
}

#[test]
fn messages() {
    let mut h = handler();
    assert!(matches!(h.respond_text(key(), Some("hi"), &vec![]), Step::Continue));
    assert!(matches!(h.respond_urls(key(), vec![]), Step::Continue));
    match h.respond_caption(key(), Some("hi"), &strings(&[EX])) {
        Step::Sync { url, .. } => assert_eq!(url, EX),
        other => panic!("{other:?}"),
    }
    match h.respond_text(key(), Some(&format!("{EH} {EX}")), &vec![]) {
        Step::Sync { url, .. } => assert_eq!(url, EH),
        other => panic!("{other:?}"),
    }
    h.respond_cmd(key(), Command::Batch, "", "");
    match h.respond_text(key(), Some(&format!("{EH} {EX}")), &vec![]) {
        Step::Queued { start_worker, .. } => assert!(start_worker),
        other => panic!("{other:?}"),
    }
    assert_eq!(reply(h.respond_default(true)), "Unrecognized message\\.");
    assert!(matches!(h.respond_default(false), Step::Done));
}

#[test]
fn branches_are_tried_in_order() {
    let mut facts = MessageFacts {
        from_admin: false,
        admin_command: true,
        command: false,
        text: true,
        caption: false,
        photo: true,
    };
    assert_eq!(next_branch(None, facts), Branch::Text);
    assert_eq!(next_branch(Some(Branch::Text), facts), Branch::Photo);
    assert_eq!(next_branch(Some(Branch::Photo), facts), Branch::Default);
    facts.from_admin = true;
    facts.command = true;
    facts.caption = true;
    assert_eq!(next_branch(None, facts), Branch::AdminCommand);
    assert_eq!(next_branch(Some(Branch::AdminCommand), facts), Branch::Command);
    assert_eq!(next_branch(Some(Branch::Command), facts), Branch::Text);
    assert_eq!(next_branch(Some(Branch::Text), facts), Branch::Caption);
}

#[test]
fn photos() {
    let mut h = handler();
    assert!(matches!(h.respond_photo(key(), None), Step::Continue));
    match h.respond_photo(key(), Some(EH.to_string())) {
        Step::Sync { url, .. } => assert_eq!(url, EH),
        other => panic!("{other:?}"),
    }
    assert_eq!(
        reply(photo_failed(PhotoError::NoFile)),
        "Failed to get the image file from Telegram\\."
    );
    assert_eq!(
        reply(photo_failed(PhotoError::NoDownload)),
        "Failed to download the image file from Telegram\\."
    );
    assert_eq!(
        reply(photo_failed(PhotoError::NoSearch)),
        "Image search failed\\. Please try again later\\."
    );
}

#[test]
fn found_images() {
    let found = || {
        vec![
            FoundImage { similarity: 99, at: FoundAt::Elsewhere },
            FoundImage { similarity: 49, at: FoundAt::NHentai("1".to_string()) },
            FoundImage { similarity: 50, at: FoundAt::EHentai("h".to_string()) },
            FoundImage { similarity: 70, at: FoundAt::NHentai("2".to_string()) },
        ]
    };
    let mut search = PhotoSearch::new(found(), true);
    match search.next() {
        PhotoStep::Convert { f_hash, similarity } => assert_eq!((f_hash.as_str(), similarity), ("h", 50)),
        other => panic!("{other:?}"),
    }
    match search.next() {
        PhotoStep::Matched { url, similarity } => {
            assert_eq!((url.as_str(), similarity), ("https://nhentai.net/g/2/", 70))
        }
        other => panic!("{other:?}"),
    }
    assert!(matches!(search.next(), PhotoStep::NotFound));
    let mut search = PhotoSearch::new(found(), false);
    assert!(matches!(search.next(), PhotoStep::Matched { similarity: 70, .. }));
}

#[test]
fn images_whose_album_is_asked_for() {
    let on_eh = |similarity: u8, hash: &str| FoundImage {
        similarity,
        at: FoundAt::EHentai(hash.to_string()),
    };
    let found = || vec![on_eh(90, "a"), on_eh(10, "b"), on_eh(80, "c")];

    let mut search = PhotoSearch::new(found(), false);
    assert!(matches!(search.next(), PhotoStep::Convert { similarity: 90, .. }));
    match search.converted(Ok(EH.to_string()), 90) {
        PhotoStep::Matched { url, similarity } => assert_eq!((url.as_str(), similarity), (EH, 90)),
        other => panic!("{other:?}"),
    }
    assert_eq!(search.images.len(), 2);

    let mut search = PhotoSearch::new(found(), false);
    search.next();
    match search.converted(Err(failure("gone")), 90) {
        PhotoStep::Convert { f_hash, similarity } => {
            assert_eq!((f_hash.as_str(), similarity), ("c", 80))
        }
        other => panic!("{other:?}"),
    }
    assert!(matches!(search.converted(Err(failure("gone")), 80), PhotoStep::NotFound));
}
