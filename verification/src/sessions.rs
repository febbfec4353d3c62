//! The batches of all users, and what the users are told about them.

use crate::batch::{
    empty_session, failure_texts, handed_over, offered_all, offers_are_taken_or_refused, selected,
    selected_name, stash_recorded, stash_result, BatchKey, BatchSession, BatchSource, Closed,
    SessionView,
};
use crate::error::Error;
use crate::message::{album_lines, sync_result, write_album};
use crate::outside::{escape_markdown, escaped};
use crate::sync::{MetaView, StashedGallery, SyncResult};
use crate::text::{decimal, number, opt_text, texts};
use vstd::prelude::*;
use vstd::string::*;

verus! {

/// So many refused links are explained.
pub const SHOWN_REFUSALS: usize = 3;

/// So many failures are explained.
pub const SHOWN_FAILURES: usize = 5;

// ---------------------------------------------------------------------------
// Texts
// ---------------------------------------------------------------------------

/// What is said to someone who starts a batch and has one already.
pub open spec fn active_text(s: SessionView) -> Seq<char> {
    "Batch is already active.\nSource: "@ + selected(s.source) + "\nQueued: "@ + decimal(
        s.queue.len(),
    ) + "\nStashed galleries: "@ + decimal(s.galleries.len()) + "\nCached images: "@ + decimal(
        s.image_count,
    ) + "\nUse /batch_end to publish."@
}

/// What is said to someone who starts a batch and has none.
pub open spec fn started_text() -> Seq<char> {
    "Batch stash started.\nSend supported gallery links. The first accepted link locks the source for this batch. Images are cached while links are processed. Use /batch_end to publish."@
}

/// Items one below the other.
pub open spec fn listed(items: Seq<Seq<char>>) -> Seq<char>
    decreases items.len(),
{
    if items.len() == 0 {
        ""@
    } else {
        listed(items.drop_last()) + "\n- "@ + items.last()
    }
}

/// The first `n` of the items.
pub open spec fn first_of<A>(items: Seq<A>, n: nat) -> Seq<A> {
    if items.len() <= n {
        items
    } else {
        items.take(n as int)
    }
}

/// Why links were refused, as far as it is told.
pub open spec fn refusal_text(refused: Seq<Seq<char>>) -> Seq<char> {
    if refused.len() == 0 {
        ""@
    } else {
        "\nRejected details:"@ + listed(first_of(refused, SHOWN_REFUSALS as nat)) + (
        if refused.len() > SHOWN_REFUSALS {
            "\n- and "@ + decimal((refused.len() - SHOWN_REFUSALS) as nat) + " more"@
        } else {
            ""@
        })
    }
}

/// What is said of links that were offered to a batch, which is now `s`.
pub open spec fn queue_text(s: SessionView, accepted: nat, refused: Seq<Seq<char>>) -> Seq<char> {
    "Batch queue updated.\nAccepted: "@ + decimal(accepted) + "\nRejected: "@ + decimal(
        refused.len(),
    ) + "\nSource: "@ + selected(s.source) + "\nWaiting: "@ + decimal(s.queue.len())
        + "\nStashed galleries: "@ + decimal(s.galleries.len()) + "\nCached images: "@ + decimal(
        s.image_count,
    ) + refusal_text(refused)
}

/// A link that failed, and why.
pub open spec fn failure_line(failure: (Seq<char>, Seq<char>)) -> Seq<char> {
    failure.0 + ": "@ + failure.1
}

/// Links that failed, and why.
pub open spec fn failure_lines(failures: Seq<(Seq<char>, Seq<char>)>) -> Seq<Seq<char>> {
    failures.map_values(|f: (Seq<char>, Seq<char>)| failure_line(f))
}

/// What is said of a batch without any gallery.
pub open spec fn nothing_text(
    source: Option<BatchSource>,
    failures: Seq<(Seq<char>, Seq<char>)>,
) -> Seq<char> {
    "Batch finished without a publishable gallery.\nSource: "@ + selected(source) + "\nFailed: "@
        + decimal(failures.len()) + listed(
        failure_lines(first_of(failures, SHOWN_FAILURES as nat)),
    )
}

/// What is said of a batch that was published, or could not be.
pub open spec fn finished_text(
    source: Option<BatchSource>,
    galleries: nat,
    images: nat,
    failed: nat,
    r: Result<(Seq<char>, MetaView), Seq<char>>,
) -> Seq<char> {
    match r {
        Ok((url, meta)) => "Batch sync finished\nSource: "@ + selected(source) + "\nGalleries: "@
            + decimal(galleries) + "\nCached images: "@ + decimal(images)
            + "\nFailed galleries: "@ + decimal(failed) + "\n"@ + album_lines(url, meta, false),
        Err(e) => "Batch publish failed.\nSource: "@ + selected(source)
            + "\nGalleries stashed: "@ + decimal(galleries) + "\nCached images: "@ + decimal(
            images,
        ) + "\nError: "@ + e,
    }
}

/// Lists name all their items, in their order, each on a line of its own; of many items the first are
/// taken.
pub proof fn lists_name_their_items(a: Seq<Seq<char>>, b: Seq<Seq<char>>, item: Seq<char>, n: nat)
    ensures
        listed(Seq::empty()) == Seq::<char>::empty(),
        listed(seq![item]) == "\n- "@ + item,
        listed(a + b) == listed(a) + listed(b),
        a.len() <= n ==> first_of(a, n) == a,
        a.len() > n ==> first_of(a, n) == a.take(n as int),
    decreases b.len(),
{
    reveal_strlit("");
    assert(""@ =~= Seq::empty());
    let one = seq![item];
    assert(one.drop_last() =~= Seq::empty());
    assert(listed(one.drop_last()) =~= Seq::empty());
    assert(listed(one) =~= "\n- "@ + item);
    if b.len() > 0 {
        lists_name_their_items(a, b.drop_last(), item, n);
        assert((a + b).drop_last() =~= a + b.drop_last());
        assert((a + b).last() == b.last());
        assert(listed(a + b) =~= listed(a) + listed(b));
    } else {
        assert(a + b =~= a);
        assert(listed(a) + listed(b) =~= listed(a));
    }
}

/// What users are told of their links: how many were taken and how many were not, and of the first three
/// that were not why; and how the batch stands.
pub proof fn users_are_told_of_their_links(s: SessionView, accepted: nat, refused: Seq<Seq<char>>)
    ensures
        refused.len() == 0 ==> refusal_text(refused) == Seq::<char>::empty(),
        0 < refused.len() <= 3 ==> refusal_text(refused) == "\nRejected details:"@ + listed(refused),
        refused.len() > 3 ==> refusal_text(refused) == "\nRejected details:"@ + listed(refused.take(3))
            + "\n- and "@ + decimal((refused.len() - 3) as nat) + " more"@,
        queue_text(s, accepted, refused) == "Batch queue updated.\nAccepted: "@ + decimal(accepted)
            + "\nRejected: "@ + decimal(refused.len()) + "\nSource: "@ + selected(s.source)
            + "\nWaiting: "@ + decimal(s.queue.len()) + "\nStashed galleries: "@ + decimal(
            s.galleries.len(),
        ) + "\nCached images: "@ + decimal(s.image_count) + refusal_text(refused),
        active_text(s) == "Batch is already active.\nSource: "@ + selected(s.source)
            + "\nQueued: "@ + decimal(s.queue.len()) + "\nStashed galleries: "@ + decimal(
            s.galleries.len(),
        ) + "\nCached images: "@ + decimal(s.image_count) + "\nUse /batch_end to publish."@,
{
    reveal_strlit("");
    assert(""@ =~= Seq::empty());
    if refused.len() > 0 {
        let head = "\nRejected details:"@;
        assert(head + listed(refused) + ""@ =~= head + listed(refused));
        if refused.len() > 3 {
            let shown = listed(refused.take(3));
            let more = decimal((refused.len() - 3) as nat);
            assert(head + shown + ("\n- and "@ + more + " more"@) =~= head + shown + "\n- and "@ + more
                + " more"@);
        }
    }
}

/// What users are told of a batch that has ended: where there was nothing to publish, how many links
/// failed, and of the first five why; else how many galleries and images it has and how many links failed,
/// and what came of publishing it.
pub proof fn users_are_told_how_it_ended(
    source: Option<BatchSource>,
    failures: Seq<(Seq<char>, Seq<char>)>,
    galleries: nat,
    images: nat,
    failed: nat,
    url: Seq<char>,
    meta: MetaView,
    e: Seq<char>,
)
    ensures
        nothing_text(source, failures) == "Batch finished without a publishable gallery.\nSource: "@
            + selected(source) + "\nFailed: "@ + decimal(failures.len()) + listed(
            (if failures.len() <= 5 {
                failures
            } else {
                failures.take(5)
            }).map_values(|f: (Seq<char>, Seq<char>)| f.0 + ": "@ + f.1),
        ),
        finished_text(source, galleries, images, failed, Ok((url, meta)))
            == "Batch sync finished\nSource: "@ + selected(source) + "\nGalleries: "@ + decimal(
            galleries,
        ) + "\nCached images: "@ + decimal(images) + "\nFailed galleries: "@ + decimal(failed)
            + "\n"@ + album_lines(url, meta, false),
        finished_text(source, galleries, images, failed, Err(e))
            == "Batch publish failed.\nSource: "@ + selected(source) + "\nGalleries stashed: "@
            + decimal(galleries) + "\nCached images: "@ + decimal(images) + "\nError: "@ + e,
{
    let first = if failures.len() <= 5 {
        failures
    } else {
        failures.take(5)
    };
    assert(failure_lines(first_of(failures, 5)) =~= first.map_values(
        |f: (Seq<char>, Seq<char>)| f.0 + ": "@ + f.1,
    ));
}

fn count(n: usize) -> (r: String)
    ensures
        r@ == decimal(n as nat),
{
    number(n as u64)
}

fn write_active(s: &BatchSession) -> (r: String)
    ensures
        r@ == active_text(s@),
{
    assert(s@.queue.len() == s.queue@.len());
    let mut out = "Batch is already active.\nSource: ".to_owned();
    out.append(selected_name(s.source));
    out.append("\nQueued: ");
    out.append(count(s.queue.len()).as_str());
    out.append("\nStashed galleries: ");
    out.append(count(s.galleries.len()).as_str());
    out.append("\nCached images: ");
    out.append(count(s.image_count).as_str());
    out.append("\nUse /batch_end to publish.");
    out
}

fn write_list(items: &Vec<String>, limit: usize) -> (r: String)
    ensures
        r@ == listed(first_of(texts(items@), limit as nat)),
{
    let ghost all = first_of(texts(items@), limit as nat);
    let mut out = "".to_owned();
    let mut i: usize = 0;
    assert(all.take(0) =~= Seq::empty());
    while i < items.len() && i < limit
        invariant
            i <= items.len(),
            i <= limit,
            all == first_of(texts(items@), limit as nat),
            out@ == listed(all.take(i as int)),
        decreases items.len() - i,
    {
        assert(all.take(i + 1).drop_last() =~= all.take(i as int));
        assert(all.take(i + 1).last() == items@[i as int]@);
        out.append("\n- ");
        out.append(items[i].as_str());
        i += 1;
    }
    assert(all.take(i as int) =~= all);
    out
}

fn write_refusals(refused: &Vec<String>) -> (r: String)
    ensures
        r@ == refusal_text(texts(refused@)),
{
    assert(texts(refused@).len() == refused.len());
    if refused.len() == 0 {
        return "".to_owned();
    }
    let mut more = "".to_owned();
    if refused.len() > SHOWN_REFUSALS {
        more = "\n- and ".to_owned();
        more.append(count(refused.len() - SHOWN_REFUSALS).as_str());
        more.append(" more");
    }
    let mut out = "\nRejected details:".to_owned();
    out.append(write_list(refused, SHOWN_REFUSALS).as_str());
    out.append(more.as_str());
    out
}

fn write_queue(s: &BatchSession, accepted: usize, refused: &Vec<String>) -> (r: String)
    ensures
        r@ == queue_text(s@, accepted as nat, texts(refused@)),
{
    assert(s@.queue.len() == s.queue@.len());
    assert(texts(refused@).len() == refused.len());
    let mut out = "Batch queue updated.\nAccepted: ".to_owned();
    out.append(count(accepted).as_str());
    out.append("\nRejected: ");
    out.append(count(refused.len()).as_str());
    out.append("\nSource: ");
    out.append(selected_name(s.source));
    out.append("\nWaiting: ");
    out.append(count(s.queue.len()).as_str());
    out.append("\nStashed galleries: ");
    out.append(count(s.galleries.len()).as_str());
    out.append("\nCached images: ");
    out.append(count(s.image_count).as_str());
    out.append(write_refusals(refused).as_str());
    out
}

/// What the text about a closed batch needs, once its galleries have gone to the synchronizer.
#[derive(Debug)]
pub struct Summary {
    pub source: Option<BatchSource>,
    pub gallery_count: usize,
    pub image_count: usize,
    pub failed: usize,
}

/// How a closed batch is brought to its end.
#[derive(Debug)]
pub enum Conclusion {
    /// There is nothing to publish; this is said.
    Nothing(String),
    /// The galleries are to be published, with these links.
    Publish { galleries: Vec<StashedGallery>, links: Vec<String>, summary: Summary },
}

impl Closed {
    /// How the batch is brought to its end: it is published, unless nothing could be stashed.
    pub fn conclude(self) -> (r: Conclusion)
        ensures
            match r {
                Conclusion::Nothing(text) => self.galleries@.len() == 0 && text@ == nothing_text(
                    self.source,
                    failure_texts(self.failures@),
                ),
                Conclusion::Publish { galleries, links, summary } => {
                    &&& self.galleries@.len() > 0
                    &&& galleries == self.galleries
                    &&& links == self.links
                    &&& summary.source == self.source
                    &&& summary.gallery_count == self.galleries@.len()
                    &&& summary.image_count == self.image_count
                    &&& summary.failed == self.failures@.len()
                },
            },
    {
        if self.galleries.len() == 0 {
            Conclusion::Nothing(self.nothing_published())
        } else {
            let summary = self.summary();
            Conclusion::Publish { galleries: self.galleries, links: self.links, summary }
        }
    }

    /// What is said of a batch without any gallery.
    pub fn nothing_published(&self) -> (r: String)
        ensures
            r@ == nothing_text(self.source, failure_texts(self.failures@)),
    {
        let ghost all = failure_texts(self.failures@);
        let mut out = "Batch finished without a publishable gallery.\nSource: ".to_owned();
        out.append(selected_name(self.source));
        out.append("\nFailed: ");
        out.append(count(self.failures.len()).as_str());
        let mut lines: Vec<String> = Vec::new();
        let mut i: usize = 0;
        while i < self.failures.len()
            invariant
                i <= self.failures.len(),
                lines.len() == i,
                all == failure_texts(self.failures@),
                forall|j: int| 0 <= j < i ==> (#[trigger] lines@[j])@ == failure_line(all[j]),
            decreases self.failures.len() - i,
        {
            let mut line = self.failures[i].url.clone();
            line.append(": ");
            line.append(self.failures[i].error.as_str());
            lines.push(line);
            i += 1;
        }
        assert(first_of(texts(lines@), SHOWN_FAILURES as nat) =~= failure_lines(
            first_of(all, SHOWN_FAILURES as nat),
        ));
        out.append(write_list(&lines, SHOWN_FAILURES).as_str());
        out
    }

    /// What the text about the batch needs.
    pub fn summary(&self) -> (r: Summary)
        ensures
            r.source == self.source,
            r.gallery_count == self.galleries@.len(),
            r.image_count == self.image_count,
            r.failed == self.failures@.len(),
    {
        Summary {
            source: self.source,
            gallery_count: self.galleries.len(),
            image_count: self.image_count,
            failed: self.failures.len(),
        }
    }
}

impl Summary {
    /// What is said of a batch that was published, or could not be.
    pub fn finished(&self, result: &Result<SyncResult, Error>) -> (r: String)
        ensures
            r@ == finished_text(
                self.source,
                self.gallery_count as nat,
                self.image_count as nat,
                self.failed as nat,
                sync_result(*result),
            ),
    {
        match result {
            Ok(x) => {
                let mut out = "Batch sync finished\nSource: ".to_owned();
                out.append(selected_name(self.source));
                out.append("\nGalleries: ");
                out.append(count(self.gallery_count).as_str());
                out.append("\nCached images: ");
                out.append(count(self.image_count).as_str());
                out.append("\nFailed galleries: ");
                out.append(count(self.failed).as_str());
                out.append("\n");
                out.append(write_album(x, false).as_str());
                out
            },
            Err(e) => {
                let mut out = "Batch publish failed.\nSource: ".to_owned();
                out.append(selected_name(self.source));
                out.append("\nGalleries stashed: ");
                out.append(count(self.gallery_count).as_str());
                out.append("\nCached images: ");
                out.append(count(self.image_count).as_str());
                out.append("\nError: ");
                out.append(e.message.as_str());
                out
            },
        }
    }
}

// ---------------------------------------------------------------------------
// All batches
// ---------------------------------------------------------------------------

/// The batch of one user.
#[derive(Debug)]
pub struct Entry {
    pub key: BatchKey,
    pub session: BatchSession,
}

/// The batches of all users: at most one for each key.
#[derive(Debug)]
pub struct Batches {
    entries: Vec<Entry>,
}

/// The batch under a key.
pub open spec fn lookup(entries: Seq<Entry>, key: BatchKey) -> Option<SessionView>
    decreases entries.len(),
{
    if entries.len() == 0 {
        None
    } else if entries.last().key == key {
        Some(entries.last().session@)
    } else {
        lookup(entries.drop_last(), key)
    }
}

/// No key occurs twice.
pub open spec fn unique_keys(entries: Seq<Entry>) -> bool {
    forall|i: int, j: int|
        0 <= i < j < entries.len() ==> (#[trigger] entries[i]).key != (#[trigger] entries[j]).key
}

proof fn lemma_lookup(entries: Seq<Entry>, key: BatchKey)
    requires
        unique_keys(entries),
    ensures
        forall|i: int|
            0 <= i < entries.len() && (#[trigger] entries[i]).key == key ==> lookup(entries, key)
                == Some(entries[i].session@),
        (forall|i: int| 0 <= i < entries.len() ==> (#[trigger] entries[i]).key != key) ==> lookup(
            entries,
            key,
        ) is None,
        lookup(entries, key) is Some ==> exists|i: int|
            0 <= i < entries.len() && (#[trigger] entries[i]).key == key,
    decreases entries.len(),
{
    if entries.len() > 0 {
        let before = entries.drop_last();
        assert forall|i: int, j: int| 0 <= i < j < before.len() implies (
        #[trigger] before[i]).key != (#[trigger] before[j]).key by {
            assert(before[i] == entries[i] && before[j] == entries[j]);
        }
        lemma_lookup(before, key);
        assert forall|i: int|
            0 <= i < entries.len() && (#[trigger] entries[i]).key == key implies lookup(
            entries,
            key,
        ) == Some(entries[i].session@) by {
            if i < before.len() {
                assert(before[i] == entries[i]);
                assert(entries[entries.len() - 1].key != key);
            }
        }
        assert forall|i: int| 0 <= i < before.len() && (#[trigger] before[i]).key
            == key implies entries[i].key == key by {
            assert(before[i] == entries[i]);
        }
        if lookup(entries, key) is Some {
            if entries.last().key == key {
                assert(entries[entries.len() - 1].key == key);
            } else {
                let i = choose|i: int| 0 <= i < before.len() && (#[trigger] before[i]).key == key;
                assert(entries[i].key == key);
            }
        }
        if forall|i: int| 0 <= i < entries.len() ==> (#[trigger] entries[i]).key != key {
            assert forall|i: int| 0 <= i < before.len() implies (#[trigger] before[i]).key
                != key by {
                assert(before[i] == entries[i]);
            }
            assert(entries[entries.len() - 1].key != key);
        }
    }
}

/// `b` holds what `a` holds, but for the batch under `key`.
pub open spec fn others_stay(a: Seq<Entry>, b: Seq<Entry>, key: BatchKey) -> bool {
    forall|k: BatchKey| k != key ==> #[trigger] lookup(b, k) == lookup(a, k)
}

proof fn lemma_updated(a: Seq<Entry>, b: Seq<Entry>, i: int)
    requires
        unique_keys(a),
        0 <= i < a.len(),
        b.len() == a.len(),
        b[i].key == a[i].key,
        forall|j: int| 0 <= j < a.len() && j != i ==> b[j] == a[j],
    ensures
        unique_keys(b),
        lookup(a, a[i].key) == Some(a[i].session@),
        lookup(b, a[i].key) == Some(b[i].session@),
        others_stay(a, b, a[i].key),
{
    assert forall|x: int, y: int| 0 <= x < y < b.len() implies (#[trigger] b[x]).key != (
    #[trigger] b[y]).key by {
        assert(a[x].key != a[y].key);
    }
    lemma_lookup(a, a[i].key);
    lemma_lookup(b, a[i].key);
    assert forall|k: BatchKey| k != a[i].key implies #[trigger] lookup(b, k) == lookup(a, k) by {
        lemma_lookup(a, k);
        lemma_lookup(b, k);
        if lookup(a, k) is Some {
            let j = choose|j: int| 0 <= j < a.len() && (#[trigger] a[j]).key == k;
            assert(b[j] == a[j]);
            assert(lookup(b, k) == Some(b[j].session@));
        }
        if lookup(b, k) is Some {
            let j = choose|j: int| 0 <= j < b.len() && (#[trigger] b[j]).key == k;
            assert(b[j] == a[j]);
            assert(lookup(a, k) == Some(a[j].session@));
        }
    }
}

proof fn lemma_removed(a: Seq<Entry>, b: Seq<Entry>, i: int)
    requires
        unique_keys(a),
        0 <= i < a.len(),
        b == a.remove(i),
    ensures
        unique_keys(b),
        lookup(b, a[i].key) is None,
        others_stay(a, b, a[i].key),
{
    assert forall|x: int| 0 <= x < b.len() implies #[trigger] b[x] == a[if x < i {
        x
    } else {
        x + 1
    }] by {}
    assert forall|x: int, y: int| 0 <= x < y < b.len() implies (#[trigger] b[x]).key != (
    #[trigger] b[y]).key by {}
    lemma_lookup(b, a[i].key);
    assert forall|x: int| 0 <= x < b.len() implies (#[trigger] b[x]).key != a[i].key by {}
    assert forall|k: BatchKey| k != a[i].key implies #[trigger] lookup(b, k) == lookup(a, k) by {
        lemma_lookup(a, k);
        lemma_lookup(b, k);
        if lookup(a, k) is Some {
            let j = choose|j: int| 0 <= j < a.len() && (#[trigger] a[j]).key == k;
            let x = if j < i {
                j
            } else {
                j - 1
            };
            assert(b[x] == a[j]);
            assert(lookup(b, k) == Some(b[x].session@));
        }
        if lookup(b, k) is Some {
            let x = choose|x: int| 0 <= x < b.len() && (#[trigger] b[x]).key == k;
            let j = if x < i {
                x
            } else {
                x + 1
            };
            assert(b[x] == a[j]);
            assert(lookup(a, k) == Some(a[j].session@));
        }
    }
}

/// What happens when links are sent to a batch.
#[derive(Debug)]
pub struct Enqueued {
    pub reply: String,
    pub start_worker: bool,
}

/// What links do to a batch.
pub open spec fn enqueued(s: SessionView, urls: Seq<Seq<char>>) -> SessionView {
    if s.closing {
        s
    } else {
        let t = offered_all(s, urls).0;
        SessionView { processing: t.processing || t.queue.len() > 0, ..t }
    }
}

/// What is said when links are sent to a batch.
pub open spec fn enqueue_text(s: SessionView, urls: Seq<Seq<char>>) -> Seq<char> {
    if s.closing {
        "Batch is already closing; no more links are accepted."@
    } else {
        let (t, refused) = offered_all(s, urls);
        queue_text(t, (urls.len() - refused.len()) as nat, refused)
    }
}

/// What happens when a batch is to be finished.
#[derive(Debug)]
pub enum FinishStep {
    /// Nothing but this reply.
    Refused(&'static str),
    /// The batch takes no more links; this is said while it drains.
    Closing(&'static str),
}

/// A batch is started, unless there is one already.
pub open spec fn starts(before: Batches, key: BatchKey, after: Batches) -> bool {
    &&& after.wf()
    &&& after.changes_only(before, key)
    &&& after.session(key) == (match before.session(key) {
        Some(s) => Some(s),
        None => Some(empty_session()),
    })
}

/// What is said to someone who starts a batch.
pub open spec fn start_text(s: Option<SessionView>) -> Seq<char> {
    match s {
        Some(t) => active_text(t),
        None => started_text(),
    }
}

/// Links are sent to the batch under a key, if there is one.
pub open spec fn enqueues(
    before: Batches,
    key: BatchKey,
    urls: Seq<Seq<char>>,
    after: Batches,
) -> bool {
    &&& after.wf()
    &&& after.changes_only(before, key)
    &&& after.session(key) == (match before.session(key) {
        Some(s) => Some(enqueued(s, urls)),
        None => None,
    })
}

/// A batch can be finished if it is there and is not being finished.
pub open spec fn can_finish(s: Option<SessionView>) -> bool {
    s matches Some(t) && !t.closing
}

/// What is said to someone who finishes a batch.
pub open spec fn finish_text(s: Option<SessionView>) -> Seq<char> {
    match s {
        None => "No active batch. Use /batch first."@,
        Some(t) => if t.closing {
            "This batch is already being finalized."@
        } else {
            "Finishing batch. Waiting for the stash queue to drain..."@
        },
    }
}

/// The batch under a key takes no more links, if there is one.
pub open spec fn finishes(before: Batches, key: BatchKey, after: Batches) -> bool {
    &&& after.wf()
    &&& after.changes_only(before, key)
    &&& after.session(key) == (match before.session(key) {
        Some(s) => Some(SessionView { closing: true, ..s }),
        None => None,
    })
}

/// Links that are sent to a batch are offered to it, one by one; a closing batch takes none. A worker runs
/// afterwards where one ran before or where there is work.
pub proof fn batches_take_links(s: SessionView, urls: Seq<Seq<char>>)
    ensures
        s.closing ==> enqueued(s, urls) == s && enqueue_text(s, urls)
            == "Batch is already closing; no more links are accepted."@,
        !s.closing ==> {
            let (t, refused) = offered_all(s, urls);
            &&& enqueued(s, urls).queue == t.queue
            &&& enqueued(s, urls).submitted == t.submitted
            &&& enqueued(s, urls).source == t.source
            &&& enqueued(s, urls).galleries == t.galleries
            &&& enqueued(s, urls).failures == t.failures
            &&& enqueued(s, urls).image_count == t.image_count
            &&& enqueued(s, urls).closing == t.closing && enqueued(s, urls).taken == t.taken
            &&& enqueued(s, urls).processing <==> t.processing || t.queue.len() > 0
            &&& enqueue_text(s, urls) == queue_text(t, (urls.len() - refused.len()) as nat, refused)
        },
{
}

/// What the commands of a user do to the batch of that user: starting one gives an empty batch where there
/// is none and changes nothing where there is one; links go to the batch that is there; finishing closes
/// it.
pub proof fn commands_change_batches(before: Batches, key: BatchKey, urls: Seq<Seq<char>>, after: Batches)
    ensures
        starts(before, key, after) ==> after.wf() && after.changes_only(before, key) && (if before.session(
            key,
        ) is Some {
            after.session(key) == before.session(key)
        } else {
            after.session(key) == Some(empty_session())
        }),
        enqueues(before, key, urls, after) ==> after.wf() && after.changes_only(before, key) && (
        if before.session(key) is Some {
            after.session(key) == Some(enqueued(before.session(key)->0, urls))
        } else {
            after.session(key) is None
        }),
        finishes(before, key, after) ==> after.wf() && after.changes_only(before, key) && (
        before.session(key) is None <==> after.session(key) is None) && (before.session(key) matches
            Some(s) ==> (after.session(key) matches Some(t) && t.closing && t.queue == s.queue
            && t.submitted == s.submitted && t.galleries == s.galleries && t.failures == s.failures
            && t.source == s.source && t.image_count == s.image_count && t.processing
            == s.processing && t.taken == s.taken)),
        can_finish(before.session(key)) <==> before.session(key) is Some && !before.session(
            key,
        )->0.closing,
{
}

/// What users are told of their commands.
pub proof fn commands_are_answered(s: SessionView)
    ensures
        start_text(Some(s)) == active_text(s),
        start_text(None)
            == "Batch stash started.\nSend supported gallery links. The first accepted link locks the source for this batch. Images are cached while links are processed. Use /batch_end to publish."@,
        finish_text(None) == "No active batch. Use /batch first."@,
        s.closing ==> finish_text(Some(s)) == "This batch is already being finalized."@,
        !s.closing ==> finish_text(Some(s))
            == "Finishing batch. Waiting for the stash queue to drain..."@,
{
}

/// How far the finishing of a batch has come.
#[derive(Debug)]
pub enum FinishState {
    /// The batch is closed; what waits is still being stashed.
    Draining,
    /// The batch is being published.
    Publishing(Summary),
    /// The user is being told how it ended.
    Telling,
    /// Nothing is left to be done.
    Ended,
}

/// What has happened.
#[derive(Debug)]
pub enum FinishEvent {
    /// The batch may have drained.
    Look,
    /// The batch was published, or could not be.
    Published(Result<SyncResult, Error>),
    /// The user was told, or could not be.
    Told,
}

/// What to do next.
#[derive(Debug)]
pub enum FinishAction {
    /// Wait until something changes, then look again.
    Wait,
    /// Publish these galleries, with these links.
    Publish { galleries: Vec<StashedGallery>, links: Vec<String> },
    /// Tell the user this, in Telegram's markdown.
    Tell(String),
    /// Nothing more.
    End,
}

/// The events that can happen in a state.
pub open spec fn awaits(state: FinishState, event: FinishEvent) -> bool {
    match state {
        FinishState::Draining => event is Look,
        FinishState::Publishing(_) => event is Published,
        FinishState::Telling => event is Told,
        FinishState::Ended => false,
    }
}

/// Nothing of a closed batch waits and no worker runs, and it has not been handed over.
pub open spec fn ready(s: SessionView) -> bool {
    s.closing && !s.taken && !s.processing && s.queue.len() == 0
}

/// What follows from an event: a closed batch is handed over once it is ready, and only then; if
/// there is a gallery in it, it is published; the user is told how that ended; then the batch is
/// removed.
pub open spec fn finish_moves(
    before: Batches,
    key: BatchKey,
    state: FinishState,
    event: FinishEvent,
    r: (FinishState, FinishAction),
    after: Batches,
) -> bool {
    &&& after.wf()
    &&& after.changes_only(before, key)
    &&& match (state, event) {
        (FinishState::Draining, FinishEvent::Look) => match before.session(key) {
            Some(s) => if ready(s) {
                &&& after.session(key) == Some(handed_over(s))
                &&& if s.galleries.len() == 0 {
                    &&& r.0 is Telling
                    &&& r.1 matches FinishAction::Tell(text) && text@ == escaped(
                        nothing_text(s.source, s.failures),
                    )
                } else {
                    &&& r.0 matches FinishState::Publishing(m) && m.source == s.source
                        && m.gallery_count == s.galleries.len() && m.image_count == s.image_count
                        && m.failed == s.failures.len()
                    &&& r.1 matches FinishAction::Publish { galleries, links } && galleries@
                        == s.galleries && texts(links@) == s.submitted
                }
            } else {
                &&& after.session(key) == Some(s)
                &&& if s.closing && !s.taken {
                    r.0 is Draining && r.1 is Wait
                } else {
                    r.0 is Ended && r.1 is End
                }
            },
            None => after.session(key) is None && r.0 is Ended && r.1 is End,
        },
        (FinishState::Publishing(m), FinishEvent::Published(result)) => {
            &&& after.session(key) == before.session(key)
            &&& r.0 is Telling
            &&& r.1 matches FinishAction::Tell(text) && text@ == escaped(
                finished_text(
                    m.source,
                    m.gallery_count as nat,
                    m.image_count as nat,
                    m.failed as nat,
                    sync_result(result),
                ),
            )
        },
        (FinishState::Telling, FinishEvent::Told) => {
            &&& after.session(key) is None
            &&& r.0 is Ended
            &&& r.1 is End
        },
        _ => true,
    }
}

impl Batches {
    /// The batch under a key.
    pub closed spec fn session(&self, key: BatchKey) -> Option<SessionView> {
        lookup(self.entries@, key)
    }

    /// At most one batch for each key, and each in order.
    pub closed spec fn wf(&self) -> bool {
        &&& unique_keys(self.entries@)
        &&& forall|i: int| 0 <= i < self.entries@.len() ==> (#[trigger] self.entries@[i]).session@.wf()
    }

    /// Everything is as in `before`, but for the batch under `key`.
    pub closed spec fn changes_only(&self, before: Self, key: BatchKey) -> bool {
        others_stay(before.entries@, self.entries@, key)
    }

    /// Changing the batch under one key leaves the others as they are, and a batch that is there is
    /// in order.
    pub proof fn others_are_untouched(&self, before: Self, key: BatchKey, other: BatchKey)
        requires
            self.wf(),
            self.changes_only(before, key),
            other != key,
        ensures
            self.session(other) == before.session(other),
            self.session(other) matches Some(s) ==> s.wf(),
            self.session(key) matches Some(s) ==> s.wf(),
    {
        lemma_lookup(self.entries@, other);
        lemma_lookup(self.entries@, key);
        if let Some(s) = self.session(other) {
            let i = choose|i: int|
                0 <= i < self.entries@.len() && (#[trigger] self.entries@[i]).key == other;
            assert(self.entries@[i].session@.wf());
        }
        if let Some(s) = self.session(key) {
            let i = choose|i: int|
                0 <= i < self.entries@.len() && (#[trigger] self.entries@[i]).key == key;
            assert(self.entries@[i].session@.wf());
        }
    }

    /// No batches.
    pub fn new() -> (r: Self)
        ensures
            r.wf(),
            forall|key: BatchKey| #[trigger] r.session(key) is None,
    {
        Batches { entries: Vec::new() }
    }

    fn index_of(&self, key: BatchKey) -> (r: Option<usize>)
        requires
            self.wf(),
        ensures
            match r {
                Some(i) => i < self.entries.len() && self.entries@[i as int].key == key
                    && self.session(key) == Some(self.entries@[i as int].session@),
                None => self.session(key) is None && forall|j: int|
                    0 <= j < self.entries.len() ==> (#[trigger] self.entries@[j]).key != key,
            },
    {
        let mut i: usize = 0;
        while i < self.entries.len()
            invariant
                self.wf(),
                i <= self.entries.len(),
                forall|j: int| 0 <= j < i ==> (#[trigger] self.entries@[j]).key != key,
            decreases self.entries.len() - i,
        {
            if self.entries[i].key == key {
                proof {
                    lemma_lookup(self.entries@, key);
                }
                return Some(i);
            }
            i += 1;
        }
        proof {
            lemma_lookup(self.entries@, key);
        }
        None
    }

    /// Starts a batch, unless there is one already. The result is what the user is told.
    pub fn start_batch(&mut self, key: BatchKey) -> (r: String)
        requires
            old(self).wf(),
        ensures
            starts(*old(self), key, *final(self)),
            r@ == start_text(old(self).session(key)),
    {
        match self.index_of(key) {
            Some(i) => write_active(&self.entries[i].session),
            None => {
                let ghost before = self.entries@;
                let session = BatchSession::new();
                self.entries.push(Entry { key, session });
                proof {
                    let after = self.entries@;
                    assert(after.drop_last() =~= before);
                    assert forall|x: int, y: int| 0 <= x < y < after.len() implies (
                    #[trigger] after[x]).key != (#[trigger] after[y]).key by {
                        assert(after[x] == before[x]);
                        if y < before.len() {
                            assert(after[y] == before[y]);
                        }
                    }
                }
                "Batch stash started.\nSend supported gallery links. The first accepted link locks the source for this batch. Images are cached while links are processed. Use /batch_end to publish.".to_owned()
            },
        }
    }

    /// Sends links to a batch. `None` where there is no batch.
    pub fn enqueue_batch_urls(&mut self, key: BatchKey, urls: Vec<String>) -> (r: Option<Enqueued>)
        requires
            old(self).wf(),
        ensures
            enqueues(*old(self), key, texts(urls@), *final(self)),
            match (old(self).session(key), r) {
                (Some(s), Some(e)) => {
                    &&& e.reply@ == enqueue_text(s, texts(urls@))
                    &&& e.start_worker == (!s.processing && enqueued(s, texts(urls@)).processing)
                },
                (None, None) => true,
                _ => false,
            },
    {
        let i = match self.index_of(key) {
            Some(i) => i,
            None => {
                return None;
            },
        };
        if self.entries[i].session.closing {
            return Some(
                Enqueued {
                    reply: "Batch is already closing; no more links are accepted.".to_owned(),
                    start_worker: false,
                },
            );
        }
        let ghost before = self.entries@;
        let ghost s = before[i as int].session@;
        assert(s.wf());
        let n = urls.len();
        assert(texts(urls@).len() == n);
        proof {
            offers_are_taken_or_refused(s, texts(urls@), 0);
        }
        let refused = self.entries[i].session.offer_all(urls);
        assert(texts(refused@).len() == refused.len());
        let reply = write_queue(&self.entries[i].session, n - refused.len(), &refused);
        let start_worker = self.entries[i].session.wake();
        proof {
            lemma_updated(before, self.entries@, i as int);
        }
        Some(Enqueued { reply, start_worker })
    }

    /// The next link of a batch that is to be stashed. Where none is left, the worker is done.
    pub fn next_item(&mut self, key: BatchKey) -> (r: Option<String>)
        requires
            old(self).wf(),
        ensures
            final(self).wf(),
            final(self).changes_only(*old(self), key),
            match old(self).session(key) {
                Some(s) => if s.queue.len() == 0 {
                    r is None && final(self).session(key) == Some(
                        SessionView { processing: false, ..s },
                    )
                } else {
                    opt_text(r) == Some(s.queue[0]) && final(self).session(key) == Some(
                        SessionView { queue: s.queue.skip(1), ..s },
                    )
                },
                None => r is None && final(self).session(key) is None,
            },
    {
        let i = match self.index_of(key) {
            Some(i) => i,
            None => {
                return None;
            },
        };
        let ghost before = self.entries@;
        assert(before[i as int].session@.wf());
        let r = self.entries[i].session.next_item();
        proof {
            lemma_updated(before, self.entries@, i as int);
        }
        r
    }

    /// Notes down how stashing a link ended.
    pub fn record(&mut self, key: BatchKey, url: String, result: Result<StashedGallery, Error>)
        requires
            old(self).wf(),
        ensures
            final(self).wf(),
            final(self).changes_only(*old(self), key),
            final(self).session(key) == (match old(self).session(key) {
                Some(s) => Some(stash_recorded(s, url@, stash_result(result))),
                None => None,
            }),
    {
        if let Some(i) = self.index_of(key) {
            let ghost before = self.entries@;
            assert(before[i as int].session@.wf());
            self.entries[i].session.record(url, result);
            proof {
                lemma_updated(before, self.entries@, i as int);
            }
        }
    }

    /// Closes a batch: it takes no more links.
    pub fn finish_batch(&mut self, key: BatchKey) -> (r: FinishStep)
        requires
            old(self).wf(),
        ensures
            finishes(*old(self), key, *final(self)),
            match r {
                FinishStep::Refused(text) => {
                    &&& !can_finish(old(self).session(key))
                    &&& text@ == finish_text(old(self).session(key))
                },
                FinishStep::Closing(text) => {
                    &&& can_finish(old(self).session(key))
                    &&& text@ == finish_text(old(self).session(key))
                },
            },
    {
        match self.index_of(key) {
            None => FinishStep::Refused("No active batch. Use /batch first."),
            Some(i) => {
                if self.entries[i].session.closing {
                    FinishStep::Refused("This batch is already being finalized.")
                } else {
                    let ghost before = self.entries@;
                    assert(before[i as int].session@.wf());
                    self.entries[i].session.closing = true;
                    proof {
                        lemma_updated(before, self.entries@, i as int);
                    }
                    FinishStep::Closing("Finishing batch. Waiting for the stash queue to drain...")
                }
            },
        }
    }

    /// Opens a batch again, because its user could not be told that it was closed. A batch that has
    /// been handed over stays closed.
    pub fn reopen(&mut self, key: BatchKey)
        requires
            old(self).wf(),
        ensures
            final(self).wf(),
            final(self).changes_only(*old(self), key),
            final(self).session(key) == (match old(self).session(key) {
                Some(s) => Some(SessionView { closing: s.closing && s.taken, ..s }),
                None => None,
            }),
    {
        if let Some(i) = self.index_of(key) {
            let ghost before = self.entries@;
            assert(before[i as int].session@.wf());
            if !self.entries[i].session.taken {
                self.entries[i].session.closing = false;
            }
            proof {
                lemma_updated(before, self.entries@, i as int);
            }
        }
    }

    fn remove(&mut self, key: BatchKey)
        requires
            old(self).wf(),
        ensures
            final(self).wf(),
            final(self).changes_only(*old(self), key),
            final(self).session(key) is None,
    {
        if let Some(i) = self.index_of(key) {
            let ghost before = self.entries@;
            let _ = self.entries.remove(i);
            proof {
                lemma_removed(before, self.entries@, i as int);
            }
        }
    }

    /// Takes the finishing of a batch one step further.
    pub fn finish_step(&mut self, key: BatchKey, state: FinishState, event: FinishEvent) -> (r: (
        FinishState,
        FinishAction,
    ))
        requires
            old(self).wf(),
            awaits(state, event),
        ensures
            finish_moves(*old(self), key, state, event, r, *final(self)),
    {
        match (state, event) {
            (FinishState::Draining, FinishEvent::Look) => {
                let i = match self.index_of(key) {
                    Some(i) => i,
                    None => {
                        return (FinishState::Ended, FinishAction::End);
                    },
                };
                if !self.entries[i].session.closing || self.entries[i].session.taken {
                    return (FinishState::Ended, FinishAction::End);
                }
                if !self.entries[i].session.is_drained() {
                    return (FinishState::Draining, FinishAction::Wait);
                }
                let ghost before = self.entries@;
                assert(before[i as int].session@.wf());
                let closed = self.entries[i].session.hand_over();
                proof {
                    lemma_updated(before, self.entries@, i as int);
                }
                match closed.conclude() {
                    Conclusion::Nothing(text) => (
                        FinishState::Telling,
                        FinishAction::Tell(escape_markdown(text.as_str())),
                    ),
                    Conclusion::Publish { galleries, links, summary } => (
                        FinishState::Publishing(summary),
                        FinishAction::Publish { galleries, links },
                    ),
                }
            },
            (FinishState::Publishing(summary), FinishEvent::Published(result)) => {
                let text = summary.finished(&result);
                (FinishState::Telling, FinishAction::Tell(escape_markdown(text.as_str())))
            },
            (FinishState::Telling, FinishEvent::Told) => {
                self.remove(key);
                (FinishState::Ended, FinishAction::End)
            },
            _ => (FinishState::Ended, FinishAction::End),
        }
    }
}

// ---------------------------------------------------------------------------
// How finishing goes
// ---------------------------------------------------------------------------

/// A batch is published only once it is closed, nothing of it waits and no worker runs; what is
/// published are all its galleries and all its links, in their order, and there is at least one
/// gallery. From then on the batch is marked as handed over.
pub proof fn drained_batches_are_published(
    before: Batches,
    key: BatchKey,
    state: FinishState,
    event: FinishEvent,
    r: (FinishState, FinishAction),
    after: Batches,
)
    requires
        awaits(state, event),
        finish_moves(before, key, state, event, r, after),
    ensures
        r.1 matches FinishAction::Publish { galleries, links } ==> {
            &&& before.session(key) matches Some(s) && s.closing && !s.processing && s.queue.len()
                == 0 && !s.taken && s.galleries.len() > 0 && galleries@ == s.galleries && texts(
                links@,
            ) == s.submitted
            &&& after.session(key) matches Some(t) && t.taken && t.closing
        },
        before.session(key) matches Some(s) && s.closing && (s.processing || s.queue.len() > 0)
            && !s.taken && state is Draining ==> r.1 is Wait && after.session(key)
            == before.session(key),
{
}

/// A batch that has been handed over is never published again: no step of finishing asks for it,
/// and nothing that is done to a batch takes the mark away or lets it take links again, but that it
/// is removed.
pub proof fn batches_are_published_once(
    before: Batches,
    key: BatchKey,
    state: FinishState,
    event: FinishEvent,
    r: (FinishState, FinishAction),
    after: Batches,
    urls: Seq<Seq<char>>,
    url: Seq<char>,
    result: Result<StashedGallery, Seq<char>>,
)
    requires
        awaits(state, event),
        finish_moves(before, key, state, event, r, after),
        before.session(key) matches Some(s) && s.wf() && s.taken && s.closing,
    ensures
        !(r.1 is Publish),
        after.session(key) matches Some(t) ==> t.taken && t.closing,
        enqueued(before.session(key)->0, urls) == before.session(key)->0,
        stash_recorded(before.session(key)->0, url, result).taken,
        stash_recorded(before.session(key)->0, url, result).closing,
        !can_finish(before.session(key)),
{
}

/// Once a batch has been handed over, it is removed, whether there was anything to publish and
/// whether publishing worked or not. A step that finds nothing to publish tells so at once, one that
/// learns what came of publishing tells that, and once the user has been told there is no batch.
pub proof fn finished_batches_are_removed(
    key: BatchKey,
    b0: Batches,
    state: FinishState,
    event: FinishEvent,
    told: (FinishState, FinishAction),
    b1: Batches,
    ended: (FinishState, FinishAction),
    b2: Batches,
)
    requires
        awaits(state, event),
        finish_moves(b0, key, state, event, told, b1),
        state is Publishing || (state is Draining && (b0.session(key) matches Some(s) && ready(s)
            && s.galleries.len() == 0)),
        finish_moves(b1, key, told.0, FinishEvent::Told, ended, b2),
    ensures
        told.1 is Tell,
        ended.1 is End,
        b2.session(key) is None,
{
}

/// What the user is told at the end: of a batch without galleries that there was nothing to publish; else
/// what came of publishing, with the counts of the batch as they were when it was handed over.
pub proof fn endings_are_told(
    key: BatchKey,
    result: Result<SyncResult, Error>,
    b0: Batches,
    drained: (FinishState, FinishAction),
    b1: Batches,
    told: (FinishState, FinishAction),
    b2: Batches,
)
    requires
        finish_moves(b0, key, FinishState::Draining, FinishEvent::Look, drained, b1),
        b0.session(key) matches Some(s) && s.closing && !s.taken && !s.processing && s.queue.len() == 0,
        drained.0 is Publishing ==> finish_moves(
            b1,
            key,
            drained.0,
            FinishEvent::Published(result),
            told,
            b2,
        ),
    ensures
        ({
            let s = b0.session(key)->0;
            &&& s.galleries.len() == 0 ==> (drained.1 matches FinishAction::Tell(text) && text@
                == escaped(nothing_text(s.source, s.failures)))
            &&& s.galleries.len() > 0 ==> drained.1 is Publish && (told.1 matches FinishAction::Tell(
                text,
            ) && text@ == escaped(
                finished_text(
                    s.source,
                    s.galleries.len(),
                    s.image_count,
                    s.failures.len(),
                    match result {
                        Ok(x) => Ok(x@),
                        Err(e) => Err(e@),
                    },
                ),
            ))
        }),
{
}

} // verus!
