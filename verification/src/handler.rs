//! What the bot does with the messages that it gets.

use crate::batch::{BatchKey, SessionView};
use crate::collector::{queue_of, somes, SUPPORTED_URL_PATTERN};
use crate::error::Error;
use crate::outside::{
    code_escaped, escape_markdown, escaped, inline_code, regex_first_group,
};
use crate::sessions::{
    can_finish, enqueue_text, enqueued, enqueues, finish_text, finishes, start_text, starts,
    Batches, FinishStep,
};
use crate::sync::{known_address, Synchronizer};
use crate::text::{
    find, first_at, has_text, is_at, signed_decimal, signed_number, texts,
};
use crate::unique::{
    adding_in_a_row, adding_items, all_in, distinct, distinct_keeps_order, push_unique, with_item, with_items,
};
use std::collections::{HashSet, VecDeque};
use vstd::prelude::*;
use vstd::string::*;

verus! {

/// An image that was found must be so similar, in percent.
pub const MIN_SIMILARITY: u8 = 70;

/// An image that was found must be so similar in a private chat.
pub const MIN_SIMILARITY_PRIVATE: u8 = 50;

// ---------------------------------------------------------------------------
// Addresses in texts
// ---------------------------------------------------------------------------

/// Where `t` stands first in `s`.
pub open spec fn first_index(s: Seq<char>, t: Seq<char>) -> int {
    choose|i: int| first_at(s, t, i)
}

/// What follows the first occurrence of `t` in `s`.
pub open spec fn rest_after(s: Seq<char>, t: Seq<char>) -> Seq<char> {
    s.skip(first_index(s, t) + t.len())
}

/// The addresses in a text that a collector knows, in order: after each, the search goes on behind
/// it.
pub open spec fn found_urls(text: Seq<char>) -> Seq<Seq<char>>
    decreases text.len(),
{
    match regex_first_group(SUPPORTED_URL_PATTERN@, text) {
        None => Seq::empty(),
        Some(url) => {
            let rest = rest_after(text, url);
            if url.len() == 0 || rest.len() == 0 || rest.len() >= text.len() {
                seq![url]
            } else {
                seq![url] + found_urls(rest)
            }
        },
    }
}

/// Adds an address to the list, unless the list holds it already.
pub fn push_unique_url(urls: &mut Vec<String>, url: String)
    ensures
        texts(final(urls)@) == with_item(texts(old(urls)@), url@),
{
    push_unique(urls, url)
}

proof fn lemma_first(s: Seq<char>, t: Seq<char>, i: int)
    requires
        first_at(s, t, i),
    ensures
        first_index(s, t) == i,
        rest_after(s, t) == s.skip(i + t.len()),
{
    let j = first_index(s, t);
    assert(first_at(s, t, j));
    if j < i {
        assert(!is_at(s, t, j));
    } else if i < j {
        assert(!is_at(s, t, i));
    }
}

/// What follows an address in a text, if anything does.
pub fn after_url<'a>(text: &'a str, url: &str) -> (r: Option<&'a str>)
    requires
        has_text(text@, url@),
    ensures
        match r {
            Some(rest) => rest@ == rest_after(text@, url@) && rest@.len() > 0,
            None => rest_after(text@, url@).len() == 0,
        },
{
    match find(text, url) {
        Some(i) => {
            proof {
                lemma_first(text@, url@, i as int);
            }
            let end = text.unicode_len();
            let next = i + url.unicode_len();
            if next >= end {
                None
            } else {
                let rest = text.substring_char(next, end);
                assert(rest@ =~= text@.skip(next as int));
                Some(rest)
            }
        },
        None => None,
    }
}

/// The addresses in a text that a collector knows, each once and in order.
pub fn collect_urls_from_text(content: &str) -> (r: Vec<String>)
    ensures
        texts(r@) == distinct(found_urls(content@)),
        forall|i: int|
            0 <= i < r.len() ==> has_text(content@, (#[trigger] r@[i])@) && known_address(r@[i]@),
{
    let mut urls: Vec<String> = Vec::new();
    let mut remaining = content;
    let ghost mut seen: Seq<Seq<char>> = Seq::empty();
    let mut more = true;
    let ghost mut start: int = 0;
    assert(texts(urls@) =~= Seq::empty());
    assert(seen + found_urls(remaining@) =~= found_urls(content@));
    assert(remaining@ =~= content@.skip(0));
    while more
        invariant
            0 <= start <= content@.len(),
            remaining@ == content@.skip(start),
            forall|i: int|
                0 <= i < urls.len() ==> has_text(content@, (#[trigger] urls@[i])@) && known_address(
                    urls@[i]@,
                ),
            texts(urls@) == distinct(seen),
            more ==> seen + found_urls(remaining@) == found_urls(content@),
            !more ==> seen == found_urls(content@),
        decreases
                if more {
                    remaining@.len() + 1
                } else {
                    0
                },
    {
        let ghost before = seen;
        match Synchronizer::match_url_from_text(remaining) {
            Some(url) => {
                assert(before.push(url@).drop_last() =~= before);
                proof {
                    seen = before.push(url@);
                    lemma_in_suffix(content@, start, url@);
                }
                let ghost listed = urls@;
                push_unique_url(&mut urls, url.to_owned());
                assert forall|i: int| 0 <= i < urls.len() implies has_text(
                    content@,
                    (#[trigger] urls@[i])@,
                ) && known_address(urls@[i]@) by {
                    assert(texts(urls@).len() == urls.len());
                    assert(texts(listed).len() == listed.len());
                    assert(texts(urls@)[i] == urls@[i]@);
                    if i < listed.len() {
                        assert(texts(listed)[i] == listed[i]@);
                        assert(has_text(content@, listed[i]@));
                    } else {
                        assert(texts(urls@)[i] == url@);
                    }
                }
                if url.is_empty() {
                    more = false;
                    assert(before + seq![url@] =~= seen);
                } else {
                    match after_url(remaining, url) {
                        Some(rest) => {
                            proof {
                                let i = choose|i: int| is_at(remaining@, url@, i);
                                lemma_has_first(remaining@, url@, i);
                            }
                            assert(seen + found_urls(rest@) =~= before + (seq![url@] + found_urls(
                                rest@,
                            )));
                            proof {
                                let end = start + first_index(remaining@, url@) + url@.len();
                                assert(rest@ =~= content@.skip(end));
                                start = end;
                            }
                            remaining = rest;
                        },
                        None => {
                            more = false;
                            assert(before + seq![url@] =~= seen);
                        },
                    }
                }
            },
            None => {
                more = false;
                assert(before + Seq::<Seq<char>>::empty() =~= before);
            },
        }
    }
    urls
}

proof fn lemma_has_first(s: Seq<char>, t: Seq<char>, i: int)
    requires
        is_at(s, t, i),
    ensures
        first_at(s, t, first_index(s, t)),
        rest_after(s, t).len() == s.len() - first_index(s, t) - t.len(),
        first_index(s, t) >= 0,
    decreases i,
{
    if exists|j: int| 0 <= j < i && is_at(s, t, j) {
        let j = choose|j: int| 0 <= j < i && is_at(s, t, j);
        lemma_has_first(s, t, j);
    } else {
        assert(first_at(s, t, i));
        lemma_first(s, t, i);
    }
}

proof fn lemma_first_item(items: Seq<Seq<char>>)
    requires
        items.len() > 0,
    ensures
        distinct(items).len() > 0,
        distinct(items)[0] == items[0],
    decreases items.len(),
{
    let before = items.drop_last();
    if before.len() > 0 {
        lemma_first_item(before);
    } else {
        assert(distinct(before) =~= Seq::empty());
        assert(!distinct(before).contains(items.last()));
    }
}

/// The list of the addresses in a text is empty exactly where none is found. Else its first is the
/// first that is found; none occurs twice; all that are found are in it, and no others; and of any
/// two the one that is found first stands first.
pub proof fn collected_urls_keep_the_order(text: Seq<char>)
    ensures
        distinct(found_urls(text)).len() == 0 <==> regex_first_group(
            SUPPORTED_URL_PATTERN@,
            text,
        ) is None,
        regex_first_group(SUPPORTED_URL_PATTERN@, text) matches Some(url) ==> distinct(
            found_urls(text),
        )[0] == url,
        distinct(found_urls(text)).no_duplicates(),
        all_in(found_urls(text), distinct(found_urls(text))),
        all_in(distinct(found_urls(text)), found_urls(text)),
        forall|i: int, j: int|
            0 <= i < j < distinct(found_urls(text)).len() ==> found_urls(text).index_of_first(
                #[trigger] distinct(found_urls(text))[i],
            ).unwrap() < found_urls(text).index_of_first(
                #[trigger] distinct(found_urls(text))[j],
            ).unwrap(),
{
    let found = found_urls(text);
    let empty: Seq<Seq<char>> = Seq::empty();
    adding_items(empty, found);
    assert(empty + found =~= found);
    if found.len() > 0 {
        lemma_first_item(found);
    }
    assert forall|i: int, j: int| 0 <= i < j < distinct(found).len() implies found.index_of_first(
        #[trigger] distinct(found)[i],
    ).unwrap() < found.index_of_first(#[trigger] distinct(found)[j]).unwrap() by {
        distinct_keeps_order(found, i, j);
    }
}

/// The search for addresses goes on behind each that is found, to the end of the text: where `url` is
/// found first, and stands first behind `a`, the addresses of the text are `url` and those in what follows
/// it.
pub proof fn the_search_goes_on_behind_each(a: Seq<char>, url: Seq<char>, b: Seq<char>, text: Seq<char>)
    ensures
        first_at(a + url + b, url, a.len() as int) ==> rest_after(a + url + b, url) == b,
        regex_first_group(SUPPORTED_URL_PATTERN@, text) is None ==> found_urls(text).len() == 0,
        url.len() > 0 && first_at(a + url + b, url, a.len() as int) && regex_first_group(
            SUPPORTED_URL_PATTERN@,
            a + url + b,
        ) == Some(url) ==> found_urls(a + url + b) == (if b.len() > 0 {
            seq![url] + found_urls(b)
        } else {
            seq![url]
        }),
{
    let s = a + url + b;
    if first_at(s, url, a.len() as int) {
        lemma_first(s, url, a.len() as int);
        assert(s.skip((a.len() + url.len()) as int) =~= b);
    }
}

proof fn lemma_in_suffix(s: Seq<char>, start: int, t: Seq<char>)
    requires
        0 <= start <= s.len(),
        has_text(s.skip(start), t),
    ensures
        has_text(s, t),
{
    let i = choose|i: int| is_at(s.skip(start), t, i);
    assert(s.subrange(start + i, start + i + t.len()) =~= s.skip(start).subrange(i, i + t.len()));
    assert(is_at(s, t, start + i));
}

/// Addresses that texts begin with, as far as a collector knows them.
pub open spec fn matched(links: Seq<Seq<char>>) -> Seq<Seq<char>> {
    somes(
        links.map_values(|l: Seq<char>| regex_first_group("^"@ + SUPPORTED_URL_PATTERN@, l)),
    )
}

/// The addresses of a message: those in its text, then those that parts of its text link to.
pub open spec fn message_urls(text: Option<Seq<char>>, links: Seq<Seq<char>>) -> Seq<Seq<char>> {
    with_items(
        match text {
            Some(t) => distinct(found_urls(t)),
            None => Seq::empty(),
        },
        matched(links),
    )
}

/// The addresses of a message.
pub fn collect_urls(text: Option<&str>, links: &Vec<String>) -> (r: Vec<String>)
    ensures
        texts(r@) == message_urls(text.deep_view(), texts(links@)),
{
    let mut urls = match text {
        Some(t) => collect_urls_from_text(t),
        None => Vec::new(),
    };
    let ghost start = texts(urls@);
    assert(text is None ==> start =~= Seq::empty());
    let ghost all = texts(links@).map_values(
        |l: Seq<char>| regex_first_group("^"@ + SUPPORTED_URL_PATTERN@, l),
    );
    let mut i: usize = 0;
    assert(all.take(0) =~= Seq::empty());
    while i < links.len()
        invariant
            i <= links.len(),
            all == texts(links@).map_values(
                |l: Seq<char>| regex_first_group("^"@ + SUPPORTED_URL_PATTERN@, l),
            ),
            texts(urls@) == with_items(start, somes(all.take(i as int))),
        decreases links.len() - i,
    {
        assert(all.take(i + 1).drop_last() =~= all.take(i as int));
        assert(all.take(i + 1).last() == all[i as int]);
        if let Some(url) = Synchronizer::match_url_from_url(links[i].as_str()) {
            let ghost before = somes(all.take(i as int));
            assert(before.push(url@).drop_last() =~= before);
            push_unique_url(&mut urls, url.to_owned());
        }
        i += 1;
    }
    assert(all.take(i as int) =~= all);
    urls
}

/// No address of a message is listed twice, and none of those that it holds is left out.
pub proof fn message_urls_are_distinct(text: Option<Seq<char>>, links: Seq<Seq<char>>)
    ensures
        message_urls(text, links).no_duplicates(),
        all_in(matched(links), message_urls(text, links)),
        text matches Some(t) ==> all_in(distinct(found_urls(t)), message_urls(text, links))
            && all_in(found_urls(t), distinct(found_urls(t))),
{
    let empty: Seq<Seq<char>> = Seq::empty();
    let start = match text {
        Some(t) => distinct(found_urls(t)),
        None => Seq::empty(),
    };
    if let Some(t) = text {
        adding_items(empty, found_urls(t));
    }
    adding_items(start, matched(links));
}

/// The addresses of a message are those in its text and then those that its parts link to, each where it
/// comes first. A part links to the address that its link begins with, if a collector knows one.
pub proof fn message_urls_are_those_of_text_and_links(text: Option<Seq<char>>, links: Seq<Seq<char>>)
    ensures
        message_urls(text, links) == distinct(
            (match text {
                Some(t) => found_urls(t),
                None => Seq::empty(),
            }) + matched(links),
        ),
        matched(links) == links.filter_map(
            |l: Seq<char>| regex_first_group("^"@ + SUPPORTED_URL_PATTERN@, l),
        ),
{
    let empty: Seq<Seq<char>> = Seq::empty();
    let found = match text {
        Some(t) => found_urls(t),
        None => Seq::empty(),
    };
    adding_in_a_row(empty, found, matched(links));
    lemma_matched(links);
}

proof fn lemma_matched(links: Seq<Seq<char>>)
    ensures
        matched(links) == links.filter_map(
            |l: Seq<char>| regex_first_group("^"@ + SUPPORTED_URL_PATTERN@, l),
        ),
    decreases links.len(),
{
    let f = |l: Seq<char>| regex_first_group("^"@ + SUPPORTED_URL_PATTERN@, l);
    if links.len() > 0 {
        let before = links.drop_last();
        lemma_matched(before);
        assert(links.map_values(f).drop_last() =~= before.map_values(f));
        assert(links.map_values(f).last() == f(links.last()));
    }
    assert(matched(links) =~= links.filter_map(f));
}

// ---------------------------------------------------------------------------
// Steps
// ---------------------------------------------------------------------------

/// A command that everybody may use.
#[derive(Debug, Clone)]
pub enum Command {
    /// Show what the commands do.
    Help,
    /// Show the version of the bot.
    Version,
    /// Show the number of the chat.
    Id,
    /// Synchronize an album.
    Sync(String),
    /// Start a batch.
    Batch,
    /// Finish the batch and publish it.
    BatchEnd,
}

/// A command that only administrators may use.
#[derive(Debug, Clone)]
pub enum AdminCommand {
    /// Forget what stands under a key.
    Delete(String),
}

/// What to do about a message. All texts are in Telegram's markdown.
#[derive(Debug)]
pub enum Step {
    /// Let somebody else look at the message.
    Continue,
    /// The message has been dealt with.
    Done,
    /// Reply with this text.
    Reply(String),
    /// The links have gone to the batch: reply with this text, and start the worker if told so.
    Queued { reply: String, start_worker: bool },
    /// Reply with the notice, synchronize the album, and put the outcome in the place of the notice.
    Sync { url: String, notice: String },
    /// Reply with the notice, wait until the batch has drained, publish it, and put the outcome in
    /// the place of the notice.
    Finish { notice: String },
}

/// The step is to reply with this text.
pub open spec fn replies(step: Step, text: Seq<char>) -> bool {
    step matches Step::Reply(t) && t@ == text
}

/// What it means that a step is to reply with a text.
pub proof fn replies_are_these_texts(step: Step, text: Seq<char>)
    ensures
        replies(step, text) <==> step is Reply && step->Reply_0@ == text,
{
}

/// The links go to the batch if there is one; else the album at `url` is synchronized.
pub open spec fn queues_or_syncs(
    s: Option<SessionView>,
    urls: Seq<Seq<char>>,
    url: Seq<char>,
    step: Step,
) -> bool {
    match s {
        Some(t) => step matches Step::Queued { reply, start_worker } && reply@ == escaped(
            enqueue_text(t, urls),
        ) && start_worker == (!t.processing && enqueued(t, urls).processing),
        None => step matches Step::Sync { url: u, notice } && u@ == url && notice@ == escaped(
            "Syncing url "@ + url,
        ),
    }
}

/// The links that a command to synchronize stands for: those in its argument, or else the argument
/// itself.
pub open spec fn command_urls(argument: Seq<char>) -> Seq<Seq<char>> {
    let found = distinct(found_urls(argument));
    if found.len() == 0 {
        seq![argument]
    } else {
        found
    }
}

/// The links that a command to synchronize stands for, given those that were found in its argument.
pub fn or_argument(found: Vec<String>, argument: &str) -> (r: Vec<String>)
    ensures
        texts(r@) == (if found.len() == 0 {
            seq![argument@]
        } else {
            texts(found@)
        }),
{
    let mut urls = found;
    if urls.len() == 0 {
        urls.push(argument.to_owned());
        assert(texts(urls@) =~= seq![argument@]);
    }
    urls
}

/// A command to synchronize stands for the links in its argument, or for the argument itself where there
/// is none in it. Links go to the batch of the user where there is one; else the album at the given address
/// is synchronized, and the user is told so.
pub proof fn links_are_queued_or_synchronized(
    argument: Seq<char>,
    s: Option<SessionView>,
    urls: Seq<Seq<char>>,
    url: Seq<char>,
    step: Step,
)
    ensures
        found_urls(argument).len() == 0 ==> command_urls(argument) == seq![argument],
        found_urls(argument).len() > 0 ==> command_urls(argument) == distinct(found_urls(argument)),
        queues_or_syncs(s, urls, url, step) ==> (if s is Some {
            step matches Step::Queued { reply, start_worker } && reply@ == escaped(
                enqueue_text(s->0, urls),
            ) && (start_worker <==> !s->0.processing && enqueued(s->0, urls).processing)
        } else {
            step matches Step::Sync { url: u, notice } && u@ == url && notice@ == escaped(
                "Syncing url "@ + url,
            )
        }),
{
    let found = found_urls(argument);
    let empty: Seq<Seq<char>> = Seq::empty();
    if found.len() > 0 {
        lemma_first_item(found);
    } else {
        assert(found =~= empty);
        assert(distinct(found) =~= empty);
    }
}

/// What is said of the number of a chat.
pub open spec fn id_text(chat_id: i64) -> Seq<char> {
    "Current chat id is "@ + (seq!['`'] + code_escaped(signed_decimal(chat_id as int)) + seq!['`'])
        + " \\(in private chat this is your account id\\)"@
}

/// The bot: what it synchronizes with, who its administrators are, and the batches of its users.
pub struct Handler<S> {
    pub synchronizer: S,
    pub admins: HashSet<i64>,
    pub batches: Batches,
}

impl<S> Handler<S> {
    /// The batches are in order.
    pub open spec fn wf(&self) -> bool {
        self.batches.wf()
    }

    /// Nothing but batches has changed.
    pub open spec fn keeps(&self, before: Self) -> bool {
        self.synchronizer == before.synchronizer && self.admins == before.admins
    }

    /// A bot without any batches.
    pub fn new(synchronizer: S, admins: HashSet<i64>) -> (r: Self)
        ensures
            r.wf(),
            r.synchronizer == synchronizer,
            r.admins == admins,
            forall|key: BatchKey| #[trigger] r.batches.session(key) is None,
    {
        Handler { synchronizer, admins, batches: Batches::new() }
    }

    /// Whether the chat is one of an administrator.
    pub fn is_admin(&self, chat_id: i64) -> (r: bool)
        ensures
            r == self.admins@.contains(chat_id),
    {
        broadcast use vstd::std_specs::hash::group_hash_axioms;

        self.admins.contains(&chat_id)
    }

    /// Sends the links to the batch; synchronizes the album at `url` where there is no batch.
    pub fn queue_or_sync(&mut self, key: BatchKey, urls: Vec<String>, url: String) -> (r: Step)
        requires
            old(self).wf(),
        ensures
            final(self).wf(),
            final(self).keeps(*old(self)),
            enqueues(old(self).batches, key, texts(urls@), final(self).batches),
            queues_or_syncs(old(self).batches.session(key), texts(urls@), url@, r),
    {
        match self.batches.enqueue_batch_urls(key, urls) {
            Some(e) => Step::Queued {
                reply: escape_markdown(e.reply.as_str()),
                start_worker: e.start_worker,
            },
            None => {
                let mut text = "Syncing url ".to_owned();
                text.append(url.as_str());
                Step::Sync { url, notice: escape_markdown(text.as_str()) }
            },
        }
    }

    /// What to do about a command. `descriptions` says what the commands do.
    pub fn respond_cmd(
        &mut self,
        key: BatchKey,
        command: Command,
        descriptions: &str,
        version: &str,
    ) -> (r: Step)
        requires
            old(self).wf(),
        ensures
            final(self).wf(),
            final(self).keeps(*old(self)),
            match command {
                Command::Help => final(self).batches == old(self).batches && replies(
                    r,
                    escaped(descriptions@),
                ),
                Command::Version => final(self).batches == old(self).batches && replies(
                    r,
                    escaped(version@),
                ),
                Command::Id => final(self).batches == old(self).batches && replies(
                    r,
                    id_text(key.chat_id),
                ),
                Command::Sync(url) => if url@.len() == 0 {
                    final(self).batches == old(self).batches && replies(
                        r,
                        escaped("Usage: /sync url"@),
                    )
                } else {
                    &&& enqueues(
                        old(self).batches,
                        key,
                        command_urls(url@),
                        final(self).batches,
                    )
                    &&& queues_or_syncs(
                        old(self).batches.session(key),
                        command_urls(url@),
                        url@,
                        r,
                    )
                },
                Command::Batch => {
                    &&& starts(old(self).batches, key, final(self).batches)
                    &&& replies(r, escaped(start_text(old(self).batches.session(key))))
                },
                Command::BatchEnd => {
                    let s = old(self).batches.session(key);
                    &&& finishes(old(self).batches, key, final(self).batches)
                    &&& if can_finish(s) {
                        r matches Step::Finish { notice } && notice@ == escaped(finish_text(s))
                    } else {
                        replies(r, escaped(finish_text(s)))
                    }
                },
            },
    {
        match command {
            Command::Help => Step::Reply(escape_markdown(descriptions)),
            Command::Version => Step::Reply(escape_markdown(version)),
            Command::Id => {
                let mut text = "Current chat id is ".to_owned();
                text.append(inline_code(signed_number(key.chat_id).as_str()).as_str());
                text.append(" \\(in private chat this is your account id\\)");
                Step::Reply(text)
            },
            Command::Sync(url) => {
                if url.as_str().is_empty() {
                    return Step::Reply(escape_markdown("Usage: /sync url"));
                }
                let found = collect_urls_from_text(url.as_str());
                assert(texts(found@).len() == found.len());
                let urls = or_argument(found, url.as_str());
                self.queue_or_sync(key, urls, url)
            },
            Command::Batch => {
                let text = self.batches.start_batch(key);
                Step::Reply(escape_markdown(text.as_str()))
            },
            Command::BatchEnd => match self.batches.finish_batch(key) {
                FinishStep::Refused(text) => Step::Reply(escape_markdown(text)),
                FinishStep::Closing(text) => Step::Finish { notice: escape_markdown(text) },
            },
        }
    }

    /// What to say of a command of an administrator, once it has been carried out.
    pub fn respond_admin_cmd(&self, command: AdminCommand, done: Result<(), Error>) -> (r: Step)
        ensures
            match (command, done) {
                (AdminCommand::Delete(key), Ok(_)) => replies(
                    r,
                    escaped("Key "@ + key@ + " deleted."@),
                ),
                (AdminCommand::Delete(key), Err(e)) => replies(
                    r,
                    escaped("Failed to delete key "@ + key@ + ": "@ + e@),
                ),
            },
    {
        match command {
            AdminCommand::Delete(key) => match done {
                Ok(_) => {
                    let mut text = "Key ".to_owned();
                    text.append(key.as_str());
                    text.append(" deleted.");
                    Step::Reply(escape_markdown(text.as_str()))
                },
                Err(e) => {
                    let mut text = "Failed to delete key ".to_owned();
                    text.append(key.as_str());
                    text.append(": ");
                    text.append(e.message.as_str());
                    Step::Reply(escape_markdown(text.as_str()))
                },
            },
        }
    }

    /// What to do about a message with these addresses: nothing where it has none; else they go to
    /// the batch, or the album at the first of them is synchronized.
    pub fn respond_urls(&mut self, key: BatchKey, urls: Vec<String>) -> (r: Step)
        requires
            old(self).wf(),
        ensures
            final(self).wf(),
            final(self).keeps(*old(self)),
            if urls.len() == 0 {
                r is Continue && final(self).batches == old(self).batches
            } else {
                &&& enqueues(old(self).batches, key, texts(urls@), final(self).batches)
                &&& queues_or_syncs(
                    old(self).batches.session(key),
                    texts(urls@),
                    texts(urls@)[0],
                    r,
                )
            },
    {
        if urls.len() == 0 {
            return Step::Continue;
        }
        let first = urls[0].clone();
        self.queue_or_sync(key, urls, first)
    }

    /// What to do about a message with a text, parts of which link to `links`.
    pub fn respond_text(&mut self, key: BatchKey, text: Option<&str>, links: &Vec<String>) -> (r:
        Step)
        requires
            old(self).wf(),
        ensures
            final(self).wf(),
            final(self).keeps(*old(self)),
            ({
                let urls = message_urls(text.deep_view(), texts(links@));
                if urls.len() == 0 {
                    r is Continue && final(self).batches == old(self).batches
                } else {
                    &&& enqueues(old(self).batches, key, urls, final(self).batches)
                    &&& queues_or_syncs(old(self).batches.session(key), urls, urls[0], r)
                }
            }),
    {
        let urls = collect_urls(text, links);
        assert(texts(urls@).len() == urls.len());
        self.respond_urls(key, urls)
    }

    /// What to do about a message with a caption, parts of which link to `links`: the same as with a
    /// text.
    pub fn respond_caption(&mut self, key: BatchKey, caption: Option<&str>, links: &Vec<String>)
        -> (r: Step)
        requires
            old(self).wf(),
        ensures
            final(self).wf(),
            final(self).keeps(*old(self)),
            ({
                let urls = message_urls(caption.deep_view(), texts(links@));
                if urls.len() == 0 {
                    r is Continue && final(self).batches == old(self).batches
                } else {
                    &&& enqueues(old(self).batches, key, urls, final(self).batches)
                    &&& queues_or_syncs(old(self).batches.session(key), urls, urls[0], r)
                }
            }),
    {
        self.respond_text(key, caption, links)
    }

    /// What to do about a photo, once it has been searched for: `found` is the address of the album
    /// that it comes from.
    pub fn respond_photo(&mut self, key: BatchKey, found: Option<String>) -> (r: Step)
        requires
            old(self).wf(),
        ensures
            final(self).wf(),
            final(self).keeps(*old(self)),
            match found {
                None => r is Continue && final(self).batches == old(self).batches,
                Some(url) => {
                    &&& enqueues(old(self).batches, key, seq![url@], final(self).batches)
                    &&& queues_or_syncs(
                        old(self).batches.session(key),
                        seq![url@],
                        url@,
                        r,
                    )
                },
            },
    {
        match found {
            None => Step::Continue,
            Some(url) => {
                let mut urls: Vec<String> = Vec::new();
                urls.push(url.clone());
                assert(texts(urls@) =~= seq![url@]);
                self.queue_or_sync(key, urls, url)
            },
        }
    }

    /// What to do about a message that nobody else has dealt with.
    pub fn respond_default(&self, is_private: bool) -> (r: Step)
        ensures
            if is_private {
                replies(r, escaped("Unrecognized message."@))
            } else {
                r is Done
            },
    {
        if is_private {
            Step::Reply(escape_markdown("Unrecognized message."))
        } else {
            Step::Done
        }
    }
}

// ---------------------------------------------------------------------------
// Who deals with a message
// ---------------------------------------------------------------------------

/// What can be done with a message, in the order in which it is tried.
#[derive(Debug, Clone, Copy, PartialEq, Eq, Structural)]
pub enum Branch {
    AdminCommand,
    Command,
    Text,
    Caption,
    Photo,
    Default,
}

/// What is known of a message.
#[derive(Debug, Clone, Copy)]
pub struct MessageFacts {
    /// It comes from the chat of an administrator.
    pub from_admin: bool,
    /// It is a command of administrators.
    pub admin_command: bool,
    /// It is a command.
    pub command: bool,
    /// It has a text.
    pub text: bool,
    /// It has a caption.
    pub caption: bool,
    /// It has a photo.
    pub photo: bool,
}

/// Whether a branch is one for the message.
pub open spec fn applies(branch: Branch, m: MessageFacts) -> bool {
    match branch {
        Branch::AdminCommand => m.from_admin && m.admin_command,
        Branch::Command => m.command,
        Branch::Text => m.text,
        Branch::Caption => m.caption,
        Branch::Photo => m.photo,
        Branch::Default => true,
    }
}

/// The place of a branch in the order.
pub open spec fn rank(branch: Branch) -> int {
    match branch {
        Branch::AdminCommand => 0,
        Branch::Command => 1,
        Branch::Text => 2,
        Branch::Caption => 3,
        Branch::Photo => 4,
        Branch::Default => 5,
    }
}

/// The place of the last branch that was tried; before all others where none was.
pub open spec fn tried(last: Option<Branch>) -> int {
    match last {
        Some(branch) => rank(branch),
        None => -1,
    }
}

/// Who deals with a message, and in which order they are asked: administrators' commands first, and only
/// from the chat of an administrator; then commands, texts, captions and photos; and in the end somebody
/// for all messages.
pub proof fn branches_are_asked_in_order(m: MessageFacts)
    ensures
        tried(None) < rank(Branch::AdminCommand),
        rank(Branch::AdminCommand) < rank(Branch::Command),
        rank(Branch::Command) < rank(Branch::Text),
        rank(Branch::Text) < rank(Branch::Caption),
        rank(Branch::Caption) < rank(Branch::Photo),
        rank(Branch::Photo) < rank(Branch::Default),
        forall|b: Branch| #[trigger] tried(Some(b)) == rank(b),
        applies(Branch::AdminCommand, m) <==> m.from_admin && m.admin_command,
        applies(Branch::Command, m) <==> m.command,
        applies(Branch::Text, m) <==> m.text,
        applies(Branch::Caption, m) <==> m.caption,
        applies(Branch::Photo, m) <==> m.photo,
        applies(Branch::Default, m),
{
}

/// The branch that is tried next, after `last` has let the message pass: the first one after it that
/// is one for the message.
pub fn next_branch(last: Option<Branch>, m: MessageFacts) -> (r: Branch)
    requires
        last != Some(Branch::Default),
    ensures
        tried(last) < rank(r),
        applies(r, m),
        forall|b: Branch| tried(last) < #[trigger] rank(b) < rank(r) ==> !applies(b, m),
{
    let from: u8 = match last {
        None => 0,
        Some(Branch::AdminCommand) => 1,
        Some(Branch::Command) => 2,
        Some(Branch::Text) => 3,
        Some(Branch::Caption) => 4,
        Some(_) => 5,
    };
    if from <= 0 && m.from_admin && m.admin_command {
        Branch::AdminCommand
    } else if from <= 1 && m.command {
        Branch::Command
    } else if from <= 2 && m.text {
        Branch::Text
    } else if from <= 3 && m.caption {
        Branch::Caption
    } else if from <= 4 && m.photo {
        Branch::Photo
    } else {
        Branch::Default
    }
}

// ---------------------------------------------------------------------------
// Photos
// ---------------------------------------------------------------------------

/// What could go wrong before a photo was searched for.
#[derive(Debug, Clone, Copy)]
pub enum PhotoError {
    /// Telegram does not know the file.
    NoFile,
    /// The file did not come.
    NoDownload,
    /// The search failed.
    NoSearch,
}

/// What is said of a photo that could not be searched for.
pub open spec fn photo_error_text(e: PhotoError) -> Seq<char> {
    match e {
        PhotoError::NoFile => "Failed to get the image file from Telegram."@,
        PhotoError::NoDownload => "Failed to download the image file from Telegram."@,
        PhotoError::NoSearch => "Image search failed. Please try again later."@,
    }
}

/// What is said of a photo that could not be searched for.
pub fn photo_failed(e: PhotoError) -> (r: Step)
    ensures
        replies(r, escaped(photo_error_text(e))),
{
    let text = match e {
        PhotoError::NoFile => "Failed to get the image file from Telegram.",
        PhotoError::NoDownload => "Failed to download the image file from Telegram.",
        PhotoError::NoSearch => "Image search failed. Please try again later.",
    };
    Step::Reply(escape_markdown(text))
}

/// Where an image was found.
#[derive(Debug)]
pub enum FoundAt {
    /// On e-hentai, under the hash of its file.
    EHentai(String),
    /// On nhentai, in the album with this number.
    NHentai(String),
    /// Somewhere else.
    Elsewhere,
}

/// An image that was found, and how similar it is in percent.
#[derive(Debug)]
pub struct FoundImage {
    pub similarity: u8,
    pub at: FoundAt,
}

/// How similar an image must be.
pub open spec fn threshold(is_private: bool) -> u8 {
    if is_private {
        MIN_SIMILARITY_PRIVATE
    } else {
        MIN_SIMILARITY
    }
}

/// An image that is similar enough, on a site that there is a collector for.
pub open spec fn usable(image: FoundImage, min: u8) -> bool {
    image.similarity >= min && !(image.at is Elsewhere)
}

/// The images from the first usable one on.
pub open spec fn from_usable(images: Seq<FoundImage>, min: u8) -> Seq<FoundImage>
    decreases images.len(),
{
    if images.len() == 0 || usable(images[0], min) {
        images
    } else {
        from_usable(images.skip(1), min)
    }
}

/// What to do about the images that were found.
#[derive(Debug)]
pub enum PhotoStep {
    /// Ask which album the file with this hash belongs to.
    Convert { f_hash: String, similarity: u8 },
    /// The photo comes from the album at this address.
    Matched { url: String, similarity: u8 },
    /// The photo was not found.
    NotFound,
}

/// The images that were found and have not been looked at.
#[derive(Debug)]
pub struct PhotoSearch {
    pub min: u8,
    pub images: VecDeque<FoundImage>,
}

/// What follows where the next image is looked at: the first usable one decides, and the search goes
/// on behind it.
pub open spec fn looks_on(before: PhotoSearch, r: PhotoStep, after: PhotoSearch) -> bool {
    let left = from_usable(before.images@, before.min);
    &&& after.min == before.min
    &&& if left.len() == 0 {
        r is NotFound && after.images@.len() == 0
    } else {
        &&& after.images@ == left.skip(1)
        &&& match left[0].at {
            FoundAt::EHentai(hash) => r == (PhotoStep::Convert {
                f_hash: hash,
                similarity: left[0].similarity,
            }),
            FoundAt::NHentai(id) => r matches PhotoStep::Matched { url, similarity } && url@
                == nhentai_album(id@) && similarity == left[0].similarity,
            FoundAt::Elsewhere => false,
        }
    }
}

/// The address of an album on nhentai.
pub open spec fn nhentai_album(id: Seq<char>) -> Seq<char> {
    "https://nhentai.net/g/"@ + id + "/"@
}

impl PhotoSearch {
    /// The images that were found for a photo in a chat.
    pub fn new(images: Vec<FoundImage>, is_private: bool) -> (r: Self)
        ensures
            r.min == threshold(is_private),
            r.images@ == images@,
    {
        let min: u8 = if is_private {
            MIN_SIMILARITY_PRIVATE
        } else {
            MIN_SIMILARITY
        };
        PhotoSearch { min, images: queue_of(images) }
    }

    /// What to do about the next usable image.
    pub fn next(&mut self) -> (r: PhotoStep)
        ensures
            looks_on(*old(self), r, *final(self)),
    {
        let ghost all = from_usable(self.images@, self.min);
        while self.images.len() > 0
            invariant
                self.min == old(self).min,
                all == from_usable(old(self).images@, old(self).min),
                all == from_usable(self.images@, self.min),
            decreases self.images.len(),
        {
            let ghost before = self.images@;
            match self.images.pop_front() {
                Some(image) => {
                    assert(self.images@ =~= before.skip(1));
                    if image.similarity >= self.min {
                        match image.at {
                            FoundAt::EHentai(f_hash) => {
                                return PhotoStep::Convert { f_hash, similarity: image.similarity };
                            },
                            FoundAt::NHentai(id) => {
                                let mut url = "https://nhentai.net/g/".to_owned();
                                url.append(id.as_str());
                                url.append("/");
                                return PhotoStep::Matched { url, similarity: image.similarity };
                            },
                            FoundAt::Elsewhere => {},
                        }
                    }
                },
                None => {},
            }
        }
        PhotoStep::NotFound
    }

    /// What to do once it is known which album a file belongs to, or that this could not be learned:
    /// that album is taken, or the search goes on with the next usable image.
    pub fn converted(&mut self, outcome: Result<String, Error>, similarity: u8) -> (r: PhotoStep)
        ensures
            match outcome {
                Ok(url) => *final(self) == *old(self) && r == (PhotoStep::Matched {
                    url,
                    similarity,
                }),
                Err(_) => looks_on(*old(self), r, *final(self)),
            },
    {
        match outcome {
            Ok(url) => PhotoStep::Matched { url, similarity },
            Err(_) => self.next(),
        }
    }
}

/// The album that a photo comes from and how similar the image in it is, where `album_of` says which
/// album the file with a hash belongs to, if that can be learned: the first image counts that is
/// usable and whose album is known.
pub open spec fn source_of(
    images: Seq<FoundImage>,
    min: u8,
    album_of: spec_fn(Seq<char>) -> Option<Seq<char>>,
) -> Option<(Seq<char>, u8)>
    decreases images.len(),
{
    if images.len() == 0 {
        None
    } else {
        let rest = source_of(images.skip(1), min, album_of);
        if !usable(images[0], min) {
            rest
        } else {
            match images[0].at {
                FoundAt::EHentai(hash) => match album_of(hash@) {
                    Some(url) => Some((url, images[0].similarity)),
                    None => rest,
                },
                FoundAt::NHentai(id) => Some((nhentai_album(id@), images[0].similarity)),
                FoundAt::Elsewhere => rest,
            }
        }
    }
}

/// A search for a photo ends with the album that it comes from. Where a step says that the photo was
/// found or was not found, that is so; where it asks for the album of a file, that album is the one
/// if it can be learned, and else it is the one that the search finds when it goes on.
pub proof fn searches_find_the_source(
    before: PhotoSearch,
    r: PhotoStep,
    after: PhotoSearch,
    album_of: spec_fn(Seq<char>) -> Option<Seq<char>>,
)
    requires
        looks_on(before, r, after),
    ensures
        ({
            let source = source_of(before.images@, before.min, album_of);
            match r {
                PhotoStep::NotFound => source is None,
                PhotoStep::Matched { url, similarity } => source == Some((url@, similarity)),
                PhotoStep::Convert { f_hash, similarity } => source == (match album_of(f_hash@) {
                    Some(url) => Some((url, similarity)),
                    None => source_of(after.images@, after.min, album_of),
                }),
            }
        }),
{
    lemma_source(before.images@, before.min, album_of);
}

proof fn lemma_source(
    images: Seq<FoundImage>,
    min: u8,
    album_of: spec_fn(Seq<char>) -> Option<Seq<char>>,
)
    ensures
        source_of(images, min, album_of) == source_of(from_usable(images, min), min, album_of),
        from_usable(images, min).len() > 0 ==> usable(from_usable(images, min)[0], min),
    decreases images.len(),
{
    if images.len() > 0 && !usable(images[0], min) {
        lemma_source(images.skip(1), min, album_of);
    }
}

/// The image that is looked at is the first usable one: it is similar enough, and none before it is
/// usable. In a private chat no image is passed over that would be used in another chat.
pub proof fn first_usable_image(images: Seq<FoundImage>, min: u8) -> (k: int)
    ensures
        0 <= k <= images.len(),
        from_usable(images, min) == images.skip(k),
        forall|i: int| 0 <= i < k ==> !usable(#[trigger] images[i], min),
        k < images.len() ==> usable(images[k], min),
        forall|image: FoundImage| #[trigger]
            usable(image, threshold(false)) ==> usable(image, threshold(true)),
    decreases images.len(),
{
    if images.len() == 0 || usable(images[0], min) {
        assert(images.skip(0) =~= images);
        0
    } else {
        let k = first_usable_image(images.skip(1), min);
        assert(images.skip(1).skip(k) =~= images.skip(k + 1));
        assert forall|i: int| 0 <= i < k + 1 implies !usable(#[trigger] images[i], min) by {
            if i > 0 {
                assert(images.skip(1)[i - 1] == images[i]);
            }
        }
        if k + 1 < images.len() {
            assert(images.skip(1)[k] == images[k + 1]);
        }
        k + 1
    }
}

/// How similar an image must be, in percent, and which images can be used.
pub proof fn similar_images_are_used(image: FoundImage, min: u8)
    ensures
        threshold(true) == 50,
        threshold(false) == 70,
        usable(image, min) <==> image.similarity >= min && (image.at is EHentai || image.at is NHentai),
{
}

/// The source of a photo is the first image, in the order in which they were found, that is similar enough
/// and either stands on nhentai or stands on e-hentai in an album that can be learned; `k` is its place.
/// There is none exactly where no image is of that kind.
pub proof fn the_first_known_image_is_the_source(
    images: Seq<FoundImage>,
    min: u8,
    album_of: spec_fn(Seq<char>) -> Option<Seq<char>>,
) -> (k: int)
    ensures
        source_of(images, min, album_of) matches Some((url, similarity)) ==> {
            &&& 0 <= k < images.len()
            &&& similarity == images[k].similarity && similarity >= min
            &&& match images[k].at {
                FoundAt::EHentai(hash) => album_of(hash@) == Some(url),
                FoundAt::NHentai(id) => url == "https://nhentai.net/g/"@ + id@ + "/"@,
                FoundAt::Elsewhere => false,
            }
            &&& forall|j: int|
                0 <= j < k ==> (#[trigger] images[j]).similarity < min || images[j].at is Elsewhere || (
                images[j].at matches FoundAt::EHentai(hash) && album_of(hash@) is None)
        },
        source_of(images, min, album_of) is None ==> forall|j: int|
            0 <= j < images.len() ==> (#[trigger] images[j]).similarity < min || images[j].at is Elsewhere
                || (images[j].at matches FoundAt::EHentai(hash) && album_of(hash@) is None),
    decreases images.len(),
{
    if images.len() == 0 {
        0
    } else {
        let first = images[0];
        let passed = first.similarity < min || first.at is Elsewhere || (first.at matches
            FoundAt::EHentai(hash) && album_of(hash@) is None);
        if !passed {
            0
        } else {
            let rest = images.skip(1);
            let k = the_first_known_image_is_the_source(rest, min, album_of);
            assert forall|j: int|
                0 <= j < images.len() && (source_of(images, min, album_of) is None || j <= k) implies (
            #[trigger] images[j]).similarity < min || images[j].at is Elsewhere || (images[j].at matches
                FoundAt::EHentai(hash) && album_of(hash@) is None) by {
                if j > 0 {
                    assert(rest[j - 1] == images[j]);
                }
            }
            k + 1
        }
    }
}

/// What is said of a photo that could not be searched for, and of the number of a chat.
pub proof fn photos_and_chats_are_told_of(chat_id: i64)
    ensures
        photo_error_text(PhotoError::NoFile) == "Failed to get the image file from Telegram."@,
        photo_error_text(PhotoError::NoDownload)
            == "Failed to download the image file from Telegram."@,
        photo_error_text(PhotoError::NoSearch) == "Image search failed. Please try again later."@,
        id_text(chat_id) == "Current chat id is "@ + (seq!['`'] + code_escaped(
            signed_decimal(chat_id as int),
        ) + seq!['`']) + " \\(in private chat this is your account id\\)"@,
{
}

/// Where nothing but batches changes, the synchronizer and the administrators stay.
pub proof fn administrators_stay<S>(before: Handler<S>, after: Handler<S>)
    ensures
        after.keeps(before) <==> after.synchronizer == before.synchronizer && after.admins
            == before.admins,
        after.wf() <==> after.batches.wf(),
{
}

} // verus!
