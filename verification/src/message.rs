//! What the bot writes about albums.

use crate::error::Error;
use crate::outside::{escape_markdown, escaped, markdown_special};
use crate::sync::{MetaView, SyncResult};
use crate::text::{characters_are_replaced, join, joined, replace, replaced, texts};
use vstd::prelude::*;
use vstd::string::*;

verus! {

/// So many tags a message shows.
pub const SHOWN_TAGS: usize = 12;

/// A text as it is written: in Telegram's markdown, or plain.
pub open spec fn marked(s: Seq<char>, markdown: bool) -> Seq<char> {
    if markdown {
        escaped(s)
    } else {
        s
    }
}

/// A text as it is written.
pub fn mark(s: &str, markdown: bool) -> (r: String)
    ensures
        r@ == marked(s@, markdown),
{
    if markdown {
        escape_markdown(s)
    } else {
        s.to_owned()
    }
}

/// Texts as they are written.
pub open spec fn all_marked(list: Seq<Seq<char>>, markdown: bool) -> Seq<Seq<char>> {
    list.map_values(|s: Seq<char>| marked(s, markdown))
}

/// A tag as it is shown.
pub open spec fn tag_text(tag: Seq<char>, markdown: bool) -> Seq<char> {
    marked("#"@, markdown) + marked(replaced(tag, " "@, "_"@), markdown)
}

/// The tags that are shown: the first ones.
pub open spec fn shown_tags(tags: Seq<Seq<char>>, markdown: bool) -> Seq<Seq<char>> {
    Seq::new(
        if tags.len() <= SHOWN_TAGS {
            tags.len()
        } else {
            SHOWN_TAGS as nat
        },
        |i: int| tag_text(tags[i], markdown),
    )
}

/// The line for the title, if there is one.
pub open spec fn title_line(title: Option<Seq<char>>, markdown: bool) -> Seq<char> {
    match title {
        Some(t) => "Title: "@ + marked(t, markdown) + "\n"@,
        None => ""@,
    }
}

/// The line for the authors, if there are any.
pub open spec fn authors_line(authors: Option<Seq<Seq<char>>>, markdown: bool) -> Seq<char> {
    match authors {
        Some(a) => if a.len() == 0 {
            ""@
        } else {
            "Authors: "@ + joined(all_marked(a, markdown), ", "@) + "\n"@
        },
        None => ""@,
    }
}

/// The line for the tags, if there are any.
pub open spec fn tags_line(tags: Option<Seq<Seq<char>>>, markdown: bool) -> Seq<char> {
    match tags {
        Some(t) => if t.len() == 0 {
            ""@
        } else {
            "Tags: "@ + joined(shown_tags(t, markdown), " "@) + "\n"@
        },
        None => ""@,
    }
}

/// What is known of an album and where it was published, line by line.
pub open spec fn album_lines(url: Seq<char>, meta: MetaView, markdown: bool) -> Seq<char> {
    title_line(meta.title, markdown) + authors_line(meta.authors, markdown) + tags_line(
        meta.tags,
        markdown,
    ) + "URL: "@ + marked(url, markdown)
}

/// What is said of a synchronization.
pub open spec fn sync_text(r: Result<(Seq<char>, MetaView), Seq<char>>, markdown: bool) -> Seq<
    char,
> {
    match r {
        Ok((url, meta)) => "Sync to telegraph finished\n"@ + album_lines(url, meta, markdown),
        Err(e) => "Sync to telegraph failed: "@ + marked(e, markdown),
    }
}

/// A result as its characters.
pub open spec fn sync_result(r: Result<SyncResult, Error>) -> Result<
    (Seq<char>, MetaView),
    Seq<char>,
> {
    match r {
        Ok(x) => Ok(x@),
        Err(e) => Err(e@),
    }
}

/// The outcome of a synchronization is what its view tells.
pub proof fn outcomes_are_as_viewed(x: SyncResult, e: Error)
    ensures
        sync_result(Ok(x)) == Ok::<(Seq<char>, MetaView), Seq<char>>(x@),
        sync_result(Err(e)) == Err::<(Seq<char>, MetaView), Seq<char>>(e@),
{
}

fn mark_all(list: &Vec<String>, markdown: bool) -> (r: Vec<String>)
    ensures
        texts(r@) == all_marked(texts(list@), markdown),
{
    let mut out: Vec<String> = Vec::new();
    let mut i: usize = 0;
    while i < list.len()
        invariant
            i <= list.len(),
            out.len() == i,
            forall|j: int| 0 <= j < i ==> (#[trigger] out@[j])@ == marked(list@[j]@, markdown),
        decreases list.len() - i,
    {
        out.push(mark(list[i].as_str(), markdown));
        i += 1;
    }
    assert(texts(out@) =~= all_marked(texts(list@), markdown));
    out
}

fn show_tags(tags: &Vec<String>, markdown: bool) -> (r: Vec<String>)
    ensures
        texts(r@) == shown_tags(texts(tags@), markdown),
{
    let mut out: Vec<String> = Vec::new();
    let mut i: usize = 0;
    proof {
        reveal_strlit(" ");
    }
    while i < tags.len() && i < SHOWN_TAGS
        invariant
            i <= tags.len(),
            i <= SHOWN_TAGS,
            " "@.len() > 0,
            out.len() == i,
            forall|j: int| 0 <= j < i ==> (#[trigger] out@[j])@ == tag_text(tags@[j]@, markdown),
        decreases tags.len() - i,
    {
        let mut shown = mark("#", markdown);
        let tag = replace(tags[i].as_str(), " ", "_");
        shown.append(mark(tag.as_str(), markdown).as_str());
        out.push(shown);
        i += 1;
    }
    assert(texts(out@) =~= shown_tags(texts(tags@), markdown));
    out
}

/// Writes what is known of an album and where it was published.
pub fn write_album(result: &SyncResult, markdown: bool) -> (r: String)
    ensures
        r@ == album_lines(result@.0, result@.1, markdown),
{
    let mut title = "".to_owned();
    if let Some(t) = &result.title {
        title = "Title: ".to_owned();
        title.append(mark(t.as_str(), markdown).as_str());
        title.append("\n");
    }
    let mut authors = "".to_owned();
    if let Some(a) = &result.authors {
        assert(texts(a@).len() == a.len());
        if a.len() > 0 {
            authors = "Authors: ".to_owned();
            authors.append(join(&mark_all(a, markdown), ", ").as_str());
            authors.append("\n");
        }
    }
    let mut tags = "".to_owned();
    if let Some(t) = &result.tags {
        assert(texts(t@).len() == t.len());
        if t.len() > 0 {
            tags = "Tags: ".to_owned();
            tags.append(join(&show_tags(t, markdown), " ").as_str());
            tags.append("\n");
        }
    }
    let mut out = title;
    out.append(authors.as_str());
    out.append(tags.as_str());
    out.append("URL: ");
    out.append(mark(result.page_url.as_str(), markdown).as_str());
    out
}

/// What is said of a synchronization, in Telegram's markdown.
pub fn sync_response(result: &Result<SyncResult, Error>) -> (r: String)
    ensures
        r@ == sync_text(sync_result(*result), true),
{
    match result {
        Ok(x) => {
            let mut out = "Sync to telegraph finished\n".to_owned();
            out.append(write_album(x, true).as_str());
            out
        },
        Err(e) => {
            let mut out = "Sync to telegraph failed: ".to_owned();
            out.append(mark(e.message.as_str(), true).as_str());
            out
        },
    }
}

/// What a message tells of an album, line by line: its title, all its authors, its first twelve tags with
/// an underscore in the place of each space, and the address. What is not known has no line.
pub proof fn messages_tell_of_albums(url: Seq<char>, meta: MetaView, markdown: bool)
    ensures
        album_lines(url, meta, markdown) == (match meta.title {
            Some(title) => "Title: "@ + marked(title, markdown) + "\n"@,
            None => Seq::empty(),
        }) + (match meta.authors {
            Some(authors) => if authors.len() > 0 {
                "Authors: "@ + joined(
                    authors.map_values(|a: Seq<char>| marked(a, markdown)),
                    ", "@,
                ) + "\n"@
            } else {
                Seq::empty()
            },
            None => Seq::empty(),
        }) + (match meta.tags {
            Some(tags) => if tags.len() > 0 {
                "Tags: "@ + joined(
                    (if tags.len() <= 12 {
                        tags
                    } else {
                        tags.take(12)
                    }).map_values(
                        |t: Seq<char>|
                            marked("#"@, markdown) + marked(
                                t.map_values(
                                    |c: char|
                                        if c == ' ' {
                                            '_'
                                        } else {
                                            c
                                        },
                                ),
                                markdown,
                            ),
                    ),
                    " "@,
                ) + "\n"@
            } else {
                Seq::empty()
            },
            None => Seq::empty(),
        }) + "URL: "@ + marked(url, markdown),
{
    reveal_strlit("");
    reveal_strlit(" ");
    reveal_strlit("_");
    assert(""@ =~= Seq::empty());
    assert(" "@ =~= seq![' ']);
    assert("_"@ =~= seq!['_']);
    if let Some(authors) = meta.authors {
        assert(all_marked(authors, markdown) =~= authors.map_values(
            |a: Seq<char>| marked(a, markdown),
        ));
    }
    if let Some(tags) = meta.tags {
        let first = if tags.len() <= 12 {
            tags
        } else {
            tags.take(12)
        };
        let shown = first.map_values(
            |t: Seq<char>|
                marked("#"@, markdown) + marked(
                    t.map_values(
                        |c: char|
                            if c == ' ' {
                                '_'
                            } else {
                                c
                            },
                    ),
                    markdown,
                ),
        );
        assert forall|i: int| 0 <= i < first.len() implies shown_tags(tags, markdown)[i]
            == #[trigger] shown[i] by {
            characters_are_replaced(tags[i], ' ', '_');
        }
        assert(shown_tags(tags, markdown) =~= shown);
    }
}

/// What is said of a synchronization: that it worked, and of the album; or that it failed, and why. Plain
/// texts are written as they are, and those in markdown with its escapes.
pub proof fn outcomes_are_told(url: Seq<char>, meta: MetaView, e: Seq<char>, markdown: bool)
    ensures
        sync_text(Ok((url, meta)), markdown) == "Sync to telegraph finished\n"@ + album_lines(
            url,
            meta,
            markdown,
        ),
        sync_text(Err(e), markdown) == "Sync to telegraph failed: "@ + marked(e, markdown),
        marked(e, false) == e,
        marked(e, true) == escaped(e),
{
}

// ---------------------------------------------------------------------------
// Escapes
// ---------------------------------------------------------------------------

/// The escape of a text is made of the escapes of its parts.
pub proof fn escapes_of_parts(a: Seq<char>, b: Seq<char>)
    ensures
        escaped(a + b) == escaped(a) + escaped(b),
    decreases b.len(),
{
    if b.len() > 0 {
        escapes_of_parts(a, b.drop_last());
        assert((a + b).drop_last() =~= a + b.drop_last());
        assert((a + b).last() == b.last());
        assert(escaped(a + b) =~= escaped(a) + escaped(b));
    } else {
        assert(a + b =~= a);
        assert(escaped(a) + escaped(b) =~= escaped(a));
    }
}

/// A text without special characters is its own escape.
pub proof fn plain_texts_stay(s: Seq<char>)
    requires
        forall|i: int| 0 <= i < s.len() ==> !markdown_special(#[trigger] s[i]),
    ensures
        escaped(s) == s,
    decreases s.len(),
{
    if s.len() > 0 {
        let before = s.drop_last();
        assert forall|i: int| 0 <= i < before.len() implies !markdown_special(
            #[trigger] before[i],
        ) by {
            assert(before[i] == s[i]);
        }
        plain_texts_stay(before);
        assert(!markdown_special(s[s.len() - 1]));
        assert(escaped(s) =~= s);
    } else {
        assert(escaped(s) =~= s);
    }
}

proof fn lemma_joined(parts: Seq<Seq<char>>, sep: Seq<char>)
    requires
        escaped(sep) == sep,
    ensures
        escaped(joined(parts, sep)) == joined(all_marked(parts, true), sep),
    decreases parts.len(),
{
    let marks = all_marked(parts, true);
    if parts.len() > 1 {
        lemma_joined(parts.drop_last(), sep);
        assert(marks.drop_last() =~= all_marked(parts.drop_last(), true));
        assert(marks.last() == escaped(parts.last()));
        escapes_of_parts(joined(parts.drop_last(), sep), sep);
        escapes_of_parts(joined(parts.drop_last(), sep) + sep, parts.last());
    } else if parts.len() == 1 {
        assert(marks[0] == escaped(parts[0]));
    }
}

proof fn lemma_literals()
    ensures
        escaped(""@) == ""@,
        escaped("\n"@) == "\n"@,
        escaped(" "@) == " "@,
        escaped(", "@) == ", "@,
        escaped("Title: "@) == "Title: "@,
        escaped("Authors: "@) == "Authors: "@,
        escaped("Tags: "@) == "Tags: "@,
        escaped("URL: "@) == "URL: "@,
        escaped("Sync to telegraph finished\n"@) == "Sync to telegraph finished\n"@,
        escaped("Sync to telegraph failed: "@) == "Sync to telegraph failed: "@,
{
    reveal_strlit("");
    reveal_strlit("\n");
    reveal_strlit(" ");
    reveal_strlit(", ");
    reveal_strlit("Title: ");
    reveal_strlit("Authors: ");
    reveal_strlit("Tags: ");
    reveal_strlit("URL: ");
    reveal_strlit("Sync to telegraph finished\n");
    reveal_strlit("Sync to telegraph failed: ");
    plain_texts_stay(""@);
    plain_texts_stay("\n"@);
    plain_texts_stay(" "@);
    plain_texts_stay(", "@);
    plain_texts_stay("Title: "@);
    plain_texts_stay("Authors: "@);
    plain_texts_stay("Tags: "@);
    plain_texts_stay("URL: "@);
    plain_texts_stay("Sync to telegraph finished\n"@);
    plain_texts_stay("Sync to telegraph failed: "@);
}

proof fn lemma_line(head: Seq<char>, body: Seq<char>)
    requires
        escaped(head) == head,
    ensures
        escaped(head + body + "\n"@) == head + escaped(body) + "\n"@,
{
    lemma_literals();
    escapes_of_parts(head, body);
    escapes_of_parts(head + body, "\n"@);
}

/// What is said of a synchronization in markdown reads as what would be said plainly: every special
/// character of it is escaped, and no other.
pub proof fn responses_are_escaped(r: Result<(Seq<char>, MetaView), Seq<char>>)
    ensures
        sync_text(r, true) == escaped(sync_text(r, false)),
{
    lemma_literals();
    match r {
        Ok((url, meta)) => {
            let t = title_line(meta.title, false);
            let a = authors_line(meta.authors, false);
            let g = tags_line(meta.tags, false);
            if let Some(title) = meta.title {
                lemma_line("Title: "@, title);
            }
            if let Some(authors) = meta.authors {
                assert(all_marked(authors, false) =~= authors);
                lemma_joined(authors, ", "@);
                lemma_line("Authors: "@, joined(authors, ", "@));
            }
            if let Some(tags) = meta.tags {
                let plain = shown_tags(tags, false);
                assert forall|i: int| 0 <= i < plain.len() implies #[trigger] all_marked(
                    plain,
                    true,
                )[i] == shown_tags(tags, true)[i] by {
                    escapes_of_parts("#"@, replaced(tags[i], " "@, "_"@));
                }
                assert(all_marked(plain, true) =~= shown_tags(tags, true));
                lemma_joined(plain, " "@);
                lemma_line("Tags: "@, joined(plain, " "@));
            }
            assert(title_line(meta.title, true) == escaped(t));
            assert(authors_line(meta.authors, true) == escaped(a));
            assert(tags_line(meta.tags, true) == escaped(g));
            escapes_of_parts(t, a);
            escapes_of_parts(t + a, g);
            escapes_of_parts(t + a + g, "URL: "@);
            escapes_of_parts(t + a + g + "URL: "@, url);
            escapes_of_parts("Sync to telegraph finished\n"@, album_lines(url, meta, false));
        },
        Err(e) => {
            escapes_of_parts("Sync to telegraph failed: "@, e);
        },
    }
}

} // verus!
