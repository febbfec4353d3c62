//! How an album becomes one article or several that are linked to each other.

use crate::telegraph::{
    absolute, absolute_url, addresses_are_completed, anchor, image, node_view, node_views, paragraph,
    urls_in, urls_in_all, Node, NodeView, Tag,
};
use crate::text::{decimal, number, opt_text, texts};
use vstd::prelude::*;
use vstd::string::*;

verus! {

/// The size that the images of one page may have together, in bytes.
pub const PAGE_SIZE_LIMIT: usize = 48 * 1024;

// ---------------------------------------------------------------------------
// Images
// ---------------------------------------------------------------------------

/// The images at the given addresses.
pub open spec fn image_list(srcs: Seq<Seq<char>>) -> Seq<NodeView> {
    srcs.map_values(|s: Seq<char>| image(absolute(s)))
}

/// An image at the given address. An address without a scheme lies on the site of the articles.
pub fn image_node(src: &str) -> (r: Node)
    ensures
        node_view(r) == image(absolute(src@)),
{
    Node::new_image(absolute_url(src))
}

/// The images at the given addresses.
pub fn image_nodes(srcs: &Vec<String>) -> (r: Vec<Node>)
    ensures
        node_views(r@) == image_list(texts(srcs@)),
        r.len() == srcs.len(),
{
    let mut out: Vec<Node> = Vec::new();
    let mut i: usize = 0;
    while i < srcs.len()
        invariant
            i <= srcs.len(),
            out.len() == i,
            forall|j: int|
                0 <= j < i ==> node_view(#[trigger] out@[j]) == image(absolute(srcs@[j]@)),
        decreases srcs.len() - i,
    {
        out.push(image_node(srcs[i].as_str()));
        i += 1;
    }
    assert(node_views(out@) =~= image_list(texts(srcs@)));
    out
}

// ---------------------------------------------------------------------------
// Pages
// ---------------------------------------------------------------------------

/// The items in pages, and the size of the last page: an item goes to the last page as long as the
/// page does not get larger than the limit by it, else a new page begins with it.
pub open spec fn paged<A>(items: Seq<A>, sizes: Seq<usize>) -> (Seq<Seq<A>>, int)
    decreases items.len(),
{
    if items.len() == 0 {
        (seq![Seq::empty()], 0)
    } else {
        let (pages, size) = paged(items.drop_last(), sizes.drop_last());
        let n = sizes.last() as int;
        if size + n > PAGE_SIZE_LIMIT {
            (pages.push(seq![items.last()]), n)
        } else {
            (pages.update(pages.len() - 1, pages.last().push(items.last())), size + n)
        }
    }
}

/// Vectors as sequences.
pub open spec fn inner<A>(v: Seq<Vec<A>>) -> Seq<Seq<A>> {
    v.map_values(|x: Vec<A>| x@)
}

/// Cuts the items into pages; `sizes` are the sizes of the items.
pub fn paginate(items: Vec<Node>, sizes: &Vec<usize>) -> (r: Vec<Vec<Node>>)
    requires
        items.len() == sizes.len(),
    ensures
        inner(r@) == paged(items@, sizes@).0,
        r.len() > 0,
{
    let ghost all = items@;
    let ghost allsizes = sizes@;
    let mut rest = crate::collector::queue_of(items);
    let mut done: Vec<Vec<Node>> = Vec::new();
    let mut page: Vec<Node> = Vec::new();
    let mut size: usize = 0;
    let mut i: usize = 0;
    assert(all.take(0) =~= Seq::empty());
    assert(inner(done@).push(page@) =~= seq![Seq::<Node>::empty()]);
    assert(all.skip(0) =~= all);
    while i < sizes.len()
        invariant
            i <= sizes.len(),
            all.len() == sizes.len(),
            allsizes == sizes@,
            rest@ == all.skip(i as int),
            paged(all.take(i as int), allsizes.take(i as int)) == (
                inner(done@).push(page@),
                size as int,
            ),
        decreases sizes.len() - i,
    {
        let n = sizes[i];
        let ghost before = inner(done@).push(page@);
        assert(all.take(i + 1).drop_last() =~= all.take(i as int));
        assert(allsizes.take(i + 1).drop_last() =~= allsizes.take(i as int));
        assert(rest@[0] == all[i as int]);
        if let Some(item) = rest.pop_front() {
            assert(rest@ =~= all.skip(i + 1));
            if size > PAGE_SIZE_LIMIT || n > PAGE_SIZE_LIMIT - size {
                done.push(page);
                assert(inner(done@) =~= before);
                page = Vec::new();
                page.push(item);
                size = n;
                assert(page@ =~= seq![item]);
            } else {
                page.push(item);
                size += n;
                assert(inner(done@).push(page@) =~= before.update(
                    before.len() - 1,
                    before.last().push(item),
                ));
            }
        }
        i += 1;
    }
    assert(all.take(i as int) =~= all);
    assert(allsizes.take(i as int) =~= allsizes);
    let ghost before = inner(done@).push(page@);
    done.push(page);
    assert(inner(done@) =~= before);
    done
}

/// Each address becomes one image, in the order of the addresses: an address with a scheme is that of
/// its image, and any other lies on the site of the articles.
pub proof fn addresses_become_images(srcs: Seq<Seq<char>>, i: int)
    requires
        0 <= i < srcs.len(),
    ensures
        image_list(srcs).len() == srcs.len(),
        image_list(srcs)[i] == (NodeView::Element {
            tag: Tag::Img,
            attrs: Some(
                (
                    Some(
                        if (exists|rest: Seq<char>| srcs[i] == "http://"@ + rest) || (exists|
                            rest: Seq<char>,
                        | srcs[i] == "https://"@ + rest) {
                            srcs[i]
                        } else {
                            "https://telegra.ph"@ + srcs[i]
                        },
                    ),
                    None,
                ),
            ),
            children: None,
        }),
{
    addresses_are_completed(srcs[i]);
}

/// The pages in a row.
pub open spec fn in_a_row<A>(pages: Seq<Seq<A>>) -> Seq<A>
    decreases pages.len(),
{
    if pages.len() == 0 {
        Seq::empty()
    } else {
        in_a_row(pages.drop_last()) + pages.last()
    }
}

/// The sum of sizes.
pub open spec fn total(sizes: Seq<usize>) -> int
    decreases sizes.len(),
{
    if sizes.len() == 0 {
        0
    } else {
        total(sizes.drop_last()) + sizes.last()
    }
}

/// Cutting into pages loses nothing, keeps the order, and leaves no page empty but perhaps the
/// first.
pub proof fn paging_keeps_everything<A>(items: Seq<A>, sizes: Seq<usize>)
    requires
        items.len() == sizes.len(),
    ensures
        in_a_row(paged(items, sizes).0) == items,
        paged(items, sizes).0.len() > 0,
        forall|i: int|
            0 < i < paged(items, sizes).0.len() ==> (#[trigger] paged(items, sizes).0[i]).len() > 0,
    decreases items.len(),
{
    let (pages, size) = paged(items, sizes);
    if items.len() == 0 {
        reveal_with_fuel(in_a_row, 2);
        assert(in_a_row(pages) =~= items);
    } else {
        let it = items.drop_last();
        let sz = sizes.drop_last();
        paging_keeps_everything(it, sz);
        let (p, s) = paged(it, sz);
        assert(it.push(items.last()) =~= items);
        if s + sizes.last() > PAGE_SIZE_LIMIT {
            assert(pages.drop_last() =~= p);
        } else {
            assert(pages.drop_last() =~= p.drop_last());
        }
        assert(in_a_row(pages) =~= items);
    }
}

/// No page gets larger than the limit, unless it holds a single item: the sizes, cut in the same
/// way, tell so page by page.
pub proof fn pages_stay_small(sizes: Seq<usize>)
    ensures
        forall|i: int|
            0 <= i < paged(sizes, sizes).0.len() ==> total(#[trigger] paged(sizes, sizes).0[i])
                <= PAGE_SIZE_LIMIT || paged(sizes, sizes).0[i].len() == 1,
        paged(sizes, sizes).0.len() > 0,
        total(paged(sizes, sizes).0.last()) == paged(sizes, sizes).1,
    decreases sizes.len(),
{
    let (pages, size) = paged(sizes, sizes);
    if sizes.len() == 0 {
        assert(pages[0] =~= Seq::empty());
    } else {
        let sz = sizes.drop_last();
        pages_stay_small(sz);
        let (p, s) = paged(sz, sz);
        let n = sizes.last();
        if s + n > PAGE_SIZE_LIMIT {
            let last = seq![n];
            reveal_with_fuel(total, 2);
            assert(total(last) == n);
            assert forall|i: int| 0 <= i < pages.len() implies total(#[trigger] pages[i])
                <= PAGE_SIZE_LIMIT || pages[i].len() == 1 by {
                if i < p.len() {
                    assert(pages[i] == p[i]);
                }
            }
        } else {
            let last = p.last().push(n);
            assert(last.drop_last() =~= p.last());
            assert(total(last) == s + n);
            assert forall|i: int| 0 <= i < pages.len() implies total(#[trigger] pages[i])
                <= PAGE_SIZE_LIMIT || pages[i].len() == 1 by {
                if i < p.len() - 1 {
                    assert(pages[i] == p[i]);
                }
            }
        }
    }
}

/// The sum of sizes is what adding them one by one gives, and pages in a row are what putting one
/// behind the other gives.
pub proof fn sums_and_rows<A>(sizes: Seq<usize>, pages: Seq<Seq<A>>)
    ensures
        total(sizes) == sizes.fold_left(0int, |sum: int, n: usize| sum + n),
        in_a_row(pages) == pages.flatten(),
    decreases sizes.len(), pages.len(),
{
    if sizes.len() > 0 {
        sums_and_rows::<A>(sizes.drop_last(), Seq::empty());
    }
    if pages.len() > 0 {
        sums_and_rows(Seq::empty(), pages.drop_last());
        pages.drop_last().lemma_flatten_push(pages.last());
        assert(pages.drop_last().push(pages.last()) =~= pages);
    }
}

/// Page `i` holds the items from `cuts[i]` to `cuts[i + 1]`. It is not empty, but perhaps for the first;
/// it is not larger than the limit, unless it holds a single item; and it ends only where the items end
/// or where the next item would make it larger than the limit.
pub open spec fn is_filled<A>(
    pages: Seq<Seq<A>>,
    items: Seq<A>,
    sizes: Seq<usize>,
    cuts: Seq<int>,
    i: int,
) -> bool {
    &&& 0 <= cuts[i] <= cuts[i + 1] <= items.len()
    &&& pages[i] == items.subrange(cuts[i], cuts[i + 1])
    &&& i > 0 ==> pages[i].len() > 0
    &&& total(sizes.subrange(cuts[i], cuts[i + 1])) <= 49152 || pages[i].len() == 1
    &&& i < pages.len() - 1 ==> cuts[i + 1] < items.len() && total(
        sizes.subrange(cuts[i], cuts[i + 1]),
    ) + sizes[cuts[i + 1]] > 49152
}

/// A page is filled before the next one begins: for every page but the first, the page before it and
/// its own first item together are larger than the limit. So items that are not larger than the limit
/// together make one page.
pub proof fn pages_are_filled<A>(items: Seq<A>, sizes: Seq<usize>) -> (cuts: Seq<int>)
    requires
        items.len() == sizes.len(),
    ensures
        paged(items, sizes).0.len() > 0,
        cuts.len() == paged(items, sizes).0.len() + 1,
        cuts[0] == 0,
        cuts.last() == items.len(),
        forall|i: int|
            0 <= i < paged(items, sizes).0.len() ==> #[trigger] is_filled(
                paged(items, sizes).0,
                items,
                sizes,
                cuts,
                i,
            ),
        sizes.fold_left(0int, |sum: int, n: usize| sum + n) <= 49152 ==> paged(items, sizes).0
            == seq![items],
{
    sums_and_rows::<A>(sizes, Seq::empty());
    if total(sizes) <= PAGE_SIZE_LIMIT {
        lemma_one_page(items, sizes);
    }
    lemma_cuts(items, sizes)
}

proof fn lemma_one_page<A>(items: Seq<A>, sizes: Seq<usize>)
    requires
        items.len() == sizes.len(),
        total(sizes) <= PAGE_SIZE_LIMIT,
    ensures
        paged(items, sizes) == (seq![items], total(sizes)),
    decreases items.len(),
{
    if items.len() > 0 {
        lemma_one_page(items.drop_last(), sizes.drop_last());
        assert(items.drop_last().push(items.last()) =~= items);
        assert(paged(items, sizes).0 =~= seq![items]);
    } else {
        assert(items =~= Seq::empty());
    }
}

proof fn lemma_cuts<A>(items: Seq<A>, sizes: Seq<usize>) -> (cuts: Seq<int>)
    requires
        items.len() == sizes.len(),
    ensures
        paged(items, sizes).0.len() > 0,
        cuts.len() == paged(items, sizes).0.len() + 1,
        cuts[0] == 0,
        cuts.last() == items.len(),
        forall|i: int|
            0 <= i < paged(items, sizes).0.len() ==> #[trigger] is_filled(
                paged(items, sizes).0,
                items,
                sizes,
                cuts,
                i,
            ),
        total(sizes.subrange(cuts[cuts.len() - 2], cuts[cuts.len() - 1])) == paged(items, sizes).1,
    decreases items.len(),
{
    let (pages, size) = paged(items, sizes);
    if items.len() == 0 {
        let cuts = seq![0int, 0int];
        assert(sizes.subrange(0, 0) =~= Seq::empty());
        assert(pages[0] =~= items.subrange(0, 0));
        assert(is_filled(pages, items, sizes, cuts, 0));
        cuts
    } else {
        let it = items.drop_last();
        let sz = sizes.drop_last();
        let old = lemma_cuts(it, sz);
        let (p, s) = paged(it, sz);
        let n = items.len() as int;
        let k = p.len() as int;
        assert(is_filled(p, it, sz, old, k - 1));
        let full = s + sizes.last() > PAGE_SIZE_LIMIT;
        let cuts = if full {
            old.push(n)
        } else {
            old.update(k, n)
        };
        reveal_with_fuel(total, 2);
        assert forall|i: int| 0 <= i < pages.len() implies #[trigger] is_filled(
            pages,
            items,
            sizes,
            cuts,
            i,
        ) by {
            if i < k {
                assert(is_filled(p, it, sz, old, i));
                assert(it.subrange(old[i], old[i + 1]) =~= items.subrange(old[i], old[i + 1]));
                assert(sz.subrange(old[i], old[i + 1]) =~= sizes.subrange(old[i], old[i + 1]));
            }
            if full && i == k {
                assert(items.subrange(n - 1, n) =~= seq![items.last()]);
            }
            if !full && i == k - 1 {
                let grown = sizes.subrange(old[i], n);
                assert(grown.drop_last() =~= sizes.subrange(old[i], old[k]));
                assert(items.subrange(old[i], n) =~= p.last().push(items.last()));
            }
        }
        if full {
            assert(sizes.subrange(n - 1, n) =~= seq![sizes.last()]);
        } else {
            let grown = sizes.subrange(old[k - 1], n);
            assert(grown.drop_last() =~= sz.subrange(old[k - 1], old[k]));
        }
        cuts
    }
}

/// Items and their sizes are cut at the same places.
pub proof fn pages_match_sizes<A>(items: Seq<A>, sizes: Seq<usize>)
    requires
        items.len() == sizes.len(),
    ensures
        paged(items, sizes).0.len() == paged(sizes, sizes).0.len(),
        paged(items, sizes).0.len() > 0,
        paged(items, sizes).1 == paged(sizes, sizes).1,
        forall|i: int|
            0 <= i < paged(items, sizes).0.len() ==> (#[trigger] paged(items, sizes).0[i]).len()
                == paged(sizes, sizes).0[i].len(),
    decreases items.len(),
{
    if items.len() > 0 {
        pages_match_sizes(items.drop_last(), sizes.drop_last());
    }
}

// ---------------------------------------------------------------------------
// The end of a page
// ---------------------------------------------------------------------------

/// The link to the page that follows.
pub open spec fn next_page_line(url: Seq<char>) -> NodeView {
    paragraph(seq![anchor(url, "Next Page"@)])
}

/// The line that names the program.
pub open spec fn credit_line() -> NodeView {
    paragraph(
        seq![
            NodeView::Text("Generated by "@),
            anchor("https://github.com/DrCMWither/eh2telegraph"@, "eh2telegraph"@),
        ],
    )
}

/// The line that names the only original.
pub open spec fn original_line(link: Seq<char>) -> NodeView {
    paragraph(seq![NodeView::Text("Original link: "@), anchor(link, link)])
}

/// The line that names the original `i`, counted from 0, of several.
pub open spec fn numbered_line(i: int, link: Seq<char>) -> NodeView {
    paragraph(seq![anchor(link, decimal((i + 1) as nat) + ". "@ + link)])
}

/// The lines that name the originals, numbered.
pub open spec fn numbered_lines(links: Seq<Seq<char>>) -> Seq<NodeView> {
    Seq::new(links.len(), |i: int| numbered_line(i, links[i]))
}

/// What stands at the end of a page: the link to the next page, if there is one, the name of the
/// program, and the originals. A single original is named on every page, several only at the end
/// of the last page.
pub open spec fn footer(links: Seq<Seq<char>>, next: Option<Seq<char>>) -> Seq<NodeView> {
    (match next {
        Some(url) => seq![next_page_line(url)],
        None => Seq::empty(),
    }) + seq![credit_line()] + (if links.len() == 1 {
        seq![original_line(links[0])]
    } else if next is None {
        seq![paragraph(seq![NodeView::Text("Original links:"@)])] + numbered_lines(links)
    } else {
        Seq::empty()
    })
}

fn paragraph_of(first: Node) -> (r: Node)
    ensures
        node_view(r) == paragraph(seq![node_view(first)]),
{
    let mut children: Vec<Node> = Vec::new();
    children.push(first);
    assert(node_views(children@) =~= seq![node_view(first)]);
    Node::new_paragraph(children)
}

fn paragraph_of_two(first: Node, second: Node) -> (r: Node)
    ensures
        node_view(r) == paragraph(seq![node_view(first), node_view(second)]),
{
    let mut children: Vec<Node> = Vec::new();
    children.push(first);
    children.push(second);
    assert(node_views(children@) =~= seq![node_view(first), node_view(second)]);
    Node::new_paragraph(children)
}

fn push_node(content: &mut Vec<Node>, node: Node)
    ensures
        node_views(final(content)@) == node_views(old(content)@).push(node_view(node)),
{
    let ghost before = node_views(content@);
    content.push(node);
    assert(node_views(content@) =~= before.push(node_view(node)));
}

/// Writes the end of a page.
pub fn write_footer(content: &mut Vec<Node>, original_links: &Vec<String>, next_page: Option<&str>)
    ensures
        node_views(final(content)@) == node_views(old(content)@) + footer(
            texts(original_links@),
            next_page.deep_view(),
        ),
{
    let ghost start = node_views(content@);
    let ghost links = texts(original_links@);
    let has_next = next_page.is_some();
    if let Some(page) = next_page {
        push_node(content, paragraph_of(Node::new_link(page, "Next Page")));
    }
    push_node(
        content,
        paragraph_of_two(
            Node::new_text("Generated by "),
            Node::new_link("https://github.com/DrCMWither/eh2telegraph", "eh2telegraph"),
        ),
    );
    let ghost middle = node_views(content@);
    if original_links.len() == 1 {
        let link = original_links[0].as_str();
        push_node(
            content,
            paragraph_of_two(Node::new_text("Original link: "), Node::new_link(link, link)),
        );
        assert(links[0] == link@);
        assert(node_views(content@) =~= start + footer(links, next_page.deep_view()));
    } else if !has_next {
        push_node(content, paragraph_of(Node::new_text("Original links:")));
        let ghost head = node_views(content@);
        let mut i: usize = 0;
        assert(numbered_lines(links).take(0) =~= Seq::empty());
        assert(node_views(content@) =~= head + numbered_lines(links).take(0));
        while i < original_links.len()
            invariant
                i <= original_links.len(),
                links == texts(original_links@),
                node_views(content@) == head + numbered_lines(links).take(i as int),
            decreases original_links.len() - i,
        {
            let link = original_links[i].as_str();
            let mut label = number(i as u64 + 1);
            label.append(". ");
            label.append(link);
            assert(links[i as int] == link@);
            let ghost lines = numbered_lines(links);
            push_node(content, paragraph_of(Node::new_link(link, label.as_str())));
            assert(lines.take(i + 1) =~= lines.take(i as int).push(lines[i as int]));
            i += 1;
            assert(node_views(content@) =~= head + lines.take(i as int));
        }
        assert(numbered_lines(links).take(i as int) =~= numbered_lines(links));
        assert(node_views(content@) =~= start + footer(links, next_page.deep_view()));
    } else {
        assert(node_views(content@) =~= start + footer(links, next_page.deep_view()));
    }
}

/// Every original is named at the end of the last page; where there is only one, at the end of
/// every page. A page that is not the last links to the next one.
pub proof fn footers_name_the_originals(links: Seq<Seq<char>>, next: Option<Seq<char>>, i: int)
    requires
        0 <= i < links.len(),
    ensures
        links.len() == 1 ==> footer(links, next).contains(original_line(links[i])),
        links.len() > 1 && next is None ==> footer(links, next).contains(numbered_line(i, links[i])),
        next matches Some(url) ==> footer(links, next)[0] == next_page_line(url),
{
    let f = footer(links, next);
    if links.len() == 1 {
        assert(f.last() == original_line(links[0]));
    } else if next is None {
        assert(f[2 + i] == numbered_line(i, links[i]));
    }
}

/// All that stands at the end of a page, in order: the link to the next page if there is one, the line
/// of the program, and the originals. Each original has a line of its own, with its number, that leads
/// to it and to no other.
pub proof fn footers_are_complete(links: Seq<Seq<char>>, next: Option<Seq<char>>, i: int)
    ensures
        ({
            let f = footer(links, next);
            let n = if next is Some {
                1int
            } else {
                0int
            };
            &&& next matches Some(url) ==> f[0] == paragraph(seq![anchor(url, "Next Page"@)])
            &&& f[n] == paragraph(
                seq![
                    NodeView::Text("Generated by "@),
                    anchor("https://github.com/DrCMWither/eh2telegraph"@, "eh2telegraph"@),
                ],
            )
            &&& links.len() == 1 ==> f.len() == n + 2 && f[n + 1] == paragraph(
                seq![NodeView::Text("Original link: "@), anchor(links[0], links[0])],
            )
            &&& links.len() != 1 && next is Some ==> f.len() == n + 1
            &&& links.len() != 1 && next is None ==> {
                &&& f.len() == 2 + links.len()
                &&& f[1] == paragraph(seq![NodeView::Text("Original links:"@)])
                &&& 0 <= i < links.len() ==> f[2 + i] == paragraph(
                    seq![anchor(links[i], decimal((i + 1) as nat) + ". "@ + links[i])],
                )
            }
        }),
{
}

proof fn lemma_urls_of_sum(a: Seq<NodeView>, b: Seq<NodeView>)
    ensures
        urls_in_all(a + b) == urls_in_all(a) + urls_in_all(b),
    decreases b.len(),
{
    if b.len() > 0 {
        lemma_urls_of_sum(a, b.drop_last());
        assert((a + b).drop_last() =~= a + b.drop_last());
        assert((a + b).last() == b.last());
        assert(urls_in_all(a + b) =~= urls_in_all(a) + urls_in_all(b));
    } else {
        assert(a + b =~= a);
        assert(urls_in_all(a) + urls_in_all(b) =~= urls_in_all(a));
    }
}

proof fn lemma_no_urls(nodes: Seq<NodeView>)
    requires
        forall|i: int| 0 <= i < nodes.len() ==> urls_in(#[trigger] nodes[i]).len() == 0,
    ensures
        urls_in_all(nodes).len() == 0,
    decreases nodes.len(),
{
    if nodes.len() > 0 {
        let before = nodes.drop_last();
        assert forall|i: int| 0 <= i < before.len() implies urls_in(
            #[trigger] before[i],
        ).len() == 0 by {
            assert(before[i] == nodes[i]);
        }
        lemma_no_urls(before);
        assert(urls_in(nodes[nodes.len() - 1]).len() == 0);
    }
}

proof fn lemma_no_urls_in_line(children: Seq<NodeView>)
    requires
        forall|i: int|
            0 <= i < children.len() ==> ((#[trigger] children[i]) is Text || exists|
                href: Seq<char>,
                label: Seq<char>,
            | children[i] == #[trigger] anchor(href, label)),
    ensures
        urls_in(paragraph(children)).len() == 0,
{
    assert forall|i: int| 0 <= i < children.len() implies urls_in(
        #[trigger] children[i],
    ).len() == 0 by {
        if !(children[i] is Text) {
            let (href, label) = choose|href: Seq<char>, label: Seq<char>|
                children[i] == #[trigger] anchor(href, label);
            let inner = seq![NodeView::Text(label)];
            assert(urls_in(inner[0]).len() == 0);
            lemma_no_urls(inner);
            assert(urls_in(anchor(href, label)).len() == 0);
        }
    }
    lemma_no_urls(children);
}

proof fn lemma_image_urls(srcs: Seq<Seq<char>>)
    ensures
        urls_in_all(image_list(srcs)) == srcs.map_values(|s: Seq<char>| absolute(s)),
    decreases srcs.len(),
{
    let want = srcs.map_values(|s: Seq<char>| absolute(s));
    if srcs.len() > 0 {
        let before = srcs.drop_last();
        lemma_image_urls(before);
        assert(image_list(srcs).drop_last() =~= image_list(before));
        let s = srcs.last();
        let full = absolute(s);
        reveal_strlit("https://");
        reveal_strlit("https://telegra.ph");
        assert(full == s || full.subrange(0, 8) =~= "https://"@);
        assert(absolute(full) == full);
        assert(image_list(srcs).last() == image(full));
        assert(urls_in(image(full)) =~= seq![full]);
        assert(urls_in_all(image_list(srcs)) =~= want);
    } else {
        assert(image_list(srcs) =~= Seq::empty());
        assert(urls_in_all(image_list(srcs)) =~= want);
    }
}

/// The addresses that are collected from a page are those of its images, in order; the end of the
/// page adds none.
pub proof fn pages_show_their_images(
    srcs: Seq<Seq<char>>,
    links: Seq<Seq<char>>,
    next: Option<Seq<char>>,
)
    ensures
        urls_in_all(image_list(srcs) + footer(links, next)) == srcs.map_values(
            |s: Seq<char>| absolute(s),
        ),
{
    let f = footer(links, next);
    assert forall|i: int| 0 <= i < f.len() implies urls_in(#[trigger] f[i]).len() == 0 by {
        let start: int = if next is Some {
            1
        } else {
            0
        };
        if i < start {
            lemma_no_urls_in_line(seq![anchor(next->0, "Next Page"@)]);
        } else if i == start {
            lemma_no_urls_in_line(
                seq![
                    NodeView::Text("Generated by "@),
                    anchor("https://github.com/DrCMWither/eh2telegraph"@, "eh2telegraph"@),
                ],
            );
        } else if links.len() == 1 {
            lemma_no_urls_in_line(
                seq![NodeView::Text("Original link: "@), anchor(links[0], links[0])],
            );
        } else if i == start + 1 {
            lemma_no_urls_in_line(seq![NodeView::Text("Original links:"@)]);
        } else {
            let k = i - start - 2;
            lemma_no_urls_in_line(
                seq![anchor(links[k], decimal((k + 1) as nat) + ". "@ + links[k])],
            );
            assert(f[i] == numbered_line(k, links[k]));
        }
    }
    lemma_no_urls(f);
    lemma_urls_of_sum(image_list(srcs), f);
    lemma_image_urls(srcs);
    assert(urls_in_all(image_list(srcs)) + urls_in_all(f) =~= urls_in_all(image_list(srcs)));
}

// ---------------------------------------------------------------------------
// Publishing page by page
// ---------------------------------------------------------------------------

/// An article that is to be created.
#[derive(Debug)]
pub struct PageCreate {
    pub title: String,
    pub content: Vec<Node>,
    pub author_name: Option<String>,
    pub author_url: Option<String>,
}

/// An article as its characters.
#[verifier::ext_equal]
pub struct PageView {
    pub title: Seq<char>,
    pub content: Seq<NodeView>,
    pub author_name: Option<Seq<char>>,
    pub author_url: Option<Seq<char>>,
}

impl View for PageCreate {
    type V = PageView;

    open spec fn view(&self) -> PageView {
        PageView {
            title: self.title@,
            content: node_views(self.content@),
            author_name: opt_text(self.author_name),
            author_url: opt_text(self.author_url),
        }
    }
}

/// An album on its way into articles. The last page is created first, so that each page can link to
/// the one that follows.
#[derive(Debug)]
pub struct Publication {
    pub chunks: Vec<Vec<Node>>,
    pub title: String,
    pub links: Vec<String>,
    pub author_name: Option<String>,
    pub author_url: Option<String>,
    pub last_url: Option<String>,
}

/// A publication as its characters: the pages still to be created, in reading order, and the
/// address of the page that was created last.
#[verifier::ext_equal]
pub struct PublicationView {
    pub pages: Seq<Seq<NodeView>>,
    pub title: Seq<char>,
    pub links: Seq<Seq<char>>,
    pub author_name: Option<Seq<char>>,
    pub author_url: Option<Seq<char>>,
    pub last_url: Option<Seq<char>>,
}

/// Pages of nodes as their characters.
pub open spec fn page_views(pages: Seq<Seq<Node>>) -> Seq<Seq<NodeView>> {
    pages.map_values(|p: Seq<Node>| node_views(p))
}

impl View for Publication {
    type V = PublicationView;

    open spec fn view(&self) -> PublicationView {
        PublicationView {
            pages: page_views(inner(self.chunks@)),
            title: self.title@,
            links: texts(self.links@),
            author_name: opt_text(self.author_name),
            author_url: opt_text(self.author_url),
            last_url: opt_text(self.last_url),
        }
    }
}

/// The title of page `n`, counted from 0.
pub open spec fn page_title(title: Seq<char>, n: nat) -> Seq<char> {
    if n == 0 {
        title
    } else {
        title + "-Page"@ + decimal(n + 1)
    }
}

/// Page `n` of a publication, counted from 0, with a link to `next` if that is there.
pub open spec fn page_of(
    v: PublicationView,
    n: nat,
    content: Seq<NodeView>,
    next: Option<Seq<char>>,
) -> PageView {
    PageView {
        title: page_title(v.title, n),
        content: content + footer(v.links, next),
        author_name: v.author_name,
        author_url: v.author_url,
    }
}

/// A page is its images and then its end, under the title of the album; every page but the first adds
/// its number to the title, counted from 1. All pages name the same author.
pub proof fn pages_are_numbered(
    v: PublicationView,
    n: nat,
    content: Seq<NodeView>,
    next: Option<Seq<char>>,
)
    ensures
        page_of(v, 0, content, next).title == v.title,
        n > 0 ==> page_of(v, n, content, next).title == v.title + "-Page"@ + decimal(n + 1),
        page_of(v, n, content, next).content == content + footer(v.links, next),
        page_of(v, n, content, next).author_name == v.author_name,
        page_of(v, n, content, next).author_url == v.author_url,
{
}

/// What is created is what was decided: an article has the title, the content and the author of its
/// view, and a publication still has the pages that its view tells of.
pub proof fn articles_are_as_viewed(page: PageCreate, p: Publication, i: int)
    ensures
        page@.title == page.title@,
        page@.content == node_views(page.content@),
        page@.author_name == opt_text(page.author_name),
        page@.author_url == opt_text(page.author_url),
        p@.pages.len() == p.chunks.len(),
        0 <= i < p.chunks.len() ==> p@.pages[i] == node_views(p.chunks@[i]@),
        p@.title == p.title@,
        p@.links == texts(p.links@),
        p@.author_name == opt_text(p.author_name),
        p@.author_url == opt_text(p.author_url),
        p@.last_url == opt_text(p.last_url),
{
}

proof fn lemma_paged_views(items: Seq<Node>, sizes: Seq<usize>)
    requires
        items.len() == sizes.len(),
    ensures
        page_views(paged(items, sizes).0) == paged(node_views(items), sizes).0,
        paged(items, sizes).1 == paged(node_views(items), sizes).1,
        paged(items, sizes).0.len() > 0,
    decreases items.len(),
{
    let (pages, size) = paged(items, sizes);
    if items.len() == 0 {
        assert(node_views(items) =~= Seq::empty());
        assert(node_views(Seq::<Node>::empty()) =~= Seq::empty());
        assert(page_views(pages) =~= seq![Seq::<NodeView>::empty()]);
    } else {
        lemma_paged_views(items.drop_last(), sizes.drop_last());
        let (p, s) = paged(items.drop_last(), sizes.drop_last());
        assert(node_views(items).drop_last() =~= node_views(items.drop_last()));
        assert(node_views(items).last() == node_view(items.last()));
        if s + sizes.last() > PAGE_SIZE_LIMIT {
            assert(node_views(seq![items.last()]) =~= seq![node_view(items.last())]);
            assert(page_views(pages) =~= page_views(p).push(seq![node_view(items.last())]));
        } else {
            assert(node_views(p.last().push(items.last())) =~= node_views(p.last()).push(
                node_view(items.last()),
            ));
            assert(page_views(pages) =~= page_views(p).update(
                p.len() - 1,
                node_views(p.last()).push(node_view(items.last())),
            ));
        }
    }
}

impl Publication {
    /// An album that is to be published: its images, of the given sizes, go into pages.
    pub fn new(
        title: String,
        nodes: Vec<Node>,
        sizes: &Vec<usize>,
        links: Vec<String>,
        author_name: Option<String>,
        author_url: Option<String>,
    ) -> (r: Self)
        requires
            nodes.len() == sizes.len(),
        ensures
            r@ == (PublicationView {
                pages: paged(node_views(nodes@), sizes@).0,
                title: title@,
                links: texts(links@),
                author_name: opt_text(author_name),
                author_url: opt_text(author_url),
                last_url: None,
            }),
            r@.pages.len() > 0,
    {
        proof {
            lemma_paged_views(nodes@, sizes@);
        }
        let chunks = paginate(nodes, sizes);
        Publication { chunks, title, links, author_name, author_url, last_url: None }
    }

    /// The page that is to be created next: the last of those that are left. `None` once all have
    /// been created.
    pub fn next_page(&mut self) -> (r: Option<PageCreate>)
        ensures
            ({
                let v = old(self)@;
                if v.pages.len() == 0 {
                    r is None && final(self)@ == v
                } else {
                    &&& r matches Some(page) && page@ == page_of(
                        v,
                        (v.pages.len() - 1) as nat,
                        v.pages.last(),
                        v.last_url,
                    )
                    &&& final(self)@ == (PublicationView { pages: v.pages.drop_last(), ..v })
                }
            }),
    {
        let ghost v = self@;
        let left = self.chunks.len();
        let mut content = match self.chunks.pop() {
            Some(chunk) => chunk,
            None => {
                return None;
            },
        };
        assert(self@.pages =~= v.pages.drop_last());
        assert(node_views(content@) == v.pages.last());
        match &self.last_url {
            Some(url) => write_footer(&mut content, &self.links, Some(url.as_str())),
            None => write_footer(&mut content, &self.links, None),
        }
        let mut title = self.title.clone();
        if left > 1 {
            title.append("-Page");
            title.append(number(left as u64).as_str());
        }
        Some(
            PageCreate {
                title,
                content,
                author_name: self.author_name.clone(),
                author_url: self.author_url.clone(),
            },
        )
    }

    /// The page has been created, at this address.
    pub fn created(&mut self, url: String)
        ensures
            final(self)@ == (PublicationView { last_url: Some(url@), ..old(self)@ }),
    {
        self.last_url = Some(url);
    }
}

/// A publication after `k` pages have been created, at the addresses `urls`.
pub open spec fn after_pages(v: PublicationView, urls: Seq<Seq<char>>, k: nat) -> PublicationView
    decreases k,
{
    if k == 0 {
        v
    } else {
        let w = after_pages(v, urls, (k - 1) as nat);
        PublicationView { pages: w.pages.drop_last(), last_url: Some(urls[k - 1]), ..w }
    }
}

/// The article that is read as one: pages are created from the last to the first. The `k`-th to be
/// created is, in reading order, the `k`-th from the end; it holds its own images and links to the
/// page that was created before it, which is the one that follows in reading order. After the last
/// creation nothing is left, and the address of the publication is that of its first page.
pub proof fn pages_form_a_chain(v: PublicationView, urls: Seq<Seq<char>>, k: nat)
    requires
        k <= v.pages.len(),
        urls.len() == v.pages.len(),
        v.last_url is None,
    ensures
        ({
            let w = after_pages(v, urls, k);
            let left = (v.pages.len() - k) as nat;
            &&& w.pages == v.pages.take(left as int)
            &&& w.last_url == (if k == 0 {
                None
            } else {
                Some(urls[k - 1])
            })
            &&& left > 0 ==> page_of(w, (left - 1) as nat, w.pages.last(), w.last_url) == page_of(
                v,
                (left - 1) as nat,
                v.pages[left - 1],
                if k == 0 {
                    None
                } else {
                    Some(urls[k - 1])
                },
            )
            &&& left == 0 ==> w.pages.len() == 0 && (urls.len() > 0 ==> w.last_url == Some(
                urls.last(),
            ))
        }),
    decreases k,
{
    if k > 0 {
        pages_form_a_chain(v, urls, (k - 1) as nat);
        let w0 = after_pages(v, urls, (k - 1) as nat);
        assert(w0.pages.drop_last() =~= v.pages.take(v.pages.len() - k));
        lemma_same_frame(v, urls, k);
    } else {
        assert(v.pages.take(v.pages.len() as int) =~= v.pages);
    }
}

proof fn lemma_same_frame(v: PublicationView, urls: Seq<Seq<char>>, k: nat)
    ensures
        ({
            let w = after_pages(v, urls, k);
            w.title == v.title && w.links == v.links && w.author_name == v.author_name
                && w.author_url == v.author_url
        }),
    decreases k,
{
    if k > 0 {
        lemma_same_frame(v, urls, (k - 1) as nat);
    }
}

} // verus!
