//! The content of Telegraph articles.

use crate::text::{is_at, opt_text, starts_with, texts};
use vstd::prelude::*;
use vstd::string::*;

verus! {

/// The tags that the articles use.
#[derive(Debug, Clone, Copy, PartialEq, Eq, Structural)]
pub enum Tag {
    A,
    Img,
    P,
}

/// The attributes of an element.
#[derive(Debug)]
pub struct NodeElementAttr {
    pub src: Option<String>,
    pub href: Option<String>,
}

/// An element of an article.
#[derive(Debug)]
pub struct NodeElement {
    pub tag: Tag,
    pub attrs: Option<NodeElementAttr>,
    pub children: Option<Vec<Node>>,
}

/// A piece of the content of an article.
#[derive(Debug)]
pub enum Node {
    Text(String),
    NodeElement(NodeElement),
}

/// A piece of content as its characters; the attributes are `src` and `href`.
pub enum NodeView {
    Text(Seq<char>),
    Element {
        tag: Tag,
        attrs: Option<(Option<Seq<char>>, Option<Seq<char>>)>,
        children: Option<Seq<NodeView>>,
    },
}

/// The attributes of an element as their characters.
pub open spec fn attrs_view(attrs: Option<NodeElementAttr>) -> Option<
    (Option<Seq<char>>, Option<Seq<char>>),
> {
    match attrs {
        Some(a) => Some((opt_text(a.src), opt_text(a.href))),
        None => None,
    }
}

/// A piece of content as its characters.
pub open spec fn node_view(node: Node) -> NodeView
    decreases node,
{
    match node {
        Node::Text(t) => NodeView::Text(t@),
        Node::NodeElement(e) => NodeView::Element {
            tag: e.tag,
            attrs: attrs_view(e.attrs),
            children: match e.children {
                Some(c) => Some(
                    Seq::new(
                        c@.len(),
                        |i: int|
                            if 0 <= i < c@.len() {
                                node_view(c@[i])
                            } else {
                                arbitrary()
                            },
                    ),
                ),
                None => None,
            },
        },
    }
}

/// Pieces of content as their characters.
pub open spec fn node_views(nodes: Seq<Node>) -> Seq<NodeView> {
    nodes.map_values(|n: Node| node_view(n))
}

/// A paragraph with the given content.
pub open spec fn paragraph(children: Seq<NodeView>) -> NodeView {
    NodeView::Element { tag: Tag::P, attrs: None, children: Some(children) }
}

/// A link with the given text.
pub open spec fn anchor(href: Seq<char>, label: Seq<char>) -> NodeView {
    NodeView::Element {
        tag: Tag::A,
        attrs: Some((None, Some(href))),
        children: Some(seq![NodeView::Text(label)]),
    }
}

/// An image.
pub open spec fn image(src: Seq<char>) -> NodeView {
    NodeView::Element { tag: Tag::Img, attrs: Some((Some(src), None)), children: None }
}

proof fn lemma_view_of_element(e: NodeElement)
    ensures
        node_view(Node::NodeElement(e)) == (NodeView::Element {
            tag: e.tag,
            attrs: attrs_view(e.attrs),
            children: match e.children {
                Some(c) => Some(node_views(c@)),
                None => None,
            },
        }),
{
    if let Some(c) = e.children {
        let v = node_view(Node::NodeElement(e));
        assert(v->children->0 =~= node_views(c@));
    }
}

/// What a piece of content is, its view tells: a text is its characters; an element has its tag, its
/// addresses and, one by one, its own content.
pub proof fn content_is_as_viewed(node: Node, nodes: Seq<Node>, i: int)
    ensures
        node_views(nodes).len() == nodes.len(),
        0 <= i < nodes.len() ==> node_views(nodes)[i] == node_view(nodes[i]),
        node matches Node::Text(t) ==> node_view(node) == NodeView::Text(t@),
        node matches Node::NodeElement(e) ==> (node_view(node) matches NodeView::Element {
            tag,
            attrs,
            children,
        } && tag == e.tag && (match e.attrs {
            Some(a) => attrs == Some((opt_text(a.src), opt_text(a.href))),
            None => attrs is None,
        }) && (match e.children {
            Some(c) => children matches Some(v) && v.len() == c.len() && (0 <= i < c.len() ==> v[i]
                == node_view(c@[i])),
            None => children is None,
        })),
{
    if let Node::NodeElement(e) = node {
        lemma_view_of_element(e);
    }
}

/// What lines, links and images are made of.
pub proof fn elements_are_what_they_say(
    children: Seq<NodeView>,
    href: Seq<char>,
    label: Seq<char>,
)
    ensures
        paragraph(children) == (NodeView::Element {
            tag: Tag::P,
            attrs: None,
            children: Some(children),
        }),
        anchor(href, label) == (NodeView::Element {
            tag: Tag::A,
            attrs: Some((None, Some(href))),
            children: Some(seq![NodeView::Text(label)]),
        }),
        image(href) == (NodeView::Element {
            tag: Tag::Img,
            attrs: Some((Some(href), None)),
            children: None,
        }),
{
}

impl Node {
    /// A text.
    pub fn new_text(text: &str) -> (r: Node)
        ensures
            node_view(r) == NodeView::Text(text@),
    {
        Node::Text(text.to_owned())
    }

    /// An image.
    pub fn new_image(src: String) -> (r: Node)
        ensures
            node_view(r) == image(src@),
    {
        Node::NodeElement(
            NodeElement {
                tag: Tag::Img,
                attrs: Some(NodeElementAttr { src: Some(src), href: None }),
                children: None,
            },
        )
    }

    /// A paragraph with the given content.
    pub fn new_paragraph(children: Vec<Node>) -> (r: Node)
        ensures
            node_view(r) == paragraph(node_views(children@)),
    {
        let e = NodeElement { tag: Tag::P, attrs: None, children: Some(children) };
        proof {
            lemma_view_of_element(e);
        }
        Node::NodeElement(e)
    }

    /// A link with the given text.
    pub fn new_link(href: &str, label: &str) -> (r: Node)
        ensures
            node_view(r) == anchor(href@, label@),
    {
        let mut children: Vec<Node> = Vec::new();
        children.push(Node::new_text(label));
        let e = NodeElement {
            tag: Tag::A,
            attrs: Some(NodeElementAttr { src: None, href: Some(href.to_owned()) }),
            children: Some(children),
        };
        proof {
            lemma_view_of_element(e);
            assert(node_views(children@) =~= seq![NodeView::Text(label@)]);
        }
        Node::NodeElement(e)
    }
}

// ---------------------------------------------------------------------------
// Image addresses
// ---------------------------------------------------------------------------

/// The full address of an image: one without a scheme lies on the site of the articles.
pub open spec fn absolute(src: Seq<char>) -> Seq<char> {
    if is_at(src, "http://"@, 0) || is_at(src, "https://"@, 0) {
        src
    } else {
        "https://telegra.ph"@ + src
    }
}

/// The full address of an image.
pub fn absolute_url(src: &str) -> (r: String)
    ensures
        r@ == absolute(src@),
{
    if starts_with(src, "http://") || starts_with(src, "https://") {
        src.to_owned()
    } else {
        let mut out = "https://telegra.ph".to_owned();
        out.append(src);
        out
    }
}

/// An address with a scheme is complete; any other lies on the site of the articles.
pub proof fn addresses_are_completed(src: Seq<char>)
    ensures
        absolute(src) == (if (exists|rest: Seq<char>| src == "http://"@ + rest) || (exists|
            rest: Seq<char>,
        | src == "https://"@ + rest) {
            src
        } else {
            "https://telegra.ph"@ + src
        }),
{
    lemma_begins(src, "http://"@);
    lemma_begins(src, "https://"@);
}

proof fn lemma_begins(s: Seq<char>, p: Seq<char>)
    ensures
        is_at(s, p, 0) <==> exists|rest: Seq<char>| s == p + rest,
{
    if is_at(s, p, 0) {
        assert(s =~= p + s.skip(p.len() as int));
    }
    if exists|rest: Seq<char>| s == p + rest {
        let rest = choose|rest: Seq<char>| s == p + rest;
        assert(s.subrange(0, p.len() as int) =~= p);
    }
}

/// The full addresses of the images in a piece of content, in the order in which they stand there.
pub open spec fn urls_in(node: NodeView) -> Seq<Seq<char>>
    decreases node,
{
    match node {
        NodeView::Text(_) => Seq::empty(),
        NodeView::Element { tag, attrs, children } => {
            let own = match attrs {
                Some((Some(src), _)) => seq![absolute(src)],
                _ => Seq::empty(),
            };
            match children {
                Some(c) => own + urls_in_all(c),
                None => own,
            }
        },
    }
}

/// The full addresses of the images in pieces of content.
pub open spec fn urls_in_all(nodes: Seq<NodeView>) -> Seq<Seq<char>>
    decreases nodes,
{
    if nodes.len() == 0 {
        Seq::empty()
    } else {
        urls_in_all(nodes.drop_last()) + urls_in(nodes.last())
    }
}

/// The addresses in content come in the order of the content, and none is left out: a text has none, an
/// element has its own and then those of what is in it, and a row of content has those of all its pieces.
pub proof fn addresses_come_in_order(
    text: Seq<char>,
    tag: Tag,
    attrs: Option<(Option<Seq<char>>, Option<Seq<char>>)>,
    children: Option<Seq<NodeView>>,
    nodes: Seq<NodeView>,
)
    ensures
        urls_in(NodeView::Text(text)).len() == 0,
        urls_in(NodeView::Element { tag, attrs, children }) == (match attrs {
            Some((Some(src), _)) => seq![absolute(src)],
            _ => Seq::empty(),
        }) + (match children {
            Some(c) => urls_in_all(c),
            None => Seq::empty(),
        }),
        urls_in_all(nodes) == nodes.map_values(|n: NodeView| urls_in(n)).flatten(),
    decreases nodes.len(),
{
    let e = NodeView::Element { tag, attrs, children };
    if children is None {
        assert(urls_in(e) + Seq::<Seq<char>>::empty() =~= urls_in(e));
    }
    let each = nodes.map_values(|n: NodeView| urls_in(n));
    if nodes.len() > 0 {
        let before = nodes.drop_last();
        addresses_come_in_order(text, tag, attrs, children, before);
        let rows = before.map_values(|n: NodeView| urls_in(n));
        rows.lemma_flatten_push(urls_in(nodes.last()));
        assert(each =~= rows.push(urls_in(nodes.last())));
    } else {
        assert(each.flatten() =~= Seq::empty());
    }
}

/// Adds the full addresses of the images in a piece of content.
pub fn collect_image_urls_from_node(node: &Node, urls: &mut Vec<String>)
    ensures
        texts(final(urls)@) == texts(old(urls)@) + urls_in(node_view(*node)),
    decreases node,
{
    let ghost start = texts(urls@);
    match node {
        Node::Text(_) => {
            assert(start + urls_in(node_view(*node)) =~= start);
        },
        Node::NodeElement(element) => {
            proof {
                lemma_view_of_element(*element);
            }
            if let Some(attrs) = &element.attrs {
                if let Some(src) = &attrs.src {
                    urls.push(absolute_url(src.as_str()));
                    assert(texts(urls@) =~= start + seq![absolute(src@)]);
                }
            }
            let ghost own = texts(urls@);
            if let Some(children) = &element.children {
                let ghost all = node_views(children@);
                let mut i: usize = 0;
                assert(all.take(0) =~= Seq::empty());
                assert(own + urls_in_all(all.take(0)) =~= own);
                while i < children.len()
                    invariant
                        i <= children.len(),
                        *node == Node::NodeElement(*element),
                        element.children == Some(*children),
                        all == node_views(children@),
                        texts(urls@) == own + urls_in_all(all.take(i as int)),
                    decreases children.len() - i,
                {
                    assert(all.take(i + 1).drop_last() =~= all.take(i as int));
                    assert(all.take(i + 1).last() == node_view(children@[i as int]));
                    let ghost before = texts(urls@);
                    assert(decreases_to!(*node => node->NodeElement_0.children->0@[i as int]));
                    collect_image_urls_from_node(&children[i], urls);
                    i += 1;
                    assert(texts(urls@) =~= own + urls_in_all(all.take(i as int)));
                }
                assert(all.take(i as int) =~= all);
            }
            assert(texts(urls@) =~= start + urls_in(node_view(*node)));
        },
    }
}

/// The full addresses of the images in an article.
pub fn collect_image_urls(content: &Vec<Node>) -> (r: Vec<String>)
    ensures
        texts(r@) == urls_in_all(node_views(content@)),
{
    let mut urls: Vec<String> = Vec::new();
    let ghost all = node_views(content@);
    let mut i: usize = 0;
    assert(all.take(0) =~= Seq::empty());
    assert(texts(urls@) =~= Seq::empty());
    while i < content.len()
        invariant
            i <= content.len(),
            all == node_views(content@),
            texts(urls@) == urls_in_all(all.take(i as int)),
        decreases content.len() - i,
    {
        assert(all.take(i + 1).drop_last() =~= all.take(i as int));
        assert(all.take(i + 1).last() == node_view(content@[i as int]));
        collect_image_urls_from_node(&content[i], &mut urls);
        i += 1;
    }
    assert(all.take(i as int) =~= all);
    urls
}

} // verus!
