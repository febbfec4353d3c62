use eh2telegraph::publish::{image_nodes, paginate, write_footer, Publication, PAGE_SIZE_LIMIT};
use eh2telegraph::stream::{AsyncStream, Buffered};
use eh2telegraph::sync::ReadyImageStream;
use eh2telegraph::collector::ImageMeta;
use eh2telegraph::telegraph::{absolute_url, collect_image_urls, Node, Tag};

fn strings(items: &[&str]) -> Vec<String> {
    items.iter().map(|s| s.to_string()).collect()
}

fn shown(node: &Node) -> String {
    match node {
        Node::Text(t) => t.clone(),
        Node::NodeElement(e) => {
            let inner: String = e.children.iter().flatten().map(shown).collect();
            let attrs = e.attrs.as_ref();
            match e.tag {
                Tag::A => format!("[{}]({})", inner, attrs.unwrap().href.as_ref().unwrap()),
                Tag::Img => format!("<{}>", attrs.unwrap().src.as_ref().unwrap()),
                Tag::P => format!("P({inner})"),
            }
        }
    }
}

fn shown_all(nodes: &[Node]) -> Vec<String> {
    nodes.iter().map(shown).collect()
}

fn image(id: &str) -> ImageMeta {
    ImageMeta { id: id.to_string(), url: id.to_string(), description: None }
}

#[test]
fn image_addresses_are_completed() {
    assert_eq!(absolute_url("https://a/b"), "https://a/b");
    assert_eq!(absolute_url("http://a/b"), "http://a/b");
    assert_eq!(absolute_url("/file/x.jpg"), "https://telegra.ph/file/x.jpg");
    let nodes = image_nodes(&strings(&["/a", "https://b"]));
    assert_eq!(shown_all(&nodes), ["<https://telegra.ph/a>", "<https://b>"]);
}

#[test]
fn pages_are_filled_up_to_the_limit() {
    let nodes = |n: usize| image_nodes(&vec!["/a".to_string(); n]);
    let lengths = |sizes: &[usize]| -> Vec<usize> {
        paginate(nodes(sizes.len()), &sizes.to_vec()).iter().map(|p| p.len()).collect()
    };
    assert_eq!(PAGE_SIZE_LIMIT, 49152);
    assert_eq!(lengths(&[]), [0]);
    assert_eq!(lengths(&[49152]), [1]);
    assert_eq!(lengths(&[49151, 1, 1]), [2, 1]);
    assert_eq!(lengths(&[60000, 1]), [0, 1, 1]);
    assert_eq!(lengths(&[usize::MAX, usize::MAX]), [0, 1, 1]);
}

#[test]
fn footers() {
    let footer = |links: &[&str], next| {
        let mut content = Vec::new();
        write_footer(&mut content, &strings(links), next);
        shown_all(&content)
    };
    let credit = "P(Generated by [eh2telegraph](https://github.com/DrCMWither/eh2telegraph))";
    assert_eq!(footer(&["l"], None), [credit, "P(Original link: [l](l))"]);
    assert_eq!(
        footer(&["l"], Some("n")),
        ["P([Next Page](n))", credit, "P(Original link: [l](l))"]
    );
    assert_eq!(footer(&["a", "b"], Some("n")), ["P([Next Page](n))", credit]);
    assert_eq!(
        footer(&["a", "b"], None),
        [credit, "P(Original links:)", "P([1. a](a))", "P([2. b](b))"]
    );
}

#[test]
fn pages_are_created_from_the_last() {
    let nodes = image_nodes(&strings(&["https://1", "https://2", "https://3"]));
    let sizes = vec![40000, 40000, 40000];
    let mut publication = Publication::new(
        "t".to_string(),
        nodes,
        &sizes,
        strings(&["l"]),
        Some("n".to_string()),
        None,
    );
    let mut seen = Vec::new();
    while let Some(page) = publication.next_page() {
        assert_eq!(page.author_name.as_deref(), Some("n"));
        assert_eq!(page.author_url, None);
        let next = publication.last_url.clone();
        seen.push((page.title.clone(), shown(&page.content[0]), next));
        assert_eq!(collect_image_urls(&page.content).len(), 1);
        publication.created(format!("u{}", seen.len()));
    }
    assert_eq!(
        seen,
        vec![
            ("t-Page3".to_string(), "<https://3>".to_string(), None),
            ("t-Page2".to_string(), "<https://2>".to_string(), Some("u1".to_string())),
            ("t".to_string(), "<https://1>".to_string(), Some("u2".to_string())),
        ]
    );
    assert_eq!(publication.last_url.as_deref(), Some("u3"));
    assert!(publication.next_page().is_none());
}

#[test]
fn pages_show_their_own_images() {
    let mut content = image_nodes(&strings(&["/a", "https://b"]));
    write_footer(&mut content, &strings(&["https://x/1.jpg", "y"]), None);
    assert_eq!(collect_image_urls(&content), ["https://telegra.ph/a", "https://b"]);
}

#[test]
fn ready_images_come_in_order() {
    let mut stream = ReadyImageStream::new(vec![image("a"), image("b")]);
    assert_eq!(stream.size_hint(), (2, Some(2)));
    assert_eq!(stream.next().unwrap().id, "a");
    assert_eq!(stream.next().unwrap().id, "b");
    assert!(stream.next().is_none());
}

#[test]
fn buffers_start_ahead_and_keep_the_order() {
    let started = std::cell::RefCell::new(Vec::new());
    let images = ["a", "b", "c", "d"].iter().map(|i| image(i)).collect();
    let mut buffer = Buffered::new(ReadyImageStream::new(images), 2);
    let spawn = |i: ImageMeta| {
        started.borrow_mut().push(i.id.clone());
        i.id
    };
    assert_eq!(buffer.next(spawn).as_deref(), Some("a"));
    assert_eq!(*started.borrow(), ["a", "b"]);
    assert_eq!(buffer.next(spawn).as_deref(), Some("b"));
    assert_eq!(*started.borrow(), ["a", "b", "c"]);
    assert_eq!(buffer.next(spawn).as_deref(), Some("c"));
    assert_eq!(buffer.next(spawn).as_deref(), Some("d"));
    assert_eq!(buffer.next(spawn), None);
    assert_eq!(started.borrow().len(), 4);
}
