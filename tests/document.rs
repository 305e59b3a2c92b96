use htmlgraph::{split_ascii_whitespace, DocumentStore, Error, Selector};

const SAMPLE: &str = r#"<div id="a"><p class="x">Hello</p><p class="y">World</p></div>"#;

fn load(markup: &str) -> DocumentStore {
    DocumentStore::load(markup).expect("markup loads")
}

fn select(doc: &DocumentStore, id: usize, sel: &str) -> Vec<usize> {
    let selector = Selector::parse(sel).expect("valid selector");
    doc.select(id, &selector).expect("lookup succeeds")
}

fn only(doc: &DocumentStore, sel: &str) -> usize {
    let found = select(doc, doc.root(), sel);
    assert_eq!(found.len(), 1);
    found[0]
}

#[test]
fn scenario_class_selection_in_div() {
    let doc = load(SAMPLE);
    let div = only(&doc, "div");
    let x = select(&doc, div, ".x");
    assert_eq!(x.len(), 1);
    assert_eq!(doc.full_text(x[0]), "Hello");
    assert_eq!(doc.node_name(x[0]), "p");
}

#[test]
fn scenario_paragraphs_in_order() {
    let doc = load(SAMPLE);
    let div = only(&doc, "div");
    let ps = select(&doc, div, "p");
    let texts: Vec<String> = ps.iter().map(|&p| doc.full_text(p)).collect();
    assert_eq!(texts, vec!["Hello".to_string(), "World".to_string()]);
    assert_eq!(doc.class_list(ps[1]), vec!["y".to_string()]);
}

#[test]
fn scenario_attr_id_of_div() {
    let doc = load(SAMPLE);
    let div = only(&doc, "div");
    assert_eq!(doc.attr(div, "id"), Some("a".to_string()));
    assert_eq!(doc.attr(div, "missing"), None);
}

#[test]
fn scenario_invalid_selector() {
    match Selector::parse("[") {
        Err(e) => {
            assert_eq!(e, Error::Selector);
            assert_eq!(e.message(), "invalid css selection string");
        }
        Ok(_) => panic!("\"[\" compiled"),
    }
}

#[test]
fn text_nodes_have_own_text() {
    let doc = load(SAMPLE);
    let x = only(&doc, ".x");
    assert_eq!(doc.text_content(x), None);
    assert!(!doc.is_text(x));
    let inner = doc.walk(x);
    assert_eq!(inner.len(), 2);
    assert!(doc.is_text(inner[1]));
    assert_eq!(doc.text_content(inner[1]), Some("Hello".to_string()));
    assert_eq!(doc.node_name(inner[1]), "");
}

#[test]
fn root_name_and_text_only_document() {
    let doc = load("just some text");
    let root = doc.root();
    assert_eq!(doc.node_name(root), "");
    assert_eq!(doc.node_name(root), doc.node_name(root));
    assert!(select(&doc, root, "p").is_empty());
    assert!(select(&doc, root, ".nothing").is_empty());
    assert_eq!(doc.full_text(root), "just some text");
}

#[test]
fn empty_markup_loads() {
    let doc = load("");
    assert!(doc.len() >= 1);
    assert_eq!(doc.full_text(doc.root()), "");
    assert_eq!(select(&doc, doc.root(), "html").len(), 1);
}

#[test]
fn full_text_without_text_is_empty() {
    let doc = load(r#"<div id="e"><br><img src="x.png"></div>"#);
    let div = only(&doc, "#e");
    assert_eq!(doc.full_text(div), "");
}

#[test]
fn full_text_concatenates_in_preorder() {
    let doc = load("<div>a<b>b<i>c</i></b>d<span>e</span></div>");
    let div = only(&doc, "div");
    assert_eq!(doc.full_text(div), "abcde");
    let b = only(&doc, "b");
    assert_eq!(doc.full_text(b), "bc");
}

#[test]
fn walk_is_preorder() {
    let doc = load("<div><p>1</p><ul><li>2</li></ul><em>3</em></div>");
    let div = only(&doc, "div");
    let names: Vec<String> = doc.walk(div).iter().map(|&n| doc.node_name(n)).collect();
    assert_eq!(names, vec!["div", "p", "", "ul", "li", "", "em", ""]);
    assert_eq!(doc.walk(div)[0], div);
    assert_eq!(doc.subtree_end(div), div + 8);
}

#[test]
fn select_is_stable_and_duplicate_free() {
    let doc = load("<div><p class=a>1</p><p class=b>2</p><p class='a b'>3</p></div>");
    let selector = Selector::parse(".a, .b, p").unwrap();
    let first = doc.select(doc.root(), &selector).unwrap();
    let second = doc.select(doc.root(), &selector).unwrap();
    assert_eq!(first, second);
    assert_eq!(first.len(), 3);
    for w in first.windows(2) {
        assert!(w[0] < w[1]);
    }
    let texts: Vec<String> = first.iter().map(|&p| doc.full_text(p)).collect();
    assert_eq!(texts, vec!["1", "2", "3"]);
}

#[test]
fn select_includes_scope_root() {
    let doc = load(SAMPLE);
    let div = only(&doc, "div");
    assert_eq!(select(&doc, div, "div"), vec![div]);
    let selector = Selector::parse("div").unwrap();
    assert!(doc.select_within(div, &selector, false).unwrap().is_empty());
    let ps = doc.select_within(div, &Selector::parse("p").unwrap(), false).unwrap();
    assert_eq!(ps.len(), 2);
}

#[test]
fn select_stays_in_scope() {
    let doc = load("<div><p>1</p><section><p>2</p><div><p>3</p></div></section><p>4</p></div>");
    let section = only(&doc, "section");
    let inside = doc.walk(section);
    for sel in ["p", "section p", "section > p", "section div p", "*"] {
        let found = select(&doc, section, sel);
        for n in &found {
            assert!(inside.contains(n));
        }
    }
    let texts: Vec<String> = select(&doc, section, "p").iter().map(|&p| doc.full_text(p)).collect();
    assert_eq!(texts, vec!["2", "3"]);
    let nested: Vec<String> = select(&doc, section, "section div p")
        .iter()
        .map(|&p| doc.full_text(p))
        .collect();
    assert_eq!(nested, vec!["3"]);
}

#[test]
fn compiling_twice_behaves_the_same() {
    let doc = load(SAMPLE);
    let a = Selector::parse("div > p.y").unwrap();
    let b = Selector::parse("div > p.y").unwrap();
    assert_eq!(a.as_str(), "div > p.y");
    assert_eq!(a.as_str(), b.as_str());
    let ra = doc.select(doc.root(), &a).unwrap();
    let rb = doc.select(doc.root(), &b).unwrap();
    assert_eq!(ra, rb);
    assert_eq!(ra.len(), 1);
}

#[test]
fn serialized_html_round_trips() {
    let doc = load(r#"<div id="a" title="t"><p class="x">Hello</p><a href="/h">World</a></div>"#);
    let div = only(&doc, "div");
    let html = doc.serialized_html(div).unwrap();
    assert!(html.starts_with("<div"));
    let again = load(&html);
    let div2 = only(&again, "div");
    let n1 = doc.walk(div);
    let n2 = again.walk(div2);
    assert_eq!(n1.len(), n2.len());
    for (a, b) in n1.iter().zip(n2.iter()) {
        assert_eq!(doc.node_name(*a), again.node_name(*b));
        assert_eq!(doc.text_content(*a), again.text_content(*b));
        for name in ["id", "title", "class", "href"] {
            assert_eq!(doc.attr(*a, name), again.attr(*b, name));
        }
    }
}

#[test]
fn href_reads_the_attribute() {
    let doc = load(r#"<a href="https://example.org/x">link</a><b>no</b>"#);
    let a = only(&doc, "a");
    assert_eq!(doc.href(a), Some("https://example.org/x".to_string()));
    let b = only(&doc, "b");
    assert_eq!(doc.href(b), None);
}

#[test]
fn class_list_edge_cases() {
    let doc = load("<p class=\"  one\ttwo\n three  \">a</p><i>b</i><em class=\"\">c</em>");
    let p = only(&doc, "p");
    assert_eq!(doc.class_list(p), vec!["one", "two", "three"]);
    let i = only(&doc, "i");
    assert!(doc.class_list(i).is_empty());
    let em = only(&doc, "em");
    assert!(doc.class_list(em).is_empty());
}

#[test]
fn split_on_ascii_whitespace() {
    assert_eq!(split_ascii_whitespace(""), Vec::<String>::new());
    assert_eq!(split_ascii_whitespace("   "), Vec::<String>::new());
    assert_eq!(split_ascii_whitespace("a"), vec!["a"]);
    assert_eq!(split_ascii_whitespace(" a\x0Cb\r\nc "), vec!["a", "b", "c"]);
    assert_eq!(split_ascii_whitespace("é\u{a0}x y"), vec!["é\u{a0}x", "y"]);
}

#[test]
fn contains_and_len() {
    let doc = load(SAMPLE);
    assert!(doc.contains(doc.root()));
    assert!(doc.contains(doc.len() - 1));
    assert!(!doc.contains(doc.len()));
}

#[test]
fn error_messages() {
    assert_eq!(Error::Lookup.message(), "node not found in its document");
    assert_eq!(Error::Parse.message(), "markup could not be parsed");
    assert_eq!(Error::Capacity.message(), "document has too many nodes");
}
