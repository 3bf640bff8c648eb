use css_layout::dom::{AttrMap, ElementData, Node, NodeType};

fn element(tag: &str, attrs: &[(&str, &str)]) -> ElementData {
    let mut map = AttrMap::new();
    for (k, v) in attrs {
        map.insert(k.to_string(), v.to_string());
    }
    ElementData::new(tag.to_string(), map)
}

#[test]
fn id_of_an_element() {
    let e = element("div", &[("id", "main"), ("class", "a b")]);
    assert_eq!(e.tag_name, "div");
    assert_eq!(e.get_id(), Some(&"main".to_string()));
    assert_eq!(element("div", &[("class", "a")]).get_id(), None);
}

#[test]
fn classes_of_an_element() {
    let classes = element("p", &[("class", "a b a")]).get_classes();
    assert_eq!(classes.len(), 2);
    assert!(classes.contains("a"));
    assert!(classes.contains("b"));
    assert!(!classes.contains(""));

    let none = element("p", &[("id", "x")]).get_classes();
    assert_eq!(none.len(), 0);
}

#[test]
fn spaces_in_a_row_give_an_empty_class() {
    let classes = element("p", &[("class", "a  b ")]).get_classes();
    assert_eq!(classes.len(), 3);
    assert!(classes.contains("a"));
    assert!(classes.contains("b"));
    assert!(classes.contains(""));

    let empty = element("p", &[("class", "")]).get_classes();
    assert_eq!(empty.len(), 1);
    assert!(empty.contains(""));

    let tabs = element("p", &[("class", "a\tb")]).get_classes();
    assert_eq!(tabs.len(), 1);
    assert!(tabs.contains("a\tb"));
}

#[test]
fn nodes_hold_their_children() {
    let text = Node::new(NodeType::Text("hello".to_string()), Vec::new());
    let comment = Node::new(NodeType::Comment("note".to_string()), Vec::new());
    let root = Node::new(NodeType::Element(element("p", &[])), vec![text, comment]);
    assert_eq!(root.children.len(), 2);
    assert!(matches!(&root.children[0].node_type, NodeType::Text(t) if t == "hello"));
    assert!(matches!(&root.children[1].node_type, NodeType::Comment(t) if t == "note"));
    assert!(matches!(&root.node_type, NodeType::Element(e) if e.tag_name == "p"));
}
