use vdom::document::Document;
use vdom::mutation::Mutation;
use vdom::props::{Attribute, Listener, Props};
use vdom::vnode::VNode;
use vdom::vtag::VTag;
use vdom::vtext::VText;

const ROOT: u64 = 1;

fn text(content: &str) -> VNode {
    VNode::from(VText::new(content.to_string()))
}

fn element(tag: &str, children: Vec<VNode>) -> VNode {
    let mut vtag = VTag::new(tag);
    for child in children {
        vtag.add_child(child);
    }
    VNode::from(vtag)
}

fn no_props() -> Props {
    Props { attributes: Vec::new(), listeners: Vec::new() }
}

fn create_element(node: u64, tag: &str) -> Mutation {
    Mutation::CreateElement { node, tag: tag.to_string() }
}

fn create_text(node: u64, content: &str) -> Mutation {
    Mutation::CreateText { node, text: content.to_string() }
}

fn append(parent: u64, child: u64) -> Mutation {
    Mutation::AppendChild { parent, child }
}

fn fresh_render(element: u64) -> Mutation {
    Mutation::Render { element, props: no_props(), previous: None }
}

fn repeated_render(element: u64) -> Mutation {
    Mutation::Render { element, props: no_props(), previous: Some(no_props()) }
}

fn children_of(node: &VNode) -> &Vec<VNode> {
    match node {
        VNode::VTag { vtag, .. } => &vtag.childs,
        VNode::VText { .. } => panic!("a text has no children"),
    }
}

fn mounted(mut node: VNode, document: &mut Document) -> VNode {
    node.apply(ROOT, None, document);
    document.take_mutations();
    node
}

#[test]
fn mounting_a_text_creates_and_appends_it() {
    let mut document = Document::new(100);
    let mut node = text("a");
    node.apply(ROOT, None, &mut document);
    assert_eq!(node.bound_to(), Some(100));
    assert_eq!(document.first_free(), 101);
    assert_eq!(document.take_mutations(), vec![create_text(100, "a"), append(ROOT, 100)]);
}

#[test]
fn mounting_an_element_creates_it_before_its_children() {
    let mut document = Document::new(100);
    let mut node = element("ul", vec![text("x"), element("li", vec![text("y")]), text("z")]);
    node.apply(ROOT, None, &mut document);
    assert_eq!(
        document.take_mutations(),
        vec![
            create_element(100, "ul"),
            append(ROOT, 100),
            fresh_render(100),
            create_text(101, "x"),
            append(100, 101),
            create_element(102, "li"),
            append(100, 102),
            fresh_render(102),
            create_text(103, "y"),
            append(102, 103),
            create_text(104, "z"),
            append(100, 104),
        ]
    );
    assert_eq!(node.bound_to(), Some(100));
    let children = children_of(&node);
    assert_eq!(children[0].bound_to(), Some(101));
    assert_eq!(children[1].bound_to(), Some(102));
    assert_eq!(children_of(&children[1])[0].bound_to(), Some(103));
    assert_eq!(children[2].bound_to(), Some(104));
    assert_eq!(document.first_free(), 105);
}

#[test]
fn list_with_changed_and_added_text() {
    let mut document = Document::new(100);
    let previous = mounted(element("ul", vec![text("x"), text("y")]), &mut document);
    let mut node = element("ul", vec![text("x"), text("z"), text("w")]);
    node.apply(ROOT, Some(previous), &mut document);
    assert_eq!(
        document.take_mutations(),
        vec![
            repeated_render(100),
            Mutation::SetText { node: 102, text: "z".to_string() },
            create_text(103, "w"),
            append(100, 103),
        ]
    );
    assert_eq!(node.bound_to(), Some(100));
    let children = children_of(&node);
    assert_eq!(children[0].bound_to(), Some(101));
    assert_eq!(children[1].bound_to(), Some(102));
    assert_eq!(children[2].bound_to(), Some(103));
}

#[test]
fn reconciling_a_copy_only_renders() {
    let mut document = Document::new(100);
    let tree = || element("div", vec![text("a"), element("p", vec![text("b")]), text("c")]);
    let previous = mounted(tree(), &mut document);
    let mut node = tree();
    node.apply(ROOT, Some(previous), &mut document);
    assert_eq!(document.take_mutations(), vec![repeated_render(100), repeated_render(102)]);
    assert_eq!(document.first_free(), 105);
    assert_eq!(node.bound_to(), Some(100));
    let children = children_of(&node);
    assert_eq!(children[0].bound_to(), Some(101));
    assert_eq!(children[1].bound_to(), Some(102));
    assert_eq!(children_of(&children[1])[0].bound_to(), Some(103));
    assert_eq!(children[2].bound_to(), Some(104));
}

#[test]
fn same_shape_writes_only_the_changed_texts() {
    let mut document = Document::new(100);
    let previous = mounted(
        element("div", vec![text("a"), element("p", vec![text("b")]), text("c")]),
        &mut document,
    );
    let mut node = element("div", vec![text("a"), element("p", vec![text("B")]), text("C")]);
    node.apply(ROOT, Some(previous), &mut document);
    assert_eq!(
        document.take_mutations(),
        vec![
            repeated_render(100),
            repeated_render(102),
            Mutation::SetText { node: 103, text: "B".to_string() },
            Mutation::SetText { node: 104, text: "C".to_string() },
        ]
    );
    assert_eq!(document.first_free(), 105);
}

#[test]
fn another_tag_replaces_the_live_element() {
    let mut document = Document::new(100);
    let previous = mounted(element("div", vec![]), &mut document);
    assert_eq!(previous.bound_to(), Some(100));
    let mut node = element("span", vec![]);
    node.apply(ROOT, Some(previous), &mut document);
    assert_eq!(
        document.take_mutations(),
        vec![
            create_element(101, "span"),
            Mutation::ReplaceChild { parent: ROOT, new_child: 101, old_child: 100 },
            fresh_render(101),
        ]
    );
    assert_eq!(node.bound_to(), Some(101));
}

#[test]
fn replacing_an_element_mounts_the_new_children_and_forgets_the_old() {
    let mut document = Document::new(100);
    let previous = mounted(element("div", vec![text("a"), text("b")]), &mut document);
    let mut node = element("span", vec![text("a")]);
    node.apply(ROOT, Some(previous), &mut document);
    assert_eq!(
        document.take_mutations(),
        vec![
            create_element(103, "span"),
            Mutation::ReplaceChild { parent: ROOT, new_child: 103, old_child: 100 },
            fresh_render(103),
            create_text(104, "a"),
            append(103, 104),
        ]
    );
    assert_eq!(node.bound_to(), Some(103));
    assert_eq!(children_of(&node)[0].bound_to(), Some(104));
}

#[test]
fn an_element_replaces_a_live_text() {
    let mut document = Document::new(100);
    let previous = mounted(text("a"), &mut document);
    let mut node = element("b", vec![]);
    node.apply(ROOT, Some(previous), &mut document);
    assert_eq!(
        document.take_mutations(),
        vec![
            create_element(101, "b"),
            Mutation::ReplaceChild { parent: ROOT, new_child: 101, old_child: 100 },
            fresh_render(101),
        ]
    );
    assert_eq!(node.bound_to(), Some(101));
}

#[test]
fn a_text_replaces_a_live_element() {
    let mut document = Document::new(100);
    let previous = mounted(element("b", vec![text("x")]), &mut document);
    let mut node = text("a");
    node.apply(ROOT, Some(previous), &mut document);
    assert_eq!(
        document.take_mutations(),
        vec![
            create_text(102, "a"),
            Mutation::ReplaceChild { parent: ROOT, new_child: 102, old_child: 100 },
        ]
    );
    assert_eq!(node.bound_to(), Some(102));
}

#[test]
fn an_unbound_previous_node_counts_as_none() {
    let mut document = Document::new(100);
    let mut node = element("div", vec![text("a")]);
    node.apply(ROOT, Some(element("div", vec![text("a")])), &mut document);
    assert_eq!(
        document.take_mutations(),
        vec![
            create_element(100, "div"),
            append(ROOT, 100),
            fresh_render(100),
            create_text(101, "a"),
            append(100, 101),
        ]
    );
    let mut other = text("t");
    other.apply(ROOT, Some(text("t")), &mut document);
    assert_eq!(document.take_mutations(), vec![create_text(102, "t"), append(ROOT, 102)]);
}

#[test]
fn growth_appends_the_new_children() {
    let mut document = Document::new(100);
    let previous = mounted(element("ul", vec![text("a"), element("li", vec![])]), &mut document);
    let mut node = element(
        "ul",
        vec![text("a"), element("li", vec![]), element("li", vec![text("c")]), text("d")],
    );
    node.apply(ROOT, Some(previous), &mut document);
    assert_eq!(
        document.take_mutations(),
        vec![
            repeated_render(100),
            repeated_render(102),
            create_element(103, "li"),
            append(100, 103),
            fresh_render(103),
            create_text(104, "c"),
            append(103, 104),
            create_text(105, "d"),
            append(100, 105),
        ]
    );
    let children = children_of(&node);
    assert_eq!(children.len(), 4);
    assert_eq!(children[0].bound_to(), Some(101));
    assert_eq!(children[1].bound_to(), Some(102));
    assert_eq!(children[2].bound_to(), Some(103));
    assert_eq!(children[3].bound_to(), Some(105));
}

#[test]
fn shrinkage_removes_the_trailing_children() {
    let mut document = Document::new(100);
    let previous = mounted(
        element("ul", vec![text("a"), text("b"), element("li", vec![text("c")]), text("d")]),
        &mut document,
    );
    let mut node = element("ul", vec![text("a"), text("b")]);
    node.apply(ROOT, Some(previous), &mut document);
    assert_eq!(
        document.take_mutations(),
        vec![
            repeated_render(100),
            Mutation::RemoveChild { parent: 100, child: 103 },
            Mutation::RemoveChild { parent: 100, child: 105 },
        ]
    );
    let children = children_of(&node);
    assert_eq!(children.len(), 2);
    assert_eq!(children[0].bound_to(), Some(101));
    assert_eq!(children[1].bound_to(), Some(102));
    assert_eq!(document.first_free(), 106);
}

#[test]
fn shrinking_to_no_children_removes_them_all() {
    let mut document = Document::new(100);
    let previous = mounted(element("ul", vec![text("a"), text("b")]), &mut document);
    let mut node = element("ul", vec![]);
    node.apply(ROOT, Some(previous), &mut document);
    assert_eq!(
        document.take_mutations(),
        vec![
            repeated_render(100),
            Mutation::RemoveChild { parent: 100, child: 101 },
            Mutation::RemoveChild { parent: 100, child: 102 },
        ]
    );
}

#[test]
fn a_child_of_another_kind_is_replaced_in_place() {
    let mut document = Document::new(100);
    let previous = mounted(element("div", vec![text("a"), text("b")]), &mut document);
    let mut node = element("div", vec![element("i", vec![]), text("b")]);
    node.apply(ROOT, Some(previous), &mut document);
    assert_eq!(
        document.take_mutations(),
        vec![
            repeated_render(100),
            create_element(103, "i"),
            Mutation::ReplaceChild { parent: 100, new_child: 103, old_child: 101 },
            fresh_render(103),
        ]
    );
    let children = children_of(&node);
    assert_eq!(children[0].bound_to(), Some(103));
    assert_eq!(children[1].bound_to(), Some(102));
}

#[test]
fn an_unchanged_text_is_not_written() {
    let mut document = Document::new(100);
    let previous = mounted(text("a"), &mut document);
    let mut node = text("a");
    node.apply(ROOT, Some(previous), &mut document);
    assert_eq!(document.take_mutations(), vec![]);
    assert_eq!(node.bound_to(), Some(100));
    assert_eq!(document.first_free(), 101);
}

#[test]
fn a_changed_text_is_written_once() {
    let mut document = Document::new(100);
    let previous = mounted(text("a"), &mut document);
    let mut node = text("b");
    node.apply(ROOT, Some(previous), &mut document);
    assert_eq!(
        document.take_mutations(),
        vec![Mutation::SetText { node: 100, text: "b".to_string() }]
    );
    assert_eq!(node.bound_to(), Some(100));
}

#[test]
fn removing_an_unbound_node_does_nothing() {
    let mut document = Document::new(100);
    text("a").remove(ROOT, &mut document);
    element("div", vec![text("b")]).remove(ROOT, &mut document);
    assert_eq!(document.take_mutations(), vec![]);
    assert_eq!(document.first_free(), 100);
}

#[test]
fn removing_a_bound_node_removes_its_live_node_only() {
    let mut document = Document::new(100);
    let node = mounted(element("div", vec![text("b")]), &mut document);
    let leaf = mounted(text("c"), &mut document);
    node.remove(ROOT, &mut document);
    leaf.remove(7, &mut document);
    assert_eq!(
        document.take_mutations(),
        vec![
            Mutation::RemoveChild { parent: ROOT, child: 100 },
            Mutation::RemoveChild { parent: 7, child: 102 },
        ]
    );
}

#[test]
fn the_renderer_gets_the_props_of_both_generations() {
    let mut document = Document::new(100);
    let mut before = VTag::new("input");
    before.add_attribute("type", "text");
    before.add_listener("input", 3);
    let previous = mounted(VNode::from(before), &mut document);
    let mut after = VTag::new("input");
    after.add_attribute("type", "password");
    after.add_attribute("name", "secret");
    after.add_listener("change", 4);
    let mut node = VNode::from(after);
    node.apply(ROOT, Some(previous), &mut document);
    assert_eq!(
        document.take_mutations(),
        vec![Mutation::Render {
            element: 100,
            props: Props {
                attributes: vec![
                    Attribute { name: "type".to_string(), value: "password".to_string() },
                    Attribute { name: "name".to_string(), value: "secret".to_string() },
                ],
                listeners: vec![Listener { event: "change".to_string(), handler: 4 }],
            },
            previous: Some(Props {
                attributes: vec![Attribute { name: "type".to_string(), value: "text".to_string() }],
                listeners: vec![Listener { event: "input".to_string(), handler: 3 }],
            }),
        }]
    );
    match &node {
        VNode::VTag { vtag, .. } => {
            assert_eq!(vtag.props.attributes.len(), 2);
            assert_eq!(vtag.props.listeners.len(), 1);
            assert_eq!(vtag.tag(), "input");
        }
        VNode::VText { .. } => panic!("an element stays an element"),
    }
}

#[test]
fn three_generations_keep_the_live_nodes() {
    let mut document = Document::new(0);
    let first = mounted(element("p", vec![text("one")]), &mut document);
    let mut second = element("p", vec![text("two"), text("more")]);
    second.apply(ROOT, Some(first), &mut document);
    assert_eq!(
        document.take_mutations(),
        vec![
            repeated_render(0),
            Mutation::SetText { node: 1, text: "two".to_string() },
            create_text(2, "more"),
            append(0, 2),
        ]
    );
    let mut third = element("p", vec![text("two")]);
    third.apply(ROOT, Some(second), &mut document);
    assert_eq!(
        document.take_mutations(),
        vec![repeated_render(0), Mutation::RemoveChild { parent: 0, child: 2 }]
    );
    assert_eq!(third.bound_to(), Some(0));
    assert_eq!(children_of(&third)[0].bound_to(), Some(1));
    assert_eq!(document.first_free(), 3);
}

#[test]
fn mutations_pile_up_until_they_are_taken() {
    let mut document = Document::new(5);
    let mut a = text("a");
    a.apply(ROOT, None, &mut document);
    let mut b = text("b");
    b.apply(2, None, &mut document);
    assert_eq!(
        document.take_mutations(),
        vec![create_text(5, "a"), append(ROOT, 5), create_text(6, "b"), append(2, 6)]
    );
    assert_eq!(document.take_mutations(), vec![]);
    assert_eq!(document.first_free(), 7);
}

#[test]
fn the_last_numbers_can_be_given_out() {
    let mut document = Document::new(u64::MAX - 2);
    assert_eq!(document.room(), 2);
    let mut node = element("a", vec![text("b")]);
    assert!(document.has_room_for(&node));
    node.apply(ROOT, None, &mut document);
    assert_eq!(node.bound_to(), Some(u64::MAX - 2));
    assert_eq!(children_of(&node)[0].bound_to(), Some(u64::MAX - 1));
    assert_eq!(document.first_free(), u64::MAX);
    assert_eq!(document.room(), 0);
    assert!(!document.has_room_for(&text("c")));
}

#[test]
fn room_is_counted_in_nodes() {
    let document = Document::new(u64::MAX - 3);
    assert!(document.has_room_for(&element("a", vec![text("b"), text("c")])));
    assert!(!document.has_room_for(&element("a", vec![text("b"), text("c"), text("d")])));
    assert!(!document.has_room_for(&element("a", vec![element("b", vec![text("c"), text("d")])])));
    assert!(Document::new(u64::MAX - 1).has_room_for(&text("x")));
    assert!(!Document::new(u64::MAX).has_room_for(&text("x")));
    assert!(Document::new(0).has_room_for(&element("a", vec![text("b"), element("c", vec![])])));
    assert!(!Document::new(u64::MAX - 2)
        .has_room_for(&element("a", vec![text("b"), element("c", vec![])])));
}

#[test]
fn a_full_document_still_reconciles_what_needs_no_new_node() {
    let mut document = Document::new(u64::MAX - 1);
    let previous = mounted(text("a"), &mut document);
    assert_eq!(document.room(), 0);
    let mut node = text("b");
    node.apply(ROOT, Some(previous), &mut document);
    assert_eq!(
        document.take_mutations(),
        vec![Mutation::SetText { node: u64::MAX - 1, text: "b".to_string() }]
    );
}

#[test]
fn an_unbound_previous_child_brings_no_live_node() {
    let mut document = Document::new(100);
    let mut previous = mounted(element("ul", vec![text("x")]), &mut document);
    match &mut previous {
        VNode::VTag { vtag, .. } => {
            vtag.add_child(text("never shown"));
            vtag.add_child(element("li", vec![]));
        }
        VNode::VText { .. } => panic!("an element stays an element"),
    }
    let mut node = element("ul", vec![text("x"), text("y")]);
    node.apply(ROOT, Some(previous), &mut document);
    assert_eq!(
        document.take_mutations(),
        vec![repeated_render(100), create_text(102, "y"), append(100, 102)]
    );
    let children = children_of(&node);
    assert_eq!(children[0].bound_to(), Some(101));
    assert_eq!(children[1].bound_to(), Some(102));
}

#[test]
fn discarded_children_are_removed_at_the_top_only() {
    let mut document = Document::new(100);
    let previous = mounted(
        element("div", vec![element("ul", vec![element("li", vec![text("deep")]), text("t")])]),
        &mut document,
    );
    let mut node = element("div", vec![]);
    node.apply(ROOT, Some(previous), &mut document);
    assert_eq!(
        document.take_mutations(),
        vec![repeated_render(100), Mutation::RemoveChild { parent: 100, child: 101 }]
    );
}

#[test]
fn grandchildren_grow_and_shrink_in_one_pass() {
    let mut document = Document::new(100);
    let previous = mounted(
        element(
            "table",
            vec![
                element("tr", vec![text("a"), text("b"), text("c")]),
                element("tr", vec![text("d")]),
            ],
        ),
        &mut document,
    );
    let mut node = element(
        "table",
        vec![element("tr", vec![text("a")]), element("tr", vec![text("D"), text("e")])],
    );
    node.apply(ROOT, Some(previous), &mut document);
    assert_eq!(
        document.take_mutations(),
        vec![
            repeated_render(100),
            repeated_render(101),
            Mutation::RemoveChild { parent: 101, child: 103 },
            Mutation::RemoveChild { parent: 101, child: 104 },
            repeated_render(105),
            Mutation::SetText { node: 106, text: "D".to_string() },
            create_text(107, "e"),
            append(105, 107),
        ]
    );
    let rows = children_of(&node);
    assert_eq!(rows[0].bound_to(), Some(101));
    assert_eq!(children_of(&rows[0])[0].bound_to(), Some(102));
    assert_eq!(rows[1].bound_to(), Some(105));
    assert_eq!(children_of(&rows[1])[0].bound_to(), Some(106));
    assert_eq!(children_of(&rows[1])[1].bound_to(), Some(107));
}

#[test]
fn texts_are_compared_character_by_character() {
    let mut document = Document::new(100);
    let previous = mounted(text("na\u{ef}ve \u{2603}"), &mut document);
    let mut same = text("na\u{ef}ve \u{2603}");
    same.apply(ROOT, Some(previous), &mut document);
    assert_eq!(document.take_mutations(), vec![]);
    let mut other = text("naive \u{2603}");
    other.apply(ROOT, Some(same), &mut document);
    assert_eq!(
        document.take_mutations(),
        vec![Mutation::SetText { node: 100, text: "naive \u{2603}".to_string() }]
    );
    let mut empty = text("");
    empty.apply(ROOT, Some(other), &mut document);
    assert_eq!(
        document.take_mutations(),
        vec![Mutation::SetText { node: 100, text: String::new() }]
    );
}

#[test]
fn tags_are_compared_as_written() {
    let mut document = Document::new(100);
    let previous = mounted(element("div", vec![]), &mut document);
    let mut node = element("DIV", vec![]);
    node.apply(ROOT, Some(previous), &mut document);
    assert_eq!(
        document.take_mutations(),
        vec![
            create_element(101, "DIV"),
            Mutation::ReplaceChild { parent: ROOT, new_child: 101, old_child: 100 },
            fresh_render(101),
        ]
    );
}

#[test]
fn a_wide_list_is_paired_position_by_position() {
    let mut document = Document::new(1000);
    let items = |count: usize, label: &str| -> Vec<VNode> {
        (0..count).map(|i| text(&format!("{}{}", label, i))).collect()
    };
    let previous = mounted(element("ol", items(50, "a")), &mut document);
    let mut node = element("ol", items(60, "a"));
    node.apply(ROOT, Some(previous), &mut document);
    let grown = document.take_mutations();
    assert_eq!(grown.len(), 1 + 2 * 10);
    assert_eq!(grown[0], repeated_render(1000));
    for i in 0..10 {
        assert_eq!(grown[1 + 2 * i], create_text(1051 + i as u64, &format!("a{}", 50 + i)));
        assert_eq!(grown[2 + 2 * i], append(1000, 1051 + i as u64));
    }
    let mut shrunk = element("ol", items(5, "b"));
    shrunk.apply(ROOT, Some(node), &mut document);
    let recorded = document.take_mutations();
    assert_eq!(recorded.len(), 1 + 5 + 55);
    for i in 0..5 {
        assert_eq!(
            recorded[1 + i],
            Mutation::SetText { node: 1001 + i as u64, text: format!("b{}", i) }
        );
    }
    for i in 0..55 {
        assert_eq!(
            recorded[6 + i],
            Mutation::RemoveChild { parent: 1000, child: 1006 + i as u64 }
        );
    }
}
