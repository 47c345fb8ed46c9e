use vdom::document::Document;
use vdom::mutation::{Kind, Mutation};
use vdom::props::{Attribute, Props};

#[test]
fn a_new_document_has_nothing_pending() {
    let mut document = Document::new(7);
    assert_eq!(document.first_free(), 7);
    assert_eq!(document.room(), u64::MAX - 7);
    assert_eq!(document.take_mutations(), vec![]);
}

#[test]
fn created_nodes_are_numbered_in_turn() {
    let mut document = Document::new(7);
    let element = document.create_element(&"div".to_string());
    let text = document.create_text_node(&"hello".to_string());
    assert_eq!(element.id(), 7);
    assert_eq!(text.id(), 8);
    assert_eq!(document.first_free(), 9);
    assert_eq!(
        document.take_mutations(),
        vec![
            Mutation::CreateElement { node: 7, tag: "div".to_string() },
            Mutation::CreateText { node: 8, text: "hello".to_string() },
        ]
    );
}

#[test]
fn the_last_number_is_given_out_once() {
    let mut document = Document::new(u64::MAX - 1);
    assert_eq!(document.room(), 1);
    let text = document.create_text_node(&"end".to_string());
    assert_eq!(text.id(), u64::MAX - 1);
    assert_eq!(document.room(), 0);
    assert_eq!(document.first_free(), u64::MAX);
}

#[test]
fn each_request_is_recorded_in_order() {
    let mut document = Document::new(0);
    document.append_child(1, 2);
    document.replace_child(3, 4, 5);
    document.remove_child(6, 7);
    document.set_text(8, &"t".to_string());
    document.render(
        9,
        Props {
            attributes: vec![Attribute { name: "a".to_string(), value: "b".to_string() }],
            listeners: vec![],
        },
        None,
    );
    document.render(10, Props::new(), Some(Props::new()));
    assert_eq!(document.first_free(), 0);
    assert_eq!(
        document.take_mutations(),
        vec![
            Mutation::AppendChild { parent: 1, child: 2 },
            Mutation::ReplaceChild { parent: 3, new_child: 4, old_child: 5 },
            Mutation::RemoveChild { parent: 6, child: 7 },
            Mutation::SetText { node: 8, text: "t".to_string() },
            Mutation::Render {
                element: 9,
                props: Props {
                    attributes: vec![Attribute { name: "a".to_string(), value: "b".to_string() }],
                    listeners: vec![],
                },
                previous: None,
            },
            Mutation::Render {
                element: 10,
                props: Props { attributes: vec![], listeners: vec![] },
                previous: Some(Props { attributes: vec![], listeners: vec![] }),
            },
        ]
    );
    assert_eq!(document.take_mutations(), vec![]);
}

#[test]
fn every_mutation_has_its_kind() {
    assert_eq!(Mutation::CreateElement { node: 1, tag: "p".to_string() }.kind(), Kind::Create);
    assert_eq!(Mutation::CreateText { node: 1, text: "p".to_string() }.kind(), Kind::Create);
    assert_eq!(Mutation::AppendChild { parent: 1, child: 2 }.kind(), Kind::Append);
    assert_eq!(
        Mutation::ReplaceChild { parent: 1, new_child: 2, old_child: 3 }.kind(),
        Kind::Replace
    );
    assert_eq!(Mutation::RemoveChild { parent: 1, child: 2 }.kind(), Kind::Remove);
    assert_eq!(Mutation::SetText { node: 1, text: "p".to_string() }.kind(), Kind::Write);
    assert_eq!(
        Mutation::Render { element: 1, props: Props::new(), previous: None }.kind(),
        Kind::Render
    );
}

#[test]
fn only_a_removal_may_miss_its_node() {
    assert!(Mutation::RemoveChild { parent: 1, child: 2 }.may_miss());
    assert!(!Mutation::CreateElement { node: 1, tag: "p".to_string() }.may_miss());
    assert!(!Mutation::CreateText { node: 1, text: "p".to_string() }.may_miss());
    assert!(!Mutation::AppendChild { parent: 1, child: 2 }.may_miss());
    assert!(!Mutation::ReplaceChild { parent: 1, new_child: 2, old_child: 3 }.may_miss());
    assert!(!Mutation::SetText { node: 1, text: "p".to_string() }.may_miss());
    assert!(!Mutation::Render { element: 1, props: Props::new(), previous: None }.may_miss());
}
