use document_tree::{
    Document, DocumentBuilder, DocumentFragment, DocumentHandle, DocumentTaskQueue,
    ElementAttributes, Node, NodeData, NodeId, QuirksMode, TaskError, TreeBuilder,
    HTML_NAMESPACE,
};

fn div_p_tree() -> (DocumentHandle, NodeId, NodeId) {
    let mut document = DocumentBuilder::new_document();
    let div = document.create_element("div", NodeId::root(), None, HTML_NAMESPACE);
    let p = document.create_element("p", div, None, HTML_NAMESPACE);
    (document, div, p)
}

#[test]
fn attach_under_own_descendant_is_refused() {
    let (mut document, div, p) = div_p_tree();
    let span = document.create_element("span", p, None, HTML_NAMESPACE);
    let before = document.to_string();
    assert!(document.has_cyclic_reference(div, span));
    assert!(document.has_cyclic_reference(div, p));
    assert!(!document.has_cyclic_reference(span, div));
    assert!(!document.attach_node_to_parent(div, span, None));
    assert!(!document.attach_node_to_parent(div, p, Some(0)));
    assert!(!document.attach_node_to_parent(div, div, None));
    assert_eq!(document.to_string(), before);
}

#[test]
fn relocate_to_current_parent_changes_nothing() {
    let (mut document, div, p) = div_p_tree();
    let before = document.to_string();
    document.relocate(p, div);
    assert_eq!(document.to_string(), before);
    assert_eq!(document.get().get_node_by_id(div).unwrap().children.len(), 1);
}

#[test]
fn first_element_keeps_named_id() {
    let (mut document, div, p) = div_p_tree();
    assert!(document.insert_attribute("id", "myid", p).is_ok());
    assert!(document.insert_attribute("id", "myid", div).is_ok());
    assert_eq!(*document.get().named_id_elements.get("myid").unwrap(), p);
    assert_eq!(document.get().get_node_by_named_id("myid").unwrap().id, p);
    assert_eq!(document.get().named_id_elements.len(), 1);
}

#[test]
fn validation_boundary() {
    let document = DocumentBuilder::new_document();
    let doc = document.get();
    assert!(!doc.validate_id_attribute_value(""));
    assert!(!doc.validate_id_attribute_value("123"));
    assert!(!doc.validate_id_attribute_value("my id"));
    assert!(!doc.validate_id_attribute_value("tab\there"));
    assert!(doc.validate_id_attribute_value("myid"));
    assert!(doc.validate_id_attribute_value("1a"));
    assert!(doc.validate_id_attribute_value("é"));
}

fn build_through<B: TreeBuilder>(builder: &mut B) -> (NodeId, NodeId) {
    let div = builder.create_element("div", NodeId::root(), None, HTML_NAMESPACE);
    let p = builder.create_element("p", div, None, HTML_NAMESPACE);
    let first = builder.create_element("b", div, Some(0), HTML_NAMESPACE);
    builder.create_comment("comment inside p", p);
    builder.create_text("hey", p);
    builder.create_comment("comment inside div", div);
    let _ = builder.insert_attribute("id", "para", p);
    let _ = builder.insert_attribute("id", "bad id", first);
    (div, p)
}

#[test]
fn queue_then_flush_matches_direct() {
    let mut direct = DocumentBuilder::new_document();
    let direct_ids = build_through(&mut direct);

    let mut queued = DocumentBuilder::new_document();
    let mut queue = DocumentTaskQueue::new(&queued);
    let queued_ids = build_through(&mut queue);
    let errors = queue.flush(&mut queued);

    assert_eq!(direct_ids, queued_ids);
    assert_eq!(direct.to_string(), queued.to_string());
    assert_eq!(
        direct.to_string(),
        "└─ Document\n   └─ <div>\n      ├─ <b>\n      ├─ <p id=para>\n      │  ├─ <!-- comment inside p -->\n      │  └─ \"hey\"\n      └─ <!-- comment inside div -->\n"
    );
    assert_eq!(
        errors,
        vec!["document task error: Attribute value 'bad id' did not pass validation".to_string()]
    );
    assert_eq!(
        *queued.get().named_id_elements.get("para").unwrap(),
        *direct.get().named_id_elements.get("para").unwrap()
    );
}

#[test]
fn queue_prediction_counts_elements_only() {
    let document = DocumentBuilder::new_document();
    let mut queue = DocumentTaskQueue::new(&document);
    queue.create_text("first", NodeId::root());
    let predicted = queue.create_element("div", NodeId::root(), None, HTML_NAMESPACE);
    assert_eq!(predicted, NodeId::from(1));

    let mut direct = DocumentBuilder::new_document();
    direct.create_text("first", NodeId::root());
    let actual = direct.create_element("div", NodeId::root(), None, HTML_NAMESPACE);
    assert_eq!(actual, NodeId::from(2));
}

#[test]
fn end_to_end_counts() {
    let mut document = DocumentBuilder::new_document();
    let mut queue = DocumentTaskQueue::new(&document);
    let div = queue.create_element("div", NodeId::root(), None, HTML_NAMESPACE);
    let p = queue.create_element("p", div, None, HTML_NAMESPACE);
    queue.create_comment("comment inside p", p);
    queue.create_text("hey", p);
    queue.create_comment("comment inside div", div);
    assert_eq!(document.get().arena.count_nodes(), 1);
    assert!(queue.flush(&mut document).is_empty());
    assert_eq!(document.get().arena.count_nodes(), 6);
    let doc = document.get();
    let div_node = doc.get_node_by_id(div).unwrap();
    assert_eq!(div_node.children, vec![p, NodeId::from(5)]);
    assert_eq!(doc.get_node_by_id(p).unwrap().children, vec![NodeId::from(3), NodeId::from(4)]);
}

#[test]
fn error_messages() {
    assert_eq!(
        TaskError::NotAnElement(NodeId::from(7)).to_string(),
        "document task error: Node ID 7 is not an element"
    );
    assert_eq!(
        TaskError::NotFound(NodeId::from(1234)).to_string(),
        "document task error: Node ID 1234 not found"
    );
    assert_eq!(
        TaskError::InvalidAttributeValue("a b".to_string()).to_string(),
        "document task error: Attribute value 'a b' did not pass validation"
    );
}

#[test]
fn insert_attribute_errors_direct() {
    let (mut document, _div, p) = div_p_tree();
    document.create_text("t", p);
    match document.insert_attribute("id", "x", NodeId::from(3)) {
        Err(TaskError::NotAnElement(id)) => assert_eq!(id, NodeId::from(3)),
        _ => panic!(),
    }
    match document.insert_attribute("title", "x", NodeId::from(99)) {
        Err(TaskError::NotFound(id)) => assert_eq!(id, NodeId::from(99)),
        _ => panic!(),
    }
    match document.insert_attribute("id", "9", p) {
        Err(TaskError::InvalidAttributeValue(v)) => assert_eq!(v, "9"),
        _ => panic!(),
    }
    assert!(document.get().named_id_elements.get("9").is_none());
}

#[test]
fn non_id_attribute_is_not_validated_nor_indexed() {
    let (mut document, _div, p) = div_p_tree();
    assert!(document.insert_attribute("title", "two words", p).is_ok());
    assert!(document.insert_attribute("title", "other", p).is_ok());
    assert!(document.get().named_id_elements.get("other").is_none());
    let doc = document.get();
    let NodeData::Element(e) = &doc.get_node_by_id(p).unwrap().data else {
        panic!()
    };
    assert_eq!(e.attributes.len(), 1);
    assert_eq!(e.attributes.get("title").unwrap(), "other");
}

#[test]
fn add_new_node_indexes_initial_id() {
    let mut document = DocumentBuilder::new_document();
    let mut attrs = ElementAttributes::new();
    attrs.insert("id".to_string(), "main".to_string());
    let first = document.add_node(Node::new_element("div", attrs, HTML_NAMESPACE), NodeId::root(), None);
    let mut attrs = ElementAttributes::new();
    attrs.insert("id".to_string(), "main".to_string());
    let second = document.add_node(Node::new_element("div", attrs, HTML_NAMESPACE), NodeId::root(), None);
    let mut attrs = ElementAttributes::new();
    attrs.insert("id".to_string(), "no good".to_string());
    document.add_node(Node::new_element("div", attrs, HTML_NAMESPACE), NodeId::root(), None);
    assert_ne!(first, second);
    assert_eq!(*document.get().named_id_elements.get("main").unwrap(), first);
    assert!(document.get().named_id_elements.get("no good").is_none());
}

#[test]
fn position_is_clamped() {
    let (mut document, div, p) = div_p_tree();
    let a = document.create_element("a", div, Some(0), HTML_NAMESPACE);
    let z = document.create_element("z", div, Some(99), HTML_NAMESPACE);
    let m = document.create_element("m", div, Some(1), HTML_NAMESPACE);
    assert_eq!(document.get().get_node_by_id(div).unwrap().children, vec![a, m, p, z]);
}

#[test]
fn detach_removes_both_links() {
    let (mut document, div, p) = div_p_tree();
    document.detach_node_from_parent(p);
    assert!(document.get().get_node_by_id(div).unwrap().children.is_empty());
    assert_eq!(document.get().get_node_by_id(p).unwrap().parent, None);
    assert_eq!(document.get().arena.count_nodes(), 3);
    document.detach_node_from_parent(p);
    assert_eq!(document.get().get_node_by_id(p).unwrap().parent, None);
}

#[test]
fn printer_formats_every_kind() {
    let mut document = DocumentBuilder::new_document();
    let doctype = Node::new_doctype("html", "pub", "sys");
    document.add_node(doctype, NodeId::root(), None);
    let mut attrs = ElementAttributes::new();
    attrs.insert("id".to_string(), "x".to_string());
    attrs.insert("lang".to_string(), "en".to_string());
    let html = document.add_node(Node::new_element("html", attrs, HTML_NAMESPACE), NodeId::root(), None);
    document.create_text("hi", html);
    document.create_comment("c", html);
    assert_eq!(
        document.to_string(),
        "└─ Document\n   ├─ <!DOCTYPE html \"pub\" \"sys\">\n   └─ <html id=x lang=en>\n      ├─ \"hi\"\n      └─ <!-- c -->\n"
    );
}

#[test]
fn printer_truncates_deep_trees() {
    let mut document = DocumentBuilder::new_document();
    let mut parent = NodeId::root();
    for _ in 0..20 {
        parent = document.create_element("d", parent, None, HTML_NAMESPACE);
    }
    let text = document.to_string();
    let lines: Vec<&str> = text.lines().collect();
    // The line whose prefix passes 40 characters is followed by the marker.
    assert_eq!(lines.len(), 16);
    assert_eq!(lines[15], "...");
    assert!(lines[14].ends_with("└─ <d>"));
}

#[test]
fn fragment_takes_quirks_mode_over() {
    let mut context_doc = DocumentBuilder::new_document();
    context_doc.get_mut().quirks_mode = QuirksMode::LimitedQuirks;
    let context = Node::new_element("template", ElementAttributes::new(), HTML_NAMESPACE);
    let fragment_doc = DocumentBuilder::new_document_fragment(&context, &context_doc);
    assert_eq!(fragment_doc.get().quirks_mode, QuirksMode::LimitedQuirks);
    assert_eq!(fragment_doc.get().arena.count_nodes(), 2);
    let root = fragment_doc.get().get_root();
    assert_eq!(root.children, vec![NodeId::from(1)]);
    let html = fragment_doc.get().get_node_by_id(NodeId::from(1)).unwrap();
    assert_eq!(html.name, "html");
    assert_eq!(html.namespace.as_deref(), Some(HTML_NAMESPACE));
    assert_eq!(html.parent, Some(NodeId::root()));
    let fragment = DocumentFragment::new(fragment_doc, NodeId::from(0));
    assert_eq!(fragment.host_id(), NodeId::root());
}

#[test]
fn document_clone_copies_content() {
    let (document, div, _p) = div_p_tree();
    let mut copy = Document::clone(&document);
    assert_eq!(copy.to_string(), document.to_string());
    copy.create_comment("only in copy", div);
    assert_eq!(document.get().arena.count_nodes(), 3);
    assert_eq!(copy.get().arena.count_nodes(), 4);
}

#[test]
fn node_ids() {
    assert_eq!(NodeId::root(), NodeId::from(0));
    assert_eq!(NodeId::from(4).next(), NodeId::from(5));
    assert_eq!(NodeId::from(9).as_usize(), 9);
    let document = Document::shared();
    assert_eq!(document.get().arena.peek_next_id(), NodeId::root());
}

#[test]
fn fragment_clone_keeps_host_and_document() {
    let document = DocumentBuilder::new_document();
    let fragment = DocumentFragment::new(document, NodeId::from(3));
    let copy = fragment.clone();
    assert_eq!(copy.host_id(), NodeId::from(3));
    assert_eq!(copy.doc.to_string(), fragment.doc.to_string());
}

#[test]
fn mutable_lookups_reach_the_stored_node() {
    let (mut document, _div, p) = div_p_tree();
    assert!(document.insert_attribute("id", "para", p).is_ok());
    document.get_mut().get_node_by_named_id_mut("para").unwrap().name = "q".to_string();
    assert_eq!(document.get().get_node_by_id(p).unwrap().name, "q");
    document.get_mut().get_node_by_id_mut(p).unwrap().name = "r".to_string();
    assert_eq!(document.get().get_node_by_named_id("para").unwrap().name, "r");
    assert!(document.get_mut().get_node_by_named_id_mut("none").is_none());
    assert!(document.get_mut().get_node_by_id_mut(NodeId::from(50)).is_none());
}

#[test]
fn printer_limit_counts_bytes() {
    // Each chain element has a later sibling, so its children's prefix grows
    // by "│  ", three characters but five bytes.
    let mut document = DocumentBuilder::new_document();
    let mut parent = NodeId::root();
    for i in 1..13 {
        let name = format!("c{}", i);
        let next = document.create_element(&name, parent, None, HTML_NAMESPACE);
        if i > 1 {
            document.create_element("leaf", parent, None, HTML_NAMESPACE);
        }
        parent = next;
    }
    let text = document.to_string();
    // <c9> has a 41-byte (27-character) prefix: its subtree is cut.
    assert!(text.contains("<c9>\n...\n"));
    assert!(text.contains("<c8>\n"));
    assert!(!text.contains("<c10>"));
}

#[test]
fn queue_records_any_attribute() {
    let document = DocumentBuilder::new_document();
    let mut queue = DocumentTaskQueue::new(&document);
    assert!(queue.insert_attribute("class", "wide", NodeId::root()).is_ok());
    assert!(!queue.is_empty());
}
