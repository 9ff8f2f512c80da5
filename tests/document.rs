use document_tree::{
    DocumentBuilder, DocumentTaskQueue, ElementAttributes, Node, NodeData, NodeId, NodeType,
    TreeBuilder, HTML_NAMESPACE,
};

#[test]
fn relocate() {
    let mut document = DocumentBuilder::new_document();

    let parent = Node::new_element("parent", ElementAttributes::new(), HTML_NAMESPACE);
    let node1 = Node::new_element("div1", ElementAttributes::new(), HTML_NAMESPACE);
    let node2 = Node::new_element("div2", ElementAttributes::new(), HTML_NAMESPACE);
    let node3 = Node::new_element("div3", ElementAttributes::new(), HTML_NAMESPACE);
    let node3_1 = Node::new_element("div3_1", ElementAttributes::new(), HTML_NAMESPACE);

    let parent_id = document.get_mut().add_node(parent, NodeId::from(0), None);
    let node1_id = document.get_mut().add_node(node1, parent_id, None);
    let node2_id = document.get_mut().add_node(node2, parent_id, None);
    let node3_id = document.get_mut().add_node(node3, parent_id, None);
    let node3_1_id = document.get_mut().add_node(node3_1, node3_id, None);

    assert_eq!(
        document.to_string(),
        r#"└─ Document
   └─ <parent>
      ├─ <div1>
      ├─ <div2>
      └─ <div3>
         └─ <div3_1>
"#
    );

    document.get_mut().relocate(node3_1_id, node1_id);
    assert_eq!(
        document.to_string(),
        r#"└─ Document
   └─ <parent>
      ├─ <div1>
      │  └─ <div3_1>
      ├─ <div2>
      └─ <div3>
"#
    );

    document.get_mut().relocate(node1_id, node2_id);
    assert_eq!(
        document.to_string(),
        r#"└─ Document
   └─ <parent>
      ├─ <div2>
      │  └─ <div1>
      │     └─ <div3_1>
      └─ <div3>
"#
    );
}

#[test]
fn duplicate_named_id_elements() {
    let mut document = DocumentBuilder::new_document();

    let div_1 = document.create_element("div", NodeId::root(), None, HTML_NAMESPACE);
    let div_2 = document.create_element("div", NodeId::root(), None, HTML_NAMESPACE);

    // when adding duplicate IDs, our current implementation will ignore duplicates.
    let mut res = document.insert_attribute("id", "myid", div_1);
    assert!(res.is_ok());
    res = document.insert_attribute("id", "myid", div_2);
    assert!(res.is_ok());

    assert_eq!(
        document.get().get_node_by_named_id("myid").unwrap().id,
        div_1
    );
}

#[test]
fn verify_node_ids_in_element_data() {
    let mut document = DocumentBuilder::new_document();

    let node1 = Node::new_element("div", ElementAttributes::new(), HTML_NAMESPACE);
    let node2 = Node::new_element("div", ElementAttributes::new(), HTML_NAMESPACE);

    document.get_mut().add_node(node1, NodeId::from(0), None);
    document.get_mut().add_node(node2, NodeId::from(0), None);

    let doc_ptr = document.get();

    let get_node1 = doc_ptr.get_node_by_id(NodeId::from(1)).unwrap();
    let get_node2 = doc_ptr.get_node_by_id(NodeId::from(2)).unwrap();

    let NodeData::Element(element1) = &get_node1.data else {
        panic!()
    };

    assert_eq!(element1.node_id, NodeId::from(1));

    let NodeData::Element(element2) = &get_node2.data else {
        panic!()
    };

    assert_eq!(element2.node_id, NodeId::from(2));
}

#[test]
fn document_task_queue() {
    let mut document = DocumentBuilder::new_document();

    // Using task queue to create the following structure initially:
    // <div>
    //   <p>
    //     <!-- comment inside p -->
    //     hey
    //   </p>
    //   <!-- comment inside div -->
    // </div>

    // then flush the queue and use it again to add an attribute to <p>:
    // <p id="myid">hey</p>
    let mut task_queue = DocumentTaskQueue::new(&document);

    // NOTE: only elements return the ID
    let div_id = task_queue.create_element("div", NodeId::root(), None, HTML_NAMESPACE);
    assert_eq!(div_id, NodeId::from(1));

    let p_id = task_queue.create_element("p", div_id, None, HTML_NAMESPACE);
    assert_eq!(p_id, NodeId::from(2));

    task_queue.create_comment("comment inside p", p_id);
    task_queue.create_text("hey", p_id);
    task_queue.create_comment("comment inside div", div_id);

    // at this point, the DOM should have NO nodes (besides root)
    assert_eq!(document.get().arena.count_nodes(), 1);

    // validate our queue is loaded
    assert!(!task_queue.is_empty());
    let errors = task_queue.flush(&mut document);
    assert!(errors.is_empty());

    // validate queue is empty
    assert!(task_queue.is_empty());

    // DOM should now have all our nodes
    assert_eq!(document.get().arena.count_nodes(), 6);

    {
        // validate DOM is correctly laid out
        let doc_read = document.get();
        let root = doc_read.get_root(); // <!DOCTYPE html>
        let root_children = &root.children;

        // div child
        let div_child = doc_read.get_node_by_id(root_children[0]).unwrap();
        assert_eq!(div_child.type_of(), NodeType::Element);
        assert_eq!(div_child.name, "div");
        let div_children = &div_child.children;

        // p child
        let p_child = doc_read.get_node_by_id(div_children[0]).unwrap();
        assert_eq!(p_child.type_of(), NodeType::Element);
        assert_eq!(p_child.name, "p");
        let p_children = &p_child.children;

        // comment inside p
        let p_comment = doc_read.get_node_by_id(p_children[0]).unwrap();
        assert_eq!(p_comment.type_of(), NodeType::Comment);
        let NodeData::Comment(p_comment_data) = &p_comment.data else {
            panic!()
        };
        assert_eq!(p_comment_data.value, "comment inside p");

        // body inside p
        let p_body = doc_read.get_node_by_id(p_children[1]).unwrap();
        assert_eq!(p_body.type_of(), NodeType::Text);
        let NodeData::Text(p_body_data) = &p_body.data else {
            panic!()
        };
        assert_eq!(p_body_data.value, "hey");

        // comment inside div
        let div_comment = doc_read.get_node_by_id(div_children[1]).unwrap();
        assert_eq!(div_comment.type_of(), NodeType::Comment);
        let NodeData::Comment(div_comment_data) = &div_comment.data else {
            panic!()
        };
        assert_eq!(div_comment_data.value, "comment inside div");
    }

    // use task queue again to add an ID attribute
    // NOTE: inserting attribute in task queue always succeeds
    // since it doesn't touch DOM until flush
    let _ = task_queue.insert_attribute("id", "myid", p_id);
    let errors = task_queue.flush(&mut document);
    assert!(errors.is_empty());

    let doc_read = document.get();
    // validate ID is searchable in dom
    assert_eq!(*doc_read.named_id_elements.get("myid").unwrap(), p_id);

    // validate attribute is applied to underlying element
    let p_node = doc_read.get_node_by_id(p_id).unwrap();
    let NodeData::Element(p_element) = &p_node.data else {
        panic!()
    };
    assert_eq!(p_element.attributes.get("id").unwrap(), "myid");
}

#[test]
fn task_queue_insert_attribute_failues() {
    let mut document = DocumentBuilder::new_document();

    let mut task_queue = DocumentTaskQueue::new(&document);
    let div_id = task_queue.create_element("div", NodeId::root(), None, HTML_NAMESPACE);
    task_queue.create_comment("content", div_id); // this is NodeId::from(2)
    task_queue.flush(&mut document);

    // NOTE: inserting attribute in task queue always succeeds
    // since it doesn't touch DOM until flush
    let _ = task_queue.insert_attribute("id", "myid", NodeId::from(2));
    let _ = task_queue.insert_attribute("id", "myid", NodeId::from(42));
    let _ = task_queue.insert_attribute("id", "my id", NodeId::from(1));
    let _ = task_queue.insert_attribute("id", "123", NodeId::from(1));
    let _ = task_queue.insert_attribute("id", "", NodeId::from(1));
    let errors = task_queue.flush(&mut document);
    assert_eq!(errors.len(), 5);
    assert_eq!(
        errors[0],
        "document task error: Node ID 2 is not an element",
    );
    assert_eq!(errors[1], "document task error: Node ID 42 not found");
    assert_eq!(
        errors[2],
        "document task error: Attribute value 'my id' did not pass validation",
    );
    assert_eq!(
        errors[3],
        "document task error: Attribute value '123' did not pass validation",
    );
    assert_eq!(
        errors[4],
        "document task error: Attribute value '' did not pass validation",
    );

    // validate that changes did not apply to DOM
    let doc_read = document.get();
    assert!(doc_read.named_id_elements.get("myid").is_none());
    assert!(doc_read.named_id_elements.get("my id").is_none());
    assert!(doc_read.named_id_elements.get("123").is_none());
    assert!(doc_read.named_id_elements.get("").is_none());
}

// this is basically a replica of document_task_queue() test
// but using tree builder directly instead of the task queue
#[test]
fn document_tree_builder() {
    let mut document = DocumentBuilder::new_document();

    // Using tree builder to create the following structure:
    // <div>
    //   <p id="myid">
    //     <!-- comment inside p -->
    //     hey
    //   </p>
    //   <!-- comment inside div -->
    // </div>

    // NOTE: only elements return the ID
    let div_id = document.create_element("div", NodeId::root(), None, HTML_NAMESPACE);
    assert_eq!(div_id, NodeId::from(1));

    let p_id = document.create_element("p", div_id, None, HTML_NAMESPACE);
    assert_eq!(p_id, NodeId::from(2));

    document.create_comment("comment inside p", p_id);
    document.create_text("hey", p_id);
    document.create_comment("comment inside div", div_id);

    let res = document.insert_attribute("id", "myid", p_id);
    assert!(res.is_ok());

    // DOM should now have all our nodes
    assert_eq!(document.get().arena.count_nodes(), 6);

    // validate DOM is correctly laid out
    let doc_read = document.get();
    let root = doc_read.get_root(); // <!DOCTYPE html>
    let root_children = &root.children;

    // div child
    let div_child = doc_read.get_node_by_id(root_children[0]).unwrap();
    assert_eq!(div_child.type_of(), NodeType::Element);
    assert_eq!(div_child.name, "div");
    let div_children = &div_child.children;

    // p child
    let p_child = doc_read.get_node_by_id(div_children[0]).unwrap();
    assert_eq!(p_child.type_of(), NodeType::Element);
    assert_eq!(p_child.name, "p");
    let p_children = &p_child.children;

    // comment inside p
    let p_comment = doc_read.get_node_by_id(p_children[0]).unwrap();
    assert_eq!(p_comment.type_of(), NodeType::Comment);
    let NodeData::Comment(p_comment_data) = &p_comment.data else {
        panic!()
    };
    assert_eq!(p_comment_data.value, "comment inside p");

    // body inside p
    let p_body = doc_read.get_node_by_id(p_children[1]).unwrap();
    assert_eq!(p_body.type_of(), NodeType::Text);
    let NodeData::Text(p_body_data) = &p_body.data else {
        panic!()
    };
    assert_eq!(p_body_data.value, "hey");

    // comment inside div
    let div_comment = doc_read.get_node_by_id(div_children[1]).unwrap();
    assert_eq!(div_comment.type_of(), NodeType::Comment);
    let NodeData::Comment(div_comment_data) = &div_comment.data else {
        panic!()
    };
    assert_eq!(div_comment_data.value, "comment inside div");

    // validate ID is searchable in dom
    assert_eq!(*doc_read.named_id_elements.get("myid").unwrap(), p_id);

    // validate attribute is applied to underlying element
    let p_node = doc_read.get_node_by_id(p_id).unwrap();
    let NodeData::Element(p_element) = &p_node.data else {
        panic!()
    };
    assert_eq!(p_element.attributes.get("id").unwrap(), "myid");
}
