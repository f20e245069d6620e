use xmlstar::forwardstar::{ForwardStar, GraphError, NILVALUE};

#[test]
fn check_fstar() {
    let mut fstar = ForwardStar::new();
    println!("has root: {}", fstar.has_root());
    assert!(!fstar.has_root());
    fstar.add_root("Grandfather");
    println!("has root: {}", fstar.has_root());
    assert!(fstar.has_root());
    fstar.add_child("Grandfather", "Father").unwrap();
    fstar.add_child("Grandfather", "Daughter").unwrap();
    fstar.add_child("Father", "Son of Father").unwrap();
    fstar.add_child("Father", "Daughter of Father").unwrap();
    fstar.add_child("Daughter", "Son of Daughter").unwrap();
    fstar.add_child("Daughter", "Daughter of Daugther").unwrap();
    fstar.add_child("Son of Father", "Son of Son of Father").unwrap();
    fstar.add_child("Son of Father", "Daughter of Son of Father").unwrap();

    println!("This is fstar:\n{:?}", fstar);
    assert_eq!(fstar.num_nodes(), 9);
    assert_eq!(fstar.num_links(), 8);
    assert_eq!(fstar.get_first_links(), &vec![0, 2, 4, 6, 8, 8, 8, 8, 8, 8]);
    assert_eq!(fstar.get_to_nodes(), &vec![1, 2, 3, 4, 5, 6, 7, 8]);
}

#[test]
fn children_stay_grouped_by_parent_under_any_insertion_order() {
    let mut g = ForwardStar::new();
    g.add_root("r");
    g.add_child("r", "a").unwrap();
    g.add_child("r", "b").unwrap();
    g.add_child("a", "a1").unwrap();
    g.add_child("r", "c").unwrap();
    g.add_child("a", "a2").unwrap();
    g.add_child("b", "b1").unwrap();
    // r: a b c | a: a1 a2 | b: b1
    assert_eq!(g.get_first_links(), &vec![0, 3, 5, 6, 6, 6, 6, 6]);
    assert_eq!(g.get_to_nodes(), &vec![1, 2, 4, 3, 5, 6]);
    assert_eq!(g.selected_node(), 2);
    let caps: Vec<String> = g.get_node_captions().clone();
    assert_eq!(caps, vec!["r", "a", "b", "a1", "c", "a2", "b1"]);
}

#[test]
fn add_child_refuses_unknown_parent_and_duplicate_child() {
    let mut g = ForwardStar::new();
    assert_eq!(
        g.add_child("x", "y"),
        Err(GraphError::CaptionNotFound { caption: "x".to_string() })
    );
    g.add_root("r");
    g.add_child("r", "a").unwrap();
    assert_eq!(
        g.add_child("nope", "b"),
        Err(GraphError::CaptionNotFound { caption: "nope".to_string() })
    );
    assert_eq!(
        g.add_child("r", "a"),
        Err(GraphError::DuplicateCaption { caption: "a".to_string() })
    );
    assert_eq!(g.num_nodes(), 2);
    assert_eq!(g.num_links(), 1);
}

#[test]
fn find_parent_and_node_by_caption() {
    let mut g = ForwardStar::new();
    g.add_root("r");
    g.add_child("r", "a").unwrap();
    g.add_child("r", "b").unwrap();
    g.add_child("a", "c").unwrap();
    assert_eq!(g.find_parent(0), (NILVALUE, NILVALUE));
    assert_eq!(g.find_parent(3), (1, 2));
    assert_eq!(g.find_parent(2), (0, 1));
    assert_eq!(g.find_parent_by_caption("c"), Ok((1, 2)));
    assert_eq!(g.find_parent_by_caption("r"), Ok((NILVALUE, NILVALUE)));
    assert_eq!(
        g.find_parent_by_caption("zz"),
        Err(GraphError::CaptionNotFound { caption: "zz".to_string() })
    );
    assert_eq!(g.find_node_by_caption("b"), Ok(2));
    assert_eq!(
        g.find_node_by_caption("q"),
        Err(GraphError::CaptionNotFound { caption: "q".to_string() })
    );
}

#[test]
fn display_tree_walks_depth_first() {
    let mut g = ForwardStar::new();
    assert_eq!(g.display_tree(), "");
    g.add_root("r");
    g.add_child("r", "a").unwrap();
    g.add_child("r", "b").unwrap();
    g.add_child("a", "c").unwrap();
    assert_eq!(g.display_tree(), "r\nr -> a\na -> c\nr -> b\n");
    assert_eq!(g.display_node(1, 1, None), "a\na -> c\n");
    assert_eq!(g.display_node(1, 1, Some(false)), "a -> c\n");
    assert_eq!(g.display_node(1, 0, None), "r -> a\na -> c\n");
}
