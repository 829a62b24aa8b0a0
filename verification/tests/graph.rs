use serenity::graph::EntityGraph;

#[test]
fn a_new_graph_has_no_nodes() {
    let graph = EntityGraph::new();
    assert_eq!(graph.node_count(), 0);
}

#[test]
fn walk_of_an_empty_graph_visits_nothing() {
    let graph = EntityGraph::new();
    assert!(graph.walk_dfs().is_empty());
}

#[test]
fn with_root_holds_exactly_the_root() {
    let graph = EntityGraph::with_root("root".to_string());
    assert_eq!(graph.node_count(), 1);
    assert_eq!(graph.id(0), "root");
    assert_eq!(graph.parent(0), None);
    assert_eq!(graph.walk_dfs(), vec![0]);
    assert_eq!(graph.path_from_root(0), vec![0]);
}

#[test]
fn children_are_walked_in_the_order_they_were_attached() {
    let mut graph = EntityGraph::with_root("root".to_string());
    let a = graph.add_child(0, "a".to_string());
    let b = graph.add_child(0, "b".to_string());
    let c = graph.add_child(a, "c".to_string());
    let d = graph.add_child(0, "d".to_string());
    assert_eq!((a, b, c, d), (1, 2, 3, 4));
    assert_eq!(graph.node_count(), 5);
    assert_eq!(graph.walk_dfs(), vec![0, 1, 3, 2, 4]);
}

#[test]
fn a_walk_names_every_node_once() {
    let mut graph = EntityGraph::with_root("root".to_string());
    let mut parent = 0;
    for i in 0..40 {
        let child = graph.add_child(parent, format!("n{i}"));
        if i % 3 == 0 {
            parent = child;
        }
    }
    let mut order = graph.walk_dfs();
    assert_eq!(order[0], 0);
    order.sort();
    assert_eq!(order, (0..41).collect::<Vec<usize>>());
}

#[test]
fn parent_is_the_node_a_child_was_attached_to() {
    let mut graph = EntityGraph::with_root("root".to_string());
    let a = graph.add_child(0, "a".to_string());
    let b = graph.add_child(a, "b".to_string());
    let c = graph.add_child(a, "c".to_string());
    assert_eq!(graph.parent(a), Some(0));
    assert_eq!(graph.parent(b), Some(a));
    assert_eq!(graph.parent(c), Some(a));
}

#[test]
fn path_from_root_runs_through_every_ancestor() {
    let mut graph = EntityGraph::with_root("root".to_string());
    let a = graph.add_child(0, "a".to_string());
    let _side = graph.add_child(0, "side".to_string());
    let b = graph.add_child(a, "b".to_string());
    let c = graph.add_child(b, "c".to_string());
    assert_eq!(graph.path_from_root(c), vec![0, a, b, c]);
    assert_eq!(graph.path_from_root(a), vec![0, a]);
}

#[test]
fn id_returns_what_each_node_holds() {
    let mut graph = EntityGraph::with_root("root".to_string());
    let a = graph.add_child(0, "first".to_string());
    let b = graph.add_child(a, "second".to_string());
    assert_eq!(graph.id(0), "root");
    assert_eq!(graph.id(a), "first");
    assert_eq!(graph.id(b), "second");
}

#[test]
fn add_root_node_gives_an_empty_graph_a_root_first() {
    let mut graph = EntityGraph::new();
    let index = graph.add_root_node("a".to_string());
    assert_eq!(index, 1);
    assert_eq!(graph.node_count(), 2);
    assert_eq!(graph.id(0), "");
    assert_eq!(graph.id(1), "a");
    assert_eq!(graph.parent(1), Some(0));
}

#[test]
fn add_root_node_attaches_below_an_existing_root() {
    let mut graph = EntityGraph::with_root("root".to_string());
    let a = graph.add_root_node("a".to_string());
    let b = graph.add_root_node("b".to_string());
    assert_eq!((a, b), (1, 2));
    assert_eq!(graph.id(0), "root");
    assert_eq!(graph.parent(a), Some(0));
    assert_eq!(graph.parent(b), Some(0));
    assert_eq!(graph.walk_dfs(), vec![0, 1, 2]);
}

#[test]
fn to_dot_lists_nodes_and_edges() {
    let mut graph = EntityGraph::with_root("root".to_string());
    let a = graph.add_child(0, "leaf".to_string());
    let text = graph.to_dot();
    assert!(text.starts_with("digraph {"));
    assert!(text.contains("root"));
    assert!(text.contains("leaf"));
    assert!(text.contains(&format!("0 -> {a}")));
    assert!(EntityGraph::new().to_dot().starts_with("digraph {"));
    assert!(!EntityGraph::new().to_dot().contains("->"));
}

#[test]
fn a_clone_is_the_same_tree() {
    let mut graph = EntityGraph::with_root("root".to_string());
    let a = graph.add_child(0, "a".to_string());
    graph.add_child(a, "b".to_string());
    let mut copy = graph.clone();
    assert_eq!(copy.node_count(), 3);
    assert_eq!(copy.id(2), "b");
    assert_eq!(copy.parent(2), Some(a));
    assert_eq!(copy.walk_dfs(), graph.walk_dfs());
    copy.add_child(0, "c".to_string());
    assert_eq!(graph.node_count(), 3);
    assert_eq!(copy.node_count(), 4);
}

#[test]
fn a_walk_names_every_parent_before_its_children() {
    let mut graph = EntityGraph::with_root("root".to_string());
    for i in 0..60usize {
        graph.add_child((i * 7) % (i + 1), format!("n{i}"));
    }
    let order = graph.walk_dfs();
    for (k, &node) in order.iter().enumerate().skip(1) {
        let parent = graph.parent(node).expect("only the root has no parent");
        assert!(order[..k].contains(&parent));
    }
}

#[test]
fn a_tree_survives_being_taken_apart_and_rebuilt() {
    let mut graph = EntityGraph::with_root("root".to_string());
    let a = graph.add_child(0, "a".to_string());
    graph.add_child(0, "b".to_string());
    graph.add_child(a, "c".to_string());
    let (ids, links) = (graph.ids(), graph.links());
    assert_eq!(ids, vec!["root", "a", "b", "c"]);
    assert_eq!(links, vec![None, Some(0), Some(0), Some(1)]);
    let rebuilt = EntityGraph::from_links(&ids, &links).expect("links of a tree");
    assert_eq!(rebuilt.ids(), ids);
    assert_eq!(rebuilt.links(), links);
    assert_eq!(rebuilt.walk_dfs(), graph.walk_dfs());
    let empty = EntityGraph::from_links(&vec![], &vec![]).expect("no nodes, no links");
    assert_eq!(empty.node_count(), 0);
    assert!(EntityGraph::new().ids().is_empty() && EntityGraph::new().links().is_empty());
}

#[test]
fn links_that_are_no_tree_are_refused() {
    let ids = |n: usize| (0..n).map(|i| format!("n{i}")).collect::<Vec<String>>();
    assert!(EntityGraph::from_links(&ids(2), &vec![None]).is_none());
    assert!(EntityGraph::from_links(&ids(1), &vec![Some(0)]).is_none());
    assert!(EntityGraph::from_links(&ids(2), &vec![None, None]).is_none());
    assert!(EntityGraph::from_links(&ids(2), &vec![None, Some(1)]).is_none());
    assert!(EntityGraph::from_links(&ids(3), &vec![None, Some(2), Some(0)]).is_none());
    assert!(EntityGraph::from_links(&ids(3), &vec![None, Some(0), Some(1)]).is_some());
}
