use wiki_game::graph::{LinksGraph, PathError};

#[test]
fn shortest_path_no_start_test() {
    let g = LinksGraph::new();
    let sp = g.shortest_path_to_target(String::from("start"), String::from("end"));
    assert!(sp.is_err());
}

#[test]
fn shortest_path_no_target_test() {
    let mut g = LinksGraph::new();
    let start = String::from("start");
    let target = String::from("target");
    g.add_edge(&start, &String::from("node0"));

    let sp = g.shortest_path_to_target(String::from("start"), target);
    assert!(sp.is_err());
}

#[test]
fn shortest_path_one_step_test() {
    let mut g = LinksGraph::new();
    let start = String::from("start");
    let target = String::from("target");
    g.add_edge(&start, &target);

    let sp = g.shortest_path_to_target(String::from("start"), target);
    assert!(sp.is_ok());
    assert!(sp.unwrap().len() == 2);
}

#[test]
fn shortest_path_multiple_step_test() {
    let mut g = LinksGraph::new();
    let start = String::from("start");
    let a = String::from("a");
    let b = String::from("b");
    let c = String::from("c");

    let target = String::from("target");
    g.add_edge(&start, &a);
    g.add_edge(&start, &c);
    g.add_edge(&a, &b);
    g.add_edge(&b, &target);
    g.add_edge(&c, &target);

    let sp = g.shortest_path_to_target(String::from("start"), target);
    assert!(sp.is_ok());
    assert_eq!(sp.unwrap().len(), 3);
}

#[test]
fn diamond_takes_the_short_side() {
    let mut g = LinksGraph::new();
    let s = |x: &str| String::from(x);
    g.add_edge(&s("S"), &s("a"));
    g.add_edge(&s("S"), &s("c"));
    g.add_edge(&s("a"), &s("b"));
    g.add_edge(&s("b"), &s("T"));
    g.add_edge(&s("c"), &s("T"));
    let p = g.shortest_path_to_target(s("S"), s("T")).unwrap();
    assert_eq!(p, vec![s("S"), s("c"), s("T")]);
}

#[test]
fn missing_start_on_empty_graph() {
    let g = LinksGraph::new();
    assert_eq!(
        g.shortest_path_to_target(String::from("S"), String::from("T")),
        Err(PathError::MissingStart)
    );
}

#[test]
fn missing_target_after_one_edge() {
    let mut g = LinksGraph::new();
    g.add_edge(&String::from("S"), &String::from("n0"));
    assert_eq!(
        g.shortest_path_to_target(String::from("S"), String::from("T")),
        Err(PathError::MissingTarget)
    );
}

#[test]
fn no_path_against_edge_direction() {
    let mut g = LinksGraph::new();
    g.add_edge(&String::from("T"), &String::from("S"));
    assert_eq!(
        g.shortest_path_to_target(String::from("S"), String::from("T")),
        Err(PathError::NoPath)
    );
}

#[test]
fn path_to_itself_is_one_node() {
    let mut g = LinksGraph::new();
    g.add_edge(&String::from("S"), &String::from("x"));
    assert_eq!(
        g.shortest_path_to_target(String::from("S"), String::from("S")),
        Ok(vec![String::from("S")])
    );
}

#[test]
fn one_node_per_url_with_parallel_edges() {
    let mut g = LinksGraph::new();
    let a = String::from("/wiki/A");
    let b = String::from("/wiki/B");
    g.add_edge(&a, &b);
    g.add_edge(&a, &b);
    g.add_edge(&b, &a);
    g.add_edge(&a, &a);
    assert_eq!(g.node_count(), 2);
    assert_eq!(g.edge_count(), 4);
    assert!(g.node_exists(&a));
    assert!(g.node_exists(&b));
    assert!(!g.node_exists(&String::from("/wiki/C")));
}

#[test]
fn counts_never_decrease() {
    let mut g = LinksGraph::new();
    let mut last = (g.node_count(), g.edge_count());
    for (u, v) in [("a", "b"), ("a", "b"), ("b", "c"), ("c", "a"), ("d", "d")] {
        g.add_edge(&String::from(u), &String::from(v));
        let now = (g.node_count(), g.edge_count());
        assert!(now.0 >= last.0 && now.1 == last.1 + 1);
        last = now;
    }
    assert_eq!(last, (4, 5));
}
