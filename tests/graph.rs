use covenant::graph::{inverse_relation, DataGraph};
use covenant::parser::parse;

fn graph_of(source: &str) -> DataGraph {
    let program = parse(source).ok().unwrap();
    DataGraph::from_program(&program)
}

#[test]
fn data_graph_scenario_root_and_child() {
    let g = graph_of(
        r#"
snippet id="kb.root" kind="data"
content
  """
  Root knowledge node
  """
end
relations
  rel to="kb.child" type=contains
end
end

snippet id="kb.child" kind="data"
content
  """
  Child knowledge node
  """
end
end
"#,
    );
    assert_eq!(g.node_count(), 2);
    assert_eq!(g.ids[0], "kb.root");
    assert_eq!(g.outgoing_count(0), 1);
    assert_eq!(g.outgoing_count(1), 1);
    assert_eq!(g.outgoing_rel(0, 0).unwrap(), "contains→kb.child");
    assert_eq!(g.outgoing_rel(1, 0).unwrap(), "contained_by→kb.root");
    assert_eq!(g.incoming_count(0), 1);
    assert_eq!(g.incoming_count(1), 1);
    assert!(g.content_contains(0, "Root knowledge"));
    assert!(!g.content_contains(1, "Root"));
}

#[test]
fn data_graph_outgoing_and_bounds() {
    let g = graph_of(
        r#"
snippet id="parent" kind="data"
content
  """
  Parent node
  """
end
relations
  rel to="child1" type=contains
  rel to="child2" type=contains
  rel to="child2" type=contains
  rel to="nowhere" type=contains
end
end

snippet id="child1" kind="data"
end

snippet id="child2" kind="data"
relations
  rel to="parent" type=contained_by
end
end
"#,
    );
    assert_eq!(g.outgoing_count(0), 2);
    assert_eq!(g.outgoing_count(1), 1);
    assert_eq!(g.outgoing_count(2), 1);
    assert_eq!(g.edges.len(), 4);
    assert!(g.outgoing_rel(0, 1).is_some());
    assert!(g.outgoing_rel(0, 99).is_none());
    assert_eq!(g.find_by_id("child2"), Some(2));
    assert_eq!(g.find_by_id("nonexistent"), None);
}

#[test]
fn data_graph_each_declared_edge_has_one_inverse() {
    let g = graph_of(
        r#"
snippet id="a" kind="data"
relations
  rel to="b" type=describes
  rel to="b" type=custom
end
end
snippet id="b" kind="data"
end
"#,
    );
    for d in &g.declared {
        let inv = inverse_relation(&d.rel_type);
        let n = g
            .edges
            .iter()
            .filter(|e| e.from == d.to && e.to == d.from && e.rel_type == inv)
            .count();
        assert_eq!(n, 1);
    }
    for (i, e) in g.edges.iter().enumerate() {
        for f in &g.edges[i + 1..] {
            assert!(!(e.from == f.from && e.to == f.to && e.rel_type == f.rel_type));
        }
    }
    assert_eq!(g.outgoing_rel(1, 1).unwrap(), "inv_custom→a");
}

#[test]
fn relation_inverses() {
    assert_eq!(inverse_relation("contains"), "contained_by");
    assert_eq!(inverse_relation("described_by"), "describes");
    assert_eq!(inverse_relation("references"), "referenced_by");
    assert_eq!(inverse_relation("implements"), "implemented_by");
    assert_eq!(inverse_relation("owns"), "inv_owns");
}

