use powergraph::atom::AtomKind;
use powergraph::node::{NodeTemplate, Reaction};
use powergraph::synthesis::{generate_graphs, generate_graphs_with_policy, CompletionPolicy};

fn emit_usize() -> NodeTemplate {
    NodeTemplate::new(vec![], vec![AtomKind::Usize])
}

fn take_usize() -> NodeTemplate {
    NodeTemplate::new(vec![(AtomKind::Usize, Reaction::Record)], vec![])
}

#[test]
fn can_generate_graphs() {
    let templates: Vec<NodeTemplate> = vec![emit_usize(), take_usize()];

    let results = generate_graphs(&templates);
    assert_eq!(1, results.len());
}

#[test]
fn synthesis_proposes_source_then_sink() {
    let templates: Vec<NodeTemplate> = vec![emit_usize(), take_usize()];
    let results = generate_graphs(&templates);
    assert!(results.contains(&vec![0, 1]));
    assert_eq!(vec![vec![0, 1]], results);
}

#[test]
fn extend_balanced_reports_leftovers() {
    let templates: Vec<NodeTemplate> = vec![emit_usize(), take_usize()];
    let results = generate_graphs_with_policy(&templates, CompletionPolicy::ExtendBalanced);
    assert_eq!(vec![vec![0]], results);
}

#[test]
fn empty_catalog_proposes_nothing() {
    let templates: Vec<NodeTemplate> = vec![];
    assert!(generate_graphs(&templates).is_empty());
}

#[test]
fn relay_extends_pipelines() {
    let relay = NodeTemplate::new(vec![(AtomKind::Usize, Reaction::Ignore)], vec![AtomKind::Usize]);
    let templates: Vec<NodeTemplate> = vec![emit_usize(), relay, take_usize()];
    let results = generate_graphs(&templates);
    assert_eq!(vec![vec![0, 2], vec![0, 1, 2]], results);
}
