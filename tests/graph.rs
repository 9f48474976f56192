use powergraph::atom::{Atom, AtomKind};
use powergraph::graph::{attach, in_params, out_params, Graph, GraphError};
use powergraph::link::{InputParameter, Link, OutputParameter};
use powergraph::node::{NodeTemplate, Reaction};

fn emit_usize() -> NodeTemplate {
    NodeTemplate::new(vec![], vec![AtomKind::Usize])
}

fn take_usize() -> NodeTemplate {
    NodeTemplate::new(vec![(AtomKind::Usize, Reaction::Record)], vec![])
}

fn take_entity() -> NodeTemplate {
    NodeTemplate::new(vec![(AtomKind::Entity, Reaction::Record)], vec![])
}

fn attach_to(g: &mut Graph, out: OutputParameter, node: usize) -> Result<(), GraphError> {
    let to = in_params(g, node)[0];
    attach(g, &out, &to)
}

fn sink_count(g: &Graph, node: usize, idx: usize) -> usize {
    g.node(node).unwrap().out_links()[idx].sinks().len()
}

#[test]
fn can_link_nodes() {
    let mut g = Graph::new(vec![emit_usize(), take_usize()]);
    let a = g.create(0).unwrap();
    let b = g.create(1).unwrap();

    let from = out_params(&g, a)[0];
    let to = in_params(&g, b)[0];
    attach(&mut g, &from, &to).unwrap();

    g.update(&out_params(&g, a)[0], Atom::Usize(5));
    let received = g.node(b).unwrap().received(0);
    assert_eq!(Some(Atom::Usize(5)), received);
    match received {
        Some(Atom::Usize(v)) => assert_eq!(5, v),
        _ => panic!("nothing received"),
    }
}

#[test]
fn mismatched_attach_is_refused() {
    let mut g = Graph::new(vec![emit_usize(), take_entity()]);
    let a = g.create(0).unwrap();
    let b = g.create(1).unwrap();
    let from = out_params(&g, a)[0];
    let to = in_params(&g, b)[0];
    let r = attach(&mut g, &from, &to);
    assert_eq!(Err(GraphError::TypeMismatch), r);
    assert_eq!(0, sink_count(&g, a, 0));
    assert_eq!(None, g.node(b).unwrap().in_links()[0]);
}

#[test]
fn attach_notes_the_feeding_port() {
    let mut g = Graph::new(vec![emit_usize(), take_usize()]);
    let a = g.create(0).unwrap();
    let b = g.create(1).unwrap();
    let out = out_params(&g, a)[0];
    assert_eq!(Ok(()), attach_to(&mut g, out, b));
    assert_eq!(1, sink_count(&g, a, 0));
    assert_eq!(Some(out), g.node(b).unwrap().in_links()[0]);
}

#[test]
fn update_reaches_every_subscriber_in_order() {
    let mut g = Graph::new(vec![emit_usize(), take_usize()]);
    let a = g.create(0).unwrap();
    let b = g.create(1).unwrap();
    let c = g.create(1).unwrap();
    let d = g.create(1).unwrap();
    let out = out_params(&g, a)[0];
    for n in [c, b, d] {
        attach_to(&mut g, out, n).unwrap();
    }
    let fired = g.update(&out, Atom::Usize(7));
    let order: Vec<usize> = fired.iter().map(|p| p.node).collect();
    assert_eq!(vec![c, b, d], order);
    for n in [b, c, d] {
        assert_eq!(Some(Atom::Usize(7)), g.node(n).unwrap().received(0));
    }
}

#[test]
fn latest_is_last_published() {
    let mut g = Graph::new(vec![emit_usize()]);
    let a = g.create(0).unwrap();
    let out = out_params(&g, a)[0];
    assert_eq!(None, g.get_latest(&out));
    g.update(&out, Atom::Usize(1));
    g.update(&out, Atom::Usize(2));
    assert_eq!(Some(Atom::Usize(2)), g.get_latest(&out));
}

#[test]
fn late_subscriber_hears_only_later_values() {
    let mut g = Graph::new(vec![emit_usize(), take_usize()]);
    let a = g.create(0).unwrap();
    let b = g.create(1).unwrap();
    let out = out_params(&g, a)[0];
    g.update(&out, Atom::Usize(3));
    attach_to(&mut g, out, b).unwrap();
    assert_eq!(None, g.node(b).unwrap().received(0));
    g.update(&out, Atom::Usize(4));
    assert_eq!(Some(Atom::Usize(4)), g.node(b).unwrap().received(0));
}

#[test]
fn destroyed_nodes_are_inert() {
    let mut g = Graph::new(vec![emit_usize(), take_usize()]);
    let a = g.create(0).unwrap();
    let b = g.create(1).unwrap();
    let c = g.create(1).unwrap();
    let out = out_params(&g, a)[0];
    attach_to(&mut g, out, b).unwrap();
    attach_to(&mut g, out, c).unwrap();
    g.destroy(b);
    let fired = g.update(&out, Atom::Usize(9));
    assert_eq!(1, fired.len());
    assert_eq!(c, fired[0].node);
    assert!(g.node(b).is_none());
    assert!(in_params(&g, b).is_empty());
    let port = InputParameter { node: b, idx: 0, typ: AtomKind::Usize };
    assert!(!port.mark_changed(&mut g, Atom::Usize(1)));

    g.destroy(a);
    let fired = g.update(&out, Atom::Usize(10));
    assert!(fired.is_empty());
    assert_eq!(None, g.get_latest(&out));
    assert_eq!(Some(Atom::Usize(9)), g.node(c).unwrap().received(0));
}

#[test]
fn ignoring_port_keeps_nothing() {
    let ignore = NodeTemplate::new(vec![(AtomKind::Usize, Reaction::Ignore)], vec![]);
    let mut g = Graph::new(vec![emit_usize(), ignore]);
    let a = g.create(0).unwrap();
    let b = g.create(1).unwrap();
    let out = out_params(&g, a)[0];
    attach_to(&mut g, out, b).unwrap();
    let fired = g.update(&out, Atom::Usize(2));
    assert_eq!(1, fired.len());
    assert_eq!(None, g.node(b).unwrap().received(0));
}

#[test]
fn unknown_template_is_refused() {
    let mut g = Graph::new(vec![emit_usize()]);
    assert_eq!(Err(GraphError::UnknownTemplate), g.create(1));
    assert_eq!(0, g.slot_count());
    assert_eq!(Ok(0), g.create(0));
}

#[test]
fn ports_follow_the_template() {
    let t = NodeTemplate::new(
        vec![(AtomKind::Entity, Reaction::Record), (AtomKind::Usize, Reaction::Ignore)],
        vec![AtomKind::Usize, AtomKind::Entity, AtomKind::Entity],
    );
    assert_eq!(vec![AtomKind::Entity, AtomKind::Usize], t.in_types());
    assert_eq!(vec![AtomKind::Usize, AtomKind::Entity, AtomKind::Entity], t.out_types());
    let mut g = Graph::new(vec![t]);
    let n = g.create(0).unwrap();
    let ins = in_params(&g, n);
    let outs = out_params(&g, n);
    assert_eq!(2, ins.len());
    assert_eq!(AtomKind::Usize, ins[1].typ);
    assert_eq!(1, ins[1].idx);
    assert_eq!(3, outs.len());
    assert_eq!(AtomKind::Entity, outs[2].typ);
    let node = g.node(n).unwrap();
    assert_eq!(Reaction::Record, node.get_callback_ref(0));
    assert_eq!(Reaction::Ignore, node.get_callback_ref(1));
    assert_eq!(AtomKind::Entity, node.out_links()[1].typ());
    assert_eq!(0, node.template());
}

#[test]
fn link_keeps_latest_and_sinks() {
    let mut l = Link::new(AtomKind::Entity);
    assert_eq!(None, l.get_latest());
    let p = InputParameter { node: 4, idx: 1, typ: AtomKind::Entity };
    l.add_sink(&p);
    let sinks = l.update(Atom::Entity(3));
    assert_eq!(vec![p], sinks);
    assert_eq!(Some(Atom::Entity(3)), l.get_latest());
    assert_eq!(AtomKind::Entity, Atom::Entity(3).kind());
}
