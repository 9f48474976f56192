//! A graph of nodes, wired by attaching output ports to input ports, and
//! driven by publishing values on output links.
use vstd::prelude::*;
use crate::atom::{Atom, kind_of};
use crate::link::{InputParameter, Link, OutputParameter};
use crate::node::{NodeTemplate, NodeView, Reaction, SimpleNode, TemplateView};

verus! {

/// Why a graph refused a request.
#[derive(Clone, Copy, Debug, PartialEq, Eq, Structural)]
pub enum GraphError {
    /// No template of the catalog has that index.
    UnknownTemplate,
    /// An output port and an input port of different kinds.
    TypeMismatch,
}

/// A catalog of templates and the nodes made from them. Nodes live in slots
/// that are never reused, so a port handle whose node was destroyed leads
/// nowhere rather than to another node.
pub struct Graph {
    templates: Vec<NodeTemplate>,
    nodes: Vec<Option<SimpleNode>>,
}

/// What a graph holds, as plain values.
pub struct GraphView {
    pub templates: Seq<TemplateView>,
    pub nodes: Seq<Option<NodeView>>,
}

impl GraphView {
    /// Whether node `id` exists and has not been destroyed.
    pub open spec fn live(self, id: int) -> bool {
        0 <= id < self.nodes.len() && self.nodes[id] is Some
    }

    /// Node `id`, where it is live.
    pub open spec fn node(self, id: int) -> NodeView {
        self.nodes[id]->Some_0
    }

    /// Every live node was made from a template of the catalog and has its
    /// ports.
    pub open spec fn wf(self) -> bool {
        forall|id: int|
            #[trigger] self.live(id) ==> {
                &&& self.node(id).template < self.templates.len()
                &&& self.node(id).shaped_by(self.templates[self.node(id).template as int])
            }
    }

    /// Whether `p` names an output port of a live node.
    pub open spec fn resolves_output(self, p: OutputParameter) -> bool {
        self.live(p.node as int) && p.idx < self.node(p.node as int).out_links.len()
    }

    /// Whether `p` names an input port of a live node.
    pub open spec fn accepts(self, p: InputParameter) -> bool {
        self.live(p.node as int) && p.idx < self.node(p.node as int).callbacks.len()
    }

    /// The graph with node `id` replaced by `n`.
    pub open spec fn with_node(self, id: int, n: NodeView) -> GraphView {
        GraphView { nodes: self.nodes.update(id, Some(n)), ..self }
    }

    /// The graph with a new node of template `t` in a new slot.
    pub open spec fn spawned(self, t: nat) -> GraphView {
        GraphView {
            nodes: self.nodes.push(Some(NodeView::fresh(t, self.templates[t as int]))),
            ..self
        }
    }

    /// The graph with node `id` destroyed; its slot stays empty.
    pub open spec fn destroyed(self, id: int) -> GraphView {
        if 0 <= id < self.nodes.len() {
            GraphView { nodes: self.nodes.update(id, None), ..self }
        } else {
            self
        }
    }

    /// The graph after `v` reaches input port `p`: the port's reaction runs
    /// if its node is live, and nothing happens otherwise.
    pub open spec fn delivered(self, p: InputParameter, v: Atom) -> GraphView {
        if self.accepts(p) && self.node(p.node as int).callbacks[p.idx as int] == Reaction::Record {
            self.with_node(p.node as int, self.node(p.node as int).received_at(p.idx as int, v))
        } else {
            self
        }
    }

    /// The graph after `v` reaches each port of `sinks`, in order.
    pub open spec fn delivered_all(self, sinks: Seq<InputParameter>, v: Atom) -> GraphView
        decreases sinks.len(),
    {
        if sinks.len() == 0 {
            self
        } else {
            self.delivered_all(sinks.drop_last(), v).delivered(sinks.last(), v)
        }
    }

    /// The subscribers of the link of output port `from`.
    pub open spec fn sinks_of(self, from: OutputParameter) -> Seq<InputParameter> {
        if self.resolves_output(from) {
            self.node(from.node as int).out_links[from.idx as int].sinks
        } else {
            Seq::empty()
        }
    }

    /// The graph after `v` is published on the link of output port `from`:
    /// the link keeps `v`, then each subscriber hears of it in order of
    /// subscription. Publishing through a port whose node is gone does
    /// nothing.
    pub open spec fn published(self, from: OutputParameter, v: Atom) -> GraphView {
        if self.resolves_output(from) {
            self.with_node(
                from.node as int,
                self.node(from.node as int).published_at(from.idx as int, v),
            ).delivered_all(self.sinks_of(from), v)
        } else {
            self
        }
    }

    /// The subscribers whose reaction a publish on `from` runs, in order.
    pub open spec fn dispatched(self, from: OutputParameter) -> Seq<InputParameter> {
        self.sinks_of(from).filter(self.acceptor())
    }

    /// [`GraphView::accepts`] as a predicate.
    pub open spec fn acceptor(self) -> spec_fn(InputParameter) -> bool {
        |p: InputParameter| self.accepts(p)
    }

    /// The graph after output port `from` is attached to input port `to`.
    /// Ports of different kinds, or an output port whose node is gone, leave
    /// it as it was.
    pub open spec fn attached(self, from: OutputParameter, to: InputParameter) -> GraphView {
        if from.typ != to.typ || !self.resolves_output(from) {
            self
        } else {
            let g = self.with_node(
                from.node as int,
                self.node(from.node as int).subscribed_at(from.idx as int, to),
            );
            if g.live(to.node as int) && to.idx < g.node(to.node as int).in_links.len() {
                g.with_node(to.node as int, g.node(to.node as int).fed_at(to.idx as int, from))
            } else {
                g
            }
        }
    }

    /// The last value published on the link of output port `from`.
    pub open spec fn latest(self, from: OutputParameter) -> Option<Atom> {
        if self.resolves_output(from) {
            self.node(from.node as int).out_links[from.idx as int].latest
        } else {
            None
        }
    }

    /// The handles on the input ports of node `id`, in order.
    pub open spec fn in_params(self, id: int) -> Seq<InputParameter> {
        if self.live(id) {
            let t = self.templates[self.node(id).template as int];
            Seq::new(
                t.inputs.len(),
                |i: int| InputParameter { node: id as usize, idx: i as usize, typ: t.inputs[i].0 },
            )
        } else {
            Seq::empty()
        }
    }

    /// The handles on the output ports of node `id`, in order.
    pub open spec fn out_params(self, id: int) -> Seq<OutputParameter> {
        if self.live(id) {
            let t = self.templates[self.node(id).template as int];
            Seq::new(
                t.outputs.len(),
                |i: int| OutputParameter { node: id as usize, idx: i as usize, typ: t.outputs[i] },
            )
        } else {
            Seq::empty()
        }
    }
}

/// The plain view of a node slot.
pub open spec fn slot_view(o: Option<SimpleNode>) -> Option<NodeView> {
    match o {
        Some(n) => Some(n@),
        None => None,
    }
}

impl View for Graph {
    type V = GraphView;

    closed spec fn view(&self) -> GraphView {
        GraphView {
            templates: self.templates@.map_values(|t: NodeTemplate| t@),
            nodes: self.nodes@.map_values(|o: Option<SimpleNode>| slot_view(o)),
        }
    }
}

impl Graph {
    /// A graph with catalog `templates` and no node.
    pub fn new(templates: Vec<NodeTemplate>) -> (r: Graph)
        ensures
            r@.templates == templates@.map_values(|t: NodeTemplate| t@),
            r@.nodes == Seq::<Option<NodeView>>::empty(),
            r@.wf(),
    {
        let r = Graph { templates, nodes: Vec::new() };
        proof {
            assert(r@.nodes =~= Seq::<Option<NodeView>>::empty());
        }
        r
    }

    /// The catalog of templates.
    pub fn templates(&self) -> (r: &Vec<NodeTemplate>)
        ensures
            r@.map_values(|t: NodeTemplate| t@) == self@.templates,
    {
        &self.templates
    }

    /// The number of node slots, live or not; the next node gets this id.
    pub fn slot_count(&self) -> (r: usize)
        ensures
            r == self@.nodes.len(),
    {
        self.nodes.len()
    }

    /// Makes a node of template `template` and returns its id.
    pub fn create(&mut self, template: usize) -> (r: Result<usize, GraphError>)
        requires
            old(self)@.wf(),
        ensures
            final(self)@.wf(),
            template < old(self)@.templates.len() ==> r == Ok::<usize, GraphError>(
                old(self)@.nodes.len() as usize,
            ) && final(self)@ == old(self)@.spawned(template as nat),
            template >= old(self)@.templates.len() ==> r == Err::<usize, GraphError>(
                GraphError::UnknownTemplate,
            ) && final(self)@ == old(self)@,
    {
        if template >= self.templates.len() {
            return Err(GraphError::UnknownTemplate);
        }
        let node = SimpleNode::from_template(template, &self.templates[template]);
        let id = self.nodes.len();
        self.nodes.push(Some(node));
        proof {
            assert(self@.nodes =~= old(self)@.spawned(template as nat).nodes);
            assert(self@.templates =~= old(self)@.templates);
            let g = self@;
            assert forall|i: int| #[trigger] g.live(i) implies {
                &&& g.node(i).template < g.templates.len()
                &&& g.node(i).shaped_by(g.templates[g.node(i).template as int])
            } by {
                if i < id {
                    assert(old(self)@.live(i));
                } else {
                    let t = g.templates[template as int];
                    assert(g.node(i) == NodeView::fresh(template as nat, t));
                    assert(t.reactions() =~= g.node(i).callbacks);
                }
            }
        }
        Ok(id)
    }

    /// Destroys node `id`. Handles on its ports then lead nowhere.
    pub fn destroy(&mut self, id: usize)
        requires
            old(self)@.wf(),
        ensures
            final(self)@.wf(),
            final(self)@ == old(self)@.destroyed(id as int),
    {
        if id < self.nodes.len() {
            self.nodes.set(id, None);
            proof {
                assert(self@.nodes =~= old(self)@.destroyed(id as int).nodes);
                assert(forall|i: int| #[trigger] self@.live(i) ==> old(self)@.live(i) && self@.node(i) == old(self)@.node(i));
            }
        }
    }

    /// Publishes `next` on the link of output port `from`: the link keeps it
    /// as its latest value, then the reaction of each subscribed port runs,
    /// in order of subscription, each receiving `next`. Returns the ports
    /// whose reaction ran, in that order. Through a port whose node is gone
    /// nothing happens.
    pub fn update(&mut self, from: &OutputParameter, next: Atom) -> (fired: Vec<InputParameter>)
        requires
            old(self)@.wf(),
            old(self)@.resolves_output(*from) ==> kind_of(next) == old(self)@.node(
                from.node as int,
            ).out_links[from.idx as int].typ,
        ensures
            final(self)@.wf(),
            final(self)@ == old(self)@.published(*from, next),
            fired@ == old(self)@.dispatched(*from),
    {
        broadcast use Seq::lemma_filter_push;
        let ghost g0 = self@;
        let ghost id = from.node as int;
        let resolves = if from.node < self.nodes.len() {
            match &self.nodes[from.node] {
                Some(node) => from.idx < node.out_count(),
                None => false,
            }
        } else {
            false
        };
        if !resolves {
            proof {
                assert(g0.dispatched(*from) =~= Seq::<InputParameter>::empty());
            }
            return Vec::new();
        }
        let sinks = match &mut self.nodes[from.node] {
            Some(node) => node.publish(from.idx, next),
            None => Vec::new(),
        };
        let ghost g1 = self@;
        proof {
            assert(g1.nodes =~= g0.with_node(id, g0.node(id).published_at(from.idx as int, next)).nodes);
            assert(g1 == g0.with_node(id, g0.node(id).published_at(from.idx as int, next)));
            assert forall|q: InputParameter| #[trigger] g1.accepts(q) == g0.accepts(q) by {}
            lemma_wf_with_node(g0, id, g0.node(id).published_at(from.idx as int, next));
            assert(sinks@.subrange(0, 0) =~= Seq::<InputParameter>::empty());
            assert(Seq::<InputParameter>::empty().filter(g0.acceptor()) =~= Seq::<InputParameter>::empty());
        }
        let mut fired: Vec<InputParameter> = Vec::new();
        let mut i: usize = 0;
        while i < sinks.len()
            invariant
                i <= sinks@.len(),
                sinks@ == g0.sinks_of(*from),
                self@.wf(),
                self@ == g1.delivered_all(sinks@.subrange(0, i as int), next),
                forall|q: InputParameter| #[trigger] self@.accepts(q) == g0.accepts(q),
                fired@ == sinks@.subrange(0, i as int).filter(g0.acceptor()),
            decreases sinks@.len() - i,
        {
            let sink = sinks[i];
            let ghost before = self@;
            let ran = sink.mark_changed(self, next);
            if ran {
                fired.push(sink);
            }
            i = i + 1;
            proof {
                let done = sinks@.subrange(0, i as int);
                assert(done.drop_last() =~= sinks@.subrange(0, i - 1));
                assert(done =~= sinks@.subrange(0, i - 1).push(sink));
                assert(ran == g0.acceptor()(sink));
                sinks@.subrange(0, i - 1).lemma_filter_push(sink, g0.acceptor());
                assert forall|q: InputParameter| #[trigger] self@.accepts(q) == g0.accepts(q) by {
                    assert(self@.accepts(q) == before.accepts(q));
                }
            }
        }
        proof {
            assert(sinks@.subrange(0, i as int) =~= sinks@);
        }
        fired
    }

    /// The last value published on the link of output port `from`; none
    /// before the first publish, or where the port's node is gone.
    pub fn get_latest(&self, from: &OutputParameter) -> (r: Option<Atom>)
        ensures
            r == self@.latest(*from),
    {
        match self.node(from.node) {
            Some(node) => {
                if from.idx < node.out_count() {
                    let links = node.out_links();
                    proof {
                        assert(links@.map_values(|l: Link| l@)[from.idx as int] == links@[from.idx as int]@);
                    }
                    links[from.idx].get_latest()
                } else {
                    None
                }
            },
            None => None,
        }
    }

    /// Node `id`, if it is live.
    pub fn node(&self, id: usize) -> (r: Option<&SimpleNode>)
        ensures
            r is Some <==> self@.live(id as int),
            r is Some ==> r->Some_0@ == self@.node(id as int),
    {
        if id < self.nodes.len() {
            match &self.nodes[id] {
                Some(n) => Some(n),
                None => None,
            }
        } else {
            None
        }
    }
}

impl InputParameter {
    /// Hands `value` to this port: the port's reaction runs if its node is
    /// live. Returns whether it ran; a port whose node is gone does nothing.
    pub fn mark_changed(&self, graph: &mut Graph, value: Atom) -> (r: bool)
        requires
            old(graph)@.wf(),
        ensures
            final(graph)@.wf(),
            final(graph)@ == old(graph)@.delivered(*self, value),
            r == old(graph)@.accepts(*self),
    {
        if self.node >= graph.nodes.len() {
            return false;
        }
        let ghost id = self.node as int;
        let reaction = match &graph.nodes[self.node] {
            Some(node) => {
                if self.idx < node.callback_count() {
                    Some(node.get_callback_ref(self.idx))
                } else {
                    None
                }
            },
            None => None,
        };
        match reaction {
            None => {
                return false;
            },
            Some(Reaction::Ignore) => {
                return true;
            },
            Some(Reaction::Record) => {
                proof {
                    assert(old(graph)@.live(id));
                    let t = old(graph)@.templates[old(graph)@.node(id).template as int];
                    assert(old(graph)@.node(id).shaped_by(t));
                }
                match &mut graph.nodes[self.node] {
                    Some(node) => {
                        node.record(self.idx, value);
                    },
                    None => {},
                }
            },
        }
        proof {
            let g0 = old(graph)@;
            let g = graph@;
            assert(g.nodes =~= g0.delivered(*self, value).nodes);
            assert(forall|i: int| #[trigger] g.live(i) ==> g0.live(i) && g.node(i).template == g0.node(i).template);
        }
        true
    }
}

/// Attaches output port `from_param` to input port `to_param`: the input
/// port subscribes to the output's link and hears of every value published
/// there from now on, and is noted as fed from it. Ports of different kinds
/// are refused before anything changes; an output port whose node is gone
/// leaves the graph as it was.
pub fn attach(graph: &mut Graph, from_param: &OutputParameter, to_param: &InputParameter) -> (r:
    Result<(), GraphError>)
    requires
        old(graph)@.wf(),
    ensures
        final(graph)@.wf(),
        final(graph)@ == old(graph)@.attached(*from_param, *to_param),
        from_param.typ != to_param.typ ==> r == Err::<(), GraphError>(GraphError::TypeMismatch),
        from_param.typ == to_param.typ ==> r == Ok::<(), GraphError>(()),
{
    if from_param.typ != to_param.typ {
        return Err(GraphError::TypeMismatch);
    }
    let ghost g0 = graph@;
    let resolves = if from_param.node < graph.nodes.len() {
        match &graph.nodes[from_param.node] {
            Some(node) => from_param.idx < node.out_count(),
            None => false,
        }
    } else {
        false
    };
    if !resolves {
        return Ok(());
    }
    match &mut graph.nodes[from_param.node] {
        Some(node) => node.subscribe(from_param.idx, *to_param),
        None => {},
    }
    let ghost g1 = graph@;
    proof {
        let id = from_param.node as int;
        let n1 = g0.node(id).subscribed_at(from_param.idx as int, *to_param);
        assert(g1.nodes =~= g0.with_node(id, n1).nodes);
        assert(g1 == g0.with_node(id, n1));
        lemma_wf_with_node(g0, id, n1);
    }
    let feeds = if to_param.node < graph.nodes.len() {
        match &graph.nodes[to_param.node] {
            Some(node) => to_param.idx < node.in_count(),
            None => false,
        }
    } else {
        false
    };
    if feeds {
        match &mut graph.nodes[to_param.node] {
            Some(node) => node.feed(to_param.idx, *from_param),
            None => {},
        }
        proof {
            let id = to_param.node as int;
            let n2 = g1.node(id).fed_at(to_param.idx as int, *from_param);
            let g2 = graph@;
            assert(g2.nodes =~= g1.with_node(id, n2).nodes);
            assert(g2 == g1.with_node(id, n2));
            lemma_wf_with_node(g1, id, n2);
        }
    }
    Ok(())
}

/// The handles on the input ports of node `node`, in order; none where the
/// node is gone.
pub fn in_params(graph: &Graph, node: usize) -> (r: Vec<InputParameter>)
    requires
        graph@.wf(),
    ensures
        r@ == graph@.in_params(node as int),
{
    let mut r: Vec<InputParameter> = Vec::new();
    match graph.node(node) {
        None => {
            proof {
                assert(r@ =~= graph@.in_params(node as int));
            }
            r
        },
        Some(n) => {
            let t = &graph.templates[n.template()];
            let ghost tv = graph@.templates[n@.template as int];
            proof {
                assert(graph@.live(node as int));
                assert(t@ == tv);
            }
            let count = t.in_count();
            let mut i: usize = 0;
            while i < count
                invariant
                    count == tv.inputs.len(),
                    t@ == tv,
                    i <= count,
                    r@ == graph@.in_params(node as int).subrange(0, i as int),
                    graph@.live(node as int),
                    tv == graph@.templates[graph@.node(node as int).template as int],
                decreases count - i,
            {
                r.push(InputParameter { node, idx: i, typ: t.in_type(i) });
                i = i + 1;
                proof {
                    assert(r@[i - 1] == graph@.in_params(node as int)[i - 1]);
                    assert(r@ =~= graph@.in_params(node as int).subrange(0, i as int));
                }
            }
            proof {
                assert(graph@.in_params(node as int).subrange(0, i as int) =~= graph@.in_params(
                    node as int,
                ));
            }
            r
        },
    }
}

/// The handles on the output ports of node `node`, in order; none where the
/// node is gone.
pub fn out_params(graph: &Graph, node: usize) -> (r: Vec<OutputParameter>)
    requires
        graph@.wf(),
    ensures
        r@ == graph@.out_params(node as int),
{
    let mut r: Vec<OutputParameter> = Vec::new();
    match graph.node(node) {
        None => {
            proof {
                assert(r@ =~= graph@.out_params(node as int));
            }
            r
        },
        Some(n) => {
            let t = &graph.templates[n.template()];
            let ghost tv = graph@.templates[n@.template as int];
            proof {
                assert(graph@.live(node as int));
                assert(t@ == tv);
            }
            let count = t.out_count();
            let mut i: usize = 0;
            while i < count
                invariant
                    count == tv.outputs.len(),
                    t@ == tv,
                    i <= count,
                    r@ == graph@.out_params(node as int).subrange(0, i as int),
                    graph@.live(node as int),
                    tv == graph@.templates[graph@.node(node as int).template as int],
                decreases count - i,
            {
                r.push(OutputParameter { node, idx: i, typ: t.out_type(i) });
                i = i + 1;
                proof {
                    assert(r@[i - 1] == graph@.out_params(node as int)[i - 1]);
                    assert(r@ =~= graph@.out_params(node as int).subrange(0, i as int));
                }
            }
            proof {
                assert(graph@.out_params(node as int).subrange(0, i as int) =~= graph@.out_params(
                    node as int,
                ));
            }
            r
        },
    }
}

/// Whether `b` has the same template and ports as `a`.
pub open spec fn same_ports(a: NodeView, b: NodeView) -> bool {
    &&& b.template == a.template
    &&& b.in_links.len() == a.in_links.len()
    &&& b.received.len() == a.received.len()
    &&& b.callbacks == a.callbacks
    &&& b.out_links.len() == a.out_links.len()
    &&& forall|j: int| 0 <= j < a.out_links.len() ==> #[trigger] b.out_links[j].typ == a.out_links[j].typ
}

/// Replacing a live node by one with the same ports keeps the graph well
/// formed.
proof fn lemma_wf_with_node(g: GraphView, id: int, n: NodeView)
    requires
        g.wf(),
        g.live(id),
        same_ports(g.node(id), n),
    ensures
        g.with_node(id, n).wf(),
{
    let h = g.with_node(id, n);
    assert forall|i: int| #[trigger] h.live(i) implies {
        &&& h.node(i).template < h.templates.len()
        &&& h.node(i).shaped_by(h.templates[h.node(i).template as int])
    } by {
        assert(g.live(i));
        if i == id {
            let t = g.templates[g.node(i).template as int];
            assert(g.node(i).shaped_by(t));
            assert forall|j: int| 0 <= j < t.outputs.len() implies #[trigger] h.node(i).out_links[j].typ
                == t.outputs[j] by {
                assert(g.node(i).out_links[j].typ == t.outputs[j]);
            }
        }
    }
}

/// Delivering values changes what nodes received and nothing else: which
/// nodes are live, their reactions and their links stay as they were.
proof fn lemma_delivery_keeps_wiring(g: GraphView, sinks: Seq<InputParameter>, v: Atom)
    requires
        g.wf(),
    ensures
        g.delivered_all(sinks, v).wf(),
        g.delivered_all(sinks, v).templates == g.templates,
        g.delivered_all(sinks, v).nodes.len() == g.nodes.len(),
        forall|id: int| #[trigger] g.delivered_all(sinks, v).live(id) == g.live(id),
        forall|id: int|
            g.live(id) ==> #[trigger] g.delivered_all(sinks, v).node(id).out_links == g.node(
                id,
            ).out_links,
        forall|id: int|
            g.live(id) ==> #[trigger] g.delivered_all(sinks, v).node(id).callbacks == g.node(
                id,
            ).callbacks,
    decreases sinks.len(),
{
    if sinks.len() > 0 {
        lemma_delivery_keeps_wiring(g, sinks.drop_last(), v);
        let prev = g.delivered_all(sinks.drop_last(), v);
        let cur = g.delivered_all(sinks, v);
        let p = sinks.last();
        assert(cur == prev.delivered(p, v));
        if prev.accepts(p) && prev.node(p.node as int).callbacks[p.idx as int] == Reaction::Record {
            let id = p.node as int;
            let t = prev.templates[prev.node(id).template as int];
            assert(prev.node(id).shaped_by(t));
            lemma_wf_with_node(prev, id, prev.node(id).received_at(p.idx as int, v));
        }
        assert forall|id: int| #[trigger] cur.live(id) == g.live(id) by {
            assert(prev.live(id) == g.live(id));
        }
        assert forall|id: int| g.live(id) implies #[trigger] cur.node(id).out_links == g.node(
            id,
        ).out_links by {
            assert(prev.live(id));
            assert(prev.node(id).out_links == g.node(id).out_links);
        }
        assert forall|id: int| g.live(id) implies #[trigger] cur.node(id).callbacks == g.node(
            id,
        ).callbacks by {
            assert(prev.live(id));
            assert(prev.node(id).callbacks == g.node(id).callbacks);
        }
    } else {
        assert(g.delivered_all(sinks, v) == g);
    }
}

/// Each subscriber of `sinks` whose node is live and keeps values holds `v`
/// once `v` has been delivered to all of them.
proof fn lemma_delivery_reaches(g: GraphView, sinks: Seq<InputParameter>, v: Atom, k: int)
    requires
        g.wf(),
        0 <= k < sinks.len(),
        g.accepts(sinks[k]),
        g.node(sinks[k].node as int).callbacks[sinks[k].idx as int] == Reaction::Record,
    ensures
        g.delivered_all(sinks, v).node(sinks[k].node as int).received[sinks[k].idx as int] == Some(v),
    decreases sinks.len(),
{
    let id = sinks[k].node as int;
    let t = g.templates[g.node(id).template as int];
    assert(g.node(id).shaped_by(t));
    let prev = g.delivered_all(sinks.drop_last(), v);
    lemma_delivery_keeps_wiring(g, sinks.drop_last(), v);
    if k < sinks.len() - 1 {
        lemma_delivery_reaches(g, sinks.drop_last(), v, k);
        assert(sinks.drop_last()[k] == sinks[k]);
    }
}

/// A filter keeps a sequence whole when every element passes it.
proof fn lemma_filter_keeps_all(s: Seq<InputParameter>, pred: spec_fn(InputParameter) -> bool)
    requires
        forall|i: int| 0 <= i < s.len() ==> pred(#[trigger] s[i]),
    ensures
        s.filter(pred) == s,
    decreases s.len(),
{
    if s.len() > 0 {
        lemma_filter_keeps_all(s.drop_last(), pred);
        s.drop_last().lemma_filter_push(s.last(), pred);
        assert(s.drop_last().push(s.last()) =~= s);
    }
}

/// Attaching ports of different kinds is refused with the graph unchanged:
/// no link gains a subscriber.
pub proof fn lemma_mismatched_attach_changes_nothing(
    g: GraphView,
    from: OutputParameter,
    to: InputParameter,
)
    requires
        from.typ != to.typ,
    ensures
        g.attached(from, to) == g,
{
}

/// Publishing `v` on a link whose `k` subscribers all lead to live nodes
/// runs exactly their `k` reactions, in order of subscription, and each
/// subscriber that keeps values then holds `v`.
pub proof fn lemma_fan_out(g: GraphView, from: OutputParameter, v: Atom)
    requires
        g.wf(),
        g.resolves_output(from),
        forall|i: int| 0 <= i < g.sinks_of(from).len() ==> g.accepts(#[trigger] g.sinks_of(from)[i]),
    ensures
        g.dispatched(from) == g.sinks_of(from),
        forall|i: int|
            0 <= i < g.sinks_of(from).len() && g.node(
                (#[trigger] g.sinks_of(from)[i]).node as int,
            ).callbacks[g.sinks_of(from)[i].idx as int] == Reaction::Record ==> g.published(
                from,
                v,
            ).node(g.sinks_of(from)[i].node as int).received[g.sinks_of(from)[i].idx as int]
                == Some(v),
{
    let sinks = g.sinks_of(from);
    lemma_filter_keeps_all(sinks, g.acceptor());
    let id = from.node as int;
    let g1 = g.with_node(id, g.node(id).published_at(from.idx as int, v));
    assert forall|i: int|
        0 <= i < sinks.len() && g.node((#[trigger] sinks[i]).node as int).callbacks[sinks[i].idx as int]
            == Reaction::Record implies g.published(from, v).node(sinks[i].node as int).received[sinks[i].idx as int]
        == Some(v) by {
        lemma_wf_with_node(g, id, g.node(id).published_at(from.idx as int, v));
        assert(g.accepts(sinks[i]));
        lemma_delivery_reaches(g1, sinks, v, i);
    }
}

/// A link keeps the last value published on it: after `v1` and then `v2`
/// its latest value is `v2`.
pub proof fn lemma_latest_is_last_published(g: GraphView, from: OutputParameter, v1: Atom, v2: Atom)
    requires
        g.wf(),
        g.resolves_output(from),
    ensures
        g.published(from, v1).latest(from) == Some(v1),
        g.published(from, v1).published(from, v2).latest(from) == Some(v2),
{
    let id = from.node as int;
    let g1 = g.with_node(id, g.node(id).published_at(from.idx as int, v1));
    lemma_wf_with_node(g, id, g.node(id).published_at(from.idx as int, v1));
    lemma_delivery_keeps_wiring(g1, g.sinks_of(from), v1);
    let h = g.published(from, v1);
    assert(h.resolves_output(from));
    let h1 = h.with_node(id, h.node(id).published_at(from.idx as int, v2));
    lemma_wf_with_node(h, id, h.node(id).published_at(from.idx as int, v2));
    lemma_delivery_keeps_wiring(h1, h.sinks_of(from), v2);
}

/// A node just made holds no value on any of its output links.
pub proof fn lemma_new_node_has_no_value(g: GraphView, t: nat, from: OutputParameter)
    requires
        t < g.templates.len(),
        from.node == g.nodes.len(),
        from.idx < g.templates[t as int].outputs.len(),
    ensures
        g.spawned(t).resolves_output(from),
        g.spawned(t).latest(from) is None,
{
}

/// Attaching runs no reaction: every node has received what it had before,
/// even where the link already holds a value. Only a later publish reaches
/// the new subscriber.
pub proof fn lemma_attach_delivers_nothing(
    g: GraphView,
    from: OutputParameter,
    to: InputParameter,
    v: Atom,
)
    requires
        g.wf(),
    ensures
        forall|id: int| #[trigger] g.attached(from, to).live(id) == g.live(id),
        forall|id: int|
            g.live(id) ==> #[trigger] g.attached(from, to).node(id).received == g.node(id).received,
        from.typ == to.typ && g.resolves_output(from) && g.accepts(to) && g.node(
            to.node as int,
        ).callbacks[to.idx as int] == Reaction::Record ==> g.attached(from, to).published(
            from,
            v,
        ).node(to.node as int).received[to.idx as int] == Some(v),
{
    let g2 = g.attached(from, to);
    if from.typ == to.typ && g.resolves_output(from) && g.accepts(to) && g.node(
        to.node as int,
    ).callbacks[to.idx as int] == Reaction::Record {
        let id = from.node as int;
        let ga = g.with_node(id, g.node(id).subscribed_at(from.idx as int, to));
        lemma_wf_with_node(g, id, g.node(id).subscribed_at(from.idx as int, to));
        let t = g.templates[g.node(to.node as int).template as int];
        assert(g.node(to.node as int).shaped_by(t));
        if g2 != ga {
            lemma_wf_with_node(ga, to.node as int, ga.node(to.node as int).fed_at(to.idx as int, from));
        }
        assert(g2.resolves_output(from));
        let sinks = g2.sinks_of(from);
        assert(sinks.last() == to);
        let g3 = g2.with_node(id, g2.node(id).published_at(from.idx as int, v));
        lemma_wf_with_node(g2, id, g2.node(id).published_at(from.idx as int, v));
        lemma_delivery_reaches(g3, sinks, v, sinks.len() - 1);
    }
}

/// Once node `id` is destroyed, publishing through one of its output
/// ports and handing a value to one of its input ports both do nothing.
pub proof fn lemma_destroyed_node_is_inert(
    g: GraphView,
    id: int,
    from: OutputParameter,
    to: InputParameter,
    v: Atom,
)
    requires
        0 <= id < g.nodes.len(),
        from.node == id,
        to.node == id,
    ensures
        g.destroyed(id).published(from, v) == g.destroyed(id),
        g.destroyed(id).delivered(to, v) == g.destroyed(id),
{
}

} // verus!
