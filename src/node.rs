//! Node templates and the nodes made from them.
use vstd::prelude::*;
use crate::atom::{Atom, AtomKind, kind_of};
use crate::link::{InputParameter, Link, LinkView, OutputParameter};
use crate::vec_copy::copy_vec;

verus! {

/// How a node reacts to a value arriving at one of its input ports.
#[derive(Clone, Copy, Debug, PartialEq, Eq, Structural)]
pub enum Reaction {
    /// The value is dropped.
    Ignore,
    /// The value is kept in the node's state as the last one received on
    /// that port.
    Record,
}

/// A blueprint for nodes: the kind and reaction of each input port, in
/// order, and the kind of each output port, in order.
pub struct NodeTemplate {
    inputs: Vec<(AtomKind, Reaction)>,
    outputs: Vec<AtomKind>,
}

/// What a template holds, as plain values.
pub struct TemplateView {
    pub inputs: Seq<(AtomKind, Reaction)>,
    pub outputs: Seq<AtomKind>,
}

impl TemplateView {
    /// The kinds of the input ports, in order.
    pub open spec fn in_kinds(self) -> Seq<AtomKind> {
        self.inputs.map_values(|p: (AtomKind, Reaction)| p.0)
    }

    /// The reactions of the input ports, in order.
    pub open spec fn reactions(self) -> Seq<Reaction> {
        self.inputs.map_values(|p: (AtomKind, Reaction)| p.1)
    }
}

impl View for NodeTemplate {
    type V = TemplateView;

    closed spec fn view(&self) -> TemplateView {
        TemplateView { inputs: self.inputs@, outputs: self.outputs@ }
    }
}

impl NodeTemplate {
    /// A template with the given input ports (kind and reaction each) and
    /// output kinds.
    pub fn new(inputs: Vec<(AtomKind, Reaction)>, outputs: Vec<AtomKind>) -> (r: NodeTemplate)
        ensures
            r@.inputs == inputs@,
            r@.outputs == outputs@,
    {
        NodeTemplate { inputs, outputs }
    }

    /// The kinds of the input ports, in order.
    pub fn in_types(&self) -> (r: Vec<AtomKind>)
        ensures
            r@ == self@.in_kinds(),
    {
        let mut r: Vec<AtomKind> = Vec::new();
        let mut i: usize = 0;
        while i < self.inputs.len()
            invariant
                i <= self.inputs@.len(),
                r@ == self@.in_kinds().subrange(0, i as int),
            decreases self.inputs@.len() - i,
        {
            r.push(self.inputs[i].0);
            i = i + 1;
            proof {
                assert(r@ =~= self@.in_kinds().subrange(0, i as int));
            }
        }
        proof {
            assert(self@.in_kinds().subrange(0, i as int) =~= self@.in_kinds());
        }
        r
    }

    /// The kinds of the output ports, in order.
    pub fn out_types(&self) -> (r: Vec<AtomKind>)
        ensures
            r@ == self@.outputs,
    {
        copy_vec(&self.outputs)
    }

    /// The number of input ports.
    pub fn in_count(&self) -> (r: usize)
        ensures
            r == self@.inputs.len(),
    {
        self.inputs.len()
    }

    /// The number of output ports.
    pub fn out_count(&self) -> (r: usize)
        ensures
            r == self@.outputs.len(),
    {
        self.outputs.len()
    }

    /// The kind of input port `idx`.
    pub fn in_type(&self, idx: usize) -> (r: AtomKind)
        requires
            idx < self@.inputs.len(),
        ensures
            r == self@.inputs[idx as int].0,
    {
        self.inputs[idx].0
    }

    /// The kind of output port `idx`.
    pub fn out_type(&self, idx: usize) -> (r: AtomKind)
        requires
            idx < self@.outputs.len(),
        ensures
            r == self@.outputs[idx as int],
    {
        self.outputs[idx]
    }

    /// The reaction of input port `idx`.
    pub fn reaction(&self, idx: usize) -> (r: Reaction)
        requires
            idx < self@.inputs.len(),
        ensures
            r == self@.inputs[idx as int].1,
    {
        self.inputs[idx].1
    }
}

/// A node made from a template: where each input port is fed from (if it
/// is), the links it owns for its outputs, the last value received on each
/// input port, and the reaction of each input port, fixed when it was made.
pub struct SimpleNode {
    template: usize,
    in_links: Vec<Option<OutputParameter>>,
    out_links: Vec<Link>,
    received: Vec<Option<Atom>>,
    callback_refs: Vec<Reaction>,
}

/// What a node holds, as plain values.
pub struct NodeView {
    pub template: nat,
    pub in_links: Seq<Option<OutputParameter>>,
    pub out_links: Seq<LinkView>,
    pub received: Seq<Option<Atom>>,
    pub callbacks: Seq<Reaction>,
}

impl NodeView {
    /// A node just made from template `template`, whose blueprint is `t`:
    /// no input fed, one fresh link per output, nothing received.
    pub open spec fn fresh(template: nat, t: TemplateView) -> NodeView {
        NodeView {
            template,
            in_links: Seq::new(t.inputs.len(), |i: int| None),
            out_links: Seq::new(t.outputs.len(), |i: int| LinkView::fresh(t.outputs[i])),
            received: Seq::new(t.inputs.len(), |i: int| None),
            callbacks: t.reactions(),
        }
    }

    /// Whether the node has the ports that template `t` declares.
    pub open spec fn shaped_by(self, t: TemplateView) -> bool {
        &&& self.in_links.len() == t.inputs.len()
        &&& self.received.len() == t.inputs.len()
        &&& self.callbacks == t.reactions()
        &&& self.out_links.len() == t.outputs.len()
        &&& forall|j: int| 0 <= j < t.outputs.len() ==> #[trigger] self.out_links[j].typ == t.outputs[j]
    }

    /// The node after `v` arrives on input port `i` and is kept.
    pub open spec fn received_at(self, i: int, v: Atom) -> NodeView {
        NodeView { received: self.received.update(i, Some(v)), ..self }
    }

    /// The node after `v` is published on the link of output port `j`.
    pub open spec fn published_at(self, j: int, v: Atom) -> NodeView {
        NodeView { out_links: self.out_links.update(j, self.out_links[j].published(v)), ..self }
    }

    /// The node after `sink` subscribes to the link of output port `j`.
    pub open spec fn subscribed_at(self, j: int, sink: InputParameter) -> NodeView {
        NodeView { out_links: self.out_links.update(j, self.out_links[j].subscribed(sink)), ..self }
    }

    /// The node after input port `i` is noted as fed from `from`.
    pub open spec fn fed_at(self, i: int, from: OutputParameter) -> NodeView {
        NodeView { in_links: self.in_links.update(i, Some(from)), ..self }
    }
}

impl View for SimpleNode {
    type V = NodeView;

    closed spec fn view(&self) -> NodeView {
        NodeView {
            template: self.template as nat,
            in_links: self.in_links@,
            out_links: self.out_links@.map_values(|l: Link| l@),
            received: self.received@,
            callbacks: self.callback_refs@,
        }
    }
}

impl SimpleNode {
    /// A node of template `template`, whose blueprint is `blueprint`.
    pub fn from_template(template: usize, blueprint: &NodeTemplate) -> (r: SimpleNode)
        ensures
            r@ == NodeView::fresh(template as nat, blueprint@),
    {
        let n = blueprint.in_count();
        let mut in_links: Vec<Option<OutputParameter>> = Vec::new();
        let mut received: Vec<Option<Atom>> = Vec::new();
        let mut callback_refs: Vec<Reaction> = Vec::new();
        let mut i: usize = 0;
        while i < n
            invariant
                n == blueprint@.inputs.len(),
                i <= n,
                in_links@.len() == i,
                received@.len() == i,
                forall|j: int| 0 <= j < i ==> in_links@[j] is None,
                forall|j: int| 0 <= j < i ==> received@[j] is None,
                callback_refs@ == blueprint@.reactions().subrange(0, i as int),
            decreases n - i,
        {
            in_links.push(None);
            received.push(None);
            callback_refs.push(blueprint.reaction(i));
            i = i + 1;
            proof {
                assert(callback_refs@ =~= blueprint@.reactions().subrange(0, i as int));
            }
        }
        let m = blueprint.out_count();
        let mut out_links: Vec<Link> = Vec::new();
        let mut j: usize = 0;
        while j < m
            invariant
                m == blueprint@.outputs.len(),
                j <= m,
                out_links@.len() == j,
                forall|k: int|
                    0 <= k < j ==> #[trigger] out_links@[k]@ == LinkView::fresh(blueprint@.outputs[k]),
            decreases m - j,
        {
            out_links.push(Link::new(blueprint.out_type(j)));
            j = j + 1;
        }
        let r = SimpleNode { template, in_links, out_links, received, callback_refs };
        proof {
            let f = NodeView::fresh(template as nat, blueprint@);
            assert(r@.in_links =~= f.in_links);
            assert(r@.received =~= f.received);
            assert(r@.out_links =~= f.out_links);
            assert(blueprint@.reactions().subrange(0, n as int) =~= f.callbacks);
        }
        r
    }

    /// The template this node was made from.
    pub fn template(&self) -> (r: usize)
        ensures
            r as nat == self@.template,
    {
        self.template
    }

    /// Where each input port is fed from, if it is.
    pub fn in_links(&self) -> (r: &Vec<Option<OutputParameter>>)
        ensures
            r@ == self@.in_links,
    {
        &self.in_links
    }

    /// The links of the output ports.
    pub fn out_links(&self) -> (r: &Vec<Link>)
        ensures
            r@.map_values(|l: Link| l@) == self@.out_links,
    {
        &self.out_links
    }

    /// The reaction of input port `idx`.
    pub fn get_callback_ref(&self, idx: usize) -> (r: Reaction)
        requires
            idx < self@.callbacks.len(),
        ensures
            r == self@.callbacks[idx as int],
    {
        self.callback_refs[idx]
    }

    /// The last value received on input port `idx`, if any.
    pub fn received(&self, idx: usize) -> (r: Option<Atom>)
        requires
            idx < self@.received.len(),
        ensures
            r == self@.received[idx as int],
    {
        self.received[idx]
    }

    /// The number of input ports.
    pub fn in_count(&self) -> (r: usize)
        ensures
            r == self@.in_links.len(),
    {
        self.in_links.len()
    }

    /// The number of output ports.
    pub fn out_count(&self) -> (r: usize)
        ensures
            r == self@.out_links.len(),
    {
        self.out_links.len()
    }

    /// The number of reactions, one per input port.
    pub fn callback_count(&self) -> (r: usize)
        ensures
            r == self@.callbacks.len(),
    {
        self.callback_refs.len()
    }

    /// Keeps `v` as the last value received on input port `i`.
    pub(crate) fn record(&mut self, i: usize, v: Atom)
        requires
            i < old(self)@.received.len(),
        ensures
            final(self)@ == old(self)@.received_at(i as int, v),
    {
        self.received.set(i, Some(v));
    }

    /// Publishes `v` on the link of output port `j` and hands back its
    /// subscribers, in order of subscription.
    pub(crate) fn publish(&mut self, j: usize, v: Atom) -> (sinks: Vec<InputParameter>)
        requires
            j < old(self)@.out_links.len(),
            kind_of(v) == old(self)@.out_links[j as int].typ,
        ensures
            final(self)@ == old(self)@.published_at(j as int, v),
            sinks@ == old(self)@.out_links[j as int].sinks,
    {
        let sinks = self.out_links[j].update(v);
        proof {
            assert(self@.out_links =~= old(self)@.published_at(j as int, v).out_links);
        }
        sinks
    }

    /// Subscribes `sink` to the link of output port `j`.
    pub(crate) fn subscribe(&mut self, j: usize, sink: InputParameter)
        requires
            j < old(self)@.out_links.len(),
        ensures
            final(self)@ == old(self)@.subscribed_at(j as int, sink),
    {
        self.out_links[j].add_sink(&sink);
        proof {
            assert(self@.out_links =~= old(self)@.subscribed_at(j as int, sink).out_links);
        }
    }

    /// Notes that input port `i` is fed from `from`.
    pub(crate) fn feed(&mut self, i: usize, from: OutputParameter)
        requires
            i < old(self)@.in_links.len(),
        ensures
            final(self)@ == old(self)@.fed_at(i as int, from),
    {
        self.in_links.set(i, Some(from));
    }
}

} // verus!
