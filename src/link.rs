//! Links: typed broadcast cells that remember the last value published.
use vstd::prelude::*;
use crate::atom::{Atom, AtomKind, kind_of};
use crate::vec_copy::copy_vec;

verus! {

/// A handle on one input port of one node. It names the node by its id in a
/// graph and does not keep it alive: once the node is gone the handle leads
/// nowhere.
#[derive(Clone, Copy, Debug, PartialEq, Eq, Structural)]
pub struct InputParameter {
    pub node: usize,
    pub idx: usize,
    pub typ: AtomKind,
}

/// A handle on one output port of one node, with the same weak reading as
/// [`InputParameter`].
#[derive(Clone, Copy, Debug, PartialEq, Eq, Structural)]
pub struct OutputParameter {
    pub node: usize,
    pub idx: usize,
    pub typ: AtomKind,
}

/// A broadcast cell for one output port: its kind, the last value published
/// and the input ports subscribed to it, in order of subscription.
pub struct Link {
    typ: AtomKind,
    latest_value: Option<Atom>,
    sinks: Vec<InputParameter>,
}

/// What a link holds, as plain values.
pub struct LinkView {
    pub typ: AtomKind,
    pub latest: Option<Atom>,
    pub sinks: Seq<InputParameter>,
}

impl LinkView {
    /// A link of kind `typ` with no value and no subscriber.
    pub open spec fn fresh(typ: AtomKind) -> LinkView {
        LinkView { typ, latest: None, sinks: Seq::empty() }
    }

    /// The link after `v` is published on it.
    pub open spec fn published(self, v: Atom) -> LinkView {
        LinkView { latest: Some(v), ..self }
    }

    /// The link after `sink` subscribes to it.
    pub open spec fn subscribed(self, sink: InputParameter) -> LinkView {
        LinkView { sinks: self.sinks.push(sink), ..self }
    }
}

impl View for Link {
    type V = LinkView;

    closed spec fn view(&self) -> LinkView {
        LinkView { typ: self.typ, latest: self.latest_value, sinks: self.sinks@ }
    }
}

impl Link {
    /// An empty link of kind `typ`.
    pub fn new(typ: AtomKind) -> (r: Link)
        ensures
            r@ == LinkView::fresh(typ),
    {
        Link { typ, latest_value: None, sinks: Vec::new() }
    }

    /// Records `next` as the latest value and hands back the subscribers to
    /// notify, in order of subscription.
    pub fn update(&mut self, next: Atom) -> (sinks: Vec<InputParameter>)
        requires
            kind_of(next) == old(self)@.typ,
        ensures
            final(self)@ == old(self)@.published(next),
            sinks@ == old(self)@.sinks,
    {
        self.latest_value = Some(next);
        copy_vec(&self.sinks)
    }

    /// The last value published, if any.
    pub fn get_latest(&self) -> (r: Option<Atom>)
        ensures
            r == self@.latest,
    {
        self.latest_value
    }

    /// Subscribes `sink`; it hears of the values published from now on.
    pub fn add_sink(&mut self, sink: &InputParameter)
        ensures
            final(self)@ == old(self)@.subscribed(*sink),
    {
        self.sinks.push(*sink);
    }

    /// The kind of the values this link carries.
    pub fn typ(&self) -> (r: AtomKind)
        ensures
            r == self@.typ,
    {
        self.typ
    }

    /// The subscribed input ports, in order of subscription.
    pub fn sinks(&self) -> (r: &Vec<InputParameter>)
        ensures
            r@ == self@.sinks,
    {
        &self.sinks
    }
}

/// A link forgets every value but the last one published, and holds none
/// before the first.
pub proof fn lemma_last_value_wins(typ: AtomKind, v1: Atom, v2: Atom)
    ensures
        LinkView::fresh(typ).latest is None,
        LinkView::fresh(typ).published(v1).published(v2).latest == Some(v2),
{
}

} // verus!
