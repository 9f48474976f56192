//! Values exchanged between nodes, and their kinds.
use vstd::prelude::*;

verus! {

/// The kind of a value: the tag that all type matching goes by.
#[derive(Clone, Copy, Debug, PartialEq, Eq, Hash, Structural)]
pub enum AtomKind {
    Entity,
    Usize,
}

/// A value carried over a link: one payload of one kind.
#[derive(Clone, Copy, Debug, PartialEq, Eq, Structural)]
pub enum Atom {
    Entity(u8),
    Usize(usize),
}

/// The kind of a value, read off its variant.
pub open spec fn kind_of(a: Atom) -> AtomKind {
    match a {
        Atom::Entity(_) => AtomKind::Entity,
        Atom::Usize(_) => AtomKind::Usize,
    }
}

impl Atom {
    /// The kind of this value.
    pub fn kind(&self) -> (k: AtomKind)
        ensures
            k == kind_of(*self),
    {
        match self {
            Atom::Entity(_) => AtomKind::Entity,
            Atom::Usize(_) => AtomKind::Usize,
        }
    }
}

} // verus!
