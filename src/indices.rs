//! Typed handles into the arenas of a decomposition.
//!
//! Every handle wraps a `usize`. The value `usize::MAX` is reserved: it is never a real arena
//! index, which lets [`OptionalCutNodeIndex`] encode absence without a separate tag.
use vstd::prelude::*;

verus! {

/// The reserved value that marks an absent index.
pub const NO_INDEX: usize = usize::MAX;

/// A handle convertible to and from a plain integer.
pub trait ArenaIndex: Copy + Sized {
    /// The plain integer that this handle stands for.
    spec fn index_value(&self) -> usize;

    fn index(&self) -> (r: usize)
        ensures
            r == self.index_value(),
    ;

    /// The handle that stands for integer `i`.
    spec fn spec_from_index(i: usize) -> Self;

    fn from_index(i: usize) -> (r: Self)
        ensures
            r == Self::spec_from_index(i),
            r.index_value() == i,
    ;

    /// A handle is the handle of its integer.
    proof fn lemma_from_index_value(a: Self)
        ensures
            Self::spec_from_index(a.index_value()) == a,
    ;
}

impl ArenaIndex for usize {
    open spec fn index_value(&self) -> usize {
        *self
    }

    open spec fn spec_from_index(i: usize) -> Self {
        i
    }

    fn index(&self) -> (r: usize) {
        *self
    }

    fn from_index(i: usize) -> (r: Self) {
        i
    }

    proof fn lemma_from_index_value(a: Self) {
    }
}

/// Index of a connected component.
#[derive(Clone, Copy, PartialEq, Eq, Structural, Hash, PartialOrd, Ord, Debug)]
pub struct ComponentIndex(pub usize);

/// Index of a block (biconnected component).
#[derive(Clone, Copy, PartialEq, Eq, Structural, Hash, PartialOrd, Ord, Debug)]
pub struct BlockIndex(pub usize);

/// Index of a cut node.
#[derive(Clone, Copy, PartialEq, Eq, Structural, Hash, PartialOrd, Ord, Debug)]
pub struct CutNodeIndex(pub usize);

/// Index of a node of an SPQR tree.
#[derive(Clone, Copy, PartialEq, Eq, Structural, Hash, PartialOrd, Ord, Debug)]
pub struct SPQRNodeIndex(pub usize);

/// Index of an edge of an SPQR tree.
#[derive(Clone, Copy, PartialEq, Eq, Structural, Hash, PartialOrd, Ord, Debug)]
pub struct SPQREdgeIndex(pub usize);

impl ArenaIndex for ComponentIndex {
    open spec fn index_value(&self) -> usize {
        self.0
    }

    open spec fn spec_from_index(i: usize) -> Self {
        ComponentIndex(i)
    }

    fn index(&self) -> (r: usize) {
        self.0
    }

    fn from_index(i: usize) -> (r: Self) {
        ComponentIndex(i)
    }

    proof fn lemma_from_index_value(a: Self) {
    }
}

impl ArenaIndex for BlockIndex {
    open spec fn index_value(&self) -> usize {
        self.0
    }

    open spec fn spec_from_index(i: usize) -> Self {
        BlockIndex(i)
    }

    fn index(&self) -> (r: usize) {
        self.0
    }

    fn from_index(i: usize) -> (r: Self) {
        BlockIndex(i)
    }

    proof fn lemma_from_index_value(a: Self) {
    }
}

impl ArenaIndex for CutNodeIndex {
    open spec fn index_value(&self) -> usize {
        self.0
    }

    open spec fn spec_from_index(i: usize) -> Self {
        CutNodeIndex(i)
    }

    fn index(&self) -> (r: usize) {
        self.0
    }

    fn from_index(i: usize) -> (r: Self) {
        CutNodeIndex(i)
    }

    proof fn lemma_from_index_value(a: Self) {
    }
}

impl ArenaIndex for SPQRNodeIndex {
    open spec fn index_value(&self) -> usize {
        self.0
    }

    open spec fn spec_from_index(i: usize) -> Self {
        SPQRNodeIndex(i)
    }

    fn index(&self) -> (r: usize) {
        self.0
    }

    fn from_index(i: usize) -> (r: Self) {
        SPQRNodeIndex(i)
    }

    proof fn lemma_from_index_value(a: Self) {
    }
}

impl ArenaIndex for SPQREdgeIndex {
    open spec fn index_value(&self) -> usize {
        self.0
    }

    open spec fn spec_from_index(i: usize) -> Self {
        SPQREdgeIndex(i)
    }

    fn index(&self) -> (r: usize) {
        self.0
    }

    fn from_index(i: usize) -> (r: Self) {
        SPQREdgeIndex(i)
    }

    proof fn lemma_from_index_value(a: Self) {
    }
}

/// A cut node index that may be absent; absence is the reserved value [`NO_INDEX`].
#[derive(Clone, Copy, PartialEq, Eq, Structural, Hash, PartialOrd, Ord, Debug)]
pub struct OptionalCutNodeIndex(pub usize);

impl ArenaIndex for OptionalCutNodeIndex {
    open spec fn index_value(&self) -> usize {
        self.0
    }

    open spec fn spec_from_index(i: usize) -> Self {
        OptionalCutNodeIndex(i)
    }

    fn index(&self) -> (r: usize) {
        self.0
    }

    fn from_index(i: usize) -> (r: Self) {
        OptionalCutNodeIndex(i)
    }

    proof fn lemma_from_index_value(a: Self) {
    }
}

impl OptionalCutNodeIndex {
    /// The index as an `Option`.
    pub open spec fn spec_to_option(self) -> Option<CutNodeIndex> {
        if self.0 == NO_INDEX {
            None
        } else {
            Some(CutNodeIndex(self.0))
        }
    }

    pub fn none() -> (r: Self)
        ensures
            r.spec_to_option() is None,
    {
        OptionalCutNodeIndex(NO_INDEX)
    }

    pub fn is_none(&self) -> (r: bool)
        ensures
            r == (self.spec_to_option() is None),
    {
        self.0 == NO_INDEX
    }

    pub fn is_some(&self) -> (r: bool)
        ensures
            r == (self.spec_to_option() is Some),
    {
        self.0 != NO_INDEX
    }

    /// Wraps a present index, which must not be the reserved value.
    pub fn from_option(value: Option<CutNodeIndex>) -> (r: Self)
        requires
            value matches Some(i) ==> i.0 != NO_INDEX,
        ensures
            r.spec_to_option() == value,
    {
        match value {
            Some(i) => OptionalCutNodeIndex(i.0),
            None => OptionalCutNodeIndex(NO_INDEX),
        }
    }

    pub fn to_option(&self) -> (r: Option<CutNodeIndex>)
        ensures
            r == self.spec_to_option(),
    {
        if self.0 == NO_INDEX {
            None
        } else {
            Some(CutNodeIndex(self.0))
        }
    }
}

} // verus!
