//! A node packed into one 32-bit word.
//!
//! From the lowest bit up: sixteen bits of child offset, eight bits that
//! mark which children exist, the leaf flag, the subdivide flag.

use vstd::prelude::*;

verus! {

/// The eight bits that mark the children.
pub const CHILD_BITS: u32 = 0x00ff_0000;

/// The leaf flag.
pub const LEAF_BIT: u32 = 0x0100_0000;

/// The subdivide flag.
pub const SUBDIV_BIT: u32 = 0x0200_0000;

/// `word` with the leaf and subdivide flags as given and every other bit
/// as it was.
pub open spec fn with_flags(word: u32, leaf: bool, subdiv: bool) -> u32 {
    (word & !(LEAF_BIT | SUBDIV_BIT)) | (if leaf { LEAF_BIT } else { 0u32 }) | (if subdiv {
        SUBDIV_BIT
    } else {
        0u32
    })
}

/// A node in one packed word.
pub trait Octant: Sized {
    /// The packed word.
    spec fn word(&self) -> u32;

    /// The node with the leaf and subdivide flags as given.
    fn set(&self, leaf: bool, subdiv: bool) -> (r: Self)
        ensures
            r.word() == with_flags(self.word(), leaf, subdiv),
    ;

    /// Whether any child is marked.
    fn has_children(&self) -> (r: bool)
        ensures
            r == (self.word() & CHILD_BITS != 0),
    ;

    fn is_subdiv(&self) -> (r: bool)
        ensures
            r == (self.word() & SUBDIV_BIT != 0),
    ;

    fn is_leaf(&self) -> (r: bool)
        ensures
            r == (self.word() & LEAF_BIT != 0),
    ;
}

impl Octant for u32 {
    open spec fn word(&self) -> u32 {
        *self
    }

    fn set(&self, leaf: bool, subdiv: bool) -> (r: Self) {
        let kept: u32 = *self & !(LEAF_BIT | SUBDIV_BIT);
        let leaf_bit: u32 = if leaf { LEAF_BIT } else { 0 };
        let subdiv_bit: u32 = if subdiv { SUBDIV_BIT } else { 0 };
        kept | leaf_bit | subdiv_bit
    }

    fn has_children(&self) -> (r: bool) {
        *self & CHILD_BITS != 0
    }

    fn is_subdiv(&self) -> (r: bool) {
        *self & SUBDIV_BIT != 0
    }

    fn is_leaf(&self) -> (r: bool) {
        *self & LEAF_BIT != 0
    }
}

/// The flags that `set` wrote are the flags that one reads back, and no
/// other bit moves.
pub proof fn lemma_flags_read_back(word: u32, leaf: bool, subdiv: bool)
    ensures
        (with_flags(word, leaf, subdiv) & LEAF_BIT != 0) == leaf,
        (with_flags(word, leaf, subdiv) & SUBDIV_BIT != 0) == subdiv,
        with_flags(word, leaf, subdiv) & !(LEAF_BIT | SUBDIV_BIT) == word & !(LEAF_BIT
            | SUBDIV_BIT),
        with_flags(word, leaf, subdiv) & CHILD_BITS == word & CHILD_BITS,
{
    let l: u32 = if leaf { 0x0100_0000u32 } else { 0u32 };
    let s: u32 = if subdiv { 0x0200_0000u32 } else { 0u32 };
    let packed: u32 = (word & !(0x0100_0000u32 | 0x0200_0000u32)) | l | s;
    assert(with_flags(word, leaf, subdiv) == packed);
    assert((packed & 0x0100_0000u32 != 0) == leaf && (packed & 0x0200_0000u32 != 0) == subdiv
        && packed & !(0x0100_0000u32 | 0x0200_0000u32) == word & !(0x0100_0000u32
        | 0x0200_0000u32) && packed & 0x00ff_0000u32 == word & 0x00ff_0000u32) by (bit_vector)
        requires
            packed == (word & !(0x0100_0000u32 | 0x0200_0000u32)) | l | s,
            l == (if leaf { 0x0100_0000u32 } else { 0u32 }),
            s == (if subdiv { 0x0200_0000u32 } else { 0u32 }),
    ;
}

} // verus!
