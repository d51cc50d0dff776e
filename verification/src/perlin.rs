//! The integer backbone of Perlin noise: three shuffled permutation
//! tables over the byte values, and the lattice hash that combines them.
//!
//! The gradient vectors and the trilinear interpolation that turn a
//! lattice hash into a noise value are floating-point work and live with
//! the renderer around this library; what is proved here is that each
//! table really holds every byte value exactly once, so a lattice hash is
//! always a valid gradient index.

use vstd::prelude::*;
use vstd::seq_lib::group_to_multiset_ensures;

use crate::rng::rand_below;
use crate::util::swap_elems;

verus! {

/// The unshuffled table: byte `i` at slot `i`.
pub open spec fn ident_table() -> Seq<u8> {
    Seq::new(256, |i: int| i as u8)
}

/// A table that holds the same bytes as the unshuffled one, in some order:
/// every byte value exactly once.
pub open spec fn is_shuffled_ident(s: Seq<u8>) -> bool {
    s.len() == 256 && s.to_multiset() == ident_table().to_multiset()
}

/// A shuffled table is a true permutation: it holds every byte value
/// exactly once.
pub proof fn lemma_table_holds_each_byte_once(s: Seq<u8>)
    requires
        is_shuffled_ident(s),
    ensures
        forall|b: u8| #[trigger] s.to_multiset().count(b) == 1,
{
    broadcast use group_to_multiset_ensures;

    let ident = ident_table();
    assert(ident.no_duplicates());
    ident.lemma_multiset_has_no_duplicates();
    assert forall|b: u8| #[trigger] s.to_multiset().count(b) == 1 by {
        assert(ident[b as int] == b);
        assert(ident.contains(b));
        assert(ident.to_multiset().count(b) > 0);
    }
}

/// Three independently shuffled permutation tables, one per axis.
pub struct Perlin {
    perm_x: Vec<u8>,
    perm_y: Vec<u8>,
    perm_z: Vec<u8>,
}

/// Shuffles the table: walks the slots from the top down, exchanging
/// each with a uniformly drawn slot at or below it.
fn permute(p: &mut Vec<u8>, n: usize)
    requires
        n <= old(p)@.len(),
    ensures
        final(p)@.len() == old(p)@.len(),
        final(p)@.to_multiset() == old(p)@.to_multiset(),
{
    let mut i: usize = n;
    while i > 0
        invariant
            n <= p@.len(),
            i <= n,
            p@.len() == old(p)@.len(),
            p@.to_multiset() == old(p)@.to_multiset(),
        decreases i,
    {
        i = i - 1;
        let target = rand_below(i + 1);
        swap_elems(p, i, target);
    }
}

/// Builds one table: the identity filled in slot by slot, then shuffled.
fn generate_perm() -> (p: Vec<u8>)
    ensures
        is_shuffled_ident(p@),
{
    let mut p: Vec<u8> = Vec::new();
    let mut i: usize = 0;
    while i < 256
        invariant
            i <= 256,
            p@.len() == i,
            forall|k: int| 0 <= k < i ==> p@[k] == k as u8,
        decreases 256 - i,
    {
        p.push(i as u8);
        i = i + 1;
    }
    assert(p@ =~= ident_table());
    permute(&mut p, 256);
    p
}

impl Perlin {
    pub closed spec fn table_x(&self) -> Seq<u8> {
        self.perm_x@
    }

    pub closed spec fn table_y(&self) -> Seq<u8> {
        self.perm_y@
    }

    pub closed spec fn table_z(&self) -> Seq<u8> {
        self.perm_z@
    }

    pub open spec fn wf(&self) -> bool {
        is_shuffled_ident(self.table_x()) && is_shuffled_ident(self.table_y())
            && is_shuffled_ident(self.table_z())
    }

    pub fn new() -> (p: Perlin)
        ensures
            p.wf(),
    {
        Perlin { perm_x: generate_perm(), perm_y: generate_perm(), perm_z: generate_perm() }
    }

    /// The lattice hash: the table entries for the three coordinates,
    /// folded together with exclusive or. Always a valid index into a
    /// 256-entry gradient table.
    pub fn lattice(&self, x: u8, y: u8, z: u8) -> (r: u8)
        requires
            self.wf(),
        ensures
            r == self.table_x()[x as int] ^ self.table_y()[y as int] ^ self.table_z()[z as int],
    {
        self.perm_x[x as usize] ^ self.perm_y[y as usize] ^ self.perm_z[z as usize]
    }

    pub fn table_x_at(&self, i: u8) -> (r: u8)
        requires
            self.wf(),
        ensures
            r == self.table_x()[i as int],
    {
        self.perm_x[i as usize]
    }

    pub fn table_y_at(&self, i: u8) -> (r: u8)
        requires
            self.wf(),
        ensures
            r == self.table_y()[i as int],
    {
        self.perm_y[i as usize]
    }

    pub fn table_z_at(&self, i: u8) -> (r: u8)
        requires
            self.wf(),
        ensures
            r == self.table_z()[i as int],
    {
        self.perm_z[i as usize]
    }
}

} // verus!
