//! The mesh view: one optional index buffer and a set of vertex attribute
//! buffers, borrowed from whoever owns the bytes.

use vstd::prelude::*;
use crate::attributes::AttributeMap;
use crate::descriptor::{IndexFormat, VertexFormat, VertexUsage};

verus! {

/// A borrowed view of one logical mesh. The writer takes such views in and
/// the reader hands them out.
#[derive(Debug)]
pub struct MeshDataRef<'s> {
    pub indices: Option<(IndexFormat, &'s [u8])>,
    pub attributes: AttributeMap<(VertexFormat, &'s [u8])>,
}

/// Whether `len` bytes are exactly `count` elements of `size` bytes each.
pub open spec fn holds_exactly(len: nat, size: nat, count: nat) -> bool {
    len % size == 0 && len / size == count
}

/// Bytes that are exactly `count` elements of `size` bytes are `size * count`
/// bytes, and the other way round.
pub proof fn lemma_holds_exactly(len: nat, size: nat, count: nat)
    requires
        size > 0,
    ensures
        holds_exactly(len, size, count) <==> len == size * count,
{
    if holds_exactly(len, size, count) {
        vstd::arithmetic::div_mod::lemma_fundamental_div_mod(len as int, size as int);
    }
    if len == size * count {
        vstd::arithmetic::div_mod::lemma_fundamental_div_mod_converse(
            len as int,
            size as int,
            count as int,
            0,
        );
    }
}

impl<'s> MeshDataRef<'s> {
    /// The width of the view's indices, if it has an index buffer.
    pub open spec fn index_format(self) -> Option<IndexFormat> {
        match self.indices {
            Some(b) => Some(b.0),
            None => None,
        }
    }

    /// The bytes of the index buffer; none where the view has no indices.
    pub open spec fn index_bytes(self) -> Seq<u8> {
        match self.indices {
            Some(b) => b.1@,
            None => Seq::empty(),
        }
    }

    /// Usage and format of each attribute, in canonical order.
    pub open spec fn formats(self) -> Seq<(VertexUsage, VertexFormat)> {
        Seq::new(self.attributes@.len(), |a: int| (self.attributes@[a].0, self.attributes@[a].1.0))
    }

    /// The format of the attribute at place `a` of the canonical order.
    pub open spec fn attribute_format(self, a: int) -> VertexFormat {
        self.attributes@[a].1.0
    }

    /// The bytes of the attribute at place `a` of the canonical order.
    pub open spec fn attribute_bytes(self, a: int) -> Seq<u8> {
        self.attributes@[a].1.1@
    }

    /// The number of vertices: the element count of the first attribute
    /// buffer, and zero for a view without attributes.
    pub open spec fn spec_n_vertices(self) -> nat {
        if self.attributes@.len() == 0 {
            0
        } else {
            self.attribute_bytes(0).len() / self.attribute_format(0).spec_size()
        }
    }

    /// The number of indices, for a view that has an index buffer.
    pub open spec fn spec_n_indices(self) -> Option<nat> {
        match self.indices {
            Some(b) => Some(b.1@.len() / b.0.spec_size()),
            None => None,
        }
    }

    /// The number of indices, and zero for a view without an index buffer.
    pub open spec fn index_count(self) -> nat {
        match self.indices {
            Some(b) => b.1@.len() / b.0.spec_size(),
            None => 0,
        }
    }

    /// What a view must meet before it may be written: it has an attribute;
    /// each attribute buffer is a whole number of elements, the same number
    /// for all of them; the index buffer is a whole number of indices.
    pub open spec fn valid(self) -> bool {
        &&& self.attributes@.len() > 0
        &&& forall|a: int|
            0 <= a < self.attributes@.len() ==> holds_exactly(
                #[trigger] self.attribute_bytes(a).len(),
                self.attribute_format(a).spec_size(),
                self.spec_n_vertices(),
            )
        &&& match self.indices {
            Some(b) => b.1@.len() % b.0.spec_size() == 0,
            None => true,
        }
    }

    /// In a valid view every buffer is as long as its element size times
    /// its element count.
    pub proof fn lemma_valid_lengths(self)
        requires
            self.valid(),
        ensures
            forall|a: int|
                0 <= a < self.attributes@.len() ==> #[trigger] self.attribute_bytes(a).len()
                    == self.attribute_format(a).spec_size() * self.spec_n_vertices(),
            self.indices matches Some(b) ==> b.1@.len() == b.0.spec_size() * self.index_count(),
    {
        assert forall|a: int| 0 <= a < self.attributes@.len() implies #[trigger] self.attribute_bytes(
            a,
        ).len() == self.attribute_format(a).spec_size() * self.spec_n_vertices() by {
            self.attribute_format(a).lemma_size_bounds();
            lemma_holds_exactly(
                self.attribute_bytes(a).len(),
                self.attribute_format(a).spec_size(),
                self.spec_n_vertices(),
            );
        }
        if let Some(b) = self.indices {
            lemma_holds_exactly(b.1@.len(), b.0.spec_size(), self.index_count());
        }
    }

    pub fn n_vertices(&self) -> (r: usize)
        ensures
            r == self.spec_n_vertices(),
    {
        let entries = self.attributes.as_slice();
        if entries.len() == 0 {
            return 0;
        }
        let first = &entries[0];
        first.1.1.len() / first.1.0.size()
    }

    pub fn n_indices(&self) -> (r: Option<usize>)
        ensures
            match r {
                Some(n) => self.spec_n_indices() == Some(n as nat),
                None => self.spec_n_indices() is None,
            },
    {
        match self.indices {
            Some(b) => Some(b.1.len() / b.0.size()),
            None => None,
        }
    }

    /// Whether the view may be written.
    pub fn validate(&self) -> (r: bool)
        ensures
            r == self.valid(),
    {
        let entries = self.attributes.as_slice();
        if entries.len() == 0 {
            return false;
        }
        let n_vertices = self.n_vertices();
        if let Some(b) = self.indices {
            let n_indices = b.1.len() / b.0.size();
            if !validate_buf(n_indices, b.0.size(), b.1) {
                return false;
            }
        }
        let mut a: usize = 0;
        while a < entries.len()
            invariant
                0 <= a <= entries@.len(),
                entries@ == self.attributes@,
                n_vertices == self.spec_n_vertices(),
                forall|k: int|
                    0 <= k < a ==> holds_exactly(
                        #[trigger] self.attribute_bytes(k).len(),
                        self.attribute_format(k).spec_size(),
                        self.spec_n_vertices(),
                    ),
            decreases entries@.len() - a,
        {
            let b = &entries[a];
            if !validate_buf(n_vertices, b.1.0.size(), b.1.1) {
                assert(!holds_exactly(
                    self.attribute_bytes(a as int).len(),
                    self.attribute_format(a as int).spec_size(),
                    self.spec_n_vertices(),
                ));
                return false;
            }
            a += 1;
        }
        true
    }
}

impl<'s> Clone for MeshDataRef<'s> {
    fn clone(&self) -> (r: Self)
        ensures
            r.indices == self.indices,
            r.attributes@ == self.attributes@,
    {
        MeshDataRef { indices: self.indices, attributes: self.attributes.clone() }
    }
}

impl<'s> Default for MeshDataRef<'s> {
    /// A view without indices and without attributes.
    fn default() -> (r: Self)
        ensures
            r.indices is None,
            r.attributes@.len() == 0,
    {
        MeshDataRef { indices: None, attributes: AttributeMap::new() }
    }
}

/// Whether `buf` is exactly `n_vertices` elements of `fmt_size` bytes.
pub fn validate_buf(n_vertices: usize, fmt_size: usize, buf: &[u8]) -> (r: bool)
    requires
        fmt_size > 0,
    ensures
        r == holds_exactly(buf@.len(), fmt_size as nat, n_vertices as nat),
{
    buf.len() % fmt_size == 0 && buf.len() / fmt_size == n_vertices
}

} // verus!
