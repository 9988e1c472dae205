//! The aggregate side of the model: the bounding-box algebra and the buffer
//! that collects text units under it.

use vstd::prelude::*;
use vstd::string::StringExecFns;
use crate::text::Position;
use crate::text::TextNode;
use crate::text::concat_texts;
use crate::text::decoded_lines;
use crate::text::node_text;
use crate::text::spans_of;
use crate::text::strs_of;

verus! {

/// A virtual bounding box comprised of a position, denoting its origin, as
/// well as a width and height value used to calculate its span.
#[derive(Clone, Copy, Debug, PartialEq)]
pub struct Boundary {
    pub origin: Position,
    pub width: usize,
    pub height: usize,
}

/// The zero-origin, zero-sized box every buffer starts from.
pub open spec fn default_boundary() -> Boundary {
    Boundary { origin: Position { line: 0, column: 0 }, width: 0, height: 0 }
}

/// The union of two boundaries: the origin of the first operand, and the
/// componentwise maximum of the two extents. The asymmetry in the origin is
/// deliberate: the first operand's anchor point is authoritative.
pub open spec fn union_of(a: Boundary, b: Boundary) -> Boundary {
    Boundary {
        origin: a.origin,
        width: if a.width >= b.width {
            a.width
        } else {
            b.width
        },
        height: if a.height >= b.height {
            a.height
        } else {
            b.height
        },
    }
}

/// The intersection of two boundaries: the origin of the first operand, and
/// the componentwise minimum of the two extents.
pub open spec fn intersect_of(a: Boundary, b: Boundary) -> Boundary {
    Boundary {
        origin: a.origin,
        width: if a.width <= b.width {
            a.width
        } else {
            b.width
        },
        height: if a.height <= b.height {
            a.height
        } else {
            b.height
        },
    }
}

/// Whether a box of `a`'s size could hold a box of `b`'s size. Origins take
/// no part in this: it is a one-sided size comparison, not geometric
/// enclosure.
pub open spec fn covers(a: Boundary, b: Boundary) -> bool {
    b.width <= a.width && b.height <= a.height
}

impl Boundary {
    /// Compares `self` with the boundary passed in and returns a new
    /// boundary representing the intersection of the two, that being the
    /// smallest pair of extent values between the two, anchored at `self`'s
    /// origin.
    pub fn intersect(self, other: Self) -> (r: Self)
        ensures
            r == intersect_of(self, other),
    {
        Self {
            origin: self.origin,
            width: if self.width <= other.width {
                self.width
            } else {
                other.width
            },
            height: if self.height <= other.height {
                self.height
            } else {
                other.height
            },
        }
    }

    /// Compares `self` with the boundary passed in and returns a new
    /// boundary representing the union of the two, that being the largest
    /// pair of extent values between the two, anchored at `self`'s origin.
    pub fn union(self, other: Self) -> (r: Self)
        ensures
            r == union_of(self, other),
    {
        Self {
            origin: self.origin,
            width: if self.width >= other.width {
                self.width
            } else {
                other.width
            },
            height: if self.height >= other.height {
                self.height
            } else {
                other.height
            },
        }
    }

    /// Returns true if a box of this boundary's size completely covers a box
    /// of the opposing boundary's size; origins are not compared.
    pub fn contains(self, other: Self) -> (r: bool)
        ensures
            r == covers(self, other),
    {
        other.width <= self.width && other.height <= self.height
    }

    /// The start, or top-left, position where this boundary originates from.
    pub fn origin(&self) -> (r: &Position)
        ensures
            *r == self.origin,
    {
        &self.origin
    }
}

impl Default for Boundary {
    fn default() -> (r: Self)
        ensures
            r == default_boundary(),
    {
        Self { origin: Position { line: 0, column: 0 }, width: 0, height: 0 }
    }
}

/// Union and intersection are commutative in their extents and keep the
/// first operand's origin: swapping the operands changes neither width nor
/// height of the result, only which origin is kept.
pub proof fn lemma_extent_algebra_commutes(a: Boundary, b: Boundary)
    ensures
        union_of(a, b).width == union_of(b, a).width,
        union_of(a, b).height == union_of(b, a).height,
        union_of(a, b).origin == a.origin,
        intersect_of(a, b).width == intersect_of(b, a).width,
        intersect_of(a, b).height == intersect_of(b, a).height,
        intersect_of(a, b).origin == a.origin,
{
}

/// Folding two extents into the default boundary, the way two pushes into an
/// empty buffer do, yields exactly the union of the two extents, as long as
/// the first carries the default origin that the fold would otherwise
/// overwrite.
pub proof fn lemma_default_union_pair(d1: Boundary, d2: Boundary)
    requires
        d1.origin == (Position { line: 0, column: 0 }),
    ensures
        union_of(union_of(default_boundary(), d1), d2) == union_of(d1, d2),
{
}

/// Whether some node of the sequence carries the given identity value.
pub open spec fn has_node_id(nodes: Seq<TextNode>, id: usize) -> bool {
    exists|i: int| 0 <= i < nodes.len() && (#[trigger] nodes[i]).spec_id() == id
}

/// Where a node with the given identity value belongs in an
/// identity-ordered sequence: right after every node with a smaller
/// identity.
pub open spec fn insertion_index(nodes: Seq<TextNode>, id: usize) -> int
    decreases nodes.len(),
{
    if nodes.len() == 0 {
        0
    } else if nodes[0].spec_id() < id {
        1 + insertion_index(nodes.drop_first(), id)
    } else {
        0
    }
}

proof fn lemma_insertion_index_at(nodes: Seq<TextNode>, id: usize, i: int)
    requires
        0 <= i <= nodes.len(),
        forall|j: int| 0 <= j < i ==> (#[trigger] nodes[j]).spec_id() < id,
        i < nodes.len() ==> nodes[i].spec_id() >= id,
    ensures
        insertion_index(nodes, id) == i,
    decreases nodes.len(),
{
    if nodes.len() == 0 {
    } else if i == 0 {
    } else {
        assert(nodes[0].spec_id() < id);
        let rest = nodes.drop_first();
        assert forall|j: int| 0 <= j < i - 1 implies (#[trigger] rest[j]).spec_id() < id by {
            assert(rest[j] == nodes[j + 1]);
        }
        assert(i - 1 < rest.len() ==> rest[i - 1].spec_id() >= id);
        lemma_insertion_index_at(rest, id, i - 1);
    }
}

/// The concatenation of the decoded lines of the first `n` nodes, each
/// node's lines in range order, the nodes in identity order.
pub open spec fn buffer_text(nodes: Seq<TextNode>, n: int) -> Seq<char>
    decreases n,
{
    if n <= 0 {
        Seq::empty()
    } else {
        buffer_text(nodes, n - 1) + node_text(nodes[n - 1])
    }
}

/// A buffer holding one node renders to exactly that node's text: its
/// decoded lines concatenated in range order, nothing before or after.
pub proof fn lemma_single_node_render(node: TextNode)
    ensures
        buffer_text(seq![node], 1) =~= node_text(node),
{
    assert(buffer_text(seq![node], 0) =~= Seq::<char>::empty());
}

/// A heap-allocated buffer aggregating [`TextNode`] values: an ordered set
/// of nodes, unique and ordered by identity, under a running boundary that
/// covers every contained node's extent.
#[derive(Debug)]
pub struct TextBuffer {
    // The containing nodes for this buffer making up the entire text it has
    // governance over, kept sorted by identity with no identity repeated.
    nodes: Vec<TextNode>,
    // The virtual boundary this buffer takes up; there could be multiple
    // buffers pooled for a single document, each taking up a certain amount
    // of space depending on its nodes.
    boundary: Boundary,
}

impl TextBuffer {
    /// The nodes this buffer holds, in identity order.
    pub closed spec fn spec_nodes(self) -> Seq<TextNode> {
        self.nodes@
    }

    /// The running boundary of this buffer.
    pub closed spec fn spec_boundary(self) -> Boundary {
        self.boundary
    }

    /// What [`TextBuffer::new`] establishes and [`TextBuffer::push`] keeps:
    /// the nodes stand in strictly increasing identity order (so no identity
    /// repeats), each node is well formed, and the boundary stays anchored
    /// at the default position while covering every node's extent.
    pub open spec fn wf(self) -> bool {
        &&& forall|i: int, j: int|
            0 <= i < j < self.spec_nodes().len() ==> (#[trigger] self.spec_nodes()[i]).spec_id()
                < (#[trigger] self.spec_nodes()[j]).spec_id()
        &&& forall|i: int|
            0 <= i < self.spec_nodes().len() ==> (#[trigger] self.spec_nodes()[i]).wf()
        &&& self.spec_boundary().origin == (Position { line: 0, column: 0 })
        &&& forall|i: int|
            0 <= i < self.spec_nodes().len() ==> covers(
                self.spec_boundary(),
                (#[trigger] self.spec_nodes()[i]).spec_dimensions(),
            )
    }

    /// Constructs a new, empty buffer under the default boundary.
    pub fn new() -> (r: Self)
        ensures
            r.wf(),
            r.spec_nodes() =~= Seq::<TextNode>::empty(),
            r.spec_boundary() == default_boundary(),
    {
        Self { nodes: Vec::new(), boundary: Boundary::default() }
    }

    /// The virtual boundary this buffer takes up.
    pub fn boundary(&self) -> (r: Boundary)
        ensures
            r == self.spec_boundary(),
    {
        self.boundary
    }

    /// Pushes a node into this buffer: the boundary grows to the union of
    /// itself and the node's extent, and the node takes its place in
    /// identity order. An identity already present keeps its node, as set
    /// semantics ask — which cannot arise while identities come from one
    /// provider — though the boundary still takes the union either way.
    #[verifier::rlimit(50)]
    pub fn push(&mut self, node: TextNode)
        requires
            old(self).wf(),
            node.wf(),
        ensures
            final(self).wf(),
            final(self).spec_boundary() == union_of(
                old(self).spec_boundary(),
                node.spec_dimensions(),
            ),
            has_node_id(old(self).spec_nodes(), node.spec_id()) ==> final(self).spec_nodes()
                == old(self).spec_nodes(),
            !has_node_id(old(self).spec_nodes(), node.spec_id()) ==> final(self).spec_nodes()
                == old(self).spec_nodes().insert(
                insertion_index(old(self).spec_nodes(), node.spec_id()),
                node,
            ),
    {
        self.boundary = self.boundary.union(node.dimensions());
        let target = node.id.value();
        let ghost nodes0 = self.nodes@;
        let mut i: usize = 0;
        while i < self.nodes.len() && self.nodes[i].id.value() < target
            invariant
                i <= nodes0.len(),
                self.nodes@ == nodes0,
                target == node.spec_id(),
                forall|j: int| 0 <= j < i ==> (#[trigger] nodes0[j]).spec_id() < target,
            decreases nodes0.len() - i,
        {
            i = i + 1;
        }
        proof {
            assert(i < nodes0.len() ==> nodes0[i as int].spec_id() >= target);
        }
        if i < self.nodes.len() && self.nodes[i].id.value() == target {
            // Set semantics: the identity is already present, the stored
            // node stays.
            proof {
                assert(has_node_id(nodes0, target));
                assert forall|k: int|
                    0 <= k < self.spec_nodes().len() implies covers(
                    self.spec_boundary(),
                    (#[trigger] self.spec_nodes()[k]).spec_dimensions(),
                ) by {
                    assert(nodes0 == old(self).spec_nodes());
                    assert(covers(
                        old(self).spec_boundary(),
                        old(self).spec_nodes()[k].spec_dimensions(),
                    ));
                }
            }
        } else {
            proof {
                assert forall|j: int| 0 <= j < nodes0.len() implies (#[trigger] nodes0[j]).spec_id()
                    != target by {
                    if j < i {
                    } else if j == i {
                    } else if i < nodes0.len() {
                        assert(nodes0 == old(self).spec_nodes());
                        assert(old(self).spec_nodes()[i as int].spec_id() < old(
                            self,
                        ).spec_nodes()[j].spec_id());
                    }
                }
                assert(!has_node_id(nodes0, target));
                lemma_insertion_index_at(nodes0, target, i as int);
                nodes0.insert_ensures(i as int, node);
            }
            self.nodes.insert(i, node);
            proof {
                let s2 = self.nodes@;
                assert forall|a: int, b: int| 0 <= a < b < s2.len() implies (#[trigger] s2[a]).spec_id()
                    < (#[trigger] s2[b]).spec_id() by {
                    if b < i {
                    } else if a > i {
                        assert(s2[a] == nodes0[a - 1] && s2[b] == nodes0[b - 1]);
                    } else if a == i {
                        assert(s2[b] == nodes0[b - 1]);
                        assert(nodes0[b - 1].spec_id() >= target);
                        assert(nodes0[b - 1].spec_id() != target);
                    } else if b == i {
                        assert(s2[a] == nodes0[a]);
                    } else {
                        assert(s2[a] == nodes0[a]);
                        assert(s2[b] == nodes0[b - 1]);
                        assert(nodes0[b - 1].spec_id() >= target);
                        assert(nodes0[b - 1].spec_id() != target);
                    }
                }
                assert forall|k: int| 0 <= k < s2.len() implies (#[trigger] s2[k]).wf() && covers(
                    self.spec_boundary(),
                    s2[k].spec_dimensions(),
                ) by {
                    if k < i {
                        assert(s2[k] == nodes0[k]);
                        assert(covers(old(self).spec_boundary(), nodes0[k].spec_dimensions()));
                    } else if k == i {
                    } else {
                        assert(s2[k] == nodes0[k - 1]);
                        assert(covers(old(self).spec_boundary(), nodes0[k - 1].spec_dimensions()));
                    }
                }
            }
        }
    }

    /// Renders the buffer back to its linear textual form: every node's
    /// decoded lines in range order, the nodes in identity order — creation
    /// order, that is, not necessarily document reading order.
    #[verifier::loop_isolation(false)]
    pub fn render(&self) -> (r: String)
        requires
            self.wf(),
        ensures
            r@ == buffer_text(self.spec_nodes(), self.spec_nodes().len() as int),
    {
        let mut out = String::new();
        let mut i: usize = 0;
        while i < self.nodes.len()
            invariant
                i <= self.nodes@.len(),
                out@ == buffer_text(self.spec_nodes(), i as int),
            decreases self.nodes@.len() - i,
        {
            let node = &self.nodes[i];
            let lines = node.lines();
            let ghost decoded = decoded_lines(
                node.code_units(),
                spans_of(node.ranges()),
                node.ranges().len() as int,
            );
            let ghost before = out@;
            let mut j: usize = 0;
            while j < lines.len()
                invariant
                    j <= lines@.len(),
                    strs_of(lines@) == decoded,
                    out@ == before + concat_texts(decoded, j as int),
                decreases lines@.len() - j,
            {
                out.append(lines[j].as_str());
                proof {
                    assert(strs_of(lines@)[j as int] == lines@[j as int]@);
                    assert(out@ =~= before + concat_texts(decoded, j + 1));
                }
                j = j + 1;
            }
            proof {
                assert(concat_texts(decoded, decoded.len() as int) == node_text(
                    self.spec_nodes()[i as int],
                ));
                assert(out@ =~= buffer_text(self.spec_nodes(), i + 1));
            }
            i = i + 1;
        }
        out
    }
}

} // verus!
