//! Tensors and the computation graph.
//!
//! A [`Graph`] owns a dense table of nodes; a [`Tensor`] is an index into
//! that table. Every node's parents have strictly smaller indices, so the
//! graph is acyclic by construction and index order is a topological
//! order. A node holds its value, an optional gradient, and — when it
//! takes part in differentiation — the record of the operation that
//! produced it together with the operands that operation captured.

use vstd::prelude::*;
use crate::rat::Rat;
use crate::kernel::zero_seq;
use crate::buffer::{Buffer, buf_wf, all_wf};
use crate::shape::{
    prod, bc_ok, bc_shape, squeeze_all, ravel, ravel_index, lemma_squeeze_all_prod,
    lemma_prod_remove_one, lemma_prod_insert_one, lemma_prod_concat,
};
use crate::TensorError;

verus! {

/// Specification-level record of the operation that produced a node:
/// everything its backward rule reads.
pub ghost enum OpV {
    /// Broadcasting addition of two operands.
    Add { a_shape: Seq<usize>, b_shape: Seq<usize>, a_req: bool, b_req: bool },
    /// Broadcasting elementwise multiplication; the operand values are
    /// captured because each one's gradient reads the other.
    Mul {
        a_shape: Seq<usize>,
        a_data: Seq<Rat>,
        b_shape: Seq<usize>,
        b_data: Seq<Rat>,
        a_req: bool,
        b_req: bool,
    },
    /// Matrix product of a stack of `rr` rows of length `kk` with a
    /// `kk` by `nn` matrix; both operand values are captured.
    MatMul {
        a_shape: Seq<usize>,
        a_data: Seq<Rat>,
        b_shape: Seq<usize>,
        b_data: Seq<Rat>,
        rr: usize,
        kk: usize,
        nn: usize,
        a_req: bool,
        b_req: bool,
    },
    /// Reduction of the whole operand to its arithmetic mean.
    Mean { in_shape: Seq<usize> },
    /// The elementwise rectifier; the operand values are captured for
    /// the sign test of the backward rule.
    Relu { in_shape: Seq<usize>, in_data: Seq<Rat> },
}

/// Specification-level state of one graph node.
pub ghost struct NodeV {
    /// Shape of the value.
    pub shape: Seq<usize>,
    /// The value, flat row-major.
    pub data: Seq<Rat>,
    /// The accumulated gradient, of the same shape as the value.
    pub grad: Option<Seq<Rat>>,
    /// Whether the node takes part in differentiation.
    pub requires_grad: bool,
    /// The operation that produced this node, if it is not a leaf.
    pub creator: Option<OpV>,
    /// Indices of the grad-requiring operands, in the order the
    /// creator's backward rule returns their gradients.
    pub parents: Seq<usize>,
}

/// Executable record of the operation that produced a node.
pub enum Operation {
    /// Broadcasting addition.
    Add { a_shape: Vec<usize>, b_shape: Vec<usize>, a_req: bool, b_req: bool },
    /// Broadcasting elementwise multiplication, with captured operands.
    Mul { a_data: Buffer, b_data: Buffer, a_req: bool, b_req: bool },
    /// Matrix product, with captured operands and dimensions.
    MatMul { a_data: Buffer, b_data: Buffer, rr: usize, kk: usize, nn: usize, a_req: bool, b_req: bool },
    /// Mean reduction.
    Mean { in_shape: Vec<usize> },
    /// Elementwise rectifier, with the captured operand.
    Relu { in_data: Buffer },
}

impl View for Operation {
    type V = OpV;

    open spec fn view(&self) -> OpV {
        match self {
            Operation::Add { a_shape, b_shape, a_req, b_req } => OpV::Add {
                a_shape: a_shape@,
                b_shape: b_shape@,
                a_req: *a_req,
                b_req: *b_req,
            },
            Operation::Mul { a_data, b_data, a_req, b_req } => OpV::Mul {
                a_shape: a_data.shape@,
                a_data: a_data.data@,
                b_shape: b_data.shape@,
                b_data: b_data.data@,
                a_req: *a_req,
                b_req: *b_req,
            },
            Operation::MatMul { a_data, b_data, rr, kk, nn, a_req, b_req } => OpV::MatMul {
                a_shape: a_data.shape@,
                a_data: a_data.data@,
                b_shape: b_data.shape@,
                b_data: b_data.data@,
                rr: *rr,
                kk: *kk,
                nn: *nn,
                a_req: *a_req,
                b_req: *b_req,
            },
            Operation::Mean { in_shape } => OpV::Mean { in_shape: in_shape@ },
            Operation::Relu { in_data } => OpV::Relu {
                in_shape: in_data.shape@,
                in_data: in_data.data@,
            },
        }
    }
}

/// One vertex of the computation graph.
pub struct TensorData {
    /// The value; immutable once the node is in a graph.
    pub data: Buffer,
    /// The accumulated gradient; `None` until a backward pass writes it.
    pub grad: Option<Buffer>,
    /// Whether the node takes part in differentiation.
    pub requires_grad: bool,
    /// The operation that produced this node; `None` for a leaf.
    pub creator: Option<Operation>,
    /// Indices of the grad-requiring operands.
    pub parents: Vec<usize>,
}

impl View for TensorData {
    type V = NodeV;

    open spec fn view(&self) -> NodeV {
        NodeV {
            shape: self.data.shape@,
            data: self.data.data@,
            grad: match self.grad {
                Option::Some(b) => Option::Some(b.data@),
                Option::None => Option::None,
            },
            requires_grad: self.requires_grad,
            creator: match self.creator {
                Option::Some(op) => Option::Some(op@),
                Option::None => Option::None,
            },
            parents: self.parents@,
        }
    }
}

/// The computation graph: a dense arena of nodes.
pub struct Graph {
    /// The nodes; edges are indices into this vector.
    pub nodes: Vec<TensorData>,
}

impl View for Graph {
    type V = Seq<NodeV>;

    open spec fn view(&self) -> Seq<NodeV> {
        self.nodes@.map_values(|n: TensorData| n@)
    }
}

/// A handle on one node of a [`Graph`].
#[derive(Clone, Copy, Debug, PartialEq, Eq, Structural)]
pub struct Tensor {
    /// The node's index in the graph that created the handle.
    pub id: usize,
}

/// The output shape of the matrix product: the left shape with its last
/// dimension replaced by the right operand's column count.
pub open spec fn mm_out_shape(a_shape: Seq<usize>, nn: usize) -> Seq<usize> {
    a_shape.update(a_shape.len() - 1, nn)
}

/// The output shape an operation record promises for its node.
pub open spec fn op_out_shape(op: OpV) -> Seq<usize> {
    match op {
        OpV::Add { a_shape, b_shape, .. } => bc_shape(a_shape, b_shape),
        OpV::Mul { a_shape, b_shape, .. } => bc_shape(a_shape, b_shape),
        OpV::MatMul { a_shape, nn, .. } => mm_out_shape(a_shape, nn),
        OpV::Mean { .. } => Seq::empty(),
        OpV::Relu { in_shape, .. } => in_shape,
    }
}

/// Internal soundness of one operation record, independent of any graph.
pub open spec fn op_self_wf(op: OpV) -> bool {
    match op {
        OpV::Add { a_shape, b_shape, a_req, b_req } => {
            &&& (a_req || b_req)
            &&& bc_ok(a_shape, b_shape)
        },
        OpV::Mul { a_shape, a_data, b_shape, b_data, a_req, b_req } => {
            &&& (a_req || b_req)
            &&& bc_ok(a_shape, b_shape)
            &&& a_data.len() == prod(a_shape)
            &&& all_wf(a_data)
            &&& b_data.len() == prod(b_shape)
            &&& all_wf(b_data)
        },
        OpV::MatMul { a_shape, a_data, b_shape, b_data, rr, kk, nn, a_req, b_req } => {
            &&& (a_req || b_req)
            &&& (a_shape.len() == 2 || a_shape.len() == 3)
            &&& b_shape.len() == 2
            &&& a_shape.last() == kk
            &&& b_shape[0] == kk
            &&& b_shape[1] == nn
            &&& rr as int == prod(a_shape.drop_last())
            &&& rr as int * kk as int == prod(a_shape)
            &&& a_data.len() == prod(a_shape)
            &&& all_wf(a_data)
            &&& b_data.len() == prod(b_shape)
            &&& kk as int * nn as int == prod(b_shape)
            &&& all_wf(b_data)
        },
        OpV::Mean { in_shape } => 1 <= prod(in_shape) <= i64::MAX,
        OpV::Relu { in_shape, in_data } => {
            &&& in_data.len() == prod(in_shape)
            &&& all_wf(in_data)
        },
    }
}

/// How many gradient-requiring operands an operation record links.
pub open spec fn op_arity(op: OpV) -> int {
    match op {
        OpV::Add { a_req, b_req, .. } => (if a_req { 1int } else { 0int }) + (if b_req { 1int } else { 0int }),
        OpV::Mul { a_req, b_req, .. } => (if a_req { 1int } else { 0int }) + (if b_req { 1int } else { 0int }),
        OpV::MatMul { a_req, b_req, .. } => (if a_req { 1int } else { 0int }) + (if b_req { 1int } else { 0int }),
        OpV::Mean { .. } => 1,
        OpV::Relu { .. } => 1,
    }
}

/// The operand shapes an operation record expects of its linked
/// parents, in linking order.
pub open spec fn op_parent_shapes(op: OpV) -> Seq<Seq<usize>> {
    match op {
        OpV::Add { a_shape, b_shape, a_req, b_req } => (if a_req {
            seq![a_shape]
        } else {
            Seq::empty()
        }) + (if b_req {
            seq![b_shape]
        } else {
            Seq::empty()
        }),
        OpV::Mul { a_shape, b_shape, a_req, b_req, .. } => (if a_req {
            seq![a_shape]
        } else {
            Seq::empty()
        }) + (if b_req {
            seq![b_shape]
        } else {
            Seq::empty()
        }),
        OpV::MatMul { a_shape, b_shape, a_req, b_req, .. } => (if a_req {
            seq![a_shape]
        } else {
            Seq::empty()
        }) + (if b_req {
            seq![b_shape]
        } else {
            Seq::empty()
        }),
        OpV::Mean { in_shape } => seq![in_shape],
        OpV::Relu { in_shape, .. } => seq![in_shape],
    }
}

/// Consistency of one creator record with its node and the graph.
pub open spec fn op_wf(g: Seq<NodeV>, i: int, op: OpV) -> bool {
    let n = g[i];
    &&& op_self_wf(op)
    &&& n.shape == op_out_shape(op)
    &&& n.parents.len() == op_arity(op)
    &&& forall|k: int|
        0 <= k < n.parents.len() ==> g[#[trigger] n.parents[k] as int].shape == op_parent_shapes(
            op,
        )[k]
}

/// Well-formedness of one node within the graph: sound storage, parents
/// strictly earlier, linkage only for differentiated nodes, and a
/// creator record that matches the node and its parents.
pub open spec fn node_wf(g: Seq<NodeV>, i: int) -> bool {
    let n = g[i];
    &&& n.data.len() == prod(n.shape)
    &&& all_wf(n.data)
    &&& (n.grad matches Some(gd) ==> gd.len() == n.data.len() && all_wf(gd))
    &&& (forall|k: int| 0 <= k < n.parents.len() ==> (#[trigger] n.parents[k]) < i)
    &&& (!n.requires_grad ==> n.creator is None)
    &&& (n.creator is None ==> n.parents.len() == 0)
    &&& (n.creator matches Some(op) ==> n.requires_grad && op_wf(g, i, op))
}

/// Well-formedness of the whole graph model.
pub open spec fn graph_wf(g: Seq<NodeV>) -> bool {
    forall|i: int| 0 <= i < g.len() ==> #[trigger] node_wf(g, i)
}

/// The executable invariant of a graph: the model is well formed and
/// every stored gradient buffer carries its node's shape.
pub open spec fn graph_inv(g: Graph) -> bool {
    &&& graph_wf(g@)
    &&& forall|i: int|
        0 <= i < g.nodes@.len() ==> match (#[trigger] g.nodes@[i]).grad {
            Option::Some(b) => b.shape@ == g.nodes@[i].data.shape@,
            Option::None => true,
        }
}

/// The model of a fresh leaf node holding `data`.
pub open spec fn leaf_node(shape: Seq<usize>, data: Seq<Rat>) -> NodeV {
    NodeV {
        shape: shape,
        data: data,
        grad: Option::None,
        requires_grad: false,
        creator: Option::None,
        parents: Seq::empty(),
    }
}

impl TensorData {
    /// A fresh leaf holding `data`: no gradient, no linkage.
    pub fn new(data: Buffer) -> (r: TensorData)
        ensures
            r@ == leaf_node(data.shape@, data.data@),
            r.data == data,
            r.grad is None,
    {
        let r = TensorData {
            data,
            grad: None,
            requires_grad: false,
            creator: None,
            parents: Vec::new(),
        };
        proof {
            assert(r@.parents =~= Seq::<usize>::empty());
            assert(r@ =~= leaf_node(r.data.shape@, r.data.data@));
        }
        r
    }

    /// Sets the differentiation flag, allocating a zero gradient buffer
    /// when it is turned on and none is present.
    pub fn requires_grad(self, requires_grad: bool) -> (r: TensorData)
        requires
            buf_wf(self.data),
        ensures
            r.data == self.data,
            r.creator == self.creator,
            r.parents == self.parents,
            r.requires_grad == requires_grad,
            r@.requires_grad == requires_grad,
            !(requires_grad && self.grad is None) ==> r.grad == self.grad,
            (requires_grad && self.grad is None) ==> (r.grad matches Some(b) && b.shape@
                == self.data.shape@ && b.data@ == crate::kernel::zero_seq(
                prod(self.data.shape@) as nat,
            )),
    {
        if requires_grad && self.grad.is_none() {
            let len = self.data.data.len();
            proof {
                assert(prod(self.data.shape@) == len <= usize::MAX);
            }
            let z = Buffer::zeros(self.data.duplicate().shape);
            proof {
                assert(z.data@ =~= crate::kernel::zero_seq(prod(self.data.shape@) as nat));
            }
            TensorData { requires_grad, grad: Some(z), ..self }
        } else {
            TensorData { requires_grad, ..self }
        }
    }

    /// Records the operation that produced this node.
    pub fn set_creator(&mut self, op: Operation)
        ensures
            final(self).creator matches Some(o) && o == op,
            final(self).data == old(self).data,
            final(self).grad == old(self).grad,
            final(self).requires_grad == old(self).requires_grad,
            final(self).parents == old(self).parents,
    {
        self.creator = Some(op);
    }

    /// Appends one operand to the parent list.
    pub fn add_parent(&mut self, parent: Tensor)
        ensures
            final(self).parents@ == old(self).parents@.push(parent.id),
            final(self).data == old(self).data,
            final(self).grad == old(self).grad,
            final(self).requires_grad == old(self).requires_grad,
            final(self).creator == old(self).creator,
    {
        self.parents.push(parent.id);
    }
}

impl Graph {
    /// An empty graph.
    pub fn new() -> (g: Graph)
        ensures
            g@ =~= Seq::<NodeV>::empty(),
            graph_inv(g),
    {
        Graph { nodes: Vec::new() }
    }

    /// How many nodes the graph holds.
    pub fn node_count(&self) -> (r: usize)
        ensures
            r == self@.len(),
    {
        self.nodes.len()
    }
}

/// A node standing alone is sound: storage consistent and, when it has
/// no creator, no linkage.
pub open spec fn node_self_wf(n: NodeV) -> bool {
    &&& n.data.len() == prod(n.shape)
    &&& all_wf(n.data)
    &&& (n.grad matches Some(gd) ==> gd.len() == n.data.len() && all_wf(gd))
    &&& (!n.requires_grad ==> n.creator is None)
    &&& (n.creator is None ==> n.parents.len() == 0)
}

/// Appending a node whose parents lie in the old graph and whose
/// creator record (if any) matches keeps the graph well formed.
pub proof fn lemma_push_wf(g: Seq<NodeV>, n: NodeV)
    requires
        graph_wf(g),
        node_self_wf(n),
        forall|k: int| 0 <= k < n.parents.len() ==> (#[trigger] n.parents[k]) < g.len(),
        n.creator matches Some(op) ==> n.requires_grad && op_wf(g.push(n), g.len() as int, op),
    ensures
        graph_wf(g.push(n)),
{
    let g2 = g.push(n);
    assert forall|i: int| 0 <= i < g2.len() implies node_wf(g2, i) by {
        if i < g.len() {
            assert(node_wf(g, i));
            assert(g2[i] == g[i]);
            assert(forall|k: int|
                0 <= k < g[i].parents.len() ==> g2[#[trigger] g[i].parents[k] as int] == g[g[i].parents[k] as int]);
        } else {
            assert(g2[i] == n);
        }
    }
}

/// Replacing a node by one with the same shape, linkage and creator
/// (and the same differentiation flag unless both are leaves) keeps the
/// graph well formed. This is how gradients are written.
pub proof fn lemma_update_wf(g: Seq<NodeV>, i: int, n2: NodeV)
    requires
        graph_wf(g),
        0 <= i < g.len(),
        n2.shape == g[i].shape,
        n2.parents == g[i].parents,
        n2.creator == g[i].creator,
        n2.requires_grad != g[i].requires_grad ==> n2.creator is None,
        n2.data.len() == prod(n2.shape),
        all_wf(n2.data),
        n2.grad matches Some(gd) ==> gd.len() == n2.data.len() && all_wf(gd),
        !n2.requires_grad ==> n2.creator is None,
    ensures
        graph_wf(g.update(i, n2)),
{
    let g2 = g.update(i, n2);
    assert forall|j: int| 0 <= j < g2.len() implies node_wf(g2, j) by {
        assert(node_wf(g, j));
        assert(forall|k: int|
            0 <= k < g2[j].parents.len() ==> g2[#[trigger] g2[j].parents[k] as int].shape == g[g2[j].parents[k] as int].shape);
        if j == i {
            assert(g2[j].data.len() == g[j].data.len());
            match g2[j].creator {
                Option::Some(op) => {
                    assert(op_wf(g, j, op));
                },
                Option::None => {},
            }
        } else {
            assert(g2[j] == g[j]);
        }
    }
}

impl Graph {
    /// Appends a fresh leaf node holding `data`.
    fn push_leaf(&mut self, data: Buffer) -> (t: Tensor)
        requires
            graph_inv(*old(self)),
            buf_wf(data),
        ensures
            t.id == old(self)@.len(),
            final(self)@ == old(self)@.push(leaf_node(data.shape@, data.data@)),
            graph_inv(*final(self)),
    {
        let ghost g0 = self@;
        let td = TensorData::new(data);
        proof {
            lemma_push_wf(g0, td@);
        }
        self.nodes.push(td);
        proof {
            assert(self@ =~= g0.push(td@));
        }
        Tensor { id: self.nodes.len() - 1 }
    }
}

impl Tensor {
    /// Wraps `data` in a fresh leaf node of the graph.
    pub fn new(g: &mut Graph, data: Buffer) -> (t: Tensor)
        requires
            graph_inv(*old(g)),
            buf_wf(data),
        ensures
            t.id == old(g)@.len(),
            final(g)@ == old(g)@.push(leaf_node(data.shape@, data.data@)),
            graph_inv(*final(g)),
    {
        g.push_leaf(data)
    }

    /// The node's shape, as a fresh vector.
    pub fn shape(&self, g: &Graph) -> (r: Vec<usize>)
        requires
            self.id < g@.len(),
        ensures
            r@ == g@[self.id as int].shape,
    {
        g.nodes[self.id].data.duplicate().shape
    }

    /// The node's rank.
    pub fn dim(&self, g: &Graph) -> (r: usize)
        requires
            self.id < g@.len(),
        ensures
            r == g@[self.id as int].shape.len(),
    {
        g.nodes[self.id].data.rank()
    }

    /// The size of one dimension, or `None` past the rank.
    pub fn size(&self, g: &Graph, dim: usize) -> (r: Option<usize>)
        requires
            self.id < g@.len(),
        ensures
            dim < g@[self.id as int].shape.len() ==> r == Some(g@[self.id as int].shape[dim as int]),
            dim >= g@[self.id as int].shape.len() ==> r is None,
    {
        if dim < g.nodes[self.id].data.rank() {
            Some(g.nodes[self.id].data.shape[dim])
        } else {
            None
        }
    }

    /// The number of elements: always the product of the dimensions.
    pub fn numel(&self, g: &Graph) -> (r: usize)
        requires
            self.id < g@.len(),
        ensures
            r == g@[self.id as int].data.len(),
            graph_inv(*g) ==> r == prod(g@[self.id as int].shape),
    {
        proof {
            if graph_inv(*g) {
                assert(node_wf(g@, self.id as int));
            }
        }
        g.nodes[self.id].data.numel()
    }

    /// A copy of the node's value.
    pub fn data(&self, g: &Graph) -> (r: Buffer)
        requires
            self.id < g@.len(),
        ensures
            r.shape@ == g@[self.id as int].shape,
            r.data@ == g@[self.id as int].data,
    {
        g.nodes[self.id].data.duplicate()
    }

    /// A copy of the node's gradient, or `None` before any backward pass.
    pub fn grad(&self, g: &Graph) -> (r: Option<Buffer>)
        requires
            graph_inv(*g),
            self.id < g@.len(),
        ensures
            r is Some <==> g@[self.id as int].grad is Some,
            r matches Some(b) ==> {
                &&& Some(b.data@) == g@[self.id as int].grad
                &&& b.shape@ == g@[self.id as int].shape
            },
    {
        match &g.nodes[self.id].grad {
            Some(b) => Some(b.duplicate()),
            None => None,
        }
    }

    /// Whether the node takes part in differentiation.
    pub fn requires_grad(&self, g: &Graph) -> (r: bool)
        requires
            self.id < g@.len(),
        ensures
            r == g@[self.id as int].requires_grad,
    {
        g.nodes[self.id].requires_grad
    }

    /// Whether the node is a leaf: it has no creator operation.
    pub fn is_leaf(&self, g: &Graph) -> (r: bool)
        requires
            self.id < g@.len(),
        ensures
            r == (g@[self.id as int].creator is None),
    {
        g.nodes[self.id].creator.is_none()
    }

    /// Turns differentiation on or off for this node, allocating a zero
    /// gradient buffer when turned on for the first time. Turning it off
    /// is meaningful for leaves only, as only they may stand outside the
    /// differentiated graph.
    pub fn require_grad(self, g: &mut Graph, flag: bool) -> (t: Tensor)
        requires
            graph_inv(*old(g)),
            self.id < old(g)@.len(),
            !flag ==> old(g)@[self.id as int].creator is None,
        ensures
            t == self,
            graph_inv(*final(g)),
            final(g)@ == old(g)@.update(
                self.id as int,
                NodeV {
                    requires_grad: flag,
                    grad: if flag && old(g)@[self.id as int].grad is None {
                        Some(zero_seq(old(g)@[self.id as int].data.len()))
                    } else {
                        old(g)@[self.id as int].grad
                    },
                    ..old(g)@[self.id as int]
                },
            ),
    {
        let ghost g0 = g@;
        let node = &mut g.nodes[self.id];
        proof {
            assert(node_wf(g0, self.id as int));
        }
        node.requires_grad = flag;
        if flag && node.grad.is_none() {
            let len = node.data.data.len();
            proof {
                assert(prod(node.data.shape@) == len <= usize::MAX);
            }
            let z = Buffer::zeros(node.data.duplicate().shape);
            proof {
                assert(z.data@ =~= zero_seq(prod(node.data.shape@) as nat));
            }
            node.grad = Some(z);
        }
        proof {
            let n2 = g.nodes@[self.id as int]@;
            assert(g@ =~= g0.update(self.id as int, n2));
            lemma_update_wf(g0, self.id as int, n2);
        }
        self
    }

    /// Drops the accumulated gradient, as an optimizer does between
    /// training steps.
    pub fn clear_grad(&self, g: &mut Graph)
        requires
            graph_inv(*old(g)),
            self.id < old(g)@.len(),
        ensures
            graph_inv(*final(g)),
            final(g)@ == old(g)@.update(
                self.id as int,
                NodeV { grad: None, ..old(g)@[self.id as int] },
            ),
    {
        let ghost g0 = g@;
        let node = &mut g.nodes[self.id];
        proof {
            assert(node_wf(g0, self.id as int));
        }
        node.grad = None;
        proof {
            let n2 = g.nodes@[self.id as int]@;
            assert(g@ =~= g0.update(self.id as int, n2));
            lemma_update_wf(g0, self.id as int, n2);
        }
    }

    /// Replaces the node's value by one of the same shape: the in-place
    /// parameter update an external optimizer performs.
    pub fn set_data(&self, g: &mut Graph, data: Buffer) -> (r: Result<(), TensorError>)
        requires
            graph_inv(*old(g)),
            self.id < old(g)@.len(),
            buf_wf(data),
        ensures
            r is Ok <==> data.shape@ == old(g)@[self.id as int].shape,
            r matches Err(e) ==> e == TensorError::ShapeError && final(g)@ == old(g)@,
            r is Ok ==> graph_inv(*final(g)) && final(g)@ == old(g)@.update(
                self.id as int,
                NodeV { data: data.data@, ..old(g)@[self.id as int] },
            ),
    {
        let ghost g0 = g@;
        if !g.nodes[self.id].data.shape_eq(&data) {
            return Err(TensorError::ShapeError);
        }
        let node = &mut g.nodes[self.id];
        proof {
            assert(node_wf(g0, self.id as int));
        }
        node.data = data;
        proof {
            let n2 = g.nodes@[self.id as int]@;
            assert(g@ =~= g0.update(self.id as int, n2));
            lemma_update_wf(g0, self.id as int, n2);
        }
        Ok(())
    }

    /// A fresh leaf filled with zeros.
    pub fn zeros(g: &mut Graph, shape: Vec<usize>) -> (t: Tensor)
        requires
            graph_inv(*old(g)),
            prod(shape@) <= usize::MAX,
        ensures
            t.id == old(g)@.len(),
            final(g)@ == old(g)@.push(leaf_node(shape@, zero_seq(prod(shape@) as nat))),
            graph_inv(*final(g)),
    {
        let b = Buffer::zeros(shape);
        proof {
            assert(b.data@ =~= zero_seq(prod(b.shape@) as nat));
        }
        g.push_leaf(b)
    }

    /// A fresh leaf filled with ones.
    pub fn ones(g: &mut Graph, shape: Vec<usize>) -> (t: Tensor)
        requires
            graph_inv(*old(g)),
            prod(shape@) <= usize::MAX,
        ensures
            t.id == old(g)@.len(),
            final(g)@ == old(g)@.push(leaf_node(shape@, ones_seq(prod(shape@) as nat))),
            graph_inv(*final(g)),
    {
        let b = Buffer::ones(shape);
        proof {
            assert(b.data@ =~= ones_seq(prod(b.shape@) as nat));
        }
        g.push_leaf(b)
    }

    /// A fresh leaf of randomly drawn small rationals.
    pub fn randn(g: &mut Graph, shape: Vec<usize>) -> (t: Tensor)
        requires
            graph_inv(*old(g)),
            prod(shape@) <= usize::MAX,
        ensures
            t.id == old(g)@.len(),
            final(g)@ == old(g)@.push(leaf_node(shape@, final(g)@[old(g)@.len() as int].data)),
            final(g)@[old(g)@.len() as int].data.len() == prod(shape@),
            graph_inv(*final(g)),
    {
        let n = match crate::shape::checked_prod(&shape) {
            Some(n) => n,
            None => 0,  // unreachable under the precondition
        };
        let mut data: Vec<Rat> = Vec::new();
        let mut i: usize = 0;
        while i < n
            invariant
                0 <= i <= n,
                data@.len() == i,
                all_wf(data@),
            decreases n - i,
        {
            let v = random_byte();
            data.push(Rat { num: (v as i64) - 128, den: 256 });
            i = i + 1;
        }
        g.push_leaf(Buffer { shape, data })
    }

    /// A fresh random leaf with this node's shape.
    pub fn rand_like(&self, g: &mut Graph) -> (t: Tensor)
        requires
            graph_inv(*old(g)),
            self.id < old(g)@.len(),
        ensures
            t.id == old(g)@.len(),
            final(g)@ == old(g)@.push(leaf_node(old(g)@[self.id as int].shape, final(g)@[old(g)@.len() as int].data)),
            graph_inv(*final(g)),
    {
        let len = g.nodes[self.id].data.data.len();
        proof {
            assert(node_wf(g@, self.id as int));
            assert(prod(g@[self.id as int].shape) == len <= usize::MAX);
        }
        let shape = self.shape(g);
        Tensor::randn(g, shape)
    }

    /// A fresh zero leaf with this node's shape.
    pub fn zeros_like(&self, g: &mut Graph) -> (t: Tensor)
        requires
            graph_inv(*old(g)),
            self.id < old(g)@.len(),
        ensures
            t.id == old(g)@.len(),
            final(g)@ == old(g)@.push(
                leaf_node(
                    old(g)@[self.id as int].shape,
                    zero_seq(prod(old(g)@[self.id as int].shape) as nat),
                ),
            ),
            graph_inv(*final(g)),
    {
        let len = g.nodes[self.id].data.data.len();
        proof {
            assert(node_wf(g@, self.id as int));
            assert(prod(g@[self.id as int].shape) == len <= usize::MAX);
        }
        let shape = self.shape(g);
        Tensor::zeros(g, shape)
    }

    /// A fresh all-ones leaf with this node's shape.
    pub fn ones_like(&self, g: &mut Graph) -> (t: Tensor)
        requires
            graph_inv(*old(g)),
            self.id < old(g)@.len(),
        ensures
            t.id == old(g)@.len(),
            final(g)@ == old(g)@.push(
                leaf_node(
                    old(g)@[self.id as int].shape,
                    ones_seq(prod(old(g)@[self.id as int].shape) as nat),
                ),
            ),
            graph_inv(*final(g)),
    {
        let len = g.nodes[self.id].data.data.len();
        proof {
            assert(node_wf(g@, self.id as int));
            assert(prod(g@[self.id as int].shape) == len <= usize::MAX);
        }
        let shape = self.shape(g);
        Tensor::ones(g, shape)
    }

    /// A fresh leaf sharing this node's value but none of its graph
    /// linkage: no creator, no parents, no gradient, no differentiation.
    pub fn detach(&self, g: &mut Graph) -> (t: Tensor)
        requires
            graph_inv(*old(g)),
            self.id < old(g)@.len(),
        ensures
            t.id == old(g)@.len(),
            final(g)@ == old(g)@.push(
                leaf_node(old(g)@[self.id as int].shape, old(g)@[self.id as int].data),
            ),
            graph_inv(*final(g)),
    {
        proof {
            assert(node_wf(g@, self.id as int));
        }
        let b = g.nodes[self.id].data.duplicate();
        g.push_leaf(b)
    }

    /// A fresh leaf with the same elements rearranged into `shape`;
    /// fails unless the element counts agree.
    pub fn view(&self, g: &mut Graph, shape: Vec<usize>) -> (r: Result<Tensor, TensorError>)
        requires
            graph_inv(*old(g)),
            self.id < old(g)@.len(),
        ensures
            r is Ok <==> prod(shape@) == old(g)@[self.id as int].data.len(),
            r matches Err(e) ==> e == TensorError::ShapeError && final(g)@ == old(g)@,
            r matches Ok(t) ==> {
                &&& t.id == old(g)@.len()
                &&& final(g)@ == old(g)@.push(leaf_node(shape@, old(g)@[self.id as int].data))
                &&& graph_inv(*final(g))
            },
    {
        proof {
            assert(node_wf(g@, self.id as int));
        }
        let data = g.nodes[self.id].data.duplicate().data;
        match Buffer::from_rats(shape, data) {
            Ok(b) => Ok(g.push_leaf(b)),
            Err(e) => Err(e),
        }
    }

    /// Same as [`Tensor::view`].
    pub fn reshape(&self, g: &mut Graph, shape: Vec<usize>) -> (r: Result<Tensor, TensorError>)
        requires
            graph_inv(*old(g)),
            self.id < old(g)@.len(),
        ensures
            r is Ok <==> prod(shape@) == old(g)@[self.id as int].data.len(),
            r matches Err(e) ==> e == TensorError::ShapeError && final(g)@ == old(g)@,
            r matches Ok(t) ==> {
                &&& t.id == old(g)@.len()
                &&& final(g)@ == old(g)@.push(leaf_node(shape@, old(g)@[self.id as int].data))
                &&& graph_inv(*final(g))
            },
    {
        self.view(g, shape)
    }

    /// For a rank-0 node, a fresh leaf holding its single element;
    /// fails on any other rank.
    pub fn item(&self, g: &mut Graph) -> (r: Result<Tensor, TensorError>)
        requires
            graph_inv(*old(g)),
            self.id < old(g)@.len(),
        ensures
            r is Ok <==> old(g)@[self.id as int].shape.len() == 0,
            r matches Err(e) ==> e == TensorError::ShapeError && final(g)@ == old(g)@,
            r matches Ok(t) ==> {
                &&& t.id == old(g)@.len()
                &&& final(g)@ == old(g)@.push(
                    leaf_node(old(g)@[self.id as int].shape, old(g)@[self.id as int].data),
                )
                &&& graph_inv(*final(g))
            },
    {
        proof {
            assert(node_wf(g@, self.id as int));
        }
        if g.nodes[self.id].data.rank() != 0 {
            return Err(TensorError::ShapeError);
        }
        let b = g.nodes[self.id].data.duplicate();
        Ok(g.push_leaf(b))
    }
}

/// The values of the stacked nodes, laid out one after another.
pub open spec fn cat_all(g: Seq<NodeV>, ts: Seq<Tensor>) -> Seq<Rat>
    decreases ts.len(),
{
    if ts.len() == 0 {
        Seq::empty()
    } else {
        cat_all(g, ts.drop_last()) + g[ts.last().id as int].data
    }
}

impl Tensor {
    /// A fresh leaf with the same elements and either one given size-1
    /// dimension or every size-1 dimension removed.
    pub fn squeeze(&self, g: &mut Graph, dim: Option<usize>) -> (r: Result<Tensor, TensorError>)
        requires
            graph_inv(*old(g)),
            self.id < old(g)@.len(),
        ensures
            r is Ok <==> match dim {
                Some(d) => d < old(g)@[self.id as int].shape.len() && old(
                    g,
                )@[self.id as int].shape[d as int] == 1,
                None => true,
            },
            r matches Err(e) ==> e == TensorError::ShapeError && final(g)@ == old(g)@,
            r matches Ok(t) ==> {
                &&& t.id == old(g)@.len()
                &&& final(g)@ == old(g)@.push(
                    leaf_node(
                        match dim {
                            Some(d) => old(g)@[self.id as int].shape.remove(d as int),
                            None => squeeze_all(old(g)@[self.id as int].shape),
                        },
                        old(g)@[self.id as int].data,
                    ),
                )
                &&& graph_inv(*final(g))
            },
    {
        proof {
            assert(node_wf(g@, self.id as int));
        }
        let ghost s = g@[self.id as int].shape;
        let rank = g.nodes[self.id].data.rank();
        let mut shape: Vec<usize> = Vec::new();
        match dim {
            Some(d) => {
                if d >= rank {
                    return Err(TensorError::ShapeError);
                }
                if g.nodes[self.id].data.shape[d] != 1 {
                    return Err(TensorError::ShapeError);
                }
                let mut j: usize = 0;
                while j < rank
                    invariant
                        self.id < g@.len(),
                        s == g@[self.id as int].shape,
                        rank == s.len(),
                        d < rank,
                        0 <= j <= rank,
                        shape@.len() == (if j <= d {
                            j as int
                        } else {
                            j - 1
                        }),
                        forall|k: int|
                            0 <= k < shape@.len() ==> shape@[k] == (if k < d {
                                s[k]
                            } else {
                                s[k + 1]
                            }),
                    decreases rank - j,
                {
                    if j != d {
                        shape.push(g.nodes[self.id].data.shape[j]);
                    }
                    j = j + 1;
                }
                proof {
                    assert(shape@ =~= s.remove(d as int));
                    lemma_prod_remove_one(s, d as int);
                }
            },
            None => {
                let mut j: usize = 0;
                while j < rank
                    invariant
                        self.id < g@.len(),
                        s == g@[self.id as int].shape,
                        rank == s.len(),
                        0 <= j <= rank,
                        shape@ == squeeze_all(s.take(j as int)),
                    decreases rank - j,
                {
                    proof {
                        assert(s.take(j + 1).drop_last() =~= s.take(j as int));
                        assert(s.take(j + 1).last() == s[j as int]);
                    }
                    if g.nodes[self.id].data.shape[j] != 1 {
                        shape.push(g.nodes[self.id].data.shape[j]);
                    }
                    j = j + 1;
                }
                proof {
                    assert(s.take(rank as int) =~= s);
                    lemma_squeeze_all_prod(s);
                }
            },
        }
        let data = g.nodes[self.id].data.duplicate().data;
        Ok(g.push_leaf(Buffer { shape, data }))
    }

    /// A fresh leaf with the same elements and a size-1 dimension
    /// inserted at `dim`; fails past the rank.
    pub fn unsqueeze(&self, g: &mut Graph, dim: usize) -> (r: Result<Tensor, TensorError>)
        requires
            graph_inv(*old(g)),
            self.id < old(g)@.len(),
        ensures
            r is Ok <==> dim <= old(g)@[self.id as int].shape.len(),
            r matches Err(e) ==> e == TensorError::ShapeError && final(g)@ == old(g)@,
            r matches Ok(t) ==> {
                &&& t.id == old(g)@.len()
                &&& final(g)@ == old(g)@.push(
                    leaf_node(
                        old(g)@[self.id as int].shape.insert(dim as int, 1usize),
                        old(g)@[self.id as int].data,
                    ),
                )
                &&& graph_inv(*final(g))
            },
    {
        proof {
            assert(node_wf(g@, self.id as int));
        }
        let ghost s = g@[self.id as int].shape;
        let rank = g.nodes[self.id].data.rank();
        if dim > rank {
            return Err(TensorError::ShapeError);
        }
        let mut shape: Vec<usize> = Vec::new();
        let mut j: usize = 0;
        while j < dim
            invariant
                self.id < g@.len(),
                s == g@[self.id as int].shape,
                rank == s.len(),
                dim <= rank,
                0 <= j <= dim,
                shape@.len() == j,
                forall|k: int| 0 <= k < j ==> shape@[k] == s[k],
            decreases dim - j,
        {
            shape.push(g.nodes[self.id].data.shape[j]);
            j = j + 1;
        }
        shape.push(1);
        while j < rank
            invariant
                self.id < g@.len(),
                s == g@[self.id as int].shape,
                rank == s.len(),
                dim <= j <= rank || (j == dim && shape@.len() == dim + 1),
                dim <= j <= rank,
                shape@.len() == j + 1,
                forall|k: int| 0 <= k < dim ==> shape@[k] == s[k],
                shape@[dim as int] == 1usize,
                forall|k: int| dim < k < j + 1 ==> shape@[k] == s[k - 1],
            decreases rank - j,
        {
            shape.push(g.nodes[self.id].data.shape[j]);
            j = j + 1;
        }
        proof {
            assert(shape@ =~= s.insert(dim as int, 1usize));
            lemma_prod_insert_one(s, dim as int);
        }
        let data = g.nodes[self.id].data.duplicate().data;
        Ok(g.push_leaf(Buffer { shape, data }))
    }

    /// A fresh leaf stacking equally shaped nodes along a new leading
    /// dimension; fails on an empty list or differing shapes.
    pub fn stack(g: &mut Graph, tensors: &Vec<Tensor>) -> (r: Result<Tensor, TensorError>)
        requires
            graph_inv(*old(g)),
            forall|k: int| 0 <= k < tensors@.len() ==> (#[trigger] tensors@[k]).id < old(g)@.len(),
        ensures
            r is Ok <==> tensors@.len() > 0 && (forall|k: int|
                0 <= k < tensors@.len() ==> old(g)@[(#[trigger] tensors@[k]).id as int].shape == old(
                    g,
                )@[tensors@[0].id as int].shape),
            r matches Err(e) ==> e == TensorError::ShapeError && final(g)@ == old(g)@,
            r matches Ok(t) ==> {
                &&& t.id == old(g)@.len()
                &&& final(g)@ == old(g)@.push(
                    leaf_node(
                        seq![tensors@.len() as usize] + old(g)@[tensors@[0].id as int].shape,
                        cat_all(old(g)@, tensors@),
                    ),
                )
                &&& graph_inv(*final(g))
            },
    {
        let n = tensors.len();
        if n == 0 {
            return Err(TensorError::ShapeError);
        }
        let ghost g0 = g@;
        let first = tensors[0];
        proof {
            assert(node_wf(g@, first.id as int));
        }
        let mut k: usize = 1;
        while k < n
            invariant
                graph_inv(*g),
                g@ == g0,
                n == tensors@.len(),
                forall|i: int| 0 <= i < n ==> (#[trigger] tensors@[i]).id < g@.len(),
                first == tensors@[0],
                1 <= k <= n,
                forall|i: int|
                    0 <= i < k ==> g@[(#[trigger] tensors@[i]).id as int].shape == g@[first.id as int].shape,
            decreases n - k,
        {
            if !g.nodes[tensors[k].id].data.shape_eq(&g.nodes[first.id].data) {
                return Err(TensorError::ShapeError);
            }
            k = k + 1;
        }
        let mut data: Vec<Rat> = Vec::new();
        let mut k2: usize = 0;
        while k2 < n
            invariant
                graph_inv(*g),
                g@ == g0,
                n == tensors@.len(),
                forall|i: int| 0 <= i < n ==> (#[trigger] tensors@[i]).id < g@.len(),
                first == tensors@[0],
                forall|i: int|
                    0 <= i < n ==> g@[(#[trigger] tensors@[i]).id as int].shape == g@[first.id as int].shape,
                0 <= k2 <= n,
                data@ == cat_all(g@, tensors@.take(k2 as int)),
                data@.len() == k2 * prod(g@[first.id as int].shape),
                all_wf(data@),
            decreases n - k2,
        {
            let ghost pre = data@;
            let t = tensors[k2];
            proof {
                assert(node_wf(g@, t.id as int));
            }
            let nd = g.nodes[t.id].data.data.len();
            let mut m: usize = 0;
            while m < nd
                invariant
                    graph_inv(*g),
                    g@ == g0,
                    t.id < g@.len(),
                    nd == g@[t.id as int].data.len(),
                    all_wf(g@[t.id as int].data),
                    0 <= m <= nd,
                    data@ == pre + g@[t.id as int].data.take(m as int),
                    all_wf(pre),
                decreases nd - m,
            {
                proof {
                    assert((pre + g@[t.id as int].data.take(m as int)).push(
                        g@[t.id as int].data[m as int],
                    ) =~= pre + g@[t.id as int].data.take(m + 1));
                }
                data.push(g.nodes[t.id].data.data[m]);
                m = m + 1;
            }
            proof {
                assert(g@[t.id as int].data.take(nd as int) =~= g@[t.id as int].data);
                assert(tensors@.take(k2 + 1).drop_last() =~= tensors@.take(k2 as int));
                assert(tensors@.take(k2 + 1).last() == tensors@[k2 as int]);
                assert(data@ == cat_all(g@, tensors@.take(k2 + 1)));
                assert((k2 + 1) * prod(g@[first.id as int].shape) == k2 * prod(
                    g@[first.id as int].shape,
                ) + prod(g@[first.id as int].shape)) by (nonlinear_arith);
            }
            k2 = k2 + 1;
        }
        proof {
            assert(tensors@.take(n as int) =~= tensors@);
        }
        let mut shape: Vec<usize> = Vec::new();
        shape.push(n);
        let mut j: usize = 0;
        let rank = g.nodes[first.id].data.rank();
        while j < rank
            invariant
                graph_inv(*g),
                g@ == g0,
                first.id < g@.len(),
                rank == g@[first.id as int].shape.len(),
                0 <= j <= rank,
                shape@.len() == j + 1,
                shape@[0] == n,
                forall|k3: int| 0 <= k3 < j ==> shape@[k3 + 1] == g@[first.id as int].shape[k3],
            decreases rank - j,
        {
            shape.push(g.nodes[first.id].data.shape[j]);
            j = j + 1;
        }
        proof {
            let s0 = g@[first.id as int].shape;
            assert(shape@ =~= seq![n as usize] + s0);
            lemma_prod_concat(seq![n as usize], s0);
            assert(seq![n as usize].drop_last() =~= Seq::<usize>::empty());
            assert(seq![n as usize].last() == n as usize);
            assert(prod(Seq::<usize>::empty()) == 1);
            assert(prod(seq![n as usize]) == prod(Seq::<usize>::empty()) * (n as usize));
            assert(prod(seq![n as usize]) == n as int);
            assert(prod(shape@) == prod(seq![n as usize] + s0));
            assert(prod(shape@) == n as int * prod(s0));
            assert(n as int * prod(s0) == n * prod(s0)) by (nonlinear_arith);
        }
        Ok(g.push_leaf(Buffer { shape, data }))
    }

    /// A fresh rank-0 leaf holding the element at the full coordinate
    /// `index`; fails unless the coordinate names every dimension and
    /// stays in bounds.
    pub fn index(&self, g: &mut Graph, index: &Vec<usize>) -> (r: Result<Tensor, TensorError>)
        requires
            graph_inv(*old(g)),
            self.id < old(g)@.len(),
        ensures
            r is Ok <==> index@.len() == old(g)@[self.id as int].shape.len() && (forall|j: int|
                0 <= j < index@.len() ==> index@[j] < old(g)@[self.id as int].shape[j]),
            r matches Err(e) ==> e == TensorError::ShapeError && final(g)@ == old(g)@,
            r matches Ok(t) ==> {
                &&& t.id == old(g)@.len()
                &&& final(g)@ == old(g)@.push(
                    leaf_node(
                        Seq::empty(),
                        seq![
                            old(g)@[self.id as int].data[ravel(
                                old(g)@[self.id as int].shape,
                                index@,
                            )],
                        ],
                    ),
                )
                &&& graph_inv(*final(g))
            },
    {
        proof {
            assert(node_wf(g@, self.id as int));
        }
        let ghost s = g@[self.id as int].shape;
        let rank = g.nodes[self.id].data.rank();
        if index.len() != rank {
            return Err(TensorError::ShapeError);
        }
        let mut j: usize = 0;
        while j < rank
            invariant
                self.id < g@.len(),
                s == g@[self.id as int].shape,
                rank == s.len() == index@.len(),
                0 <= j <= rank,
                forall|k: int| 0 <= k < j ==> index@[k] < s[k],
            decreases rank - j,
        {
            if index[j] >= g.nodes[self.id].data.shape[j] {
                return Err(TensorError::ShapeError);
            }
            j = j + 1;
        }
        let len = g.nodes[self.id].data.data.len();
        proof {
            assert(prod(s) == len <= usize::MAX);
        }
        let flat = ravel_index(&g.nodes[self.id].data.shape, index);
        let elem = g.nodes[self.id].data.data[flat];
        let mut data: Vec<Rat> = Vec::new();
        data.push(elem);
        proof {
            assert(data@ =~= seq![g@[self.id as int].data[ravel(s, index@)]]);
            assert(prod(Seq::<usize>::empty()) == 1);
        }
        Ok(g.push_leaf(Buffer { shape: Vec::new(), data }))
    }
}

/// A sequence of ones.
pub open spec fn ones_seq(n: nat) -> Seq<Rat> {
    Seq::new(n, |i: int| crate::rat::rat_one())
}

/// Relies on rand::random: one uniformly drawn byte; nothing is assumed
/// about its value beyond its type's range.
#[verifier::external_body]
fn random_byte() -> (r: u8) {
    rand::random::<u8>()
}

} // verus!
