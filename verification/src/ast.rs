//! The syntax tree, stored flat.
//!
//! Nodes lie in pre-order in one array. A node holds the number of array slots
//! of its descendants instead of pointers to its children, so the node behind
//! its subtree is found by adding. A tree is built with [`Ast::start_node`]
//! and [`Ast::end_node`], which open and close scopes like brackets.
use crate::token::Token;
use vstd::prelude::*;
use vstd::string::*;

verus! {

/// The shapes a node can have.
#[derive(Debug, Copy, Clone, PartialEq, Eq, Structural)]
pub enum NodeType {
    Binary,
    Literal,
}

/// One slot of the tree array.
///
/// `num_sub_nodes` counts the slots that the node's descendants occupy; they
/// follow the node directly, so its subtree ends at [`subtree_end`].
#[derive(Debug)]
pub struct Node<'a> {
    pub node_type: NodeType,
    pub token: &'a Token,
    pub num_sub_nodes: u32,
}

/// The handle of an open scope: the node that [`Ast::start_node`] appended and
/// the length of the array right after. [`Ast::end_node`] consumes it.
pub struct NodeCtx {
    node_id: usize,
    num_nodes: usize,
}

impl NodeCtx {
    #[verifier::type_invariant]
    spec fn consistent(self) -> bool {
        self.num_nodes == self.node_id + 1
    }

    /// The index of the node this scope belongs to.
    pub closed spec fn node_index(self) -> usize {
        self.node_id
    }
}

/// A syntax tree under construction or complete: the nodes in pre-order and
/// the stack of scopes that are still open, outermost first.
#[derive(Debug)]
pub struct Ast<'a> {
    nodes: Vec<Node<'a>>,
    open: Vec<usize>,
}

/// What an [`Ast`] stands for.
pub struct AstView<'a> {
    pub nodes: Seq<Node<'a>>,
    pub open: Seq<usize>,
}

/// The index just past the subtree of node `i`.
pub open spec fn subtree_end(nodes: Seq<Node>, i: int) -> int {
    i + 1 + nodes[i].num_sub_nodes
}

/// Node `i` has been closed: its descendant count is final.
pub open spec fn is_closed(open: Seq<usize>, i: int) -> bool {
    forall|k: int| 0 <= k < open.len() ==> open[k] != i
}

/// Node `j` is closed and its subtree ends inside that of node `i`.
pub open spec fn holds_whole(nodes: Seq<Node>, open: Seq<usize>, i: int, j: int) -> bool {
    is_closed(open, j) && subtree_end(nodes, j) <= subtree_end(nodes, i)
}

/// The invariant of the builder.
///
/// Open scopes lie on a stack of strictly increasing indices and still hold
/// the placeholder count. The subtree of a closed node lies inside the array,
/// holds closed nodes only, and holds the whole subtree of each of them.
pub open spec fn well_formed(nodes: Seq<Node>, open: Seq<usize>) -> bool {
    &&& nodes.len() <= u32::MAX
    &&& forall|k: int| 0 <= k < open.len() ==> (#[trigger] open[k]) < nodes.len()
    &&& forall|k: int, l: int| 0 <= k < l < open.len() ==> open[k] < open[l]
    &&& forall|k: int| 0 <= k < open.len() ==> nodes[#[trigger] open[k] as int].num_sub_nodes == 0
    &&& forall|i: int|
        0 <= i < nodes.len() && #[trigger] is_closed(open, i) ==> subtree_end(nodes, i)
            <= nodes.len()
    &&& forall|i: int, j: int|
        0 <= i < j < nodes.len() && is_closed(open, i) && j < subtree_end(nodes, i)
            ==> #[trigger] holds_whole(nodes, open, i, j)
}

/// Node `i` is the root of an expression: a literal without descendants, or a
/// binary node whose subtree is exactly its left operand's subtree followed by
/// its right operand's, each of them an expression.
pub open spec fn well_shaped(nodes: Seq<Node>, i: int) -> bool
    decreases nodes.len() - i,
{
    &&& 0 <= i < nodes.len()
    &&& subtree_end(nodes, i) <= nodes.len()
    &&& match nodes[i].node_type {
        NodeType::Literal => nodes[i].num_sub_nodes == 0,
        NodeType::Binary => {
            let lhs = i + 1;
            let rhs = subtree_end(nodes, lhs);
            &&& lhs < subtree_end(nodes, i)
            &&& well_shaped(nodes, lhs)
            &&& rhs < subtree_end(nodes, i)
            &&& well_shaped(nodes, rhs)
            &&& subtree_end(nodes, rhs) == subtree_end(nodes, i)
        },
    }
}

/// The text of the expression rooted at node `i`.
///
/// A literal is written `literal(T)`, with `T` the long form of its token. A
/// binary node is written `binary(K, L, R)`: the name of its token's kind,
/// then its left operand, which is the next node, then its right operand,
/// which is the node just past the left operand's subtree.
pub open spec fn dump_text(nodes: Seq<Node>, i: int) -> Seq<char>
    decreases nodes.len() - i,
{
    if i < 0 || i >= nodes.len() {
        Seq::empty()
    } else {
        match nodes[i].node_type {
            NodeType::Literal => "literal("@ + nodes[i].token.long_text() + ")"@,
            NodeType::Binary => {
                let lhs = i + 1;
                let rhs = subtree_end(nodes, lhs);
                "binary("@ + nodes[i].token.kind.label() + ", "@ + dump_text(nodes, lhs) + ", "@
                    + (if rhs < nodes.len() {
                    dump_text(nodes, rhs)
                } else {
                    Seq::empty()
                }) + ")"@
            },
        }
    }
}

/// A piece of the text of an expression, with the node it belongs to.
pub enum DumpPiece {
    /// A literal, whole: `literal(T)`.
    Leaf(int),
    /// The head of a binary node: `binary(K, `.
    Head(int),
    /// What stands between the operands of a binary node: `, `.
    Comma(int),
    /// The end of a binary node: `)`.
    Close(int),
}

/// The text of one piece.
pub open spec fn piece_text(nodes: Seq<Node>, piece: DumpPiece) -> Seq<char> {
    match piece {
        DumpPiece::Leaf(i) => "literal("@ + nodes[i].token.long_text() + ")"@,
        DumpPiece::Head(i) => "binary("@ + nodes[i].token.kind.label() + ", "@,
        DumpPiece::Comma(_) => ", "@,
        DumpPiece::Close(_) => ")"@,
    }
}

/// The pieces of the text of the expression rooted at node `i`, from left to
/// right.
pub open spec fn dump_pieces(nodes: Seq<Node>, i: int) -> Seq<DumpPiece>
    decreases nodes.len() - i,
{
    if i < 0 || i >= nodes.len() {
        Seq::empty()
    } else {
        match nodes[i].node_type {
            NodeType::Literal => seq![DumpPiece::Leaf(i)],
            NodeType::Binary => {
                let lhs = i + 1;
                let rhs = subtree_end(nodes, lhs);
                seq![DumpPiece::Head(i)] + dump_pieces(nodes, lhs) + seq![DumpPiece::Comma(i)] + (
                if rhs < nodes.len() {
                    dump_pieces(nodes, rhs)
                } else {
                    Seq::empty()
                }) + seq![DumpPiece::Close(i)]
            },
        }
    }
}

/// The texts of `pieces`, one after the other.
pub open spec fn pieces_text(nodes: Seq<Node>, pieces: Seq<DumpPiece>) -> Seq<char>
    decreases pieces.len(),
{
    if pieces.len() == 0 {
        Seq::empty()
    } else {
        pieces_text(nodes, pieces.drop_last()) + piece_text(nodes, pieces.last())
    }
}

/// The nodes whose rendering starts in `pieces`, in the order of the pieces: a
/// literal starts with its only piece, a binary node with its head.
pub open spec fn started_nodes(pieces: Seq<DumpPiece>) -> Seq<int>
    decreases pieces.len(),
{
    if pieces.len() == 0 {
        Seq::empty()
    } else {
        let before = started_nodes(pieces.drop_last());
        match pieces.last() {
            DumpPiece::Leaf(i) => before.push(i),
            DumpPiece::Head(i) => before.push(i),
            DumpPiece::Comma(_) => before,
            DumpPiece::Close(_) => before,
        }
    }
}

/// The text of two runs of pieces is the text of the first and then that of
/// the second.
proof fn lemma_pieces_text_add(nodes: Seq<Node>, a: Seq<DumpPiece>, b: Seq<DumpPiece>)
    ensures
        pieces_text(nodes, a + b) == pieces_text(nodes, a) + pieces_text(nodes, b),
    decreases b.len(),
{
    if b.len() == 0 {
        assert(a + b =~= a);
    } else {
        assert((a + b).drop_last() =~= a + b.drop_last());
        lemma_pieces_text_add(nodes, a, b.drop_last());
    }
}

/// The nodes started in two runs of pieces are those of the first and then
/// those of the second.
proof fn lemma_started_nodes_add(a: Seq<DumpPiece>, b: Seq<DumpPiece>)
    ensures
        started_nodes(a + b) == started_nodes(a) + started_nodes(b),
    decreases b.len(),
{
    if b.len() == 0 {
        assert(a + b =~= a);
    } else {
        assert((a + b).drop_last() =~= a + b.drop_last());
        lemma_started_nodes_add(a, b.drop_last());
    }
}

/// The text and the started node of a single piece.
proof fn lemma_single_piece(nodes: Seq<Node>, piece: DumpPiece)
    ensures
        pieces_text(nodes, seq![piece]) == piece_text(nodes, piece),
        started_nodes(seq![piece]) == match piece {
            DumpPiece::Leaf(i) => seq![i],
            DumpPiece::Head(i) => seq![i],
            DumpPiece::Comma(_) => Seq::<int>::empty(),
            DumpPiece::Close(_) => Seq::<int>::empty(),
        },
{
    let one = seq![piece];
    assert(one.drop_last() =~= Seq::<DumpPiece>::empty());
    assert(one.last() == piece);
    assert(pieces_text(nodes, one.drop_last()) =~= Seq::<char>::empty());
    assert(started_nodes(one.drop_last()) =~= Seq::<int>::empty());
}

/// The text of an expression is the text of its pieces.
pub proof fn lemma_dump_text_is_its_pieces(nodes: Seq<Node>, i: int)
    ensures
        dump_text(nodes, i) == pieces_text(nodes, dump_pieces(nodes, i)),
    decreases nodes.len() - i,
{
    if 0 <= i < nodes.len() {
        match nodes[i].node_type {
            NodeType::Literal => {
                lemma_single_piece(nodes, DumpPiece::Leaf(i));
            },
            NodeType::Binary => {
                let lhs = i + 1;
                let rhs = subtree_end(nodes, lhs);
                let head = seq![DumpPiece::Head(i)];
                let left = dump_pieces(nodes, lhs);
                let comma = seq![DumpPiece::Comma(i)];
                let right = if rhs < nodes.len() {
                    dump_pieces(nodes, rhs)
                } else {
                    Seq::empty()
                };
                let close = seq![DumpPiece::Close(i)];
                lemma_dump_text_is_its_pieces(nodes, lhs);
                if rhs < nodes.len() {
                    lemma_dump_text_is_its_pieces(nodes, rhs);
                }
                lemma_single_piece(nodes, DumpPiece::Head(i));
                lemma_single_piece(nodes, DumpPiece::Comma(i));
                lemma_single_piece(nodes, DumpPiece::Close(i));
                lemma_pieces_text_add(nodes, head, left);
                lemma_pieces_text_add(nodes, head + left, comma);
                lemma_pieces_text_add(nodes, head + left + comma, right);
                lemma_pieces_text_add(nodes, head + left + comma + right, close);
            },
        }
    }
}

/// Dump order: the text of a well-shaped expression starts the rendering of
/// every node of its subtree exactly once, and in index order. So operands
/// keep the order and the nesting in which they were built.
pub proof fn lemma_dump_renders_each_node_once(nodes: Seq<Node>, i: int)
    requires
        well_shaped(nodes, i),
    ensures
        dump_text(nodes, i) == pieces_text(nodes, dump_pieces(nodes, i)),
        started_nodes(dump_pieces(nodes, i)) == Seq::new(
            (nodes[i].num_sub_nodes + 1) as nat,
            |k: int| i + k,
        ),
    decreases nodes.len() - i,
{
    lemma_dump_text_is_its_pieces(nodes, i);
    let wanted = Seq::new((nodes[i].num_sub_nodes + 1) as nat, |k: int| i + k);
    match nodes[i].node_type {
        NodeType::Literal => {
            lemma_single_piece(nodes, DumpPiece::Leaf(i));
            assert(started_nodes(dump_pieces(nodes, i)) =~= wanted);
        },
        NodeType::Binary => {
            let lhs = i + 1;
            let rhs = subtree_end(nodes, lhs);
            let head = seq![DumpPiece::Head(i)];
            let left = dump_pieces(nodes, lhs);
            let comma = seq![DumpPiece::Comma(i)];
            let right = dump_pieces(nodes, rhs);
            let close = seq![DumpPiece::Close(i)];
            lemma_dump_renders_each_node_once(nodes, lhs);
            lemma_dump_renders_each_node_once(nodes, rhs);
            lemma_single_piece(nodes, DumpPiece::Head(i));
            lemma_single_piece(nodes, DumpPiece::Comma(i));
            lemma_single_piece(nodes, DumpPiece::Close(i));
            lemma_started_nodes_add(head, left);
            lemma_started_nodes_add(head + left, comma);
            lemma_started_nodes_add(head + left + comma, right);
            lemma_started_nodes_add(head + left + comma + right, close);
            assert(started_nodes(dump_pieces(nodes, i)) =~= wanted);
        },
    }
}

/// The innermost node at index `from` or below whose subtree holds index `i`.
pub open spec fn enclosing(nodes: Seq<Node>, i: int, from: int) -> Option<int>
    decreases from + 1,
{
    if from < 0 {
        None
    } else if i < subtree_end(nodes, from) {
        Some(from)
    } else {
        enclosing(nodes, i, from - 1)
    }
}

/// The parent of node `i`: the innermost node in front of it whose subtree
/// holds it. A top-level node has none.
pub open spec fn parent(nodes: Seq<Node>, i: int) -> Option<int> {
    enclosing(nodes, i, i - 1)
}

/// The index at which the children of the parent of node `i` end: the end of
/// the parent's subtree, or of the array for a top-level node.
pub open spec fn siblings_end(nodes: Seq<Node>, i: int) -> int {
    match parent(nodes, i) {
        Some(p) => subtree_end(nodes, p),
        None => nodes.len() as int,
    }
}

/// Node `k` is the right sibling of node `i`: the first node behind `i` that
/// has the same parent.
pub open spec fn is_right_sibling(nodes: Seq<Node>, i: int, k: int) -> bool {
    &&& 0 <= i < k < nodes.len()
    &&& parent(nodes, k) == parent(nodes, i)
    &&& forall|j: int| i < j < k ==> #[trigger] parent(nodes, j) != parent(nodes, i)
}

/// What [`enclosing`] finds: the greatest index up to `from` whose subtree
/// holds `i`.
proof fn lemma_enclosing(nodes: Seq<Node>, i: int, from: int)
    requires
        -1 <= from,
    ensures
        match enclosing(nodes, i, from) {
            Some(q) => 0 <= q <= from && i < subtree_end(nodes, q) && forall|r: int|
                q < r <= from ==> i >= #[trigger] subtree_end(nodes, r),
            None => forall|r: int| 0 <= r <= from ==> i >= #[trigger] subtree_end(nodes, r),
        },
    decreases from + 1,
{
    if from >= 0 && i >= subtree_end(nodes, from) {
        lemma_enclosing(nodes, i, from - 1);
    }
}

/// A node inside the subtree of node `i` has its parent there too.
proof fn lemma_parent_of_descendant(nodes: Seq<Node>, i: int, j: int)
    requires
        0 <= i < j < subtree_end(nodes, i),
    ensures
        parent(nodes, j) matches Some(q) && i <= q < j,
{
    lemma_enclosing(nodes, j, j - 1);
}

/// Subtree size: in a complete tree the subtree of a node ends where its
/// right sibling starts, or, for a last child, where the children of its
/// parent end, which for a top-level node is the end of the array.
pub proof fn lemma_subtree_ends_at_sibling(nodes: Seq<Node>, open: Seq<usize>, i: int)
    requires
        well_formed(nodes, open),
        open.len() == 0,
        0 <= i < nodes.len(),
    ensures
        i < subtree_end(nodes, i) <= siblings_end(nodes, i) <= nodes.len(),
        subtree_end(nodes, i) < siblings_end(nodes, i) ==> is_right_sibling(
            nodes,
            i,
            subtree_end(nodes, i),
        ),
        subtree_end(nodes, i) == siblings_end(nodes, i) ==> forall|k: int|
            !is_right_sibling(nodes, i, k),
{
    let end = subtree_end(nodes, i);
    assert(is_closed(open, i));
    lemma_enclosing(nodes, i, i - 1);
    match parent(nodes, i) {
        Some(p) => {
            assert(is_closed(open, p));
            assert(holds_whole(nodes, open, p, i));
        },
        None => {},
    }
    if end < siblings_end(nodes, i) {
        lemma_enclosing(nodes, end, end - 1);
        match parent(nodes, end) {
            Some(q) => {
                if i < q {
                    assert(holds_whole(nodes, open, i, q));
                }
            },
            None => {},
        }
        assert(parent(nodes, end) == parent(nodes, i));
        assert forall|j: int| i < j < end implies #[trigger] parent(nodes, j) != parent(
            nodes,
            i,
        ) by {
            lemma_parent_of_descendant(nodes, i, j);
        }
    } else {
        assert forall|k: int| !is_right_sibling(nodes, i, k) by {
            if is_right_sibling(nodes, i, k) {
                if k < end {
                    lemma_parent_of_descendant(nodes, i, k);
                } else {
                    lemma_enclosing(nodes, k, k - 1);
                }
            }
        }
    }
}

/// Pushing `x` opens `x` and nothing else.
proof fn lemma_closed_after_push(open: Seq<usize>, x: usize, i: int)
    ensures
        is_closed(open.push(x), i) <==> is_closed(open, i) && x != i,
{
    let grown = open.push(x);
    if is_closed(grown, i) {
        assert(grown[open.len() as int] == x);
        assert forall|k: int| 0 <= k < open.len() implies open[k] != i by {
            assert(grown[k] == open[k]);
        }
    }
}

/// Popping the top of a stack without repeats closes the top and nothing
/// else.
proof fn lemma_closed_after_pop(open: Seq<usize>, i: int)
    requires
        open.len() > 0,
        forall|k: int, l: int| 0 <= k < l < open.len() ==> open[k] < open[l],
    ensures
        is_closed(open.drop_last(), i) <==> is_closed(open, i) || open.last() == i,
{
    let rest = open.drop_last();
    if is_closed(rest, i) && open.last() != i {
        assert forall|k: int| 0 <= k < open.len() implies open[k] != i by {
            if k < rest.len() {
                assert(rest[k] == open[k]);
            }
        }
    }
    if is_closed(open, i) || open.last() == i {
        assert forall|k: int| 0 <= k < rest.len() implies rest[k] != i by {
            assert(rest[k] == open[k]);
        }
    }
}

impl<'a> View for Ast<'a> {
    type V = AstView<'a>;

    closed spec fn view(&self) -> AstView<'a> {
        AstView { nodes: self.nodes@, open: self.open@ }
    }
}

impl<'a> Ast<'a> {
    /// The builder's invariant holds of this tree.
    pub open spec fn wf(&self) -> bool {
        well_formed(self@.nodes, self@.open)
    }

    /// No scope is open: every descendant count is final.
    pub open spec fn complete(&self) -> bool {
        self@.open.len() == 0
    }

    /// The scope that has to be closed next, if one is open.
    pub open spec fn innermost(&self) -> Option<usize> {
        if self@.open.len() == 0 {
            None
        } else {
            Some(self@.open.last())
        }
    }

    /// An empty tree, with room for one node per token.
    pub fn new(tokens: Vec<&'a Token>) -> (ast: Ast<'a>)
        ensures
            ast.wf(),
            ast@.nodes.len() == 0,
            ast@.open.len() == 0,
    {
        let nodes = Vec::with_capacity(tokens.len());
        Ast { nodes, open: Vec::new() }
    }

    /// The number of nodes.
    pub fn len(&self) -> (len: usize)
        ensures
            len == self@.nodes.len(),
    {
        self.nodes.len()
    }

    /// Whether no scope is open.
    pub fn is_complete(&self) -> (complete: bool)
        ensures
            complete == self.complete(),
    {
        self.open.len() == 0
    }

    /// Whether `node_ctx` is the scope that has to be closed next.
    pub fn is_innermost(&self, node_ctx: &NodeCtx) -> (innermost: bool)
        ensures
            innermost == (self.innermost() == Some(node_ctx.node_index())),
    {
        let depth = self.open.len();
        depth > 0 && self.open[depth - 1] == node_ctx.node_id
    }

    /// Whether `node_id` is the root of an expression, which [`Ast::dump`]
    /// can render.
    pub fn is_well_shaped(&self, node_id: usize) -> (shaped: bool)
        ensures
            shaped == well_shaped(self@.nodes, node_id as int),
        decreases self@.nodes.len() - node_id,
    {
        let len = self.nodes.len();
        if node_id >= len {
            return false;
        }
        let count = self.nodes[node_id].num_sub_nodes as usize;
        if count > len - node_id - 1 {
            return false;
        }
        let end = node_id + 1 + count;
        match self.nodes[node_id].node_type {
            NodeType::Literal => count == 0,
            NodeType::Binary => {
                let lhs = node_id + 1;
                if lhs >= end || !self.is_well_shaped(lhs) {
                    return false;
                }
                let rhs = lhs + 1 + self.nodes[lhs].num_sub_nodes as usize;
                if rhs >= end || !self.is_well_shaped(rhs) {
                    return false;
                }
                rhs + 1 + self.nodes[rhs].num_sub_nodes as usize == end
            },
        }
    }

    /// The nodes, in pre-order.
    pub fn nodes(&self) -> (nodes: &Vec<Node<'a>>)
        ensures
            nodes@ == self@.nodes,
    {
        &self.nodes
    }

    /// Appends a node with a placeholder count and opens its scope.
    pub fn start_node(&mut self, token: &'a Token, node_type: NodeType) -> (ctx: NodeCtx)
        requires
            old(self).wf(),
            old(self)@.nodes.len() < u32::MAX,
        ensures
            final(self).wf(),
            ctx.node_index() == old(self)@.nodes.len(),
            final(self)@.nodes == old(self)@.nodes.push(
                Node { node_type, token, num_sub_nodes: 0 },
            ),
            final(self)@.open == old(self)@.open.push(ctx.node_index()),
    {
        let node_id = self.nodes.len();
        let new_node = Node { node_type, token, num_sub_nodes: 0 };
        self.nodes.push(new_node);
        self.open.push(node_id);
        proof {
            let before = old(self)@;
            let after = self@;
            assert forall|i: int| 0 <= i < after.nodes.len() && is_closed(after.open, i) implies i
                < before.nodes.len() && is_closed(before.open, i) by {
                lemma_closed_after_push(before.open, node_id, i);
            }
            assert forall|i: int, j: int|
                0 <= i < j < after.nodes.len() && is_closed(after.open, i) && j < subtree_end(
                    after.nodes,
                    i,
                ) implies holds_whole(after.nodes, after.open, i, j) by {
                assert(subtree_end(before.nodes, i) <= before.nodes.len());
                assert(holds_whole(before.nodes, before.open, i, j));
                lemma_closed_after_push(before.open, node_id, j);
            }
        }
        NodeCtx { node_id, num_nodes: self.nodes.len() }
    }

    /// Closes the innermost open scope: its node gets the number of nodes that
    /// were appended since the scope was opened.
    pub fn end_node(&mut self, node_ctx: NodeCtx)
        requires
            old(self).wf(),
            old(self).innermost() == Some(node_ctx.node_index()),
        ensures
            final(self).wf(),
            final(self)@.open == old(self)@.open.drop_last(),
            final(self)@.nodes == old(self)@.nodes.update(
                node_ctx.node_index() as int,
                (Node {
                    num_sub_nodes: (old(self)@.nodes.len() - node_ctx.node_index() - 1) as u32,
                    ..old(self)@.nodes[node_ctx.node_index() as int]
                }),
            ),
    {
        proof {
            use_type_invariant(&node_ctx);
        }
        let count = self.nodes.len() - node_ctx.num_nodes;
        self.nodes[node_ctx.node_id].num_sub_nodes = count as u32;
        self.open.pop();
        proof {
            let before = old(self)@;
            let after = self@;
            let top = node_ctx.node_id as int;
            let last = before.open.len() - 1;
            assert(before.open[last] == top);
            assert(!is_closed(before.open, top));
            assert forall|k: int| 0 <= k < after.open.len() implies after.nodes[after.open[k]
                as int].num_sub_nodes == 0 by {
                assert(before.open[k] < before.open[last]);
            }
            assert forall|i: int|
                0 <= i < after.nodes.len() && is_closed(after.open, i) implies (i == top
                || is_closed(before.open, i)) && subtree_end(after.nodes, i)
                <= after.nodes.len() by {
                lemma_closed_after_pop(before.open, i);
            }
            assert forall|i: int, j: int|
                0 <= i < j < after.nodes.len() && is_closed(after.open, i) && j < subtree_end(
                    after.nodes,
                    i,
                ) implies holds_whole(after.nodes, after.open, i, j) by {
                lemma_closed_after_pop(before.open, i);
                lemma_closed_after_pop(before.open, j);
                if i == top {
                    assert forall|k: int| 0 <= k < before.open.len() implies before.open[k]
                        != j by {
                        if k < last {
                            assert(before.open[k] < before.open[last]);
                        }
                    }
                    assert(is_closed(before.open, j));
                    assert(subtree_end(before.nodes, j) <= before.nodes.len());
                } else {
                    assert(holds_whole(before.nodes, before.open, i, j));
                }
            }
        }
    }

    /// Renders the expression rooted at `node_id` of a complete tree.
    pub fn dump(&self, node_id: usize) -> (text: String)
        requires
            self.wf(),
            self.complete(),
            well_shaped(self@.nodes, node_id as int),
        ensures
            text@ == dump_text(self@.nodes, node_id as int),
        decreases self@.nodes.len() - node_id,
    {
        let node = &self.nodes[node_id];
        let mut text = String::new();
        match node.node_type {
            NodeType::Binary => {
                let lhs_id = node_id + 1;
                let rhs_id = lhs_id + 1 + self.nodes[lhs_id].num_sub_nodes as usize;
                let lhs = self.dump(lhs_id);
                let rhs = self.dump(rhs_id);
                text.append("binary(");
                text.append(node.token.kind.name());
                text.append(", ");
                text.append(lhs.as_str());
                text.append(", ");
                text.append(rhs.as_str());
                text.append(")");
            },
            NodeType::Literal => {
                text.append("literal(");
                node.token.push_long_text(&mut text);
                text.append(")");
            },
        }
        text
    }
}

} // verus!
