//! The abstract syntax tree the parser builds: positioned nodes for
//! literals, variables, operator applications, calls, declarations, grid
//! blocks and rules.

use crate::lexer::spec_token;
use crate::lexer::SpecToken;
use crate::lexer::Token;
use crate::positioned::pos_le;
use crate::positioned::pos_max;
use crate::positioned::pos_min;
use crate::positioned::Positioned;
use crate::positioned::Spanned;
use crate::value::spec_value;
use crate::value::SpecValue;
use crate::value::Value;
use vstd::prelude::*;

verus! {

/// A syntax-tree node.  Sub-nodes are exclusively owned; the parser builds
/// the tree once and the interpreter only reads it.
#[derive(Debug)]
pub enum Node {
    Literal(Value),
    Array(Vec<PNode>),
    Variable(String),
    Binary { left: Box<PNode>, op: Token, right: Box<PNode> },
    Call { expr: Box<PNode>, args: Vec<PNode> },
    Tuple(Vec<PNode>),
    Function { name: String, params: Vec<String>, body: Box<PNode> },
    Memory(Vec<Vec<String>>),
    Definition { name: String, value: Box<PNode> },
    Directional(String),
    Sum(Box<PNode>),
    Main { centre: Box<PNode>, conditional: Box<PNode>, result: Box<PNode>, is_render: bool },
}

/// A positioned syntax-tree node.
pub type PNode = Positioned<Node>;

/// The mathematical image of a node.
pub ghost enum SpecNode {
    Literal(SpecValue),
    Array(Seq<Spanned<SpecNode>>),
    Variable(Seq<char>),
    Binary { left: Box<Spanned<SpecNode>>, op: SpecToken, right: Box<Spanned<SpecNode>> },
    Call { expr: Box<Spanned<SpecNode>>, args: Seq<Spanned<SpecNode>> },
    Tuple(Seq<Spanned<SpecNode>>),
    Function { name: Seq<char>, params: Seq<Seq<char>>, body: Box<Spanned<SpecNode>> },
    Memory(Seq<Seq<Seq<char>>>),
    Definition { name: Seq<char>, value: Box<Spanned<SpecNode>> },
    Directional(Seq<char>),
    Sum(Box<Spanned<SpecNode>>),
    Main {
        centre: Box<Spanned<SpecNode>>,
        conditional: Box<Spanned<SpecNode>>,
        result: Box<Spanned<SpecNode>>,
        is_render: bool,
    },
}

/// The image of a positioned node.
pub type SpecPNode = Spanned<SpecNode>;

/// The image of one node.
pub open spec fn spec_node(n: Node) -> SpecNode
    decreases n,
{
    match n {
        Node::Literal(v) => SpecNode::Literal(spec_value(v)),
        Node::Array(items) => SpecNode::Array(spec_pnode_views(items@)),
        Node::Variable(name) => SpecNode::Variable(name@),
        Node::Binary { left, op, right } => SpecNode::Binary {
            left: Box::new(spec_pnode(*left)),
            op: spec_token(op),
            right: Box::new(spec_pnode(*right)),
        },
        Node::Call { expr, args } => SpecNode::Call {
            expr: Box::new(spec_pnode(*expr)),
            args: spec_pnode_views(args@),
        },
        Node::Tuple(items) => SpecNode::Tuple(spec_pnode_views(items@)),
        Node::Function { name, params, body } => SpecNode::Function {
            name: name@,
            params: spec_string_views(params@),
            body: Box::new(spec_pnode(*body)),
        },
        Node::Memory(rows) => SpecNode::Memory(spec_row_views(rows@)),
        Node::Definition { name, value } => SpecNode::Definition {
            name: name@,
            value: Box::new(spec_pnode(*value)),
        },
        Node::Directional(name) => SpecNode::Directional(name@),
        Node::Sum(expr) => SpecNode::Sum(Box::new(spec_pnode(*expr))),
        Node::Main { centre, conditional, result, is_render } => SpecNode::Main {
            centre: Box::new(spec_pnode(*centre)),
            conditional: Box::new(spec_pnode(*conditional)),
            result: Box::new(spec_pnode(*result)),
            is_render: is_render,
        },
    }
}

/// The image of one positioned node.
pub open spec fn spec_pnode(p: PNode) -> SpecPNode
    decreases p,
{
    Spanned { inner: spec_node(p.inner), start: p.start, end: p.end }
}

/// The images of a sequence of positioned nodes, element by element.
pub open spec fn spec_pnode_views(items: Seq<PNode>) -> Seq<SpecPNode>
    decreases items,
{
    if items.len() == 0 {
        Seq::empty()
    } else {
        spec_pnode_views(items.drop_last()).push(spec_pnode(items.last()))
    }
}

/// The images of a sequence of strings, element by element.
pub open spec fn spec_string_views(items: Seq<String>) -> Seq<Seq<char>>
    decreases items.len(),
{
    if items.len() == 0 {
        Seq::empty()
    } else {
        spec_string_views(items.drop_last()).push(items.last()@)
    }
}

/// The images of a sequence of string rows, row by row.
pub open spec fn spec_row_views(rows: Seq<Vec<String>>) -> Seq<Seq<Seq<char>>>
    decreases rows.len(),
{
    if rows.len() == 0 {
        Seq::empty()
    } else {
        spec_row_views(rows.drop_last()).push(spec_string_views(rows.last()@))
    }
}

impl View for Node {
    type V = SpecNode;

    open spec fn view(&self) -> SpecNode {
        spec_node(*self)
    }
}

/// `spec_pnode_views` has the length of its argument and indexes pointwise.
pub proof fn lemma_pnode_views_index(items: Seq<PNode>, i: int)
    requires
        0 <= i < items.len(),
    ensures
        spec_pnode_views(items).len() == items.len(),
        spec_pnode_views(items)[i] == spec_pnode(items[i]),
    decreases items.len(),
{
    if items.len() > 0 {
        lemma_pnode_views_len(items.drop_last());
        if i < items.len() - 1 {
            lemma_pnode_views_index(items.drop_last(), i);
            assert(items.drop_last()[i] == items[i]);
        } else {
            assert(items.last() == items[i]);
        }
    }
}

/// `spec_pnode_views` has the length of its argument.
pub proof fn lemma_pnode_views_len(items: Seq<PNode>)
    ensures
        spec_pnode_views(items).len() == items.len(),
    decreases items.len(),
{
    if items.len() > 0 {
        lemma_pnode_views_len(items.drop_last());
    }
}

/// Appending one node extends the pointwise image by that node's image.
pub proof fn lemma_pnode_views_push(items: Seq<PNode>, p: PNode)
    ensures
        spec_pnode_views(items.push(p)) == spec_pnode_views(items).push(spec_pnode(p)),
{
    assert(items.push(p).drop_last() =~= items);
    assert(items.push(p).last() == p);
}

/// `spec_string_views` has the length of its argument and indexes pointwise.
pub proof fn lemma_string_views_index(items: Seq<String>, i: int)
    requires
        0 <= i < items.len(),
    ensures
        spec_string_views(items).len() == items.len(),
        spec_string_views(items)[i] == items[i]@,
    decreases items.len(),
{
    if items.len() > 0 {
        lemma_string_views_len(items.drop_last());
        if i < items.len() - 1 {
            lemma_string_views_index(items.drop_last(), i);
            assert(items.drop_last()[i] == items[i]);
        } else {
            assert(items.last() == items[i]);
        }
    }
}

/// `spec_string_views` has the length of its argument.
pub proof fn lemma_string_views_len(items: Seq<String>)
    ensures
        spec_string_views(items).len() == items.len(),
    decreases items.len(),
{
    if items.len() > 0 {
        lemma_string_views_len(items.drop_last());
    }
}

/// Appending one string extends the pointwise image by that string's image.
pub proof fn lemma_string_views_push(items: Seq<String>, s: String)
    ensures
        spec_string_views(items.push(s)) == spec_string_views(items).push(s@),
{
    assert(items.push(s).drop_last() =~= items);
    assert(items.push(s).last() == s);
}

/// `spec_row_views` has the length of its argument and indexes pointwise.
pub proof fn lemma_row_views_index(rows: Seq<Vec<String>>, i: int)
    requires
        0 <= i < rows.len(),
    ensures
        spec_row_views(rows).len() == rows.len(),
        spec_row_views(rows)[i] == spec_string_views(rows[i]@),
    decreases rows.len(),
{
    if rows.len() > 0 {
        lemma_row_views_len(rows.drop_last());
        if i < rows.len() - 1 {
            lemma_row_views_index(rows.drop_last(), i);
            assert(rows.drop_last()[i] == rows[i]);
        } else {
            assert(rows.last() == rows[i]);
        }
    }
}

/// `spec_row_views` has the length of its argument.
pub proof fn lemma_row_views_len(rows: Seq<Vec<String>>)
    ensures
        spec_row_views(rows).len() == rows.len(),
    decreases rows.len(),
{
    if rows.len() > 0 {
        lemma_row_views_len(rows.drop_last());
    }
}

/// Appending one row extends the pointwise image by that row's image.
pub proof fn lemma_row_views_push(rows: Seq<Vec<String>>, r: Vec<String>)
    ensures
        spec_row_views(rows.push(r)) == spec_row_views(rows).push(spec_string_views(r@)),
{
    assert(rows.push(r).drop_last() =~= rows);
    assert(rows.push(r).last() == r);
}

/// A copy of each string in `items`.
pub fn clone_strings(items: &Vec<String>) -> (r: Vec<String>)
    ensures
        r@ == items@,
{
    let mut out: Vec<String> = Vec::new();
    let mut i: usize = 0;
    while i < items.len()
        invariant
            i <= items.len(),
            out@ == items@.subrange(0, i as int),
        decreases items.len() - i,
    {
        out.push(items[i].clone());
        proof {
            assert(out@ =~= items@.subrange(0, i + 1));
        }
        i = i + 1;
    }
    proof {
        assert(items@.subrange(0, items@.len() as int) =~= items@);
    }
    out
}

/// A copy of each row of strings, preserving every image.
pub fn clone_rows(rows: &Vec<Vec<String>>) -> (r: Vec<Vec<String>>)
    ensures
        spec_row_views(r@) == spec_row_views(rows@),
        r@.len() == rows@.len(),
{
    let mut out: Vec<Vec<String>> = Vec::new();
    let mut i: usize = 0;
    proof {
        lemma_row_views_len(rows@);
    }
    while i < rows.len()
        invariant
            i <= rows.len(),
            out@.len() == i,
            spec_row_views(rows@).len() == rows@.len(),
            spec_row_views(out@) == spec_row_views(rows@).subrange(0, i as int),
        decreases rows.len() - i,
    {
        let row = clone_strings(&rows[i]);
        proof {
            lemma_row_views_index(rows@, i as int);
            lemma_row_views_push(out@, row);
        }
        out.push(row);
        proof {
            assert(spec_row_views(out@) =~= spec_row_views(rows@).subrange(0, i + 1));
        }
        i = i + 1;
    }
    proof {
        assert(spec_row_views(rows@).subrange(0, rows@.len() as int) =~= spec_row_views(rows@));
    }
    out
}

/// A deep copy of a node, image preserved.
pub fn clone_node(n: &Node) -> (r: Node)
    ensures
        spec_node(r) == spec_node(*n),
    decreases n,
{
    match n {
        Node::Literal(v) => Node::Literal(v.clone()),
        Node::Array(items) => Node::Array(clone_pnodes(items)),
        Node::Variable(name) => Node::Variable(name.clone()),
        Node::Binary { left, op, right } => Node::Binary {
            left: Box::new(clone_pnode(left)),
            op: op.clone(),
            right: Box::new(clone_pnode(right)),
        },
        Node::Call { expr, args } => Node::Call {
            expr: Box::new(clone_pnode(expr)),
            args: clone_pnodes(args),
        },
        Node::Tuple(items) => Node::Tuple(clone_pnodes(items)),
        Node::Function { name, params, body } => Node::Function {
            name: name.clone(),
            params: clone_strings(params),
            body: Box::new(clone_pnode(body)),
        },
        Node::Memory(rows) => Node::Memory(clone_rows(rows)),
        Node::Definition { name, value } => Node::Definition {
            name: name.clone(),
            value: Box::new(clone_pnode(value)),
        },
        Node::Directional(name) => Node::Directional(name.clone()),
        Node::Sum(expr) => Node::Sum(Box::new(clone_pnode(expr))),
        Node::Main { centre, conditional, result, is_render } => Node::Main {
            centre: Box::new(clone_pnode(centre)),
            conditional: Box::new(clone_pnode(conditional)),
            result: Box::new(clone_pnode(result)),
            is_render: *is_render,
        },
    }
}

/// A deep copy of a positioned node, image preserved.
pub fn clone_pnode(p: &PNode) -> (r: PNode)
    ensures
        spec_pnode(r) == spec_pnode(*p),
        r@ == p@,
    decreases p,
{
    Positioned { inner: clone_node(&p.inner), start: p.start, end: p.end }
}

/// A deep copy of each node in `items`, preserving every image.
pub fn clone_pnodes(items: &Vec<PNode>) -> (r: Vec<PNode>)
    ensures
        spec_pnode_views(r@) == spec_pnode_views(items@),
        r@.len() == items@.len(),
    decreases items,
{
    let mut out: Vec<PNode> = Vec::new();
    let mut i: usize = 0;
    proof {
        lemma_pnode_views_len(items@);
    }
    while i < items.len()
        invariant
            i <= items.len(),
            out@.len() == i,
            spec_pnode_views(items@).len() == items@.len(),
            spec_pnode_views(out@) == spec_pnode_views(items@).subrange(0, i as int),
        decreases items.len() - i,
    {
        let item = clone_pnode(&items[i]);
        proof {
            lemma_pnode_views_index(items@, i as int);
            lemma_pnode_views_push(out@, item);
        }
        out.push(item);
        proof {
            assert(spec_pnode_views(out@) =~= spec_pnode_views(items@).subrange(0, i + 1));
        }
        i = i + 1;
    }
    proof {
        assert(spec_pnode_views(items@).subrange(0, items@.len() as int) =~= spec_pnode_views(
            items@,
        ));
    }
    out
}

impl Positioned<Node> {
    /// A binary-operator node over two sub-expressions; its span runs from
    /// the earlier of the two starts to the later of the two ends.
    pub fn new_binary(left: PNode, op: Token, right: PNode) -> (r: PNode)
        ensures
            r@ == (Spanned {
                inner: SpecNode::Binary {
                    left: Box::new(spec_pnode(left)),
                    op: spec_token(op),
                    right: Box::new(spec_pnode(right)),
                },
                start: if pos_le(left.start, right.start) {
                    left.start
                } else {
                    right.start
                },
                end: if pos_le(left.end, right.end) {
                    right.end
                } else {
                    left.end
                },
            }),
    {
        let start = pos_min(left.start, right.start);
        let end = pos_max(left.end, right.end);
        Positioned {
            inner: Node::Binary { left: Box::new(left), op, right: Box::new(right) },
            start,
            end,
        }
    }
}

} // verus!
