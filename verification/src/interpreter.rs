//! The tree-walking interpreter: a load phase that fills an environment of
//! constants, functions, a grid and rule lists from parsed statements, and a
//! simulation step that sweeps the grid, rewriting each cell by the first
//! transition rule that matches and rendering it by the first render rule
//! that matches.
//!
//! Every sweep reads the grid as it stood before the sweep: cells are
//! computed from a snapshot and committed together, so a cell never sees a
//! neighbor's value from the same sweep.

use crate::ast::clone_pnode;
use crate::ast::spec_pnode;
use crate::ast::spec_pnode_views;
use crate::ast::Node;
use crate::ast::PNode;
use crate::ast::SpecNode;
use crate::ast::SpecPNode;
use crate::lexer::Error;
use crate::lexer::SpecToken;
use crate::lexer::spec_token;
use crate::lexer::spec_token_name;
use crate::lexer::SpecError;
use crate::lexer::Token;
use crate::positioned::Position;
use crate::positioned::Positioned;
use crate::value::spec_add;
use crate::value::spec_and;
use crate::value::spec_as_bool;
use crate::value::spec_as_num;
use crate::value::spec_cmp_values;
use crate::value::spec_div;
use crate::value::spec_kind_name;
use crate::value::spec_modulus;
use crate::value::spec_mul;
use crate::value::spec_or;
use crate::value::spec_sub;
use crate::value::spec_value;
use crate::value::spec_value_views;
use crate::value::str_eq;
use crate::value::SpecValue;
use crate::value::Value;
use vstd::prelude::*;

verus! {

/// A transition or render rule: its centre pattern, its condition, and its
/// result expression.
#[derive(Debug)]
pub struct Rule {
    pub centre: PNode,
    pub conditional: PNode,
    pub result: PNode,
}

/// The mathematical image of a rule.
pub ghost struct SpecRule {
    pub centre: SpecPNode,
    pub conditional: SpecPNode,
    pub result: SpecPNode,
}

impl View for Rule {
    type V = SpecRule;

    open spec fn view(&self) -> SpecRule {
        SpecRule {
            centre: spec_pnode(self.centre),
            conditional: spec_pnode(self.conditional),
            result: spec_pnode(self.result),
        }
    }
}

/// A named function declaration: its parameter names and its body.
#[derive(Debug)]
pub struct FunctionDef {
    pub name: String,
    pub params: Vec<String>,
    pub body: PNode,
}

/// The mathematical image of a function declaration.
pub ghost struct SpecFunctionDef {
    pub name: Seq<char>,
    pub params: Seq<Seq<char>>,
    pub body: SpecPNode,
}

impl View for FunctionDef {
    type V = SpecFunctionDef;

    open spec fn view(&self) -> SpecFunctionDef {
        SpecFunctionDef {
            name: self.name@,
            params: crate::ast::spec_string_views(self.params@),
            body: spec_pnode(self.body),
        }
    }
}

/// The image of a constant table: names with their values, in insertion
/// order.
pub open spec fn spec_const_views(consts: Seq<(String, Value)>) -> Seq<(Seq<char>, SpecValue)> {
    consts.map_values(|e: (String, Value)| (e.0@, spec_value(e.1)))
}

/// The image of a rule list.
pub open spec fn spec_rule_views(rules: Seq<Rule>) -> Seq<SpecRule> {
    rules.map_values(|r: Rule| r@)
}

/// The image of a function table.
pub open spec fn spec_fun_views(funs: Seq<FunctionDef>) -> Seq<SpecFunctionDef> {
    funs.map_values(|f: FunctionDef| f@)
}

/// The image of a grid: its rows as sequences of cell values.
pub open spec fn spec_grid(mem: Seq<Vec<u8>>) -> Seq<Seq<u8>> {
    mem.map_values(|row: Vec<u8>| row@)
}

/// The value bound to `name`, with the latest binding winning; `None` if the
/// table has no binding for it.
pub open spec fn spec_lookup(
    consts: Seq<(Seq<char>, SpecValue)>,
    name: Seq<char>,
) -> Option<SpecValue>
    decreases consts.len(),
{
    if consts.len() == 0 {
        None
    } else if consts.last().0 == name {
        Some(consts.last().1)
    } else {
        spec_lookup(consts.drop_last(), name)
    }
}

/// The cell value at `(x, y)`, or 0 anywhere outside the grid.
pub open spec fn spec_cell(grid: Seq<Seq<u8>>, x: int, y: int) -> u8 {
    if 0 <= y < grid.len() && 0 <= x < grid[y].len() {
        grid[y][x]
    } else {
        0
    }
}

/// The neighbor value a direction name resolves to at cursor `(x, y)`:
/// out-of-bounds lookups give 0, and a name that is no direction gives the
/// wildcard.
pub open spec fn spec_direction(grid: Seq<Seq<u8>>, x: int, y: int, name: Seq<char>) -> SpecValue {
    if name == "south"@ || name == "down"@ {
        SpecValue::Int(spec_cell(grid, x, y + 1))
    } else if name == "north"@ || name == "up"@ {
        SpecValue::Int(spec_cell(grid, x, y - 1))
    } else if name == "centre"@ || name == "self"@ {
        SpecValue::Int(spec_cell(grid, x, y))
    } else if name == "east"@ || name == "right"@ {
        SpecValue::Int(spec_cell(grid, x + 1, y))
    } else if name == "west"@ || name == "left"@ {
        SpecValue::Int(spec_cell(grid, x - 1, y))
    } else if name == "northwest"@ {
        SpecValue::Int(spec_cell(grid, x - 1, y - 1))
    } else if name == "northeast"@ {
        SpecValue::Int(spec_cell(grid, x + 1, y - 1))
    } else {
        SpecValue::Unknown
    }
}

/// The eight Moore neighbors of `(x, y)`, in a fixed order, out-of-bounds
/// cells reading as 0.
pub open spec fn spec_neighbours(grid: Seq<Seq<u8>>, x: int, y: int) -> Seq<u8> {
    seq![
        spec_cell(grid, x + 1, y),
        spec_cell(grid, x, y + 1),
        spec_cell(grid, x - 1, y),
        spec_cell(grid, x, y - 1),
        spec_cell(grid, x + 1, y + 1),
        spec_cell(grid, x - 1, y + 1),
        spec_cell(grid, x + 1, y - 1),
        spec_cell(grid, x - 1, y - 1),
    ]
}

/// How many cell values in `vals` the value `v` equals exactly, as an
/// integer value.
pub open spec fn spec_count_matching(vals: Seq<u8>, v: SpecValue) -> int
    decreases vals.len(),
{
    if vals.len() == 0 {
        0
    } else {
        spec_count_matching(vals.drop_last(), v) + if SpecValue::Int(vals.last()) == v {
            1int
        } else {
            0int
        }
    }
}

/// A match count never exceeds the number of candidates.
pub proof fn lemma_count_matching_bounds(vals: Seq<u8>, v: SpecValue)
    ensures
        0 <= spec_count_matching(vals, v) <= vals.len(),
    decreases vals.len(),
{
    if vals.len() > 0 {
        lemma_count_matching_bounds(vals.drop_last(), v);
    }
}

/// The interpreter: the loaded program and its runtime environment.  The
/// constant and function tables keep bindings in insertion order; the rule
/// lists keep declaration order, which decides which rule fires.
#[derive(Debug)]
pub struct Interpreter {
    pub instructions: Vec<PNode>,
    pub constants: Vec<(String, Value)>,
    pub functions: Vec<FunctionDef>,
    pub memory: Vec<Vec<u8>>,
    pub match_statements: Vec<Rule>,
    pub print_statements: Vec<Rule>,
    pub index: usize,
}

impl Interpreter {
    /// The image of the constant table.
    pub open spec fn consts(&self) -> Seq<(Seq<char>, SpecValue)> {
        spec_const_views(self.constants@)
    }

    /// The image of the grid.
    pub open spec fn grid(&self) -> Seq<Seq<u8>> {
        spec_grid(self.memory@)
    }

    /// An interpreter holding `instructions`, with everything else empty.
    pub fn new(instructions: Vec<PNode>) -> (r: Interpreter)
        ensures
            r.instructions@ == instructions@,
            r.constants@.len() == 0,
            r.functions@.len() == 0,
            r.memory@.len() == 0,
            r.match_statements@.len() == 0,
            r.print_statements@.len() == 0,
            r.index == 0,
    {
        Interpreter {
            instructions,
            index: 0,
            constants: Vec::new(),
            functions: Vec::new(),
            memory: Vec::new(),
            match_statements: Vec::new(),
            print_statements: Vec::new(),
        }
    }

    /// Consume and return the next loaded instruction.
    pub fn next(&mut self) -> (r: PNode)
        requires
            old(self).index < old(self).instructions@.len(),
        ensures
            final(self).index == old(self).index + 1,
            final(self).instructions@ == old(self).instructions@,
            final(self).constants@ == old(self).constants@,
            final(self).memory@ == old(self).memory@,
            spec_pnode(r) == spec_pnode(old(self).instructions@[old(self).index as int]),
    {
        let n = self.instructions.len();
        self.index = self.index + 1;
        clone_pnode(&self.instructions[self.index - 1])
    }

    /// The cell value at `(x, y)` of this interpreter's grid, 0 outside it.
    pub fn get_cell(&self, x: usize, y: usize) -> (r: u8)
        ensures
            r == spec_cell(self.grid(), x as int, y as int),
    {
        grid_cell(&self.memory, x, y)
    }

    /// The cell value at signed coordinates, 0 anywhere outside the grid.
    pub fn get_cell_signed(&self, x: isize, y: isize) -> (r: u8)
        ensures
            r == spec_cell(self.grid(), x as int, y as int),
    {
        if x < 0 {
            return 0;
        }
        if y < 0 {
            return 0;
        }
        grid_cell(&self.memory, x as usize, y as usize)
    }

    /// A diagnostic with no source position.
    pub fn error<T>(msg: &str) -> (r: Result<T, Error>)
        ensures
            r matches Err(e) && e@ == (SpecError {
                msg: msg@,
                start: Position { line: 1, col: 1, end: false },
                end: Position { line: 1, col: 1, end: false },
            }),
    {
        Err(Error { msg: String::from_str(msg), start: Position::new(), end: Position::new() })
    }
}

/// The cell value at `(x, y)` of `grid`, 0 outside it.
pub fn grid_cell(grid: &Vec<Vec<u8>>, x: usize, y: usize) -> (r: u8)
    ensures
        r == spec_cell(spec_grid(grid@), x as int, y as int),
{
    if y < grid.len() {
        let row = &grid[y];
        if x < row.len() {
            row[x]
        } else {
            0
        }
    } else {
        0
    }
}

/// The diagnostic text for an operator applied to operand kinds it is not
/// defined for.
pub open spec fn spec_msg_bad_operand(op: SpecToken, l: SpecValue, r: SpecValue) -> Seq<char> {
    "Operand "@ + spec_token_name(op) + " cannot be used between types "@ + spec_kind_name(l)
        + " and "@ + spec_kind_name(r)
}

/// What a binary operator gives on two evaluated operands: arithmetic and
/// logic as the value model defines them, comparisons by the total order on
/// values; `None` where the pairing is undefined.
pub open spec fn spec_apply_op(op: SpecToken, l: SpecValue, r: SpecValue) -> Option<SpecValue> {
    match op {
        SpecToken::Minus => spec_sub(l, r),
        SpecToken::Plus => spec_add(l, r),
        SpecToken::Asterisk => spec_mul(l, r),
        SpecToken::Slash => spec_div(l, r),
        SpecToken::Or => spec_or(l, r),
        SpecToken::And => spec_and(l, r),
        SpecToken::Mod => spec_modulus(l, r),
        SpecToken::Equals => Some(SpecValue::Bool(l == r)),
        SpecToken::NotEquals => Some(SpecValue::Bool(l != r)),
        SpecToken::Greater => Some(SpecValue::Bool(spec_cmp_values(l, r) > 0)),
        SpecToken::Lesser => Some(SpecValue::Bool(spec_cmp_values(l, r) < 0)),
        SpecToken::GreaterThan => Some(SpecValue::Bool(spec_cmp_values(l, r) >= 0)),
        SpecToken::LesserThan => Some(SpecValue::Bool(spec_cmp_values(l, r) <= 0)),
        _ => None,
    }
}

/// What evaluating an expression node gives, at cursor `(x, y)` over `grid`
/// with the constant table `consts`: literals are themselves, variables look
/// up the constant table, directions read neighbors, a sum counts matching
/// Moore neighbors, arrays evaluate elementwise, binary nodes apply the value
/// model; a statement node in expression position, an unbound name, or an
/// undefined operator pairing is an evaluation fault carrying the node's
/// span.
pub open spec fn spec_eval(
    consts: Seq<(Seq<char>, SpecValue)>,
    grid: Seq<Seq<u8>>,
    x: int,
    y: int,
    node: SpecPNode,
) -> Result<SpecValue, SpecError>
    decreases node,
{
    match node.inner {
        SpecNode::Literal(v) => Ok(v),
        SpecNode::Variable(name) => match spec_lookup(consts, name) {
            Some(v) => Ok(v),
            None => Err(
                SpecError {
                    msg: "No value for constant "@ + name,
                    start: node.start,
                    end: node.end,
                },
            ),
        },
        SpecNode::Directional(name) => Ok(spec_direction(grid, x, y, name)),
        SpecNode::Sum(expr) => match spec_eval(consts, grid, x, y, *expr) {
            Err(e) => Err(e),
            Ok(v) => Ok(
                SpecValue::Int(spec_count_matching(spec_neighbours(grid, x, y), v) as u8),
            ),
        },
        SpecNode::Array(items) => match spec_eval_list(consts, grid, x, y, items) {
            Err(e) => Err(e),
            Ok(vs) => Ok(SpecValue::Array(vs)),
        },
        SpecNode::Binary { left, op, right } => match spec_eval(consts, grid, x, y, *left) {
            Err(e) => Err(e),
            Ok(l) => match spec_eval(consts, grid, x, y, *right) {
                Err(e) => Err(e),
                Ok(r) => match spec_apply_op(op, l, r) {
                    Some(v) => Ok(v),
                    None => Err(
                        SpecError {
                            msg: spec_msg_bad_operand(op, l, r),
                            start: node.start,
                            end: node.end,
                        },
                    ),
                },
            },
        },
        _ => Err(
            SpecError {
                msg: "Expected expression found statement"@,
                start: node.start,
                end: node.end,
            },
        ),
    }
}

/// What evaluating a list of expression nodes gives: their values in order,
/// or the first fault.
pub open spec fn spec_eval_list(
    consts: Seq<(Seq<char>, SpecValue)>,
    grid: Seq<Seq<u8>>,
    x: int,
    y: int,
    items: Seq<SpecPNode>,
) -> Result<Seq<SpecValue>, SpecError>
    decreases items,
{
    if items.len() == 0 {
        Ok(Seq::empty())
    } else {
        match spec_eval(consts, grid, x, y, items[0]) {
            Err(e) => Err(e),
            Ok(v) => match spec_eval_list(consts, grid, x, y, items.drop_first()) {
                Err(e) => Err(e),
                Ok(rest) => Ok(seq![v] + rest),
            },
        }
    }
}

/// The value bound to `name` in the constant table, as `spec_lookup`; the
/// returned value is a copy with the same image.
pub fn lookup_constant(consts: &Vec<(String, Value)>, name: &str) -> (r: Option<Value>)
    ensures
        match r {
            Some(v) => spec_lookup(spec_const_views(consts@), name@) == Some(v@),
            None => spec_lookup(spec_const_views(consts@), name@) is None,
        },
{
    let ghost cs = spec_const_views(consts@);
    let mut i: usize = consts.len();
    proof {
        assert(cs.subrange(0, cs.len() as int) =~= cs);
    }
    while i > 0
        invariant
            i <= consts.len(),
            cs == spec_const_views(consts@),
            spec_lookup(cs, name@) == spec_lookup(cs.subrange(0, i as int), name@),
        decreases i,
    {
        i = i - 1;
        let entry = &consts[i];
        proof {
            assert(cs.subrange(0, i + 1).last() == cs[i as int]);
            assert(cs.subrange(0, i + 1).drop_last() =~= cs.subrange(0, i as int));
        }
        if str_eq(entry.0.as_str(), name) {
            return Some(entry.1.clone());
        }
    }
    proof {
        assert(cs.subrange(0, 0) =~= Seq::<(Seq<char>, SpecValue)>::empty());
    }
    None
}

/// A binary operator applied to two values, as `spec_apply_op`.
pub fn apply_op(op: &Token, l: &Value, r: &Value) -> (res: Option<Value>)
    ensures
        crate::value::spec_opt_value(res) == spec_apply_op(op@, l@, r@),
{
    match op {
        Token::Minus => l.sub(r),
        Token::Plus => l.add(r),
        Token::Asterisk => l.mul(r),
        Token::Slash => l.div(r),
        Token::Or => l.or(r),
        Token::And => l.and(r),
        Token::Mod => l.modulus(r),
        Token::Equals => Some(Value::Bool(l.equals(r))),
        Token::NotEquals => Some(Value::Bool(!l.equals(r))),
        Token::Greater => Some(Value::Bool(l.compare(r) > 0)),
        Token::Lesser => Some(Value::Bool(l.compare(r) < 0)),
        Token::GreaterThan => Some(Value::Bool(l.compare(r) >= 0)),
        Token::LesserThan => Some(Value::Bool(l.compare(r) <= 0)),
        _ => None,
    }
}

/// Values already evaluated, joined with what evaluating the rest gives.
pub open spec fn spec_eval_join(
    done: Seq<SpecValue>,
    rest: Result<Seq<SpecValue>, SpecError>,
) -> Result<Seq<SpecValue>, SpecError> {
    match rest {
        Ok(vs) => Ok(done + vs),
        Err(e) => Err(e),
    }
}

impl Interpreter {
    /// The neighbor value a direction name resolves to, as `spec_direction`.
    pub fn get_direction(&self, grid: &Vec<Vec<u8>>, x: usize, y: usize, direction: &str) -> (r:
        Value)
        requires
            x < usize::MAX,
            y < usize::MAX,
        ensures
            r@ == spec_direction(spec_grid(grid@), x as int, y as int, direction@),
    {
        if str_eq(direction, "south") || str_eq(direction, "down") {
            Value::Int(grid_cell(grid, x, y + 1))
        } else if str_eq(direction, "north") || str_eq(direction, "up") {
            if y == 0 {
                Value::Int(0)
            } else {
                Value::Int(grid_cell(grid, x, y - 1))
            }
        } else if str_eq(direction, "centre") || str_eq(direction, "self") {
            Value::Int(grid_cell(grid, x, y))
        } else if str_eq(direction, "east") || str_eq(direction, "right") {
            Value::Int(grid_cell(grid, x + 1, y))
        } else if str_eq(direction, "west") || str_eq(direction, "left") {
            if x == 0 {
                Value::Int(0)
            } else {
                Value::Int(grid_cell(grid, x - 1, y))
            }
        } else if str_eq(direction, "northwest") {
            if x == 0 || y == 0 {
                Value::Int(0)
            } else {
                Value::Int(grid_cell(grid, x - 1, y - 1))
            }
        } else if str_eq(direction, "northeast") {
            if y == 0 {
                Value::Int(0)
            } else {
                Value::Int(grid_cell(grid, x + 1, y - 1))
            }
        } else {
            Value::Unknown
        }
    }

    /// The eight Moore neighbors of `(x, y)`, as `spec_neighbours`.
    pub fn get_neighbours(&self, grid: &Vec<Vec<u8>>, x: usize, y: usize) -> (r: Vec<u8>)
        requires
            x < usize::MAX,
            y < usize::MAX,
        ensures
            r@ == spec_neighbours(spec_grid(grid@), x as int, y as int),
    {
        let mut out: Vec<u8> = Vec::new();
        out.push(grid_cell(grid, x + 1, y));
        out.push(grid_cell(grid, x, y + 1));
        out.push(
            if x == 0 {
                0
            } else {
                grid_cell(grid, x - 1, y)
            },
        );
        out.push(
            if y == 0 {
                0
            } else {
                grid_cell(grid, x, y - 1)
            },
        );
        out.push(grid_cell(grid, x + 1, y + 1));
        out.push(
            if x == 0 {
                0
            } else {
                grid_cell(grid, x - 1, y + 1)
            },
        );
        out.push(
            if y == 0 {
                0
            } else {
                grid_cell(grid, x + 1, y - 1)
            },
        );
        out.push(
            if x == 0 || y == 0 {
                0
            } else {
                grid_cell(grid, x - 1, y - 1)
            },
        );
        proof {
            assert(out@ =~= spec_neighbours(spec_grid(grid@), x as int, y as int));
        }
        out
    }

    /// Evaluate an expression node at cursor `(x, y)` over `grid`, exactly
    /// as `spec_eval` states it.
    pub fn evaluate(&self, grid: &Vec<Vec<u8>>, x: usize, y: usize, node: &PNode) -> (r: Result<
        Value,
        Error,
    >)
        requires
            x < usize::MAX,
            y < usize::MAX,
        ensures
            match spec_eval(self.consts(), spec_grid(grid@), x as int, y as int, spec_pnode(*node)) {
                Ok(v) => r matches Ok(rv) && rv@ == v,
                Err(e) => r matches Err(er) && er@ == e,
            },
        decreases node,
    {
        let ghost cs = self.consts();
        let ghost g = spec_grid(grid@);
        match &node.inner {
            Node::Literal(v) => Ok(v.clone()),
            Node::Variable(name) => match lookup_constant(&self.constants, name.as_str()) {
                Some(v) => Ok(v),
                None => {
                    let msg = String::from_str("No value for constant ").concat(name.as_str());
                    Err(Error { msg, start: node.start, end: node.end })
                },
            },
            Node::Directional(name) => Ok(self.get_direction(grid, x, y, name.as_str())),
            Node::Sum(expr) => {
                let v = match self.evaluate(grid, x, y, expr) {
                    Ok(v) => v,
                    Err(e) => {
                        return Err(e);
                    },
                };
                let neigh = self.get_neighbours(grid, x, y);
                let n = count_matching(&neigh, &v);
                proof {
                    lemma_count_matching_bounds(neigh@, v@);
                }
                Ok(Value::Int(n as u8))
            },
            Node::Array(items) => {
                let ghost views = spec_pnode_views(items@);
                let mut vals: Vec<Value> = Vec::new();
                let mut i: usize = 0;
                proof {
                    crate::ast::lemma_pnode_views_len(items@);
                    assert(views.skip(0) =~= views);
                    assert(spec_value_views(vals@) =~= Seq::<SpecValue>::empty());
                }
                while i < items.len()
                    invariant
                        i <= items.len(),
                        x < usize::MAX,
                        y < usize::MAX,
                        cs == self.consts(),
                        g == spec_grid(grid@),
                        views == spec_pnode_views(items@),
                        views.len() == items@.len(),
                        spec_pnode(*node).inner == SpecNode::Array(views),
                        node.inner == Node::Array(*items),
                        spec_eval_list(cs, g, x as int, y as int, views) == spec_eval_join(
                            spec_value_views(vals@),
                            spec_eval_list(cs, g, x as int, y as int, views.skip(i as int)),
                        ),
                    decreases items.len() - i,
                {
                    proof {
                        broadcast use vstd::std_specs::vec::group_vec_axioms;

                        crate::ast::lemma_pnode_views_index(items@, i as int);
                        assert(views.skip(i as int)[0] == views[i as int]);
                        assert(decreases_to!(*node => node.inner));
                        assert(decreases_to!(node.inner => *items));
                        assert(decreases_to!(*items => items@[i as int]));
                    }
                    let v = match self.evaluate(grid, x, y, &items[i]) {
                        Ok(v) => v,
                        Err(e) => {
                            return Err(e);
                        },
                    };
                    proof {
                        crate::value::lemma_value_views_push(vals@, v);
                        assert(views.skip(i as int).drop_first() =~= views.skip(i + 1));
                        match spec_eval_list(cs, g, x as int, y as int, views.skip(i + 1)) {
                            Ok(rest) => {
                                assert(spec_value_views(vals@).push(v@) + rest =~= spec_value_views(
                                    vals@,
                                ) + (seq![v@] + rest));
                            },
                            Err(_) => {},
                        }
                    }
                    vals.push(v);
                    i = i + 1;
                }
                proof {
                    assert(views.skip(items@.len() as int) =~= Seq::<SpecPNode>::empty());
                    assert(spec_value_views(vals@) + Seq::<SpecValue>::empty() =~= spec_value_views(
                        vals@,
                    ));
                }
                Ok(Value::Array(vals))
            },
            Node::Binary { left, op, right } => {
                let l = match self.evaluate(grid, x, y, left) {
                    Ok(v) => v,
                    Err(e) => {
                        return Err(e);
                    },
                };
                let rv = match self.evaluate(grid, x, y, right) {
                    Ok(v) => v,
                    Err(e) => {
                        return Err(e);
                    },
                };
                match apply_op(op, &l, &rv) {
                    Some(v) => Ok(v),
                    None => {
                        let msg = String::from_str("Operand ").concat(op.name()).concat(
                            " cannot be used between types ",
                        ).concat(l.kind_name()).concat(" and ").concat(rv.kind_name());
                        Err(Error { msg, start: node.start, end: node.end })
                    },
                }
            },
            _ => {
                let msg = String::from_str("Expected expression found statement");
                Err(Error { msg, start: node.start, end: node.end })
            },
        }
    }

    /// Evaluate the expression inside a neighbor sum and count how many of
    /// the eight Moore neighbors hold exactly that value.
    pub fn get_sum(&self, grid: &Vec<Vec<u8>>, x: usize, y: usize, expr: &PNode) -> (r: Result<
        Value,
        Error,
    >)
        requires
            x < usize::MAX,
            y < usize::MAX,
        ensures
            match spec_eval(self.consts(), spec_grid(grid@), x as int, y as int, spec_pnode(*expr)) {
                Ok(v) => r matches Ok(rv) && rv@ == SpecValue::Int(
                    spec_count_matching(
                        spec_neighbours(spec_grid(grid@), x as int, y as int),
                        v,
                    ) as u8,
                ),
                Err(e) => r matches Err(er) && er@ == e,
            },
    {
        let v = match self.evaluate(grid, x, y, expr) {
            Ok(v) => v,
            Err(e) => {
                return Err(e);
            },
        };
        let neigh = self.get_neighbours(grid, x, y);
        let n = count_matching(&neigh, &v);
        proof {
            lemma_count_matching_bounds(neigh@, v@);
        }
        Ok(Value::Int(n as u8))
    }

    /// Apply a binary operator to two evaluated sub-expressions; an
    /// undefined pairing is an evaluation fault carrying the given span.
    pub fn evaluate_binary(
        &self,
        grid: &Vec<Vec<u8>>,
        x: usize,
        y: usize,
        left: &PNode,
        op: &Token,
        right: &PNode,
        start: Position,
        end: Position,
    ) -> (r: Result<Value, Error>)
        requires
            x < usize::MAX,
            y < usize::MAX,
        ensures
            ({
                let cs = self.consts();
                let g = spec_grid(grid@);
                match spec_eval(cs, g, x as int, y as int, spec_pnode(*left)) {
                    Err(e) => r matches Err(er) && er@ == e,
                    Ok(lv) => match spec_eval(cs, g, x as int, y as int, spec_pnode(*right)) {
                        Err(e) => r matches Err(er) && er@ == e,
                        Ok(rv) => match spec_apply_op(spec_token(*op), lv, rv) {
                            Some(v) => r matches Ok(out) && out@ == v,
                            None => r matches Err(er) && er@ == (SpecError {
                                msg: spec_msg_bad_operand(spec_token(*op), lv, rv),
                                start: start,
                                end: end,
                            }),
                        },
                    },
                }
            }),
    {
        let l = match self.evaluate(grid, x, y, left) {
            Ok(v) => v,
            Err(e) => {
                return Err(e);
            },
        };
        let rv = match self.evaluate(grid, x, y, right) {
            Ok(v) => v,
            Err(e) => {
                return Err(e);
            },
        };
        match apply_op(op, &l, &rv) {
            Some(v) => Ok(v),
            None => {
                let msg = String::from_str("Operand ").concat(op.name()).concat(
                    " cannot be used between types ",
                ).concat(l.kind_name()).concat(" and ").concat(rv.kind_name());
                Err(Error { msg, start, end })
            },
        }
    }
}

/// What trying the rules at cell `(x, y)` gives, first match winning:
/// `Some` of the matched rule's coerced result, `None` when no rule matches,
/// or the first evaluation fault.  A rule matches when its centre is the
/// wildcard or numerically equals the cell's value `cur`, and its condition
/// is the wildcard or truthy; a centre or result without a numeric coercion
/// is a fault.
pub open spec fn spec_match_rules(
    rules: Seq<SpecRule>,
    consts: Seq<(Seq<char>, SpecValue)>,
    grid: Seq<Seq<u8>>,
    x: int,
    y: int,
    cur: u8,
) -> Result<Option<u8>, SpecError>
    decreases rules.len(),
{
    if rules.len() == 0 {
        Ok(None)
    } else {
        let rule = rules[0];
        match spec_eval(consts, grid, x, y, rule.centre) {
            Err(e) => Err(e),
            Ok(c) => {
                let centre_matches: Result<bool, SpecError> = if c == SpecValue::Unknown {
                    Ok(true)
                } else {
                    match spec_as_num(c) {
                        None => Err(
                            SpecError {
                                msg: "Expected number"@,
                                start: rule.centre.start,
                                end: rule.centre.end,
                            },
                        ),
                        Some(n) => Ok(n == cur),
                    }
                };
                match centre_matches {
                    Err(e) => Err(e),
                    Ok(false) => spec_match_rules(rules.drop_first(), consts, grid, x, y, cur),
                    Ok(true) => match spec_eval(consts, grid, x, y, rule.conditional) {
                        Err(e) => Err(e),
                        Ok(b) => if b == SpecValue::Unknown || spec_as_bool(b) {
                            match spec_eval(consts, grid, x, y, rule.result) {
                                Err(e) => Err(e),
                                Ok(res) => match spec_as_num(res) {
                                    None => Err(
                                        SpecError {
                                            msg: "Expected number"@,
                                            start: rule.result.start,
                                            end: rule.result.end,
                                        },
                                    ),
                                    Some(n) => Ok(Some(n)),
                                },
                            }
                        } else {
                            spec_match_rules(rules.drop_first(), consts, grid, x, y, cur)
                        },
                    },
                }
            },
        }
    }
}

/// The new value of cell `(x, y)` after one transition sweep: the first
/// matching rule's coerced result, or the old value when no rule matches.
pub open spec fn spec_cell_step(
    rules: Seq<SpecRule>,
    consts: Seq<(Seq<char>, SpecValue)>,
    grid: Seq<Seq<u8>>,
    x: int,
    y: int,
) -> Result<u8, SpecError> {
    match spec_match_rules(rules, consts, grid, x, y, spec_cell(grid, x, y)) {
        Err(e) => Err(e),
        Ok(None) => Ok(spec_cell(grid, x, y)),
        Ok(Some(n)) => Ok(n),
    }
}

/// The cells of row `y` from column `x` on after one transition sweep, each
/// computed from the pre-sweep grid alone.
pub open spec fn spec_transition_row(
    rules: Seq<SpecRule>,
    consts: Seq<(Seq<char>, SpecValue)>,
    grid: Seq<Seq<u8>>,
    y: int,
    x: int,
) -> Result<Seq<u8>, SpecError>
    decreases grid[y].len() - x,
        when 0 <= y < grid.len() && 0 <= x <= grid[y].len()
{
    if x >= grid[y].len() {
        Ok(Seq::empty())
    } else {
        match spec_cell_step(rules, consts, grid, x, y) {
            Err(e) => Err(e),
            Ok(n) => match spec_transition_row(rules, consts, grid, y, x + 1) {
                Err(e) => Err(e),
                Ok(rest) => Ok(seq![n] + rest),
            },
        }
    }
}

/// The rows of the grid from row `y` on after one transition sweep, each
/// cell computed from the pre-sweep grid alone; the first evaluation fault,
/// in row-major order, aborts the sweep.
pub open spec fn spec_transition_rows(
    rules: Seq<SpecRule>,
    consts: Seq<(Seq<char>, SpecValue)>,
    grid: Seq<Seq<u8>>,
    y: int,
) -> Result<Seq<Seq<u8>>, SpecError>
    decreases grid.len() - y,
        when 0 <= y <= grid.len()
{
    if y >= grid.len() {
        Ok(Seq::empty())
    } else {
        match spec_transition_row(rules, consts, grid, y, 0) {
            Err(e) => Err(e),
            Ok(row) => match spec_transition_rows(rules, consts, grid, y + 1) {
                Err(e) => Err(e),
                Ok(rest) => Ok(seq![row] + rest),
            },
        }
    }
}

/// The render outputs of row `y` from column `x` on: for each cell, the
/// first matching render rule's coerced result, or nothing.
pub open spec fn spec_render_row(
    rules: Seq<SpecRule>,
    consts: Seq<(Seq<char>, SpecValue)>,
    grid: Seq<Seq<u8>>,
    y: int,
    x: int,
) -> Result<Seq<Option<u8>>, SpecError>
    decreases grid[y].len() - x,
        when 0 <= y < grid.len() && 0 <= x <= grid[y].len()
{
    if x >= grid[y].len() {
        Ok(Seq::empty())
    } else {
        match spec_match_rules(rules, consts, grid, x, y, spec_cell(grid, x, y)) {
            Err(e) => Err(e),
            Ok(out) => match spec_render_row(rules, consts, grid, y, x + 1) {
                Err(e) => Err(e),
                Ok(rest) => Ok(seq![out] + rest),
            },
        }
    }
}

/// The render outputs of the grid from row `y` on.
pub open spec fn spec_render_rows(
    rules: Seq<SpecRule>,
    consts: Seq<(Seq<char>, SpecValue)>,
    grid: Seq<Seq<u8>>,
    y: int,
) -> Result<Seq<Seq<Option<u8>>>, SpecError>
    decreases grid.len() - y,
        when 0 <= y <= grid.len()
{
    if y >= grid.len() {
        Ok(Seq::empty())
    } else {
        match spec_render_row(rules, consts, grid, y, 0) {
            Err(e) => Err(e),
            Ok(row) => match spec_render_rows(rules, consts, grid, y + 1) {
                Err(e) => Err(e),
                Ok(rest) => Ok(seq![row] + rest),
            },
        }
    }
}

/// The image of a rendered output grid.
pub open spec fn spec_render_views(v: Seq<Vec<Option<u8>>>) -> Seq<Seq<Option<u8>>> {
    v.map_values(|row: Vec<Option<u8>>| row@)
}

impl Interpreter {
    /// The image of the transition-rule list.
    pub open spec fn mrules(&self) -> Seq<SpecRule> {
        spec_rule_views(self.match_statements@)
    }

    /// The image of the render-rule list.
    pub open spec fn prules(&self) -> Seq<SpecRule> {
        spec_rule_views(self.print_statements@)
    }

    /// The value cell `(x, y)` takes after one transition sweep over `grid`,
    /// as `spec_cell_step`: the first matching transition rule decides, and
    /// a cell no rule matches keeps its value.
    pub fn match_cell(&self, grid: &Vec<Vec<u8>>, x: usize, y: usize) -> (r: Result<u8, Error>)
        requires
            x < usize::MAX,
            y < usize::MAX,
        ensures
            match spec_cell_step(self.mrules(), self.consts(), spec_grid(grid@), x as int, y as int) {
                Ok(n) => r matches Ok(out) && out == n,
                Err(e) => r matches Err(er) && er@ == e,
            },
    {
        let cur = grid_cell(grid, x, y);
        match self.try_rules(&self.match_statements, grid, x, y, cur) {
            Ok(Some(n)) => Ok(n),
            Ok(None) => Ok(cur),
            Err(e) => Err(e),
        }
    }

    /// The render output of cell `(x, y)` over `grid`, as
    /// `spec_match_rules` on the render-rule list: the first matching render
    /// rule's coerced result, or nothing.
    pub fn print_cell(&self, grid: &Vec<Vec<u8>>, x: usize, y: usize) -> (r: Result<
        Option<u8>,
        Error,
    >)
        requires
            x < usize::MAX,
            y < usize::MAX,
        ensures
            ({
                let g = spec_grid(grid@);
                match spec_match_rules(
                    self.prules(),
                    self.consts(),
                    g,
                    x as int,
                    y as int,
                    spec_cell(g, x as int, y as int),
                ) {
                    Ok(out) => r matches Ok(o) && o == out,
                    Err(e) => r matches Err(er) && er@ == e,
                }
            }),
    {
        let cur = grid_cell(grid, x, y);
        self.try_rules(&self.print_statements, grid, x, y, cur)
    }

    /// Try each rule of `rules` in order at cell `(x, y)` with current value
    /// `cur`, exactly as `spec_match_rules` states it.
    fn try_rules(
        &self,
        rules: &Vec<Rule>,
        grid: &Vec<Vec<u8>>,
        x: usize,
        y: usize,
        cur: u8,
    ) -> (r: Result<Option<u8>, Error>)
        requires
            x < usize::MAX,
            y < usize::MAX,
        ensures
            match spec_match_rules(
                spec_rule_views(rules@),
                self.consts(),
                spec_grid(grid@),
                x as int,
                y as int,
                cur,
            ) {
                Ok(out) => r matches Ok(o) && o == out,
                Err(e) => r matches Err(er) && er@ == e,
            },
    {
        let ghost rs = spec_rule_views(rules@);
        let ghost cs = self.consts();
        let ghost g = spec_grid(grid@);
        let mut i: usize = 0;
        proof {
            assert(rs.skip(0) =~= rs);
        }
        while i < rules.len()
            invariant
                i <= rules.len(),
                x < usize::MAX,
                y < usize::MAX,
                rs == spec_rule_views(rules@),
                cs == self.consts(),
                g == spec_grid(grid@),
                rs.len() == rules@.len(),
                spec_match_rules(rs, cs, g, x as int, y as int, cur) == spec_match_rules(
                    rs.skip(i as int),
                    cs,
                    g,
                    x as int,
                    y as int,
                    cur,
                ),
            decreases rules.len() - i,
        {
            let rule = &rules[i];
            proof {
                assert(rs.skip(i as int)[0] == rs[i as int]);
                assert(rs.skip(i as int).drop_first() =~= rs.skip(i + 1));
            }
            let c = match self.evaluate(grid, x, y, &rule.centre) {
                Ok(v) => v,
                Err(e) => {
                    return Err(e);
                },
            };
            let centre_matches: bool = if matches!(c, Value::Unknown) {
                true
            } else {
                match c.as_num_opt() {
                    None => {
                        let msg = String::from_str("Expected number");
                        return Err(Error { msg, start: rule.centre.start, end: rule.centre.end });
                    },
                    Some(n) => n == cur,
                }
            };
            if centre_matches {
                let b = match self.evaluate(grid, x, y, &rule.conditional) {
                    Ok(v) => v,
                    Err(e) => {
                        return Err(e);
                    },
                };
                if matches!(b, Value::Unknown) || b.as_bool() {
                    let res = match self.evaluate(grid, x, y, &rule.result) {
                        Ok(v) => v,
                        Err(e) => {
                            return Err(e);
                        },
                    };
                    match res.as_num_opt() {
                        None => {
                            let msg = String::from_str("Expected number");
                            return Err(
                                Error { msg, start: rule.result.start, end: rule.result.end },
                            );
                        },
                        Some(n) => {
                            return Ok(Some(n));
                        },
                    }
                }
            }
            i = i + 1;
        }
        proof {
            assert(rs.skip(rules@.len() as int) =~= Seq::<SpecRule>::empty());
        }
        Ok(None)
    }

    /// One full tick: a transition sweep that rewrites every cell from the
    /// pre-tick grid alone, committed whole, then a render sweep over the
    /// updated grid whose outputs are returned row-major.  The first
    /// evaluation fault aborts the tick; a fault during the transition sweep
    /// leaves the grid unchanged.
    pub fn match_cells(&mut self) -> (r: Result<Vec<Vec<Option<u8>>>, Error>)
        ensures
            final(self).instructions@ == old(self).instructions@,
            final(self).constants@ == old(self).constants@,
            final(self).functions@ == old(self).functions@,
            final(self).match_statements@ == old(self).match_statements@,
            final(self).print_statements@ == old(self).print_statements@,
            final(self).index == old(self).index,
            ({
                let rules = old(self).mrules();
                let prules = old(self).prules();
                let cs = old(self).consts();
                let g0 = old(self).grid();
                match spec_transition_rows(rules, cs, g0, 0) {
                    Err(e) => r matches Err(er) && er@ == e && final(self).memory@ == old(
                        self,
                    ).memory@,
                    Ok(newg) => final(self).grid() == newg && match spec_render_rows(
                        prules,
                        cs,
                        newg,
                        0,
                    ) {
                        Err(e) => r matches Err(er) && er@ == e,
                        Ok(outs) => r matches Ok(v) && spec_render_views(v@) == outs,
                    },
                }
            }),
    {
        let ghost rules = self.mrules();
        let ghost prules = self.prules();
        let ghost cs = self.consts();
        let ghost g0 = self.grid();
        let mut newmem: Vec<Vec<u8>> = Vec::new();
        let mut y: usize = 0;
        proof {
            assert(spec_grid(newmem@) =~= Seq::<Seq<u8>>::empty());
        }
        while y < self.memory.len()
            invariant
                y <= self.memory@.len(),
                *self == *old(self),
                rules == self.mrules(),
                cs == self.consts(),
                g0 == self.grid(),
                g0.len() == self.memory@.len(),
                spec_transition_rows(rules, cs, g0, 0) == (match spec_transition_rows(
                    rules,
                    cs,
                    g0,
                    y as int,
                ) {
                    Ok(rest) => Ok::<Seq<Seq<u8>>, SpecError>(spec_grid(newmem@) + rest),
                    Err(e) => Err(e),
                }),
            decreases self.memory@.len() - y,
        {
            let mut row: Vec<u8> = Vec::new();
            let mut x: usize = 0;
            let width = self.memory[y].len();
            proof {
                assert(row@ =~= Seq::<u8>::empty());
            }
            while x < width
                invariant
                    x <= width,
                    y < self.memory@.len(),
                    y < usize::MAX,
                    width == g0[y as int].len(),
                    *self == *old(self),
                    rules == self.mrules(),
                    cs == self.consts(),
                    g0 == self.grid(),
                    g0.len() == self.memory@.len(),
                    spec_transition_rows(rules, cs, g0, 0) == (match spec_transition_rows(
                        rules,
                        cs,
                        g0,
                        y as int,
                    ) {
                        Ok(rest) => Ok::<Seq<Seq<u8>>, SpecError>(spec_grid(newmem@) + rest),
                        Err(e) => Err(e),
                    }),
                    spec_transition_row(rules, cs, g0, y as int, 0) == (match spec_transition_row(
                        rules,
                        cs,
                        g0,
                        y as int,
                        x as int,
                    ) {
                        Ok(rest) => Ok::<Seq<u8>, SpecError>(row@ + rest),
                        Err(e) => Err(e),
                    }),
                decreases width - x,
            {
                let n = match self.match_cell(&self.memory, x, y) {
                    Ok(n) => n,
                    Err(e) => {
                        return Err(e);
                    },
                };
                proof {
                    match spec_transition_row(rules, cs, g0, y as int, x + 1) {
                        Ok(rest) => {
                            assert(row@.push(n) + rest =~= row@ + (seq![n] + rest));
                        },
                        Err(_) => {},
                    }
                }
                row.push(n);
                x = x + 1;
            }
            proof {
                assert(spec_transition_row(rules, cs, g0, y as int, width as int) == Ok::<
                    Seq<u8>,
                    SpecError,
                >(Seq::empty()));
                assert(row@ + Seq::<u8>::empty() =~= row@);
                match spec_transition_rows(rules, cs, g0, y + 1) {
                    Ok(rest) => {
                        assert(spec_grid(newmem@).push(row@) + rest =~= spec_grid(newmem@) + (seq![
                            row@,
                        ] + rest));
                        assert(spec_grid(newmem@.push(row)) =~= spec_grid(newmem@).push(row@));
                    },
                    Err(_) => {
                        assert(spec_grid(newmem@.push(row)) =~= spec_grid(newmem@).push(row@));
                    },
                }
            }
            newmem.push(row);
            y = y + 1;
        }
        proof {
            assert(spec_transition_rows(rules, cs, g0, g0.len() as int) == Ok::<
                Seq<Seq<u8>>,
                SpecError,
            >(Seq::empty()));
            assert(spec_grid(newmem@) + Seq::<Seq<u8>>::empty() =~= spec_grid(newmem@));
        }
        self.memory = newmem;
        // Render pass over the committed grid.
        let ghost newg = self.grid();
        let mut outs: Vec<Vec<Option<u8>>> = Vec::new();
        let mut ry: usize = 0;
        proof {
            assert(spec_render_views(outs@) =~= Seq::<Seq<Option<u8>>>::empty());
        }
        while ry < self.memory.len()
            invariant
                ry <= self.memory@.len(),
                rules == old(self).mrules(),
                g0 == old(self).grid(),
                spec_transition_rows(rules, cs, g0, 0) == Ok::<Seq<Seq<u8>>, SpecError>(newg),
                self.instructions@ == old(self).instructions@,
                self.constants@ == old(self).constants@,
                self.functions@ == old(self).functions@,
                self.match_statements@ == old(self).match_statements@,
                self.print_statements@ == old(self).print_statements@,
                self.index == old(self).index,
                prules == self.prules(),
                cs == self.consts(),
                newg == self.grid(),
                newg.len() == self.memory@.len(),
                spec_render_rows(prules, cs, newg, 0) == (match spec_render_rows(
                    prules,
                    cs,
                    newg,
                    ry as int,
                ) {
                    Ok(rest) => Ok::<Seq<Seq<Option<u8>>>, SpecError>(
                        spec_render_views(outs@) + rest,
                    ),
                    Err(e) => Err(e),
                }),
            decreases self.memory@.len() - ry,
        {
            let mut orow: Vec<Option<u8>> = Vec::new();
            let mut rx: usize = 0;
            let width = self.memory[ry].len();
            proof {
                assert(orow@ =~= Seq::<Option<u8>>::empty());
            }
            while rx < width
                invariant
                    rx <= width,
                    ry < self.memory@.len(),
                    ry < usize::MAX,
                    width == newg[ry as int].len(),
                    rules == old(self).mrules(),
                    g0 == old(self).grid(),
                    spec_transition_rows(rules, cs, g0, 0) == Ok::<Seq<Seq<u8>>, SpecError>(newg),
                    spec_render_rows(prules, cs, newg, 0) == (match spec_render_rows(
                        prules,
                        cs,
                        newg,
                        ry as int,
                    ) {
                        Ok(rest) => Ok::<Seq<Seq<Option<u8>>>, SpecError>(
                            spec_render_views(outs@) + rest,
                        ),
                        Err(e) => Err(e),
                    }),
                    self.instructions@ == old(self).instructions@,
                    self.constants@ == old(self).constants@,
                    self.functions@ == old(self).functions@,
                    self.match_statements@ == old(self).match_statements@,
                    self.print_statements@ == old(self).print_statements@,
                    self.index == old(self).index,
                    prules == self.prules(),
                    cs == self.consts(),
                    newg == self.grid(),
                    newg.len() == self.memory@.len(),
                    spec_render_row(prules, cs, newg, ry as int, 0) == (match spec_render_row(
                        prules,
                        cs,
                        newg,
                        ry as int,
                        rx as int,
                    ) {
                        Ok(rest) => Ok::<Seq<Option<u8>>, SpecError>(orow@ + rest),
                        Err(e) => Err(e),
                    }),
                decreases width - rx,
            {
                let o = match self.print_cell(&self.memory, rx, ry) {
                    Ok(o) => o,
                    Err(e) => {
                        return Err(e);
                    },
                };
                proof {
                    match spec_render_row(prules, cs, newg, ry as int, rx + 1) {
                        Ok(rest) => {
                            assert(orow@.push(o) + rest =~= orow@ + (seq![o] + rest));
                        },
                        Err(_) => {},
                    }
                }
                orow.push(o);
                rx = rx + 1;
            }
            proof {
                assert(spec_render_row(prules, cs, newg, ry as int, width as int) == Ok::<
                    Seq<Option<u8>>,
                    SpecError,
                >(Seq::empty()));
                assert(orow@ + Seq::<Option<u8>>::empty() =~= orow@);
                match spec_render_rows(prules, cs, newg, ry + 1) {
                    Ok(rest) => {
                        assert(spec_render_views(outs@).push(orow@) + rest =~= spec_render_views(
                            outs@,
                        ) + (seq![orow@] + rest));
                        assert(spec_render_views(outs@.push(orow)) =~= spec_render_views(
                            outs@,
                        ).push(orow@));
                    },
                    Err(_) => {
                        assert(spec_render_views(outs@.push(orow)) =~= spec_render_views(
                            outs@,
                        ).push(orow@));
                    },
                }
            }
            outs.push(orow);
            ry = ry + 1;
        }
        proof {
            assert(spec_render_rows(prules, cs, newg, newg.len() as int) == Ok::<
                Seq<Seq<Option<u8>>>,
                SpecError,
            >(Seq::empty()));
            assert(spec_render_views(outs@) + Seq::<Seq<Option<u8>>>::empty() =~= spec_render_views(
                outs@,
            ));
        }
        Ok(outs)
    }
}

/// The loaded environment: constants, functions, the grid, and the two rule
/// lists, each in insertion order.
pub ghost struct SpecEnv {
    pub consts: Seq<(Seq<char>, SpecValue)>,
    pub funs: Seq<SpecFunctionDef>,
    pub memory: Seq<Seq<u8>>,
    pub mrules: Seq<SpecRule>,
    pub prules: Seq<SpecRule>,
}

/// One palette row resolved against the constant table: each name must be
/// bound and its value must coerce to a cell value; the diagnostic carries
/// the grid block's span.
pub open spec fn spec_resolve_row(
    consts: Seq<(Seq<char>, SpecValue)>,
    row: Seq<Seq<char>>,
    start: Position,
    end: Position,
) -> Result<Seq<u8>, SpecError>
    decreases row.len(),
{
    if row.len() == 0 {
        Ok(Seq::empty())
    } else {
        match spec_lookup(consts, row[0]) {
            None => Err(
                SpecError { msg: "No value for constant "@ + row[0], start: start, end: end },
            ),
            Some(v) => match spec_as_num(v) {
                None => Err(SpecError { msg: "Expected number"@, start: start, end: end }),
                Some(n) => match spec_resolve_row(consts, row.drop_first(), start, end) {
                    Err(e) => Err(e),
                    Ok(rest) => Ok(seq![n] + rest),
                },
            },
        }
    }
}

/// A whole palette resolved row by row.
pub open spec fn spec_resolve_rows(
    consts: Seq<(Seq<char>, SpecValue)>,
    rows: Seq<Seq<Seq<char>>>,
    start: Position,
    end: Position,
) -> Result<Seq<Seq<u8>>, SpecError>
    decreases rows.len(),
{
    if rows.len() == 0 {
        Ok(Seq::empty())
    } else {
        match spec_resolve_row(consts, rows[0], start, end) {
            Err(e) => Err(e),
            Ok(row) => match spec_resolve_rows(consts, rows.drop_first(), start, end) {
                Err(e) => Err(e),
                Ok(rest) => Ok(seq![row] + rest),
            },
        }
    }
}

/// What loading one statement does to the environment: a definition
/// evaluates its expression against the constants loaded so far and binds
/// the name; a function declaration is stored unevaluated; a rule joins the
/// transition or render list in declaration order; a grid block resolves its
/// palette and becomes the grid; any other node is evaluated for effect and
/// discarded.
pub open spec fn spec_load_one(env: SpecEnv, node: SpecPNode) -> Result<SpecEnv, SpecError> {
    match node.inner {
        SpecNode::Definition { name, value } => match spec_eval(
            env.consts,
            env.memory,
            0,
            0,
            *value,
        ) {
            Err(e) => Err(e),
            Ok(v) => Ok(SpecEnv { consts: env.consts.push((name, v)), ..env }),
        },
        SpecNode::Function { name, params, body } => Ok(
            SpecEnv {
                funs: env.funs.push(SpecFunctionDef { name: name, params: params, body: *body }),
                ..env
            },
        ),
        SpecNode::Main { centre, conditional, result, is_render } => {
            let rule = SpecRule { centre: *centre, conditional: *conditional, result: *result };
            if is_render {
                Ok(SpecEnv { prules: env.prules.push(rule), ..env })
            } else {
                Ok(SpecEnv { mrules: env.mrules.push(rule), ..env })
            }
        },
        SpecNode::Memory(rows) => match spec_resolve_rows(env.consts, rows, node.start, node.end) {
            Err(e) => Err(e),
            Ok(grid) => Ok(SpecEnv { memory: grid, ..env }),
        },
        _ => match spec_eval(env.consts, env.memory, 0, 0, node) {
            Err(e) => Err(e),
            Ok(_) => Ok(env),
        },
    }
}

/// What loading a statement list does: a single forward pass, each statement
/// seeing the environment the earlier ones built; the first fault aborts.
pub open spec fn spec_load_all(env: SpecEnv, nodes: Seq<SpecPNode>) -> Result<SpecEnv, SpecError>
    decreases nodes.len(),
{
    if nodes.len() == 0 {
        Ok(env)
    } else {
        match spec_load_one(env, nodes[0]) {
            Err(e) => Err(e),
            Ok(env2) => spec_load_all(env2, nodes.drop_first()),
        }
    }
}

impl Interpreter {
    /// The image of the whole environment.
    pub open spec fn env(&self) -> SpecEnv {
        SpecEnv {
            consts: self.consts(),
            funs: spec_fun_views(self.functions@),
            memory: self.grid(),
            mrules: self.mrules(),
            prules: self.prules(),
        }
    }

    /// Load every instruction into the environment, exactly as
    /// `spec_load_all` states it; the first fault aborts the load.
    pub fn load_instructions(&mut self) -> (r: Result<(), Error>)
        ensures
            final(self).instructions@ == old(self).instructions@,
            final(self).index == old(self).index,
            match spec_load_all(old(self).env(), spec_pnode_views(old(self).instructions@)) {
                Ok(env) => r is Ok && final(self).env() == env,
                Err(e) => r matches Err(er) && er@ == e,
            },
    {
        let ghost nodes = spec_pnode_views(self.instructions@);
        let ghost env0 = self.env();
        let mut i: usize = 0;
        proof {
            crate::ast::lemma_pnode_views_len(self.instructions@);
            assert(nodes.skip(0) =~= nodes);
        }
        while i < self.instructions.len()
            invariant
                i <= self.instructions@.len(),
                self.instructions@ == old(self).instructions@,
                self.index == old(self).index,
                nodes == spec_pnode_views(old(self).instructions@),
                nodes.len() == self.instructions@.len(),
                env0 == old(self).env(),
                spec_load_all(env0, nodes) == spec_load_all(self.env(), nodes.skip(i as int)),
            decreases self.instructions@.len() - i,
        {
            let ghost env_cur = self.env();
            proof {
                crate::ast::lemma_pnode_views_index(self.instructions@, i as int);
                assert(nodes.skip(i as int)[0] == nodes[i as int]);
                assert(nodes.skip(i as int).drop_first() =~= nodes.skip(i + 1));
            }
            let node = clone_pnode(&self.instructions[i]);
            match node.inner {
                Node::Definition { name, value } => {
                    let v = match self.evaluate(&self.memory, 0, 0, &value) {
                        Ok(v) => v,
                        Err(e) => {
                            return Err(e);
                        },
                    };
                    proof {
                        assert(spec_const_views(self.constants@.push((name, v)))
                            =~= spec_const_views(self.constants@).push((name@, v@)));
                    }
                    self.constants.push((name, v));
                },
                Node::Function { name, params, body } => {
                    let f = FunctionDef { name, params, body: *body };
                    proof {
                        assert(spec_fun_views(self.functions@.push(f)) =~= spec_fun_views(
                            self.functions@,
                        ).push(f@));
                    }
                    self.functions.push(f);
                },
                Node::Main { centre, conditional, result, is_render } => {
                    let rule = Rule { centre: *centre, conditional: *conditional, result: *result };
                    if is_render {
                        proof {
                            assert(spec_rule_views(self.print_statements@.push(rule))
                                =~= spec_rule_views(self.print_statements@).push(rule@));
                        }
                        self.print_statements.push(rule);
                    } else {
                        proof {
                            assert(spec_rule_views(self.match_statements@.push(rule))
                                =~= spec_rule_views(self.match_statements@).push(rule@));
                        }
                        self.match_statements.push(rule);
                    }
                },
                Node::Memory(rows) => {
                    let grid = match self.resolve_rows(&rows, node.start, node.end) {
                        Ok(g) => g,
                        Err(e) => {
                            return Err(e);
                        },
                    };
                    self.memory = grid;
                },
                other => {
                    let whole = Positioned { inner: other, start: node.start, end: node.end };
                    match self.evaluate(&self.memory, 0, 0, &whole) {
                        Ok(_) => {},
                        Err(e) => {
                            return Err(e);
                        },
                    }
                },
            }
            i = i + 1;
        }
        proof {
            assert(nodes.skip(nodes.len() as int) =~= Seq::<SpecPNode>::empty());
        }
        Ok(())
    }

    /// Resolve a grid block's palette rows against the constant table, as
    /// `spec_resolve_rows`.
    fn resolve_rows(&self, rows: &Vec<Vec<String>>, start: Position, end: Position) -> (r: Result<
        Vec<Vec<u8>>,
        Error,
    >)
        ensures
            match spec_resolve_rows(
                self.consts(),
                crate::ast::spec_row_views(rows@),
                start,
                end,
            ) {
                Ok(g) => r matches Ok(v) && spec_grid(v@) == g,
                Err(e) => r matches Err(er) && er@ == e,
            },
    {
        let ghost cs = self.consts();
        let ghost rvs = crate::ast::spec_row_views(rows@);
        let mut out: Vec<Vec<u8>> = Vec::new();
        let mut i: usize = 0;
        proof {
            crate::ast::lemma_row_views_len(rows@);
            assert(rvs.skip(0) =~= rvs);
            assert(spec_grid(out@) =~= Seq::<Seq<u8>>::empty());
        }
        while i < rows.len()
            invariant
                i <= rows.len(),
                cs == self.consts(),
                rvs == crate::ast::spec_row_views(rows@),
                rvs.len() == rows@.len(),
                spec_resolve_rows(cs, rvs, start, end) == (match spec_resolve_rows(
                    cs,
                    rvs.skip(i as int),
                    start,
                    end,
                ) {
                    Ok(rest) => Ok::<Seq<Seq<u8>>, SpecError>(spec_grid(out@) + rest),
                    Err(e) => Err(e),
                }),
            decreases rows.len() - i,
        {
            proof {
                crate::ast::lemma_row_views_index(rows@, i as int);
                assert(rvs.skip(i as int)[0] == rvs[i as int]);
                assert(rvs.skip(i as int).drop_first() =~= rvs.skip(i + 1));
            }
            let row = match self.resolve_row(&rows[i], start, end) {
                Ok(r0) => r0,
                Err(e) => {
                    return Err(e);
                },
            };
            proof {
                match spec_resolve_rows(cs, rvs.skip(i + 1), start, end) {
                    Ok(rest) => {
                        assert(spec_grid(out@).push(row@) + rest =~= spec_grid(out@) + (seq![row@]
                            + rest));
                        assert(spec_grid(out@.push(row)) =~= spec_grid(out@).push(row@));
                    },
                    Err(_) => {
                        assert(spec_grid(out@.push(row)) =~= spec_grid(out@).push(row@));
                    },
                }
            }
            out.push(row);
            i = i + 1;
        }
        proof {
            assert(rvs.skip(rvs.len() as int) =~= Seq::<Seq<Seq<char>>>::empty());
            assert(spec_grid(out@) + Seq::<Seq<u8>>::empty() =~= spec_grid(out@));
        }
        Ok(out)
    }

    /// Resolve one palette row, as `spec_resolve_row`.
    fn resolve_row(&self, row: &Vec<String>, start: Position, end: Position) -> (r: Result<
        Vec<u8>,
        Error,
    >)
        ensures
            match spec_resolve_row(
                self.consts(),
                crate::ast::spec_string_views(row@),
                start,
                end,
            ) {
                Ok(cells) => r matches Ok(v) && v@ == cells,
                Err(e) => r matches Err(er) && er@ == e,
            },
    {
        let ghost cs = self.consts();
        let ghost names = crate::ast::spec_string_views(row@);
        let mut out: Vec<u8> = Vec::new();
        let mut i: usize = 0;
        proof {
            crate::ast::lemma_string_views_len(row@);
            assert(names.skip(0) =~= names);
            assert(out@ =~= Seq::<u8>::empty());
        }
        while i < row.len()
            invariant
                i <= row.len(),
                cs == self.consts(),
                names == crate::ast::spec_string_views(row@),
                names.len() == row@.len(),
                spec_resolve_row(cs, names, start, end) == (match spec_resolve_row(
                    cs,
                    names.skip(i as int),
                    start,
                    end,
                ) {
                    Ok(rest) => Ok::<Seq<u8>, SpecError>(out@ + rest),
                    Err(e) => Err(e),
                }),
            decreases row.len() - i,
        {
            proof {
                crate::ast::lemma_string_views_index(row@, i as int);
                assert(names.skip(i as int)[0] == names[i as int]);
                assert(names.skip(i as int).drop_first() =~= names.skip(i + 1));
            }
            let name = &row[i];
            let v = match lookup_constant(&self.constants, name.as_str()) {
                Some(v) => v,
                None => {
                    let msg = String::from_str("No value for constant ").concat(name.as_str());
                    return Err(Error { msg, start, end });
                },
            };
            let n = match v.as_num_opt() {
                Some(n) => n,
                None => {
                    let msg = String::from_str("Expected number");
                    return Err(Error { msg, start, end });
                },
            };
            proof {
                match spec_resolve_row(cs, names.skip(i + 1), start, end) {
                    Ok(rest) => {
                        assert(out@.push(n) + rest =~= out@ + (seq![n] + rest));
                    },
                    Err(_) => {},
                }
            }
            out.push(n);
            i = i + 1;
        }
        proof {
            assert(names.skip(names.len() as int) =~= Seq::<Seq<char>>::empty());
            assert(out@ + Seq::<u8>::empty() =~= out@);
        }
        Ok(out)
    }
}

/// A rule fires at a cell holding `cur`: its centre and condition evaluate
/// without fault, the centre is the wildcard or numerically equals `cur`,
/// and the condition is the wildcard or truthy.
pub open spec fn spec_rule_fires(
    rule: SpecRule,
    consts: Seq<(Seq<char>, SpecValue)>,
    grid: Seq<Seq<u8>>,
    x: int,
    y: int,
    cur: u8,
) -> bool {
    match spec_eval(consts, grid, x, y, rule.centre) {
        Err(_) => false,
        Ok(c) => {
            let centre_ok = c == SpecValue::Unknown || (c != SpecValue::Unknown && spec_as_num(c)
                == Some(cur));
            centre_ok && match spec_eval(consts, grid, x, y, rule.conditional) {
                Err(_) => false,
                Ok(b) => b == SpecValue::Unknown || spec_as_bool(b),
            }
        },
    }
}

/// A rule cleanly declines at a cell holding `cur`: everything it evaluates
/// does so without fault, and either its centre numerically differs from
/// `cur`, or its condition is neither the wildcard nor truthy.
pub open spec fn spec_rule_declines(
    rule: SpecRule,
    consts: Seq<(Seq<char>, SpecValue)>,
    grid: Seq<Seq<u8>>,
    x: int,
    y: int,
    cur: u8,
) -> bool {
    match spec_eval(consts, grid, x, y, rule.centre) {
        Err(_) => false,
        Ok(c) => {
            if c == SpecValue::Unknown {
                match spec_eval(consts, grid, x, y, rule.conditional) {
                    Err(_) => false,
                    Ok(b) => b != SpecValue::Unknown && !spec_as_bool(b),
                }
            } else {
                match spec_as_num(c) {
                    None => false,
                    Some(n) => n != cur || match spec_eval(consts, grid, x, y, rule.conditional) {
                        Err(_) => false,
                        Ok(b) => b != SpecValue::Unknown && !spec_as_bool(b),
                    },
                }
            }
        },
    }
}

/// Rule precedence: when every rule before `j` declines at a cell and rule
/// `j` fires with a result that coerces to `n`, the sweep gives that cell
/// exactly rule `j`'s result — only the first matching rule in declaration
/// order fires.
pub proof fn lemma_first_rule_wins(
    rules: Seq<SpecRule>,
    consts: Seq<(Seq<char>, SpecValue)>,
    grid: Seq<Seq<u8>>,
    x: int,
    y: int,
    cur: u8,
    j: int,
    n: u8,
)
    requires
        0 <= j < rules.len(),
        forall|k: int| 0 <= k < j ==> spec_rule_declines(#[trigger] rules[k], consts, grid, x, y, cur),
        spec_rule_fires(rules[j], consts, grid, x, y, cur),
        spec_eval(consts, grid, x, y, rules[j].result) matches Ok(res) && spec_as_num(res) == Some(
            n,
        ),
    ensures
        spec_match_rules(rules, consts, grid, x, y, cur) == Ok::<Option<u8>, SpecError>(Some(n)),
    decreases j,
{
    if j == 0 {
    } else {
        assert(spec_rule_declines(rules[0], consts, grid, x, y, cur));
        let rest = rules.drop_first();
        assert forall|k: int| 0 <= k < j - 1 implies spec_rule_declines(
            #[trigger] rest[k],
            consts,
            grid,
            x,
            y,
            cur,
        ) by {
            assert(rest[k] == rules[k + 1]);
        }
        assert(rest[j - 1] == rules[j]);
        lemma_first_rule_wins(rest, consts, grid, x, y, cur, j - 1, n);
    }
}

/// The cells a sweep gives for row `y` from column `x` on are exactly the
/// per-cell step function of the pre-sweep grid.
pub proof fn lemma_transition_row_cellwise(
    rules: Seq<SpecRule>,
    consts: Seq<(Seq<char>, SpecValue)>,
    grid: Seq<Seq<u8>>,
    y: int,
    x: int,
    cells: Seq<u8>,
)
    requires
        0 <= y < grid.len(),
        0 <= x <= grid[y].len(),
        spec_transition_row(rules, consts, grid, y, x) == Ok::<Seq<u8>, SpecError>(cells),
    ensures
        cells.len() == grid[y].len() - x,
        forall|k: int|
            0 <= k < cells.len() ==> spec_cell_step(rules, consts, grid, x + k, y) == Ok::<
                u8,
                SpecError,
            >(#[trigger] cells[k]),
    decreases grid[y].len() - x,
{
    if x < grid[y].len() {
        match spec_cell_step(rules, consts, grid, x, y) {
            Ok(n0) => {
                match spec_transition_row(rules, consts, grid, y, x + 1) {
                    Ok(rest) => {
                        lemma_transition_row_cellwise(rules, consts, grid, y, x + 1, rest);
                        assert(cells =~= seq![n0] + rest);
                        assert forall|k: int|
                            0 <= k < cells.len() implies spec_cell_step(
                            rules,
                            consts,
                            grid,
                            x + k,
                            y,
                        ) == Ok::<u8, SpecError>(#[trigger] cells[k]) by {
                            if k > 0 {
                                assert(cells[k] == rest[k - 1]);
                                assert(spec_cell_step(rules, consts, grid, (x + 1) + (k - 1), y)
                                    == Ok::<u8, SpecError>(rest[k - 1]));
                            }
                        }
                    },
                    Err(_) => {},
                }
            },
            Err(_) => {},
        }
    }
}

/// Transition determinism: a sweep's whole output is the per-cell step
/// function of the grid as it stood before the sweep — each output cell
/// depends only on the pre-sweep grid, never on a value written earlier in
/// the same sweep, exactly as a fully buffered simulation would compute it.
pub proof fn lemma_transition_depends_only_on_pre_grid(
    rules: Seq<SpecRule>,
    consts: Seq<(Seq<char>, SpecValue)>,
    grid: Seq<Seq<u8>>,
    y: int,
    rows: Seq<Seq<u8>>,
)
    requires
        0 <= y <= grid.len(),
        spec_transition_rows(rules, consts, grid, y) == Ok::<Seq<Seq<u8>>, SpecError>(rows),
    ensures
        rows.len() == grid.len() - y,
        forall|r: int|
            0 <= r < rows.len() ==> (#[trigger] rows[r]).len() == grid[y + r].len(),
        forall|r: int, c: int|
            0 <= r < rows.len() && 0 <= c < rows[r].len() ==> spec_cell_step(
                rules,
                consts,
                grid,
                c,
                y + r,
            ) == Ok::<u8, SpecError>(#[trigger] rows[r][c]),
    decreases grid.len() - y,
{
    if y < grid.len() {
        match spec_transition_row(rules, consts, grid, y, 0) {
            Ok(row) => {
                lemma_transition_row_cellwise(rules, consts, grid, y, 0, row);
                match spec_transition_rows(rules, consts, grid, y + 1) {
                    Ok(rest) => {
                        lemma_transition_depends_only_on_pre_grid(rules, consts, grid, y + 1, rest);
                        assert(rows =~= seq![row] + rest);
                        assert forall|r: int|
                            0 <= r < rows.len() implies (#[trigger] rows[r]).len() == grid[y
                            + r].len() by {
                            if r > 0 {
                                assert(rows[r] == rest[r - 1]);
                            }
                        }
                        assert forall|r: int, c: int|
                            0 <= r < rows.len() && 0 <= c < rows[r].len() implies spec_cell_step(
                            rules,
                            consts,
                            grid,
                            c,
                            y + r,
                        ) == Ok::<u8, SpecError>(#[trigger] rows[r][c]) by {
                            if r > 0 {
                                assert(rows[r] == rest[r - 1]);
                                assert(spec_cell_step(rules, consts, grid, c, (y + 1) + (r - 1))
                                    == Ok::<u8, SpecError>(rest[r - 1][c]));
                            }
                        }
                    },
                    Err(_) => {},
                }
            },
            Err(_) => {},
        }
    }
}

/// How many cells of `vals` the value `v` equals, as `spec_count_matching`.
pub fn count_matching(vals: &Vec<u8>, v: &Value) -> (r: usize)
    ensures
        r as int == spec_count_matching(vals@, v@),
        r <= vals@.len(),
{
    proof {
        lemma_count_matching_bounds(vals@, v@);
    }
    let mut n: usize = 0;
    let mut i: usize = 0;
    proof {
        assert(vals@.subrange(0, 0) =~= Seq::<u8>::empty());
    }
    while i < vals.len()
        invariant
            i <= vals.len(),
            n as int == spec_count_matching(vals@.subrange(0, i as int), v@),
            n <= i,
        decreases vals.len() - i,
    {
        proof {
            assert(vals@.subrange(0, i + 1).drop_last() =~= vals@.subrange(0, i as int));
            assert(vals@.subrange(0, i + 1).last() == vals@[i as int]);
        }
        if v.equals(&Value::Int(vals[i])) {
            n = n + 1;
        }
        i = i + 1;
    }
    proof {
        assert(vals@.subrange(0, vals@.len() as int) =~= vals@);
    }
    n
}

} // verus!
