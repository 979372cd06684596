use cell_lang::ast::Node;
use cell_lang::interpreter::Interpreter;
use cell_lang::load_program;
use cell_lang::positioned::Position;
use cell_lang::positioned::Positioned;
use cell_lang::value::Value;

fn load(src: &str) -> Interpreter {
    load_program(src.to_string()).expect("expected the program to load")
}

fn literal(v: Value) -> Positioned<Node> {
    Positioned { inner: Node::Literal(v), start: Position::new(), end: Position::new() }
}

// Round-trip of a grid block: `a:2 | b:1;2` with constants a=5, b=9 gives
// row one as two `a` cells, row two as one `b` cell, and the `;2` duplicates
// the just-completed row once more: three rows, `[5,5]`, `[9]`, `[9]`.
#[test]
fn memory_round_trip() {
    let interp = load("!a = 5; !b = 9; ~ a:2 | b:1;2 ~");
    assert_eq!(interp.memory, vec![vec![5, 5], vec![9], vec![9]]);
}

#[test]
fn constants_resolve_in_declaration_order() {
    let interp = load("!a = 2; !b = a + 3; ~ b:1 ~");
    assert_eq!(interp.memory, vec![vec![5]]);
}

#[test]
fn undefined_constant_is_fatal() {
    let err = load_program("~ a:1 ~".to_string()).unwrap_err();
    assert_eq!(err.msg, "No value for constant a");
}

#[test]
fn definition_sees_only_earlier_constants() {
    let err = load_program("!a = b + 1; !b = 2;".to_string()).unwrap_err();
    assert_eq!(err.msg, "No value for constant b");
}

// One tick's output depends only on the pre-tick grid: every cell is
// rewritten as if from a snapshot, so an inverting rule pair flips each cell
// by its old value even though earlier cells were already rewritten.
#[test]
fn tick_reads_only_the_pre_tick_grid() {
    let src = "!on = 1; !off = 0; ~ on:1 off:1 | off:1 off:1 ~ @1 |> _ => 0 @0 |> _ => 1";
    let mut interp = load(src);
    assert_eq!(interp.memory, vec![vec![1, 0], vec![0, 0]]);
    interp.match_cells().expect("expected the tick to succeed");
    assert_eq!(interp.memory, vec![vec![0, 1], vec![1, 1]]);
}

// A rule that copies the west neighbor shows the snapshot semantics: the
// second cell takes the first cell's pre-tick value, not the value the sweep
// already wrote into it.
#[test]
fn tick_neighbours_read_old_values() {
    let src = "!a = 1; !b = 0; ~ a:1 b:1 ~ @_ |> _ => @west";
    let mut interp = load(src);
    assert_eq!(interp.memory, vec![vec![1, 0]]);
    interp.match_cells().unwrap();
    // An in-place sweep would give [[0, 0]]; the buffered one gives [[0, 1]].
    assert_eq!(interp.memory, vec![vec![0, 1]]);
}

// Ticking two equally loaded interpreters gives equal grids: the output is a
// function of the pre-tick grid and the rules alone.
#[test]
fn tick_is_deterministic() {
    let src = "!x = 3; ~ x:2 | x:2 ~ @_ |> @east > 0 => 7";
    let mut one = load(src);
    let mut two = load(src);
    one.match_cells().unwrap();
    two.match_cells().unwrap();
    assert_eq!(one.memory, two.memory);
}

// When two transition rules both match a cell, only the first one in
// declaration order fires.
#[test]
fn first_matching_rule_wins() {
    let src = "!x = 0; ~ x:2 ~ @_ |> _ => 1 @_ |> _ => 2";
    let mut interp = load(src);
    interp.match_cells().unwrap();
    assert_eq!(interp.memory, vec![vec![1, 1]]);
}

#[test]
fn unmatched_cells_keep_their_value() {
    let src = "!x = 4; !y = 9; ~ x:1 y:1 ~ @9 |> _ => 2";
    let mut interp = load(src);
    interp.match_cells().unwrap();
    assert_eq!(interp.memory, vec![vec![4, 2]]);
}

#[test]
fn rule_condition_must_be_truthy() {
    let src = "!x = 1; ~ x:2 ~ @_ |> 0 => 9 @_ |> 1 => 3";
    let mut interp = load(src);
    interp.match_cells().unwrap();
    assert_eq!(interp.memory, vec![vec![3, 3]]);
}

// A neighbor sum counts how many of the eight Moore neighbors hold exactly
// the evaluated value: a cell with three of its neighbors at 5 gives
// `Int(3)`.
#[test]
fn sum_counts_matching_moore_neighbours() {
    let interp = load("!a = 5; !b = 0; ~ a:2 b:1 | b:2 a:1 ~");
    // Grid: [[5, 5, 0], [0, 0, 5]].  At (1, 0): neighbors are 5 (west),
    // 0 (east), 0/0/5 (south row), and three out-of-bounds zeros.
    let sum = Positioned {
        inner: Node::Sum(Box::new(literal(Value::Int(5)))),
        start: Position::new(),
        end: Position::new(),
    };
    let v = interp.evaluate(&interp.memory, 1, 0, &sum).unwrap();
    assert!(matches!(v, Value::Int(2)));
    let v2 = interp.evaluate(&interp.memory, 1, 1, &sum).unwrap();
    assert!(matches!(v2, Value::Int(3)));
}

// At the grid's top-left corner the out-of-bounds neighbors read as 0, so
// only in-bounds cells count as candidates for a nonzero value.
#[test]
fn sum_at_corner_counts_in_bounds_only() {
    let interp = load("!a = 5; ~ a:2 | a:2 ~");
    let sum = Positioned {
        inner: Node::Sum(Box::new(literal(Value::Int(5)))),
        start: Position::new(),
        end: Position::new(),
    };
    let v = interp.evaluate(&interp.memory, 0, 0, &sum).unwrap();
    assert!(matches!(v, Value::Int(3)));
    let zeros = Positioned {
        inner: Node::Sum(Box::new(literal(Value::Int(0)))),
        start: Position::new(),
        end: Position::new(),
    };
    let z = interp.evaluate(&interp.memory, 0, 0, &zeros).unwrap();
    assert!(matches!(z, Value::Int(5)));
}

#[test]
fn directions_read_neighbours_and_bounds() {
    let interp = load("!a = 1; !b = 2; ~ a:1 b:1 | b:1 a:1 ~");
    // Grid: [[1, 2], [2, 1]].
    let dir = |name: &str| Positioned {
        inner: Node::Directional(name.to_string()),
        start: Position::new(),
        end: Position::new(),
    };
    let at = |x: usize, y: usize, name: &str| {
        interp.evaluate(&interp.memory, x, y, &dir(name)).unwrap()
    };
    assert!(matches!(at(0, 0, "self"), Value::Int(1)));
    assert!(matches!(at(0, 0, "east"), Value::Int(2)));
    assert!(matches!(at(0, 0, "south"), Value::Int(2)));
    assert!(matches!(at(0, 0, "north"), Value::Int(0)));
    assert!(matches!(at(0, 0, "west"), Value::Int(0)));
    assert!(matches!(at(1, 1, "northwest"), Value::Int(1)));
    assert!(matches!(at(0, 1, "northeast"), Value::Int(2)));
    assert!(matches!(at(1, 1, "up"), Value::Int(2)));
    assert!(matches!(at(0, 0, "sideways"), Value::Unknown));
}

// Render rules observe the fully updated grid and hand back the first
// matching rule's coerced result per cell; unmatched cells emit nothing.
#[test]
fn render_pass_follows_transition_pass() {
    let src = "!x = 0; ~ x:2 ~ @0 |> _ => 1 $1 |> _ => 65";
    let mut interp = load(src);
    let outs = interp.match_cells().unwrap();
    assert_eq!(interp.memory, vec![vec![1, 1]]);
    assert_eq!(outs, vec![vec![Some(65), Some(65)]]);
}

#[test]
fn render_unmatched_cells_emit_nothing() {
    let src = "!x = 0; !y = 3; ~ x:1 y:1 ~ $3 |> _ => 66";
    let mut interp = load(src);
    let outs = interp.match_cells().unwrap();
    assert_eq!(outs, vec![vec![None, Some(66)]]);
}

#[test]
fn wildcard_centre_and_condition_match_everything() {
    let src = "!x = 7; ~ x:1 ~ @_ |> _ => 8";
    let mut interp = load(src);
    interp.match_cells().unwrap();
    assert_eq!(interp.memory, vec![vec![8]]);
}

#[test]
fn evaluation_fault_during_tick_is_fatal() {
    let src = "!x = 1; ~ x:1 ~ @_ |> _ => missing";
    let mut interp = load(src);
    let err = interp.match_cells().unwrap_err();
    assert_eq!(err.msg, "No value for constant missing");
    // A failed transition sweep leaves the grid unchanged.
    assert_eq!(interp.memory, vec![vec![1]]);
}

#[test]
fn bad_operand_fault_carries_kinds() {
    let err = load_program("1 + \"x\";".to_string()).unwrap_err();
    assert_eq!(err.msg, "Operand Plus cannot be used between types Int and String");
}

#[test]
fn statement_in_expression_position_is_fatal() {
    let interp = load("!x = 1; ~ x:1 ~");
    let stmt = Positioned {
        inner: Node::Memory(vec![]),
        start: Position::new(),
        end: Position::new(),
    };
    let err = interp.evaluate(&interp.memory, 0, 0, &stmt).unwrap_err();
    assert_eq!(err.msg, "Expected expression found statement");
}
