use cell_lang::ast::Node;
use cell_lang::ast::PNode;
use cell_lang::lexer::Lexer;
use cell_lang::lexer::Token;
use cell_lang::parser::Parser;
use cell_lang::value::Value;

fn parse_expr(src: &str) -> PNode {
    let mut lexer = Lexer::new(src.to_string());
    let tokens = lexer.scan_tokens().expect("expected the scan to succeed");
    let mut parser = Parser::new(tokens);
    parser.expr().expect("expected the parse to succeed")
}

fn parse_program(src: &str) -> Vec<PNode> {
    let mut lexer = Lexer::new(src.to_string());
    let tokens = lexer.scan_tokens().expect("expected the scan to succeed");
    let mut parser = Parser::new(tokens);
    parser.parse().expect("expected the parse to succeed")
}

fn variable_name(node: &PNode) -> &str {
    match &node.inner {
        Node::Variable(name) => name,
        other => panic!("expected a variable, got {:?}", other),
    }
}

// Parsing `a + b * c` nests the tight-binding operator under the loose one:
// the tree is `a + (b * c)`.
#[test]
fn precedence_tight_under_loose() {
    let tree = parse_expr("a + b * c");
    match &tree.inner {
        Node::Binary { left, op, right } => {
            assert!(matches!(op, Token::Plus));
            assert_eq!(variable_name(left), "a");
            match &right.inner {
                Node::Binary { left: rl, op: rop, right: rr } => {
                    assert!(matches!(rop, Token::Asterisk));
                    assert_eq!(variable_name(rl), "b");
                    assert_eq!(variable_name(rr), "c");
                },
                other => panic!("expected b * c on the right, got {:?}", other),
            }
        },
        other => panic!("expected a + (b * c), got {:?}", other),
    }
}

// Parsing `a * b + c` rotates once, yielding `(a * b) + c`.
#[test]
fn precedence_rotation() {
    let tree = parse_expr("a * b + c");
    match &tree.inner {
        Node::Binary { left, op, right } => {
            assert!(matches!(op, Token::Plus));
            assert_eq!(variable_name(right), "c");
            match &left.inner {
                Node::Binary { left: ll, op: lop, right: lr } => {
                    assert!(matches!(lop, Token::Asterisk));
                    assert_eq!(variable_name(ll), "a");
                    assert_eq!(variable_name(lr), "b");
                },
                other => panic!("expected a * b on the left, got {:?}", other),
            }
        },
        other => panic!("expected (a * b) + c, got {:?}", other),
    }
}

// Comparisons and logical operators share one rank, so `1 < 2 && 3 > 2`
// stays in its right-recursive shape `1 < (2 && (3 > 2))`: no rotation
// happens between equal ranks.  This is defined behavior of the grammar.
#[test]
fn equal_ranks_stay_right_recursive() {
    let tree = parse_expr("1 < 2 && 3 > 2");
    match &tree.inner {
        Node::Binary { left, op, right } => {
            assert!(matches!(op, Token::Lesser));
            assert!(matches!(left.inner, Node::Literal(Value::Int(1))));
            match &right.inner {
                Node::Binary { left: rl, op: rop, right: rr } => {
                    assert!(matches!(rop, Token::And));
                    assert!(matches!(rl.inner, Node::Literal(Value::Int(2))));
                    match &rr.inner {
                        Node::Binary { left: il, op: iop, right: ir } => {
                            assert!(matches!(iop, Token::Greater));
                            assert!(matches!(il.inner, Node::Literal(Value::Int(3))));
                            assert!(matches!(ir.inner, Node::Literal(Value::Int(2))));
                        },
                        other => panic!("expected 3 > 2, got {:?}", other),
                    }
                },
                other => panic!("expected 2 && (3 > 2), got {:?}", other),
            }
        },
        other => panic!("expected 1 < (2 && (3 > 2)), got {:?}", other),
    }
}

#[test]
fn parse_definition_statement() {
    let ast = parse_program("!x = 5;");
    assert_eq!(ast.len(), 1);
    match &ast[0].inner {
        Node::Definition { name, value } => {
            assert_eq!(name, "x");
            assert!(matches!(value.inner, Node::Literal(Value::Int(5))));
        },
        other => panic!("expected a definition, got {:?}", other),
    }
}

#[test]
fn parse_memory_statement() {
    let ast = parse_program("~ a:2 | b:1 ~");
    match &ast[0].inner {
        Node::Memory(rows) => {
            assert_eq!(rows.len(), 2);
            assert_eq!(rows[0], vec!["a".to_string(), "a".to_string()]);
            assert_eq!(rows[1], vec!["b".to_string()]);
        },
        other => panic!("expected a memory block, got {:?}", other),
    }
}

#[test]
fn parse_memory_row_duplication() {
    let ast = parse_program("~ a:2 | b:1;2 ~");
    match &ast[0].inner {
        Node::Memory(rows) => {
            assert_eq!(rows.len(), 3);
            assert_eq!(rows[0].len(), 2);
            assert_eq!(rows[1], vec!["b".to_string()]);
            assert_eq!(rows[2], vec!["b".to_string()]);
        },
        other => panic!("expected a memory block, got {:?}", other),
    }
}

#[test]
fn parse_function_statement() {
    let ast = parse_program("|>f(p, q) = p + q");
    match &ast[0].inner {
        Node::Function { name, params, body } => {
            assert_eq!(name, "f");
            assert_eq!(params, &vec!["p".to_string(), "q".to_string()]);
            assert!(matches!(body.inner, Node::Binary { .. }));
        },
        other => panic!("expected a function declaration, got {:?}", other),
    }
}

#[test]
fn parse_transition_and_render_rules() {
    let ast = parse_program("@_ |> _ => 1 $2 |> _ => 65");
    match &ast[0].inner {
        Node::Main { is_render, .. } => assert!(!is_render),
        other => panic!("expected a transition rule, got {:?}", other),
    }
    match &ast[1].inner {
        Node::Main { centre, is_render, .. } => {
            assert!(is_render);
            assert!(matches!(centre.inner, Node::Literal(Value::Int(2))));
        },
        other => panic!("expected a render rule, got {:?}", other),
    }
}

#[test]
fn parse_call_and_array_and_tuple() {
    let ast = parse_program("f(1, 2); [1, 2]; (1, 2); (3);");
    match &ast[0].inner {
        Node::Call { expr, args } => {
            assert_eq!(variable_name(expr), "f");
            assert_eq!(args.len(), 2);
        },
        other => panic!("expected a call, got {:?}", other),
    }
    match &ast[1].inner {
        Node::Array(items) => assert_eq!(items.len(), 2),
        other => panic!("expected an array, got {:?}", other),
    }
    match &ast[2].inner {
        Node::Tuple(items) => {
            assert_eq!(items.len(), 2);
            assert!(matches!(items[0].inner, Node::Literal(Value::Int(1))));
            assert!(matches!(items[1].inner, Node::Literal(Value::Int(2))));
        },
        other => panic!("expected a tuple, got {:?}", other),
    }
    assert!(matches!(ast[3].inner, Node::Literal(Value::Int(3))));
}

#[test]
fn parse_directional_sum_and_wildcard() {
    let ast = parse_program("@@north |> #(5) => _");
    match &ast[0].inner {
        Node::Main { centre, conditional, result, .. } => {
            match &centre.inner {
                Node::Directional(name) => assert_eq!(name, "north"),
                other => panic!("expected a direction, got {:?}", other),
            }
            match &conditional.inner {
                Node::Sum(expr) => {
                    assert!(matches!(expr.inner, Node::Literal(Value::Int(5))))
                },
                other => panic!("expected a sum, got {:?}", other),
            }
            assert!(matches!(result.inner, Node::Literal(Value::Unknown)));
        },
        other => panic!("expected a rule, got {:?}", other),
    }
}

#[test]
fn parse_error_unexpected_token() {
    let mut lexer = Lexer::new(";".to_string());
    let tokens = lexer.scan_tokens().unwrap();
    let mut parser = Parser::new(tokens);
    let err = parser.parse().unwrap_err();
    assert_eq!(err.msg, "Expected expression but got Semicolon");
}

#[test]
fn parse_error_missing_terminator() {
    let mut lexer = Lexer::new("1 + 2".to_string());
    let tokens = lexer.scan_tokens().unwrap();
    let mut parser = Parser::new(tokens);
    let err = parser.parse().unwrap_err();
    assert_eq!(err.msg, "Expected Semicolon found EOF");
}

#[test]
fn parse_error_unterminated_memory() {
    let mut lexer = Lexer::new("~ a:1".to_string());
    let tokens = lexer.scan_tokens().unwrap();
    let mut parser = Parser::new(tokens);
    let err = parser.parse().unwrap_err();
    assert_eq!(err.msg, "Expected Tilde found EOF");
}
