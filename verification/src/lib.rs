//! A small language for two-dimensional cellular automata: a lexer that
//! tracks source positions, a recursive-descent parser with tree-rotation
//! operator precedence, a tagged-union value model, and a tree-walking
//! interpreter that loads declarations and then steps a grid of cells.

pub mod positioned;
pub mod value;
pub mod lexer;
pub mod ast;
pub mod parser;
pub mod interpreter;
pub mod diagnostics;

use vstd::prelude::*;

verus! {

/// Run the front half of the pipeline — scan, parse, load — and hand back an
/// interpreter ready to step; the first fault of any stage aborts with its
/// diagnostic.
pub fn load_program(program: String) -> (r: Result<interpreter::Interpreter, lexer::Error>)
    requires
        program@.len() + 2 <= usize::MAX,
    ensures
        match lexer::spec_scan(program@, 0) {
            Err(e) => r matches Err(er) && er@ == e,
            Ok(ts) => ({
                let po = parser::spec_p_parse(ts, 0);
                match po.out {
                    Err(e) => r matches Err(er) && er@ == e,
                    Ok(nodes) => match interpreter::spec_load_all(
                        interpreter::SpecEnv {
                            consts: Seq::empty(),
                            funs: Seq::empty(),
                            memory: Seq::empty(),
                            mrules: Seq::empty(),
                            prules: Seq::empty(),
                        },
                        nodes,
                    ) {
                        Err(e) => r matches Err(er) && er@ == e,
                        Ok(env) => r matches Ok(it) && it.env() == env && ast::spec_pnode_views(
                            it.instructions@,
                        ) == nodes,
                    },
                }
            }),
        },
{
    let mut lex = lexer::Lexer::new(program);
    let tokens = match lex.scan_tokens() {
        Ok(ts) => ts,
        Err(e) => {
            return Err(e);
        },
    };
    let mut par = parser::Parser::new(tokens);
    let ast_nodes = match par.parse() {
        Ok(ns) => ns,
        Err(e) => {
            return Err(e);
        },
    };
    let mut interp = interpreter::Interpreter::new(ast_nodes);
    proof {
        assert(interp.env().consts =~= Seq::<(Seq<char>, value::SpecValue)>::empty());
        assert(interp.env().funs =~= Seq::<interpreter::SpecFunctionDef>::empty());
        assert(interp.env().memory =~= Seq::<Seq<u8>>::empty());
        assert(interp.env().mrules =~= Seq::<interpreter::SpecRule>::empty());
        assert(interp.env().prules =~= Seq::<interpreter::SpecRule>::empty());
    }
    match interp.load_instructions() {
        Ok(_) => Ok(interp),
        Err(e) => Err(e),
    }
}

} // verus!
