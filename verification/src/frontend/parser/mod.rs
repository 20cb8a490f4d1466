//! Parsing of Latte source code into a syntax tree with locations.
pub mod lexer;
pub mod grammar;
pub mod syntax;

use vstd::prelude::*;

use crate::frontend::ast::{Class, Function, Program};
use crate::frontend::error::FrontendError;
use crate::frontend::parser::grammar::{Tokens, at_word, parse_class, parse_function, unexpected};
use crate::frontend::parser::lexer::{Token, Word, lexes, tokenize};
use crate::frontend::parser::syntax::{class_items, derives_defs, derives_program, function_items, lemma_defs_push_class,
    lemma_defs_push_function};
use crate::meta::LocationMeta;
use crate::util::env::{Env, FromKeyedVec};

verus! {

pub type ParsedProgram = Program<LocationMeta>;

pub type ParserErrors = Vec<FrontendError<LocationMeta>>;

/// parse the tokens of a program: one or more definitions of functions and classes, with
/// unique names; each class and each function is derived from its tokens
pub fn parse_tokens(toks: &Tokens, eof: usize) -> (r: Result<ParsedProgram, ParserErrors>)
    ensures
        toks@.len() == 0 ==> (r matches Err(e) && e@.len() >= 1 && e@[0].meta.offset == eof),
        r matches Err(e) ==> e@.len() >= 1,
        r matches Ok(p) ==> p.classes.wf() && p.functions.wf()
            && p.classes.entries@.len() + p.functions.entries@.len() >= 1
            && forall|i: int| 0 <= i < p.classes.entries@.len() ==> (#[trigger] p.classes.entries@[i]).1.item.vars.wf()
                && p.classes.entries@[i].1.item.methods.wf(),
        r matches Ok(p) ==> derives_program(toks@, eof, p),
{
    if toks.len() == 0 {
        // a program has at least one definition
        return Err(unexpected(toks, 0, eof));
    }
    let mut classes: Vec<Class<LocationMeta>> = Vec::new();
    let mut functions: Vec<Function<LocationMeta>> = Vec::new();
    let mut pos: usize = 0;
    while pos < toks.len()
        invariant
            pos <= toks@.len(),
            pos > 0 ==> classes@.len() + functions@.len() >= 1,
            forall|i: int| 0 <= i < classes@.len() ==> (#[trigger] classes@[i]).item.vars.wf() && classes@[i].item.methods.wf(),
            derives_defs(toks@, eof, 0, pos as int, classes@, functions@),
        decreases toks@.len() - pos,
    {
        if at_word(toks, pos, Word::Class) {
            let (cls, p) = parse_class(toks, pos, eof)?;
            proof {
                lemma_defs_push_class(toks@, eof, 0, pos as int, p as int, classes@, functions@, cls);
            }
            classes.push(cls);
            pos = p;
        } else {
            let (func, p) = parse_function(toks, pos, eof)?;
            proof {
                lemma_defs_push_function(toks@, eof, 0, pos as int, p as int, classes@, functions@, func);
            }
            functions.push(func);
            pos = p;
        }
    }
    let ghost cs = classes@;
    let ghost fs = functions@;
    let classes_env = Env::from_vec(&mut classes)?;
    let functions_env = Env::from_vec(&mut functions)?;
    let program = Program { classes: classes_env, functions: functions_env };
    proof {
        assert(forall|i: int| 0 <= i < program.classes.entries@.len() ==> #[trigger] program.classes.entries@[i].1 == cs[i]);
        assert(class_items(program) =~= cs);
        assert(function_items(program) =~= fs);
    }
    Ok(program)
}

/// parse a program: the tokens of the source code (see `tokenize`) are parsed by `parse_tokens`;
/// the program is derived from tokens written in the source code in their order
pub fn parse_program(source_code: String) -> (r: Result<ParsedProgram, ParserErrors>)
    ensures
        source_code@.len() == 0 ==> (r matches Err(e) && e@.len() >= 1 && e@[0].meta.offset == 0),
        r matches Err(e) ==> e@.len() >= 1,
        r matches Ok(p) ==> p.classes.wf() && p.functions.wf()
            && p.classes.entries@.len() + p.functions.entries@.len() >= 1
            && forall|i: int| 0 <= i < p.classes.entries@.len() ==> (#[trigger] p.classes.entries@[i]).1.item.vars.wf()
                && p.classes.entries@[i].1.item.methods.wf(),
        r matches Ok(p) ==> exists|ts: Seq<(Token, usize)>, starts: Seq<int>, eof: usize|
            #[trigger] lexes(source_code@, ts, starts) && #[trigger] derives_program(ts, eof, p),
{
    let (toks, eof) = match tokenize(source_code.as_str()) {
        Ok(t) => t,
        Err(e) => {
            return Err(vec![e]);
        },
    };
    let ghost starts = choose|starts: Seq<int>| lexes(source_code@, toks@, starts);
    let res = parse_tokens(&toks, eof);
    assert(res matches Ok(p) ==> lexes(source_code@, toks@, starts) && derives_program(toks@, eof, p));
    res
}

} // verus!
