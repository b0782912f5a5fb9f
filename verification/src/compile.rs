//! The pipeline: the passes in their fixed order.

use vstd::prelude::*;
use crate::anf::flatten;
use crate::anf_spec::flatten_spec;
use crate::ast::{ExprView, SExpr};
use crate::emit::{print_x86, print_x86_spec};
use crate::error::CompileError;
use crate::homes::{assign_homes, assign_homes_spec};
use crate::liveness::{uncover_live, uncover_live_spec};
use crate::lower::{lower_conditionals, lower_conditionals_spec};
use crate::names::{Counts, NameSupply};
use crate::parser::{parse_program, parse_program_spec};
use crate::patch::{patch_instructions, patch_instructions_spec};
use crate::select::{select_instructions, select_instructions_spec};
use crate::seqs::empty_deep;
use crate::uniquify::{uniquify, uniquify_spec};
use crate::x86::X86View;

verus! {

/// The instruction-level program that the front half of the pipeline makes of a source
/// program, with the counts of names handed out: binders made unique, normal form,
/// instruction selection, liveness, homes.
pub open spec fn placed_spec(program: ExprView) -> Result<(X86View, Counts), CompileError> {
    match uniquify_spec(program, Seq::empty(), Seq::empty()) {
        Err(err) => Err(err),
        Ok(unique) => match flatten_spec(unique.expr, unique.count) {
            Err(err) => Err(err),
            Ok((flat, count)) => match select_instructions_spec(flat) {
                Err(err) => Err(err),
                Ok(selected) => match uncover_live_spec(selected) {
                    Err(err) => Err(err),
                    Ok(annotated) => match assign_homes_spec(annotated) {
                        Err(err) => Err(err),
                        Ok(placed) => Ok((placed, count)),
                    },
                },
            },
        },
    }
}

/// What [`compile`] computes: the text of the program after all passes, each fed the
/// result of the one before it. One supply of names, which has handed out nothing at
/// the start, serves all passes.
pub open spec fn compile_spec(program: ExprView) -> Result<Seq<char>, CompileError> {
    match placed_spec(program) {
        Err(err) => Err(err),
        Ok((placed, count)) => match lower_conditionals_spec(placed, count) {
            Err(err) => Err(err),
            Ok((lowered, _)) => match patch_instructions_spec(lowered) {
                Err(err) => Err(err),
                Ok(patched) => print_x86_spec(patched),
            },
        },
    }
}

/// Compiles a program to assembly text. Once every variable has its home, nothing but
/// the want of a name for a label can end the compilation.
pub fn compile(program: &SExpr) -> (result: Result<String, CompileError>)
    ensures
        match result {
            Ok(text) => compile_spec(program@) == Ok::<_, CompileError>(text@),
            Err(err) => compile_spec(program@) == Err::<Seq<char>, _>(err) && (placed_spec(
                program@,
            ) is Ok ==> err == CompileError::NamesExhausted),
        },
{
    let mut names = NameSupply::new();
    let mut mapping: Vec<(String, String)> = empty_deep();
    let unique = uniquify(&mut mapping, program, &mut names)?;
    let flat = flatten(&unique, &mut names)?;
    let selected = select_instructions(&flat)?;
    let annotated = uncover_live(&selected)?;
    let placed = assign_homes(&annotated)?;
    let lowered = lower_conditionals(&placed, &mut names)?;
    let patched = patch_instructions(&lowered)?;
    print_x86(&patched)
}

/// What [`compile_source`] computes: the text is parsed, the program compiled.
pub open spec fn compile_source_spec(source: Seq<char>) -> Result<Seq<char>, CompileError> {
    match parse_program_spec(source) {
        Err(err) => Err(err),
        Ok(program) => compile_spec(program),
    }
}

/// Compiles the text of a program to assembly text.
pub fn compile_source(source: &str) -> (result: Result<String, CompileError>)
    ensures
        match result {
            Ok(text) => compile_source_spec(source@) == Ok::<_, CompileError>(text@),
            Err(err) => compile_source_spec(source@) == Err::<Seq<char>, _>(err),
        },
{
    let program = parse_program(source)?;
    compile(&program)
}

} // verus!
