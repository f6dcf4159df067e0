//! Entry points from source text: tokenizing followed by parsing.
use vstd::prelude::*;

use crate::ast::{Program, SpecFnDef};
use crate::lexer::{ParseError, tokenize};
use crate::parse_ast::spec_parse_source;

verus! {

/// The parser of Axis source text.
pub struct AxisCoreParser;

impl AxisCoreParser {
    /// Parses a whole source text into a program, or gives the first
    /// position at which the text leaves the grammar.
    pub fn parse(input: &str) -> (r: Result<Program, ParseError>)
        ensures
            match r {
                Ok(prog) => spec_parse_source(input@) == Ok::<Seq<SpecFnDef>, ParseError>(prog@),
                Err(e) => spec_parse_source(input@) == Err::<Seq<SpecFnDef>, ParseError>(e),
            },
    {
        match tokenize(input) {
            Err(e) => Err(e),
            Ok(ts) => crate::parse_ast::parse_program(&ts),
        }
    }
}

/// Checks that a source text is a program of the grammar.
pub fn parse_program(input: &str) -> (r: Result<(), ParseError>)
    ensures
        r is Ok <==> spec_parse_source(input@) is Ok,
        match r {
            Ok(_) => true,
            Err(e) => spec_parse_source(input@) == Err::<Seq<SpecFnDef>, ParseError>(e),
        },
{
    match AxisCoreParser::parse(input) {
        Ok(_) => Ok(()),
        Err(e) => Err(e),
    }
}

} // verus!
