//! The ways in which a pass can refuse its input.

use vstd::prelude::*;
use vstd::string::*;

verus! {

/// Why a pass gave up. No pass recovers: the first error ends the compilation.
#[derive(Clone, Copy, Debug, PartialEq, Eq, Structural)]
pub enum CompileError {
    /// The name counter cannot be advanced any further.
    NamesExhausted,
    /// A variable is used outside the reach of any binding.
    UnboundVariable,
    /// A primitive is applied to the wrong number of operands.
    BadArity,
    /// The index operand of `tuple-ref` is not an integer literal.
    NonLiteralIndex,
    /// The callee of an application is neither a name nor an application.
    NotAFunction,
    /// A definition or a program stands where an expression is expected.
    NotAnExpression,
    /// A call or a definition has more operands than there are argument registers.
    TooManyArguments,
    /// A primitive for which no instructions can be selected.
    UnsupportedPrimitive,
    /// A compound expression stands where an atom is required, or a statement has a
    /// shape that no instruction can be selected for.
    UnsupportedExpression,
    /// The condition of an `if` is not an equality test.
    UnsupportedCondition,
    /// An integer literal does not fit a 32-bit immediate.
    ImmediateOutOfRange,
    /// A pass was handed something other than a program or a definition.
    NotTopLevel,
    /// An instruction that the pass does not handle.
    UnsupportedInstruction,
    /// A line number or a stack offset left the 32-bit range.
    FrameTooLarge,
    /// A variable has no home.
    NoHome,
    /// A variable operand reached the emitter.
    PseudoOperand,
    /// The text ends inside a list, or where a form is expected.
    UnexpectedEnd,
    /// A closing parenthesis without an opening one.
    UnbalancedParen,
    /// An empty list, or a special form with the wrong shape.
    MalformedForm,
    /// An integer literal that does not fit 64 bits.
    NumberOutOfRange,
    /// A program without a single top-level form.
    EmptyProgram,
}

/// The sentence that reports an error.
pub open spec fn message_text(err: CompileError) -> Seq<char> {
    match err {
        CompileError::NamesExhausted => "the supply of fresh names is exhausted"@,
        CompileError::UnboundVariable => "a variable is used without a binding"@,
        CompileError::BadArity => "a primitive has the wrong number of operands"@,
        CompileError::NonLiteralIndex => "the index of tuple-ref must be an integer literal"@,
        CompileError::NotAFunction => "the callee is neither a name nor a call"@,
        CompileError::NotAnExpression => "a definition stands where an expression is expected"@,
        CompileError::TooManyArguments => "more than six operands are not supported"@,
        CompileError::UnsupportedPrimitive => "no instructions for this primitive"@,
        CompileError::UnsupportedExpression => "no instructions for this expression"@,
        CompileError::UnsupportedCondition => "the condition of an if must be an equality test"@,
        CompileError::ImmediateOutOfRange => "an integer literal does not fit 32 bits"@,
        CompileError::NotTopLevel => "a program or a definition is expected"@,
        CompileError::UnsupportedInstruction => "an instruction that this pass does not handle"@,
        CompileError::FrameTooLarge => "a line number or a stack offset does not fit 32 bits"@,
        CompileError::NoHome => "a variable has no home"@,
        CompileError::PseudoOperand => "a variable operand reached the emitter"@,
        CompileError::UnexpectedEnd => "the text ends inside a form"@,
        CompileError::UnbalancedParen => "a closing parenthesis has no opening one"@,
        CompileError::MalformedForm => "a form has the wrong shape"@,
        CompileError::NumberOutOfRange => "an integer literal does not fit 64 bits"@,
        CompileError::EmptyProgram => "the program has no form"@,
    }
}

impl CompileError {
    /// The sentence that reports this error.
    pub fn message(&self) -> (text: String)
        ensures
            text@ == message_text(*self),
    {
        match self {
            CompileError::NamesExhausted => String::from_str(
                "the supply of fresh names is exhausted",
            ),
            CompileError::UnboundVariable => String::from_str(
                "a variable is used without a binding",
            ),
            CompileError::BadArity => String::from_str(
                "a primitive has the wrong number of operands",
            ),
            CompileError::NonLiteralIndex => String::from_str(
                "the index of tuple-ref must be an integer literal",
            ),
            CompileError::NotAFunction => String::from_str(
                "the callee is neither a name nor a call",
            ),
            CompileError::NotAnExpression => String::from_str(
                "a definition stands where an expression is expected",
            ),
            CompileError::TooManyArguments => String::from_str(
                "more than six operands are not supported",
            ),
            CompileError::UnsupportedPrimitive => String::from_str(
                "no instructions for this primitive",
            ),
            CompileError::UnsupportedExpression => String::from_str(
                "no instructions for this expression",
            ),
            CompileError::UnsupportedCondition => String::from_str(
                "the condition of an if must be an equality test",
            ),
            CompileError::ImmediateOutOfRange => String::from_str(
                "an integer literal does not fit 32 bits",
            ),
            CompileError::NotTopLevel => String::from_str("a program or a definition is expected"),
            CompileError::UnsupportedInstruction => String::from_str(
                "an instruction that this pass does not handle",
            ),
            CompileError::FrameTooLarge => String::from_str(
                "a line number or a stack offset does not fit 32 bits",
            ),
            CompileError::NoHome => String::from_str("a variable has no home"),
            CompileError::PseudoOperand => String::from_str(
                "a variable operand reached the emitter",
            ),
            CompileError::UnexpectedEnd => String::from_str("the text ends inside a form"),
            CompileError::UnbalancedParen => String::from_str(
                "a closing parenthesis has no opening one",
            ),
            CompileError::MalformedForm => String::from_str("a form has the wrong shape"),
            CompileError::NumberOutOfRange => String::from_str(
                "an integer literal does not fit 64 bits",
            ),
            CompileError::EmptyProgram => String::from_str("the program has no form"),
        }
    }
}

} // verus!
