//! What can go wrong while a script is compiled or run.

use vstd::prelude::*;

verus! {

/// Why a script was not turned into code.
#[derive(Clone, Copy, Debug, PartialEq, Eq, Structural)]
pub enum CompileError {
    /// The source text does not follow the grammar.
    Syntax,
    /// A name is used that no enclosing scope binds.
    UndefinedIdentifier,
    /// A duration is not a whole number of seconds that fits 64 bits.
    MalformedDuration,
    /// A time is not an hour and a minute of the day with `AM` or `PM`.
    MalformedTime,
    /// A number literal cannot be read.
    MalformedNumber,
    /// An operator that has no instruction.
    UnsupportedOperator,
    /// A literal was expected and something else was found.
    NotLiteral,
    /// The code has outgrown the addresses that instructions can hold.
    TooLarge,
}

/// Why a task cannot go on. Each is fatal to the task.
#[derive(Clone, Copy, Debug, PartialEq, Eq, Structural)]
pub enum RuntimeError {
    /// A value on the stack is not of the kind that the instruction works on.
    TypeError,
    /// The instruction needs more values than the stack holds.
    StackUnderflow,
    /// A constant is asked for that the pool does not hold.
    ConstantOutOfRange,
    /// The instruction pointer points outside the code.
    InstructionOutOfRange,
    /// A return without a call.
    ReturnWithoutCall,
    /// An object does not have the property asked for.
    MissingProperty,
    /// The value cannot be sent to a topic.
    NotTransmissible,
    /// A payload is neither a value that scripts work on nor text.
    InvalidPayload,
    /// The time of day cannot be found on today's clock.
    UnknownTime,
    /// The numbers for new groups of tasks have run out.
    Exhausted,
}

} // verus!
