use vstd::prelude::*;

verus! {

/// The errors that decoding, encoding and constant-pool lookups report.
#[derive(Debug, Clone, PartialEq, Eq)]
pub enum JavaError {
    /// The entry exists but is not of a kind that the requested view accepts.
    ConstantTypeError(String),
    /// The index lies outside the constant pool.
    InvalidConstantId(u16),
    /// No `Utf8` entry of the pool holds the string looked for.
    StringNotFound,
    /// The input ended in the middle of a structure.
    UnexpectedEnd,
    /// The file does not start with `0xCAFEBABE`.
    BadMagic(u32),
    /// A constant-pool entry carries a tag that no constant kind uses.
    UnknownConstantTag(u8),
    /// The bytecode holds a byte that is no opcode.
    UnknownOpcode(u8),
    /// A structure disagrees with itself: a length that does not match what it
    /// frames, a tag out of range, a count that cannot be represented.
    Malformed,
}

} // verus!
