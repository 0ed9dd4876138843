//! Fatal data-compiler errors. The compiled tables are a dependency baked
//! into every later query, so any structural violation of the source data
//! aborts compilation entirely: no partial tables are ever produced.
//! Runtime lookups never fail this way; an unknown key is an ordinary
//! no-match result.
use vstd::prelude::*;

verus! {

#[derive(Clone, Copy, PartialEq, Eq, Structural, Debug, Hash)]
pub enum CompileError {
    /// A row holds more cells than the document declares columns.
    RowWiderThanColumns,
    /// An atomic-number cell does not parse as an unsigned decimal byte.
    AtomicNumberUnparsable,
    /// A record's atomic number is zero or above 118.
    AtomicNumberOutOfRange,
    /// Two records share one atomic number.
    DuplicateAtomicNumber,
    /// No record carries some atomic number in `[1, 118]`.
    MissingAtomicNumber,
    /// An electron-configuration string violates the shorthand grammar.
    ConfigurationMalformed,
    /// A configuration token's shell number falls outside the slot range of
    /// its subshell type.
    ShellOutOfRange,
    /// A bracketed configuration reference names no lighter element.
    UnknownConfigurationReference,
    /// An atomic-radius cell does not parse as an unsigned decimal integer.
    AtomicRadiusUnparsable,
    /// A year-discovered cell is neither empty, nor `Ancient`, nor an
    /// unsigned decimal integer.
    YearUnparsable,
    /// A standard-state cell matches no known phase of matter.
    UnknownStandardState,
    /// A group-block cell matches no category of the closed enumeration.
    UnknownGroupBlock,
    /// Two records share one symbol, so no strict symbol index exists.
    DuplicateSymbol,
    /// Two records share one lowercased name, so no strict name index exists.
    DuplicateName,
}

} // verus!
