use vstd::prelude::*;

verus! {

/// The ways a decode or encode of an achievements file can fail.
///
/// There is no local recovery: any of these aborts the whole operation.
#[derive(Clone, Copy, Debug, PartialEq, Eq, Structural)]
pub enum CodecError {
    /// The input ended in the middle of a field.
    Truncated,
    /// A count or string length exceeds the representable range of its
    /// on-disk width.
    LengthOverflow,
    /// A content names a tag that is not in the variant table.
    UnknownTag,
    /// A content names a reserved tag whose payload layout is unknown.
    UnknownPayloadLayout,
    /// The bytes after the contents table do not split into 16-bit values.
    TrailingGarbage,
    /// During encode, a content's tag disagrees with its progress variant.
    InternalConsistency,
}

} // verus!
