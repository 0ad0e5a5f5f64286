use vstd::prelude::*;

verus! {

/// Why decoding an archive or a sprite stopped.
#[derive(Debug, Clone, Copy, PartialEq, Eq, Structural)]
pub enum DecodeError {
    /// A read ran past the end of the available bytes.
    UnexpectedEof,
    /// The archive's entry table does not fit in the archive.
    TableTooLarge,
    /// No archive entry carries the requested id.
    NotFound,
    /// The payload does not start with the sprite magic `SP`.
    BadMagic,
    /// The sprite header block is shorter than its six fields.
    HeaderTooShort,
    /// A scanline opcode covers more columns than remain in the row.
    Overrun,
    /// A frame's raster does not fit in the address space.
    ImageTooLarge,
}

} // verus!
