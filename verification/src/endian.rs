use vstd::prelude::*;

verus! {

/// Byte order of multi-byte integers in a stream.
#[derive(Clone, Copy, Debug, PartialEq, Eq, Structural)]
pub enum Endian {
    Big,
    Little,
}

impl Endian {
    /// The byte order announced by a serialized file's endianness byte:
    /// any nonzero value means big-endian.
    pub fn from_flag(flag: u8) -> (r: Endian)
        ensures
            r == Self::of_flag(flag),
    {
        if flag != 0 {
            Endian::Big
        } else {
            Endian::Little
        }
    }

    pub open spec fn of_flag(flag: u8) -> Endian {
        if flag != 0 {
            Endian::Big
        } else {
            Endian::Little
        }
    }
}

} // verus!
