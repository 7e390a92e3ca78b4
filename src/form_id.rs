//! Record identifiers.
use crate::le::{le32, le32_bytes, push_u32_le, read_u32_le};
use vstd::prelude::*;

verus! {

/// A 32-bit record identifier, unique across the files loaded together. Its
/// upper bits give the owning file's load slot; nothing here decodes them.
#[derive(Debug, Clone, Copy, PartialEq, Eq, Structural, Hash)]
pub struct FormID(pub u32);

impl FormID {
    pub const MAX_IDS: u32 = 0x00FFFFFF;
    pub const MAX_IDS_ESL: u32 = 0x00000FFF;

    /// The identifier in the first four bytes, read little-endian.
    pub fn from_bytes(buf: &[u8]) -> (r: FormID)
        requires
            buf@.len() >= 4,
        ensures
            r.0 == le32(buf@.subrange(0, 4)),
    {
        FormID(read_u32_le(buf, 0))
    }

    /// The four little-endian bytes of the identifier.
    pub fn as_bytes(&self) -> (r: Vec<u8>)
        ensures
            r@ == le32_bytes(self.0 as int),
    {
        let mut v: Vec<u8> = Vec::new();
        push_u32_le(&mut v, self.0);
        assert(v@ =~= le32_bytes(self.0 as int));
        v
    }
}

} // verus!
