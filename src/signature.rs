//! Four-byte type tags.
use vstd::prelude::*;

verus! {

/// A four-byte type tag, such as `TES4`, `GRUP` or `EDID`.
#[derive(Debug, Clone, Copy, PartialEq, Eq, Hash)]
pub struct Signature(pub [u8; 4]);

/// What `String::from_utf8_lossy` makes of a byte sequence.
pub uninterp spec fn utf8_lossy(b: Seq<u8>) -> Seq<char>;

/// The characters of bytes that are all ASCII.
pub open spec fn ascii_chars(b: Seq<u8>) -> Seq<char> {
    Seq::new(b.len(), |i: int| b[i] as char)
}

pub open spec fn is_ascii_bytes(b: Seq<u8>) -> bool {
    forall|i: int| 0 <= i < b.len() ==> b[i] < 128
}

/// Relies on `String::from_utf8_lossy`: the result depends on the bytes alone, and
/// ASCII bytes each become the character of the same code.
#[verifier::external_body]
fn lossy_string(b: &[u8]) -> (r: String)
    ensures
        r@ == utf8_lossy(b@),
        is_ascii_bytes(b@) ==> r@ == ascii_chars(b@),
{
    String::from_utf8_lossy(b).into_owned()
}

/// The ASCII code of the lower-case hexadecimal digit `d < 16`.
pub open spec fn hex_digit(d: int) -> u8 {
    if d < 10 { (48 + d) as u8 } else { (87 + d) as u8 }
}

/// The tag `GRUP`, which opens every group.
pub open spec fn grup_tag() -> Seq<u8> {
    seq![71u8, 82u8, 85u8, 80u8]
}

/// The marker `XXXX` of the oversized field escape.
pub open spec fn xxxx_tag() -> Seq<u8> {
    seq![88u8, 88u8, 88u8, 88u8]
}

/// Whether the tag belongs to the `?IAD` family, whose first byte varies.
pub open spec fn is_iad(b: Seq<u8>) -> bool {
    b[1] == 73u8 && b[2] == 65u8 && b[3] == 68u8
}

/// The name of a tag: `(hh)IAD` for the `?IAD` family, `hh` being the first byte in
/// lower-case hex; otherwise the tag's bytes read as UTF-8, invalid bytes replaced.
pub open spec fn signature_name(b: Seq<u8>) -> Seq<char> {
    if is_iad(b) {
        ascii_chars(
            seq![
                40u8,
                hex_digit((b[0] / 16) as int),
                hex_digit((b[0] % 16) as int),
                41u8,
                73u8,
                65u8,
                68u8,
            ],
        )
    } else {
        utf8_lossy(b)
    }
}

fn hex_digit_exec(d: u8) -> (r: u8)
    requires
        d < 16,
    ensures
        r == hex_digit(d as int),
        r < 128,
{
    if d < 10 {
        48 + d
    } else {
        87 + d
    }
}

impl Signature {
    /// The tag with these four bytes.
    pub fn new(sig: &[u8; 4]) -> (r: Signature)
        ensures
            r.0@ == sig@,
    {
        Signature(*sig)
    }

    /// The tag made of the four bytes of `bytes`.
    pub fn from_bytes(bytes: &[u8]) -> (r: Signature)
        requires
            bytes@.len() == 4,
        ensures
            r.0@ == bytes@,
    {
        let r = Signature([bytes[0], bytes[1], bytes[2], bytes[3]]);
        assert(r.0@ =~= bytes@);
        r
    }

    /// The four bytes of the tag, in a new buffer.
    pub fn as_bytes(&self) -> (r: Vec<u8>)
        ensures
            r@ == self.0@,
    {
        let mut v: Vec<u8> = Vec::new();
        v.push(self.0[0]);
        v.push(self.0[1]);
        v.push(self.0[2]);
        v.push(self.0[3]);
        assert(v@ =~= self.0@);
        v
    }

    /// The four bytes of the tag.
    pub fn as_slice(&self) -> (r: &[u8])
        ensures
            r@ == self.0@,
    {
        self.0.as_slice()
    }

    /// The tag's name, as `signature_name` gives it.
    pub fn as_string(&self) -> (r: String)
        ensures
            r@ == signature_name(self.0@),
    {
        let b = self.0;
        if b[1] == 73u8 && b[2] == 65u8 && b[3] == 68u8 {
            let mut v: Vec<u8> = Vec::new();
            v.push(40u8);
            v.push(hex_digit_exec(b[0] / 16));
            v.push(hex_digit_exec(b[0] % 16));
            v.push(41u8);
            v.push(73u8);
            v.push(65u8);
            v.push(68u8);
            let ghost expected = seq![
                40u8,
                hex_digit((b[0] / 16) as int),
                hex_digit((b[0] % 16) as int),
                41u8,
                73u8,
                65u8,
                68u8,
            ];
            assert(v@ =~= expected);
            lossy_string(v.as_slice())
        } else {
            lossy_string(b.as_slice())
        }
    }
}

} // verus!
