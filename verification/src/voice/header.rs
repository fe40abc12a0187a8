//! The header that precedes the voice frames of a call.

use vstd::prelude::*;
use vstd::slice::slice_subrange;

verus! {

/// Number of bytes in a voice header.
pub const HEADER_BYTES: usize = 15;

/// The 16-bit word whose high byte is `bytes[at]` and whose low byte is the next one.
pub open spec fn word_at(bytes: Seq<u8>, at: int) -> int {
    bytes[at] * 256 + bytes[at + 1]
}

/// Reads the fields of a voice header: nine bytes of message indicator, one of
/// manufacturer, one of encryption algorithm, two of key and two of talk group.
pub struct VoiceHeaderDecoder([u8; HEADER_BYTES]);

impl View for VoiceHeaderDecoder {
    type V = Seq<u8>;

    /// The bytes of the header.
    closed spec fn view(&self) -> Seq<u8> {
        self.0@
    }
}

impl VoiceHeaderDecoder {
    /// Create a decoder over the bytes of a header.
    pub fn new(buf: [u8; HEADER_BYTES]) -> (header: Self)
        ensures
            header@ == buf@,
    {
        VoiceHeaderDecoder(buf)
    }

    /// Message indicator that initialises the encryption.
    pub fn crypto_init(&self) -> (init: &[u8])
        ensures
            init@ == self@.subrange(0, 9),
    {
        slice_subrange(self.0.as_slice(), 0, 9)
    }

    /// Manufacturer identifier.
    pub fn mfg(&self) -> (id: u8)
        ensures
            id == self@[9],
    {
        self.0[9]
    }

    /// Identifier of the encryption algorithm.
    pub fn crypto_alg(&self) -> (id: u8)
        ensures
            id == self@[10],
    {
        self.0[10]
    }

    /// Identifier of the encryption key.
    pub fn crypto_key(&self) -> (id: u16)
        ensures
            id == word_at(self@, 11),
    {
        word(self.0[11], self.0[12])
    }

    /// Identifier of the talk group that the call is for.
    pub fn talk_group(&self) -> (id: u16)
        ensures
            id == word_at(self@, 13),
    {
        word(self.0[13], self.0[14])
    }
}

/// The 16-bit word with the given high and low bytes.
fn word(high: u8, low: u8) -> (w: u16)
    ensures
        w == high * 256 + low,
{
    high as u16 * 256 + low as u16
}

} // verus!
