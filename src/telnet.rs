use vstd::prelude::*;

verus! {

/// The handshake got no usable window size from the client.
#[derive(Clone, Copy, Debug, PartialEq, Eq, Structural)]
pub enum HandshakeError {
    NegotiationFailure,
}

/// Asks the client not to echo locally and to send each character as typed:
/// `IAC DO LINEMODE`, `IAC SB LINEMODE MODE 0 IAC SE`, `IAC WILL ECHO`.
pub fn character_mode_request() -> (r: Vec<u8>)
    ensures
        r@ == seq![255u8, 253, 34, 255, 250, 34, 1, 0, 255, 240, 255, 251, 1],
{
    vec![255, 253, 34, 255, 250, 34, 1, 0, 255, 240, 255, 251, 1]
}

/// Asks the client to report its window size: `IAC DO NAWS`.
pub fn window_size_request() -> (r: Vec<u8>)
    ensures
        r@ == seq![255u8, 253, 31],
{
    vec![255, 253, 31]
}

/// A window-size report starts at `i`: `IAC SB NAWS`, then width and height
/// (two bytes each, high byte first) and `IAC SE`, nine bytes in all.
pub open spec fn naws_at(b: Seq<u8>, i: int) -> bool {
    &&& 0 <= i
    &&& i + 9 <= b.len()
    &&& b[i] == 255
    &&& b[i + 1] == 250
    &&& b[i + 2] == 31
}

/// `i` is where the first window-size report starts.
pub open spec fn first_naws(b: Seq<u8>, i: int) -> bool {
    naws_at(b, i) && forall|k: int| 0 <= k < i ==> !naws_at(b, k)
}

pub open spec fn be16(hi: u8, lo: u8) -> u16 {
    (hi as nat * 256 + lo as nat) as u16
}

/// The width and height in the report that starts at `i`.
pub open spec fn naws_size(b: Seq<u8>, i: int) -> (u16, u16) {
    (be16(b[i + 3], b[i + 4]), be16(b[i + 5], b[i + 6]))
}

/// Reads the client's window size from the first window-size report in
/// `bytes`. Fails when there is none, or when it gives a zero dimension.
pub fn get_telnet_size(bytes: &[u8]) -> (r: Result<(u16, u16), HandshakeError>)
    ensures
        match r {
            Ok(size) => exists|i: int|
                first_naws(bytes@, i) && size == naws_size(bytes@, i) && size.0 > 0 && size.1 > 0,
            Err(_) => forall|i: int|
                #![trigger naws_at(bytes@, i)]
                first_naws(bytes@, i) ==> naws_size(bytes@, i).0 == 0 || naws_size(bytes@, i).1
                    == 0,
        },
{
    let n = bytes.len();
    let mut i: usize = 0;
    while i < n && n - i >= 9
        invariant
            n == bytes@.len(),
            forall|k: int| 0 <= k < i ==> !naws_at(bytes@, k),
        decreases n - i,
    {
        if bytes[i] == 255 && bytes[i + 1] == 250 && bytes[i + 2] == 31 {
            let width = bytes[i + 3] as u16 * 256 + bytes[i + 4] as u16;
            let height = bytes[i + 5] as u16 * 256 + bytes[i + 6] as u16;
            assert(first_naws(bytes@, i as int));
            if width == 0 || height == 0 {
                return Err(HandshakeError::NegotiationFailure);
            }
            return Ok((width, height));
        }
        i = i + 1;
    }
    Err(HandshakeError::NegotiationFailure)
}

} // verus!
