//! What the shader that turns YUV pictures into RGB is given.

use crate::video::YuvFrame;
use vstd::prelude::*;

verus! {

/// The sizes of the planes of a picture.
#[derive(Debug, Clone, Copy, PartialEq, Eq, Structural)]
pub struct PlaneGeometry {
    pub width: u32,
    pub height: u32,
    pub chroma_width: u32,
    pub chroma_height: u32,
}

/// The sizes of the planes of a picture.
pub open spec fn geometry(frame: YuvFrame) -> PlaneGeometry {
    PlaneGeometry {
        width: frame.width,
        height: frame.height,
        chroma_width: frame.chroma_width,
        chroma_height: frame.chroma_height,
    }
}

/// The sizes of the planes to make for a picture, unless those that are there
/// have them.
pub fn planes_to_make(planes: Option<PlaneGeometry>, frame: &YuvFrame) -> (r: Option<PlaneGeometry>)
    ensures
        r == (if planes == Some(geometry(*frame)) {
            None
        } else {
            Some(geometry(*frame))
        }),
{
    let wanted = PlaneGeometry {
        width: frame.width,
        height: frame.height,
        chroma_width: frame.chroma_width,
        chroma_height: frame.chroma_height,
    };
    match planes {
        Some(p) => {
            if p == wanted {
                None
            } else {
                Some(wanted)
            }
        },
        None => Some(wanted),
    }
}

/// The bytes of a number, the lowest one first.
pub open spec fn le_bytes(n: u32) -> Seq<u8> {
    seq![
        (n % 256) as u8,
        (n / 256 % 256) as u8,
        (n / 65_536 % 256) as u8,
        (n / 16_777_216) as u8,
    ]
}

/// The brightness of white, 203 candela per square metre, as the shader reads it:
/// a number in single precision.
pub const SDR_WHITE_BITS: u32 = 0x434b_0000;

/// The parameters of the shader: the colour matrix, the range, the transfer
/// function and the brightness of white.
pub fn shader_params(frame: &YuvFrame) -> (r: Vec<u8>)
    ensures
        r@ == le_bytes(frame.matrix) + le_bytes(frame.full_range) + le_bytes(frame.transfer)
            + le_bytes(SDR_WHITE_BITS),
        r@.len() == 16,
{
    let mut out: Vec<u8> = Vec::new();
    push_le(&mut out, frame.matrix);
    push_le(&mut out, frame.full_range);
    push_le(&mut out, frame.transfer);
    push_le(&mut out, SDR_WHITE_BITS);
    out
}

/// Appends the bytes of a number.
fn push_le(out: &mut Vec<u8>, n: u32)
    ensures
        final(out)@ == old(out)@ + le_bytes(n),
{
    out.push((n % 256) as u8);
    out.push((n / 256 % 256) as u8);
    out.push((n / 65_536 % 256) as u8);
    out.push((n / 16_777_216) as u8);
    assert(out@ =~= old(out)@ + le_bytes(n));
}

// ---- Laws ------------------------------------------------------------------

/// The bytes of a number make it up again, each worth two hundred and fifty-six
/// times the one before it.
pub proof fn law_bytes_make_up_the_number(n: u32)
    ensures
        le_bytes(n).len() == 4,
        le_bytes(n)[0] + 256 * (le_bytes(n)[1] + 256 * (le_bytes(n)[2] + 256 * le_bytes(n)[3]))
            == n,
{
}

/// Planes are made for the size of the picture and of its colours, and kept as long as
/// neither changes.
pub proof fn law_planes_have_the_size_of_the_picture(a: YuvFrame, b: YuvFrame)
    ensures
        geometry(a) == geometry(b) <==> a.width == b.width && a.height == b.height
            && a.chroma_width == b.chroma_width && a.chroma_height == b.chroma_height,
        geometry(a).width == a.width && geometry(a).height == a.height,
        geometry(a).chroma_width == a.chroma_width && geometry(a).chroma_height
            == a.chroma_height,
{
}

} // verus!
