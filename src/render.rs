//! Turning a decoded transform into a flat RGB byte buffer.

use vstd::prelude::*;

verus! {

/// The coefficients that `fast_blurhash::decode` reads out of a hash,
/// carried through unopened.
#[verifier::external_type_specification]
#[verifier::external_body]
pub struct ExDctResult(fast_blurhash::DCTResult);

/// Relies on `DCTResult::to_rgb8`: one sRGB colour per pixel of a
/// `width` by `height` image, row by row.
#[verifier::external_body]
fn reconstruct(dct: &fast_blurhash::DCTResult, width: usize, height: usize) -> (r: Vec<[u8; 3]>)
    requires
        width * height * 3 <= isize::MAX,
    ensures
        r@.len() == width * height,
{
    dct.to_rgb8(width, height)
}

/// The bytes of a sequence of colours, three per colour, in order.
pub open spec fn flat_bytes(colors: Seq<[u8; 3]>) -> Seq<u8> {
    Seq::new(3 * colors.len(), |i: int| colors[i / 3][i % 3])
}

/// Lays the colours out as one byte buffer, three bytes per colour.
pub fn flatten(colors: &Vec<[u8; 3]>) -> (r: Vec<u8>)
    requires
        3 * colors@.len() <= usize::MAX,
    ensures
        r@ == flat_bytes(colors@),
{
    let n = colors.len();
    let mut out: Vec<u8> = Vec::new();
    let mut k: usize = 0;
    while k < n
        invariant
            n == colors@.len(),
            3 * n <= usize::MAX,
            k <= n,
            out@ == flat_bytes(colors@).subrange(0, 3 * k as int),
        decreases n - k,
    {
        let c = colors[k];
        out.push(c[0]);
        out.push(c[1]);
        out.push(c[2]);
        let ghost f = flat_bytes(colors@);
        assert(f[3 * k as int] == c[0]);
        assert(f[3 * k + 1] == c[1]);
        assert(f[3 * k + 2] == c[2]);
        assert(out@ =~= f.subrange(0, 3 * (k + 1) as int));
        k = k + 1;
    }
    assert(out@ =~= flat_bytes(colors@));
    out
}

/// The pixels of a decoded transform as a `width * height * 3` byte RGB buffer.
pub fn render(dct: &fast_blurhash::DCTResult, width: usize, height: usize) -> (r: Vec<u8>)
    requires
        width * height * 3 <= isize::MAX,
    ensures
        r@.len() == width * height * 3,
{
    let colors = reconstruct(dct, width, height);
    flatten(&colors)
}

} // verus!
