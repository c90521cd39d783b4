//! Validation of encode inputs and reshaping of the pixel buffer.

use vstd::prelude::*;

use crate::error::CodecError;

verus! {

pub const MIN_COMPONENTS: usize = 1;
pub const MAX_COMPONENTS: usize = 9;

pub open spec fn valid_components(x_components: nat, y_components: nat) -> bool {
    1 <= x_components <= 9 && 1 <= y_components <= 9
}

/// The colour of pixel `k` of a buffer with `channels` bytes per pixel; any
/// byte after the third (alpha) is left out.
pub open spec fn pixel_at(pixels: Seq<u8>, channels: nat, k: int) -> [u8; 3] {
    [pixels[channels * k], pixels[channels * k + 1], pixels[channels * k + 2]]
}

/// The pixels of a buffer with `channels` bytes per pixel, as colour triples.
pub open spec fn rgb_pixels(pixels: Seq<u8>, channels: nat) -> Seq<[u8; 3]> {
    Seq::new(pixels.len() / channels, |k: int| pixel_at(pixels, channels, k))
}

/// Rejects an image without area.
pub fn check_dimensions(width: usize, height: usize) -> (r: Result<(), CodecError>)
    ensures
        r is Ok <==> width >= 1 && height >= 1,
        r is Err ==> r == Err::<(), CodecError>(CodecError::ZeroDimension),
{
    if width == 0 || height == 0 {
        return Err(CodecError::ZeroDimension);
    }
    Ok(())
}

/// Rejects component counts outside `1..=9`.
pub fn check_components(x_components: usize, y_components: usize) -> (r: Result<(), CodecError>)
    ensures
        r is Ok <==> valid_components(x_components as nat, y_components as nat),
        r is Err ==> r == Err::<(), CodecError>(CodecError::ComponentsOutOfRange),
{
    if x_components < MIN_COMPONENTS || x_components > MAX_COMPONENTS || y_components
        < MIN_COMPONENTS || y_components > MAX_COMPONENTS {
        return Err(CodecError::ComponentsOutOfRange);
    }
    Ok(())
}

/// Cuts a flat buffer into pixels of `channels` bytes each, keeping the colour
/// bytes; `None` when a partial pixel would be left over.
pub fn to_chunks(pixels: &[u8], channels: usize) -> (r: Option<Vec<[u8; 3]>>)
    requires
        channels == 3 || channels == 4,
    ensures
        r is Some <==> pixels@.len() % channels as nat == 0,
        r matches Some(v) ==> v@ == rgb_pixels(pixels@, channels as nat),
{
    let n = pixels.len();
    if n % channels != 0 {
        return None;
    }
    let count = n / channels;
    let mut out: Vec<[u8; 3]> = Vec::new();
    let mut k: usize = 0;
    while k < count
        invariant
            n == pixels@.len(),
            channels == 3 || channels == 4,
            count == n / channels,
            n % channels == 0,
            k <= count,
            out@ == rgb_pixels(pixels@, channels as nat).subrange(0, k as int),
        decreases count - k,
    {
        assert(channels * k + channels <= n) by (nonlinear_arith)
            requires
                k < count,
                count == n / channels,
                n % channels == 0,
                channels > 0,
        ;
        let base = channels * k;
        let px: [u8; 3] = [pixels[base], pixels[base + 1], pixels[base + 2]];
        out.push(px);
        assert(out@ =~= rgb_pixels(pixels@, channels as nat).subrange(0, k + 1));
        k = k + 1;
    }
    assert(out@ =~= rgb_pixels(pixels@, channels as nat));
    Some(out)
}

} // verus!
