//! Encoding a pixel buffer into a hash string.

use vstd::prelude::*;

use crate::base83::{all_symbols, symbol_of};
use crate::error::CodecError;
use crate::layout::{
    drop_idle_scale, hash_error, hash_len, lemma_drop_idle_scale, lemma_hash_well_formed,
    size_flag, without_idle_scale, x_of, y_of,
};
use crate::pixels::{check_components, check_dimensions, rgb_pixels, to_chunks, valid_components};

verus! {

/// The hash that the cosine transform of `pixels` gives, in the layout that
/// always carries a scale digit.
pub uninterp spec fn dct_hash(
    pixels: Seq<[u8; 3]>,
    width: nat,
    height: nat,
    x_components: nat,
    y_components: nat,
) -> Seq<char>;

/// Relies on `fast_blurhash::compute_dct` and `DCTResult::into_blurhash`: the
/// transform of the image written as base-83 digits, one for the size flag,
/// one for the AC scale, four for the DC colour and two per AC coefficient,
/// each taken from the 83-symbol table.
#[verifier::external_body]
fn transform_to_hash(
    pixels: &Vec<[u8; 3]>,
    width: usize,
    height: usize,
    x_components: usize,
    y_components: usize,
) -> (r: String)
    requires
        valid_components(x_components as nat, y_components as nat),
        width >= 1,
        height >= 1,
        pixels@.len() == width * height,
    ensures
        r@ == dct_hash(pixels@, width as nat, height as nat, x_components as nat, y_components as nat),
        r@.len() == 6 + 2 * ((x_components * y_components - 1) as nat),
        all_symbols(r@),
        r@[0] == symbol_of(size_flag(x_components as nat, y_components as nat)),
{
    fast_blurhash::compute_dct::<fast_blurhash::convert::Rgb>(
        pixels.as_slice(),
        width,
        height,
        x_components,
        y_components,
    ).into_blurhash()
}

/// Why an encode with these inputs is refused, checked in this order; `None`
/// when it goes ahead.
pub open spec fn encode_error(
    len: nat,
    x_components: nat,
    y_components: nat,
    width: nat,
    height: nat,
    channels: nat,
) -> Option<CodecError> {
    if channels != 3 && channels != 4 {
        Some(CodecError::UnsupportedChannels)
    } else if width == 0 || height == 0 {
        Some(CodecError::ZeroDimension)
    } else if !valid_components(x_components, y_components) {
        Some(CodecError::ComponentsOutOfRange)
    } else if len != width * height * channels {
        Some(CodecError::PixelLengthMismatch)
    } else {
        None
    }
}

/// The hash of an image whose pixels take `channels` bytes each.
pub open spec fn image_hash(
    pixels: Seq<u8>,
    x_components: nat,
    y_components: nat,
    width: nat,
    height: nat,
    channels: nat,
) -> Seq<char> {
    without_idle_scale(
        dct_hash(rgb_pixels(pixels, channels), width, height, x_components, y_components),
        x_components,
        y_components,
    )
}

/// What an encode promises: the error exactly when the inputs are refused;
/// otherwise the hash of the image, of the length that the component counts
/// give, made of alphabet symbols, that announces those counts.
pub open spec fn encode_post(
    pixels: Seq<u8>,
    x_components: nat,
    y_components: nat,
    width: nat,
    height: nat,
    channels: nat,
    r: Result<String, CodecError>,
) -> bool {
    &&& (r is Ok <==> encode_error(pixels.len(), x_components, y_components, width, height, channels) is None)
    &&& (r matches Err(e) ==> encode_error(pixels.len(), x_components, y_components, width, height, channels) == Some(e))
    &&& (r matches Ok(s) ==> {
        &&& s@ == image_hash(pixels, x_components, y_components, width, height, channels)
        &&& s@.len() == hash_len(x_components, y_components)
        &&& all_symbols(s@)
        &&& hash_error(s@) is None
        &&& x_of(s@) == x_components
        &&& y_of(s@) == y_components
    })
}

fn encode_pixels(
    pixels: &[u8],
    x_components: usize,
    y_components: usize,
    width: usize,
    height: usize,
    channels: usize,
) -> (r: Result<String, CodecError>)
    requires
        channels == 3 || channels == 4,
    ensures
        encode_post(
            pixels@,
            x_components as nat,
            y_components as nat,
            width as nat,
            height as nat,
            channels as nat,
            r,
        ),
{
    check_dimensions(width, height)?;
    check_components(x_components, y_components)?;
    let chunks = match to_chunks(pixels, channels) {
        None => {
            assert(pixels@.len() != width * height * channels) by (nonlinear_arith)
                requires
                    pixels@.len() % channels as nat != 0,
                    channels > 0,
            ;
            return Err(CodecError::PixelLengthMismatch);
        },
        Some(v) => v,
    };
    let count = chunks.len();
    let area = width.checked_mul(height);
    let matches = match area {
        Some(a) => count == a,
        None => false,
    };
    assert(matches <==> count == width * height);
    proof {
        let n = pixels@.len();
        assert(chunks@.len() == n / channels as nat);
        assert(matches <==> n == width * height * channels) by (nonlinear_arith)
            requires
                chunks@.len() == n / channels as nat,
                n % channels as nat == 0,
                channels > 0,
                matches <==> chunks@.len() == width * height,
        ;
    }
    if !matches {
        return Err(CodecError::PixelLengthMismatch);
    }
    let raw = transform_to_hash(&chunks, width, height, x_components, y_components);
    let s = drop_idle_scale(raw.as_str(), x_components, y_components);
    proof {
        lemma_drop_idle_scale(raw@, x_components as nat, y_components as nat);
        crate::base83::lemma_symbol_digit(size_flag(x_components as nat, y_components as nat));
        lemma_hash_well_formed(s@, x_components as nat, y_components as nat);
    }
    Ok(s)
}

/// Hash of an RGB image, three bytes per pixel.
pub fn encode_rgb(
    pixels: &[u8],
    x_components: usize,
    y_components: usize,
    width: usize,
    height: usize,
) -> (r: Result<String, CodecError>)
    ensures
        encode_post(pixels@, x_components as nat, y_components as nat, width as nat, height as nat, 3, r),
{
    encode_pixels(pixels, x_components, y_components, width, height, 3)
}

/// Hash of an RGBA image, four bytes per pixel; alpha takes no part.
pub fn encode_rgba(
    pixels: &[u8],
    x_components: usize,
    y_components: usize,
    width: usize,
    height: usize,
) -> (r: Result<String, CodecError>)
    ensures
        encode_post(pixels@, x_components as nat, y_components as nat, width as nat, height as nat, 4, r),
{
    encode_pixels(pixels, x_components, y_components, width, height, 4)
}

/// Hash of an image whose pixels take `space` bytes each (3 for RGB, 4 for RGBA).
pub fn encode(
    pixels: &[u8],
    x_components: usize,
    y_components: usize,
    width: usize,
    height: usize,
    space: u8,
) -> (r: Result<String, CodecError>)
    ensures
        encode_post(
            pixels@,
            x_components as nat,
            y_components as nat,
            width as nat,
            height as nat,
            space as nat,
            r,
        ),
{
    match space {
        3 => encode_rgb(pixels, x_components, y_components, width, height),
        4 => encode_rgba(pixels, x_components, y_components, width, height),
        _ => Err(CodecError::UnsupportedChannels),
    }
}

} // verus!
