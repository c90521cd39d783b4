use blurhash_codec::base83;
use blurhash_codec::codec::{encode, encode_rgb, encode_rgba};
use blurhash_codec::error::CodecError;
use blurhash_codec::layout::{drop_idle_scale, parse_hash, scaled_layout};
use blurhash_codec::pixels::{check_components, check_dimensions, to_chunks};
use blurhash_codec::render::{flatten, render};

const ALPHABET: &str =
    "0123456789ABCDEFGHIJKLMNOPQRSTUVWXYZabcdefghijklmnopqrstuvwxyz#$%*+,-.:;=?@[]^_{|}~";

fn solid(color: [u8; 3], width: usize, height: usize) -> Vec<u8> {
    let mut v = Vec::new();
    for _ in 0..width * height {
        v.extend_from_slice(&color);
    }
    v
}

fn decode_bitmap(hash: &str, width: usize, height: usize, punch: f32) -> Result<Vec<u8>, CodecError> {
    let wire = scaled_layout(hash)?;
    let dct = fast_blurhash::decode(&wire, punch).expect("well-formed hash");
    Ok(render(&dct, width, height))
}

fn expected_len(x: usize, y: usize) -> usize {
    1 + if x * y > 1 { 1 } else { 0 } + 4 + 2 * (x * y - 1)
}

#[test]
fn base83_known_values() {
    assert_eq!(base83::encode(0, 1).unwrap(), "0");
    assert_eq!(base83::encode(82, 1).unwrap(), "~");
    assert_eq!(base83::encode(83, 2).unwrap(), "10");
    assert_eq!(base83::encode(6888, 2).unwrap(), "~~");
    assert_eq!(base83::encode(0xFFFFFF, 4).unwrap(), "TSUA");
    assert_eq!(base83::encode(5, 3).unwrap(), "005");
    assert_eq!(base83::decode("~~"), Ok(6888));
    assert_eq!(base83::decode("10"), Ok(83));
    assert_eq!(base83::decode(""), Ok(0));
}

#[test]
fn base83_rejects_values_that_do_not_fit() {
    assert_eq!(base83::encode(83, 1), Err(base83::Base83Error::ValueTooLarge));
    assert_eq!(base83::encode(6889, 2), Err(base83::Base83Error::ValueTooLarge));
    assert_eq!(base83::encode(1, 0), Err(base83::Base83Error::ValueTooLarge));
    assert_eq!(base83::encode(0, 0).unwrap(), "");
}

#[test]
fn base83_rejects_foreign_characters() {
    assert_eq!(base83::decode("0!"), Err(base83::Base83Error::InvalidCharacter));
    assert_eq!(base83::decode(" "), Err(base83::Base83Error::InvalidCharacter));
    assert_eq!(base83::decode("\""), Err(base83::Base83Error::InvalidCharacter));
}

#[test]
fn base83_round_trip() {
    for n in 1..=4usize {
        let limit = 83u64.pow(n as u32);
        let mut v: u64 = 0;
        while v < limit {
            let s = base83::encode(v, n).unwrap();
            assert_eq!(s.chars().count(), n);
            assert_eq!(base83::decode(&s), Ok(v));
            v = v * 3 + 1;
        }
        let top = base83::encode(limit - 1, n).unwrap();
        assert_eq!(base83::decode(&top), Ok(limit - 1));
    }
}

#[test]
fn base83_alphabet_order() {
    for (d, c) in ALPHABET.chars().enumerate() {
        assert_eq!(base83::symbol(d as u8), c);
        assert_eq!(base83::digit(c), Some(d as u8));
    }
    assert_eq!(base83::digit('"'), None);
}

#[test]
fn encode_known_hashes() {
    let image: Vec<u8> = [
        [255, 0, 0], [0, 0, 0], [255, 255, 255], [0, 0, 0],
        [0, 0, 0], [0, 0, 0], [255, 255, 255], [0, 0, 0],
        [255, 255, 255], [255, 255, 255], [0, 255, 0], [255, 255, 255],
        [0, 0, 0], [0, 0, 0], [255, 255, 255], [0, 0, 0],
    ]
    .concat();
    assert_eq!(encode(&image, 3, 3, 4, 4, 3).unwrap(), "KzKUZY=|HZ=|$5e9HZe9IS");
    let white = solid([255, 255, 255], 4, 4);
    assert_eq!(
        encode(&white, 4, 4, 4, 4, 3).unwrap(),
        "U~TSUA~qfQ~q~q%MfQ%MfQfQfQfQ~q%MfQ%M"
    );
}

#[test]
fn single_component_hash_has_no_scale_digit() {
    let image = solid([255, 127, 55], 4, 4);
    let hash = encode(&image, 1, 1, 4, 4, 3).unwrap();
    assert_eq!(hash, "0TNl]");
    let fields = parse_hash(&hash).unwrap();
    assert_eq!(fields.max_ac, None);
    assert!(fields.acs.is_empty());
    assert_eq!(fields.dc, (255 << 16) | (127 << 8) | 55);
    let a = decode_bitmap(&hash, 3, 2, 1.0).unwrap();
    let b = decode_bitmap(&hash, 3, 2, 5.0).unwrap();
    assert_eq!(a, b);
    for px in a.chunks(3) {
        assert_eq!(px, &[255, 127, 55]);
    }
}

#[test]
fn hash_length_follows_component_counts() {
    let image: Vec<u8> = (0..5 * 3 * 3).map(|i| (i * 37 % 256) as u8).collect();
    for x in 1..=9 {
        for y in 1..=9 {
            let hash = encode(&image, x, y, 5, 3, 3).unwrap();
            assert_eq!(hash.len(), expected_len(x, y));
            let fields = parse_hash(&hash).unwrap();
            assert_eq!((fields.x_components, fields.y_components), (x, y));
            assert_eq!(fields.acs.len(), x * y - 1);
        }
    }
}

#[test]
fn hash_symbols_come_from_the_alphabet() {
    let image: Vec<u8> = (0..6 * 4 * 4).map(|i| (i * 91 % 256) as u8).collect();
    for (x, y) in [(1, 1), (2, 3), (4, 4), (9, 9), (9, 1)] {
        let hash = encode(&image, x, y, 6, 4, 4).unwrap();
        assert!(hash.chars().all(|c| ALPHABET.contains(c)), "{hash}");
    }
}

#[test]
fn white_image_keeps_a_white_average() {
    let white = solid([255, 255, 255], 4, 4);
    let hash = encode(&white, 4, 3, 4, 4, 3).unwrap();
    assert_eq!(hash.len(), 1 + 1 + 4 + 2 * 11);
    let fields = parse_hash(&hash).unwrap();
    assert_eq!(fields.dc, 0xFFFFFF);
    let bitmap = decode_bitmap(&hash, 32, 32, 1.0).unwrap();
    assert_eq!(bitmap.len(), 32 * 32 * 3);
    let average = encode(&white, 1, 1, 4, 4, 3).unwrap();
    let flat = decode_bitmap(&average, 32, 32, 1.0).unwrap();
    assert!(flat.iter().all(|&b| b == 255));
}

#[test]
fn solid_colours_survive_a_round_trip() {
    let colours = [[255, 127, 55], [0, 0, 0], [12, 200, 99], [128, 128, 128], [1, 254, 31]];
    for colour in colours {
        let image = solid(colour, 7, 5);
        for (x, y) in [(1, 1)] {
            let hash = encode(&image, x, y, 7, 5, 3).unwrap();
            let bitmap = decode_bitmap(&hash, 8, 6, 1.0).unwrap();
            for px in bitmap.chunks(3) {
                for c in 0..3 {
                    let d = (px[c] as i32 - colour[c] as i32).abs();
                    assert!(d <= 2, "{colour:?} {x}x{y}: {px:?}");
                }
            }
        }
    }
}

#[test]
fn decoding_is_stable_once_quantised() {
    let colours = [[255, 127, 55], [30, 60, 90]];
    for colour in colours {
        let image = solid(colour, 4, 4);
        let hash = encode(&image, 1, 1, 4, 4, 3).unwrap();
        let first = decode_bitmap(&hash, 16, 16, 1.0).unwrap();
        let again = encode(&first, 1, 1, 16, 16, 3).unwrap();
        assert_eq!(again, hash);
        let second = decode_bitmap(&again, 16, 16, 1.0).unwrap();
        assert_eq!(first, second);
    }
}

#[test]
fn short_pixel_buffer_is_refused() {
    let pixels = vec![0u8; 47];
    assert_eq!(encode(&pixels, 4, 3, 4, 4, 3), Err(CodecError::PixelLengthMismatch));
    assert_eq!(encode_rgb(&pixels, 4, 3, 4, 4), Err(CodecError::PixelLengthMismatch));
    let pixels = vec![0u8; 48];
    assert_eq!(encode(&pixels, 4, 3, 4, 4, 4), Err(CodecError::PixelLengthMismatch));
    assert!(encode_rgba(&vec![0u8; 64], 4, 3, 4, 4).is_ok());
    assert_eq!(encode_rgba(&vec![0u8; 65], 4, 3, 4, 4), Err(CodecError::PixelLengthMismatch));
}

#[test]
fn encode_validation_errors() {
    let pixels = vec![0u8; 48];
    assert_eq!(encode(&pixels, 4, 3, 0, 4, 3), Err(CodecError::ZeroDimension));
    assert_eq!(encode(&pixels, 4, 3, 4, 0, 3), Err(CodecError::ZeroDimension));
    assert_eq!(encode(&pixels, 0, 3, 4, 4, 3), Err(CodecError::ComponentsOutOfRange));
    assert_eq!(encode(&pixels, 4, 10, 4, 4, 3), Err(CodecError::ComponentsOutOfRange));
    assert_eq!(encode(&pixels, 4, 3, 4, 4, 2), Err(CodecError::UnsupportedChannels));
    assert_eq!(encode(&pixels, 4, 3, 4, 4, 5), Err(CodecError::UnsupportedChannels));
}

#[test]
fn rgba_alpha_is_ignored() {
    let rgb = solid([10, 20, 30], 3, 3);
    let rgba: Vec<u8> = rgb.chunks(3).flat_map(|c| [c[0], c[1], c[2], 77]).collect();
    assert_eq!(encode(&rgb, 3, 2, 3, 3, 3), encode(&rgba, 3, 2, 3, 3, 4));
}

#[test]
fn foreign_character_is_a_format_error() {
    let white = solid([255, 255, 255], 4, 4);
    let hash = encode(&white, 4, 3, 4, 4, 3).unwrap();
    let mut broken: Vec<char> = hash.chars().collect();
    broken[7] = '!';
    let broken: String = broken.into_iter().collect();
    assert_eq!(parse_hash(&broken).err(), Some(CodecError::InvalidCharacter));
    assert_eq!(scaled_layout(&broken), Err(CodecError::InvalidCharacter));
    assert_eq!(decode_bitmap(&broken, 4, 4, 1.0), Err(CodecError::InvalidCharacter));
    assert_eq!(parse_hash("\"TNl]").err(), Some(CodecError::InvalidCharacter));
}

#[test]
fn malformed_hashes_are_refused() {
    assert_eq!(parse_hash("").err(), Some(CodecError::InvalidLength));
    assert_eq!(parse_hash("0TNl").err(), Some(CodecError::InvalidLength));
    assert_eq!(parse_hash("0~TNl]").err(), Some(CodecError::InvalidLength));
    assert_eq!(parse_hash("}TNl]").err(), Some(CodecError::UnsupportedMode));
    assert_eq!(parse_hash("~TNl]").err(), Some(CodecError::UnsupportedMode));
}

#[test]
fn parse_reads_every_field() {
    let fields = parse_hash("U~TSUA~qfQ~q~q%MfQ%MfQfQfQfQ~q%MfQ%M").unwrap();
    assert_eq!((fields.x_components, fields.y_components), (4, 4));
    assert_eq!(fields.max_ac, Some(82));
    assert_eq!(fields.dc, 0xFF_FF_FF);
    assert_eq!(fields.acs.len(), 15);
    assert_eq!(fields.acs[0], base83::decode("~q").unwrap() as u32);
    assert_eq!(fields.acs[14], base83::decode("%M").unwrap() as u32);
}

#[test]
fn scale_digit_layouts() {
    assert_eq!(scaled_layout("0TNl]").unwrap(), "00TNl]");
    assert_eq!(drop_idle_scale("0~TNl]", 1, 1), "0TNl]");
    let long = "KzKUZY=|HZ=|$5e9HZe9IS";
    assert_eq!(scaled_layout(long).unwrap(), long);
    assert_eq!(drop_idle_scale(long, 3, 3), long);
}

#[test]
fn validation_helpers() {
    assert_eq!(check_dimensions(1, 1), Ok(()));
    assert_eq!(check_dimensions(0, 1), Err(CodecError::ZeroDimension));
    assert_eq!(check_components(9, 1), Ok(()));
    assert_eq!(check_components(1, 0), Err(CodecError::ComponentsOutOfRange));
    assert_eq!(to_chunks(&[1, 2, 3, 4, 5, 6, 7, 8], 4), Some(vec![[1, 2, 3], [5, 6, 7]]));
    assert_eq!(to_chunks(&[1, 2, 3, 4], 3), None);
    assert_eq!(flatten(&vec![[1, 2, 3], [4, 5, 6]]), vec![1, 2, 3, 4, 5, 6]);
}
