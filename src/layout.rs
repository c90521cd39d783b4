//! The layout of a hash string: a size header, a scale digit when there are
//! AC coefficients, four digits of DC colour, then two digits per AC coefficient.

use vstd::prelude::*;

use crate::base83::{
    all_symbols, decode_range, digit, digit_of, digit_value, is_symbol, symbol_of, value_of,
};
use crate::error::CodecError;
use crate::pixels::valid_components;
use crate::text::{chars_of, string_of};

verus! {

/// The header value for the given component counts.
pub open spec fn size_flag(x_components: nat, y_components: nat) -> nat {
    ((x_components - 1) + (y_components - 1) * 9) as nat
}

/// Whether a hash with these component counts carries a scale (`maxAC`) digit.
pub open spec fn has_scale(x_components: nat, y_components: nat) -> bool {
    x_components * y_components > 1
}

/// Where the four DC digits start.
pub open spec fn dc_offset(x_components: nat, y_components: nat) -> nat {
    if has_scale(x_components, y_components) {
        2
    } else {
        1
    }
}

/// Length of a hash with these component counts.
pub open spec fn hash_len(x_components: nat, y_components: nat) -> nat {
    dc_offset(x_components, y_components) + 4 + 2 * ((x_components * y_components - 1) as nat)
}

/// Component counts that the header symbol of `s` announces.
pub open spec fn x_of(s: Seq<char>) -> nat {
    digit_value(s[0]) % 9 + 1
}

pub open spec fn y_of(s: Seq<char>) -> nat {
    digit_value(s[0]) / 9 + 1
}

/// Why `s` is not a well-formed hash, checked in this order; `None` when it is one.
pub open spec fn hash_error(s: Seq<char>) -> Option<CodecError> {
    if s.len() == 0 {
        Some(CodecError::InvalidLength)
    } else if !is_symbol(s[0]) {
        Some(CodecError::InvalidCharacter)
    } else if digit_value(s[0]) > 80 {
        Some(CodecError::UnsupportedMode)
    } else if s.len() != hash_len(x_of(s), y_of(s)) {
        Some(CodecError::InvalidLength)
    } else if !all_symbols(s) {
        Some(CodecError::InvalidCharacter)
    } else {
        None
    }
}

/// The number held by the `len` symbols of `s` that start at `start`.
pub open spec fn field(s: Seq<char>, start: nat, len: nat) -> nat {
    value_of(s.subrange(start as int, (start + len) as int))
}

/// The DC field of a well-formed hash.
pub open spec fn dc_field(s: Seq<char>) -> nat {
    field(s, dc_offset(x_of(s), y_of(s)), 4)
}

/// The `k`-th AC field of a well-formed hash.
pub open spec fn ac_field(s: Seq<char>, k: nat) -> nat {
    field(s, dc_offset(x_of(s), y_of(s)) + 4 + 2 * k, 2)
}

/// The numbers that a hash string carries.
pub struct HashFields {
    pub x_components: usize,
    pub y_components: usize,
    /// Quantised scale of the AC coefficients; absent when there are none.
    pub max_ac: Option<u8>,
    /// Packed sRGB average colour, `r << 16 | g << 8 | b`.
    pub dc: u32,
    /// Packed AC coefficients in row-major order, `(0, 0)` left out.
    pub acs: Vec<u32>,
}

/// `fields` are the numbers that the well-formed hash `s` carries.
pub open spec fn fields_of(s: Seq<char>, fields: HashFields) -> bool {
    &&& fields.x_components == x_of(s)
    &&& fields.y_components == y_of(s)
    &&& (fields.max_ac is Some <==> has_scale(x_of(s), y_of(s)))
    &&& (fields.max_ac matches Some(m) ==> m == digit_value(s[1]))
    &&& fields.dc == dc_field(s)
    &&& fields.acs@.len() == x_of(s) * y_of(s) - 1
    &&& forall|k: int| 0 <= k < fields.acs@.len() ==> #[trigger] fields.acs@[k] == ac_field(s, k as nat)
}

proof fn lemma_sub_symbols(s: Seq<char>, a: int, b: int)
    requires
        all_symbols(s),
        0 <= a <= b <= s.len(),
    ensures
        all_symbols(s.subrange(a, b)),
{
    assert forall|i: int| 0 <= i < b - a implies is_symbol(#[trigger] s.subrange(a, b)[i]) by {
        assert(s.subrange(a, b)[i] == s[a + i]);
    }
}

/// Checks the header, the length and the alphabet of a hash; gives its
/// component counts.
fn check_hash(cs: &Vec<char>) -> (r: Result<(usize, usize), CodecError>)
    ensures
        r is Ok <==> hash_error(cs@) is None,
        r matches Err(e) ==> hash_error(cs@) == Some(e),
        r matches Ok((x, y)) ==> x == x_of(cs@) && y == y_of(cs@) && valid_components(
            x as nat,
            y as nat,
        ),
{
    let n = cs.len();
    if n == 0 {
        return Err(CodecError::InvalidLength);
    }
    let flag = match digit(cs[0]) {
        None => {
            return Err(CodecError::InvalidCharacter);
        },
        Some(d) => d as usize,
    };
    if flag > 80 {
        return Err(CodecError::UnsupportedMode);
    }
    let x = flag % 9 + 1;
    let y = flag / 9 + 1;
    assert(1 <= x * y <= 81) by (nonlinear_arith)
        requires
            1 <= x <= 9,
            1 <= y <= 9,
    ;
    let count = x * y;
    assert(digit_value(cs@[0]) == flag);
    assert(count == x_of(cs@) * y_of(cs@));
    let offset: usize = if count > 1 {
        2
    } else {
        1
    };
    if n != offset + 4 + 2 * (count - 1) {
        return Err(CodecError::InvalidLength);
    }
    assert(n == hash_len(x_of(cs@), y_of(cs@)));
    let mut i: usize = 0;
    while i < n
        invariant
            n == cs@.len(),
            n == hash_len(x_of(cs@), y_of(cs@)),
            digit_value(cs@[0]) <= 80,
            is_symbol(cs@[0]),
            i <= n,
            forall|j: int| 0 <= j < i ==> is_symbol(#[trigger] cs@[j]),
        decreases n - i,
    {
        if digit(cs[i]).is_none() {
            assert(!is_symbol(cs@[i as int]));
            return Err(CodecError::InvalidCharacter);
        }
        i = i + 1;
    }
    Ok((x, y))
}

/// Reads the numbers out of a hash string; the error says why the string is
/// not a hash.
pub fn parse_hash(hash: &str) -> (r: Result<HashFields, CodecError>)
    ensures
        r is Ok <==> hash_error(hash@) is None,
        r matches Err(e) ==> hash_error(hash@) == Some(e),
        r matches Ok(f) ==> fields_of(hash@, f),
{
    let cs = chars_of(hash);
    let (x, y) = match check_hash(&cs) {
        Err(e) => {
            return Err(e);
        },
        Ok(xy) => xy,
    };
    let ghost s = cs@;
    assert(1 <= x * y <= 81) by (nonlinear_arith)
        requires
            1 <= x <= 9,
            1 <= y <= 9,
    ;
    let count = x * y;
    let n = cs.len();
    let (max_ac, offset) = if count > 1 {
        let m = match digit(cs[1]) {
            Some(d) => d,
            None => 0,
        };
        (Some(m), 2usize)
    } else {
        (None, 1usize)
    };
    proof {
        lemma_sub_symbols(s, offset as int, offset + 4);
    }
    let dc = match decode_range(&cs, offset, offset + 4) {
        Ok(v) => v,
        Err(_) => 0,
    };
    proof {
        crate::base83::lemma_value_bound(s.subrange(offset as int, offset + 4));
        crate::base83::lemma_pow83_ten();
    }
    let mut acs: Vec<u32> = Vec::new();
    let mut k: usize = 0;
    while k < count - 1
        invariant
            s == cs@,
            n == s.len(),
            1 <= count <= 81,
            count == x_of(s) * y_of(s),
            offset == dc_offset(x_of(s), y_of(s)),
            n == offset + 4 + 2 * (count - 1),
            all_symbols(s),
            k <= count - 1,
            acs@.len() == k,
            forall|j: int| 0 <= j < k ==> #[trigger] acs@[j] == ac_field(s, j as nat),
        decreases count - 1 - k,
    {
        let start = offset + 4 + 2 * k;
        proof {
            lemma_sub_symbols(s, start as int, start + 2);
            crate::base83::lemma_value_bound(s.subrange(start as int, start + 2));
            crate::base83::lemma_pow83_ten();
        }
        let v = match decode_range(&cs, start, start + 2) {
            Ok(v) => v,
            Err(_) => 0,
        };
        acs.push(v as u32);
        k = k + 1;
    }
    Ok(HashFields { x_components: x, y_components: y, max_ac, dc: dc as u32, acs })
}

/// The layout that always carries a scale digit: for a single coefficient a
/// zero scale digit is put after the header.
pub open spec fn with_scale_digit(s: Seq<char>) -> Seq<char> {
    if has_scale(x_of(s), y_of(s)) {
        s
    } else {
        seq![s[0], '0'] + s.subrange(1, s.len() as int)
    }
}

/// The layout of this library from one that always carries a scale digit:
/// for a single coefficient the digit after the header is left out.
pub open spec fn without_idle_scale(raw: Seq<char>, x_components: nat, y_components: nat) -> Seq<char> {
    if x_components * y_components == 1 && raw.len() >= 2 {
        seq![raw[0]] + raw.subrange(2, raw.len() as int)
    } else {
        raw
    }
}

/// Checks a hash and writes it in the layout that always carries a scale digit.
pub fn scaled_layout(hash: &str) -> (r: Result<String, CodecError>)
    ensures
        r is Ok <==> hash_error(hash@) is None,
        r matches Err(e) ==> hash_error(hash@) == Some(e),
        r matches Ok(w) ==> w@ == with_scale_digit(hash@),
{
    let cs = chars_of(hash);
    let (x, y) = match check_hash(&cs) {
        Err(e) => {
            return Err(e);
        },
        Ok(xy) => xy,
    };
    assert(1 <= x * y <= 81) by (nonlinear_arith)
        requires
            1 <= x <= 9,
            1 <= y <= 9,
    ;
    if x * y > 1 {
        let w = string_of(&cs, 0, cs.len());
        assert(w@ =~= hash@);
        return Ok(w);
    }
    let mut w = String::new();
    w.push(cs[0]);
    w.push('0');
    let mut i: usize = 1;
    while i < cs.len()
        invariant
            cs@ == hash@,
            1 <= i <= cs@.len(),
            w@ == seq![cs@[0], '0'] + cs@.subrange(1, i as int),
        decreases cs@.len() - i,
    {
        w.push(cs[i]);
        assert(w@ =~= seq![cs@[0], '0'] + cs@.subrange(1, i + 1));
        i = i + 1;
    }
    Ok(w)
}

/// Leaves out the scale digit of a hash with a single coefficient.
pub fn drop_idle_scale(raw: &str, x_components: usize, y_components: usize) -> (r: String)
    requires
        valid_components(x_components as nat, y_components as nat),
    ensures
        r@ == without_idle_scale(raw@, x_components as nat, y_components as nat),
{
    let cs = chars_of(raw);
    assert(1 <= x_components * y_components <= 81) by (nonlinear_arith)
        requires
            valid_components(x_components as nat, y_components as nat),
    ;
    if x_components * y_components == 1 && cs.len() >= 2 {
        let mut w = String::new();
        w.push(cs[0]);
        let mut i: usize = 2;
        while i < cs.len()
            invariant
                cs@ == raw@,
                2 <= i <= cs@.len(),
                w@ == seq![cs@[0]] + cs@.subrange(2, i as int),
            decreases cs@.len() - i,
        {
            w.push(cs[i]);
            assert(w@ =~= seq![cs@[0]] + cs@.subrange(2, i + 1));
            i = i + 1;
        }
        w
    } else {
        let w = string_of(&cs, 0, cs.len());
        assert(w@ =~= raw@);
        w
    }
}

/// A string of the length that the component counts give, made of symbols
/// and headed by their size flag, is a well-formed hash that announces those
/// counts; with a single coefficient it holds only the header and the DC digits.
pub proof fn lemma_hash_well_formed(s: Seq<char>, x_components: nat, y_components: nat)
    requires
        valid_components(x_components, y_components),
        s.len() == hash_len(x_components, y_components),
        all_symbols(s),
        s.len() > 0 && digit_of(s[0]) == Some(size_flag(x_components, y_components)),
    ensures
        hash_error(s) is None,
        x_of(s) == x_components,
        y_of(s) == y_components,
        x_components * y_components == 1 ==> s.len() == 5,
{
    let f = size_flag(x_components, y_components);
    assert(f % 9 + 1 == x_components && f / 9 + 1 == y_components);
}

/// Leaving out the idle scale digit of a string that always carries one
/// gives the length, alphabet and header of this library's layout.
pub proof fn lemma_drop_idle_scale(raw: Seq<char>, x_components: nat, y_components: nat)
    requires
        valid_components(x_components, y_components),
        raw.len() == 6 + 2 * ((x_components * y_components - 1) as nat),
        all_symbols(raw),
        raw[0] == symbol_of(size_flag(x_components, y_components)),
    ensures
        without_idle_scale(raw, x_components, y_components).len() == hash_len(x_components, y_components),
        all_symbols(without_idle_scale(raw, x_components, y_components)),
        without_idle_scale(raw, x_components, y_components)[0] == raw[0],
{
    assert(1 <= x_components * y_components <= 81) by (nonlinear_arith)
        requires
            valid_components(x_components, y_components),
    ;
    let t = without_idle_scale(raw, x_components, y_components);
    assert forall|i: int| 0 <= i < t.len() implies is_symbol(#[trigger] t[i]) by {
        if x_components * y_components == 1 && i > 0 {
            assert(t[i] == raw[i + 1]);
        }
    }
}

} // verus!
