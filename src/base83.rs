//! Fixed-width numerals in the 83-symbol alphabet used by hash strings.

use vstd::arithmetic::div_mod::{lemma_basic_div, lemma_div_denominator, lemma_div_non_zero};
use vstd::prelude::*;

use crate::text::chars_of;

verus! {

/// Value of a symbol of the 83-symbol alphabet (`0-9`, `A-Z`, `a-z`, then
/// `#$%*+,-.:;=?@[]^_{|}~`), or `None` for any other character.
pub open spec fn digit_of(c: char) -> Option<nat> {
    let u = c as u32;
    if 48 <= u <= 57 {
        Some((u - 48) as nat)
    } else if 65 <= u <= 90 {
        Some((u - 55) as nat)
    } else if 97 <= u <= 122 {
        Some((u - 61) as nat)
    } else {
        match c {
            '#' => Some(62),
            '$' => Some(63),
            '%' => Some(64),
            '*' => Some(65),
            '+' => Some(66),
            ',' => Some(67),
            '-' => Some(68),
            '.' => Some(69),
            ':' => Some(70),
            ';' => Some(71),
            '=' => Some(72),
            '?' => Some(73),
            '@' => Some(74),
            '[' => Some(75),
            ']' => Some(76),
            '^' => Some(77),
            '_' => Some(78),
            '{' => Some(79),
            '|' => Some(80),
            '}' => Some(81),
            '~' => Some(82),
            _ => None,
        }
    }
}

/// The symbol for a digit below 83.
pub open spec fn symbol_of(d: nat) -> char {
    if d < 10 {
        (48 + d) as char
    } else if d < 36 {
        (55 + d) as char
    } else if d < 62 {
        (61 + d) as char
    } else if d == 62 {
        '#'
    } else if d == 63 {
        '$'
    } else if d == 64 {
        '%'
    } else if d == 65 {
        '*'
    } else if d == 66 {
        '+'
    } else if d == 67 {
        ','
    } else if d == 68 {
        '-'
    } else if d == 69 {
        '.'
    } else if d == 70 {
        ':'
    } else if d == 71 {
        ';'
    } else if d == 72 {
        '='
    } else if d == 73 {
        '?'
    } else if d == 74 {
        '@'
    } else if d == 75 {
        '['
    } else if d == 76 {
        ']'
    } else if d == 77 {
        '^'
    } else if d == 78 {
        '_'
    } else if d == 79 {
        '{'
    } else if d == 80 {
        '|'
    } else if d == 81 {
        '}'
    } else {
        '~'
    }
}

/// The last `n` base-83 digits of `v`, most significant first.
pub open spec fn encoded(v: nat, n: nat) -> Seq<char>
    decreases n,
{
    if n == 0 {
        Seq::empty()
    } else {
        encoded(v / 83, (n - 1) as nat).push(symbol_of(v % 83))
    }
}

pub open spec fn is_symbol(c: char) -> bool {
    digit_of(c) is Some
}

pub open spec fn all_symbols(s: Seq<char>) -> bool {
    forall|i: int| 0 <= i < s.len() ==> is_symbol(#[trigger] s[i])
}

/// Value of one symbol, zero for a character outside the alphabet.
pub open spec fn digit_value(c: char) -> nat {
    match digit_of(c) {
        Some(d) => d,
        None => 0,
    }
}

pub open spec fn pow83(n: nat) -> nat
    decreases n,
{
    if n == 0 {
        1
    } else {
        83 * pow83((n - 1) as nat)
    }
}

/// The number that a string of symbols denotes, most significant digit first.
pub open spec fn value_of(s: Seq<char>) -> nat
    decreases s.len(),
{
    if s.len() == 0 {
        0
    } else {
        value_of(s.drop_last()) * 83 + digit_value(s.last())
    }
}

#[derive(Debug, Clone, Copy, PartialEq, Eq, Structural)]
pub enum Base83Error {
    /// A character outside the alphabet.
    InvalidCharacter,
    /// The value needs more symbols than were asked for.
    ValueTooLarge,
}

pub proof fn lemma_digit_bound(c: char)
    ensures
        digit_value(c) < 83,
{
}

pub proof fn lemma_pow83_positive(n: nat)
    ensures
        pow83(n) >= 1,
    decreases n,
{
    if n > 0 {
        lemma_pow83_positive((n - 1) as nat);
    }
}

/// A string of `n` symbols denotes a number below `83^n`.
pub proof fn lemma_value_bound(s: Seq<char>)
    ensures
        value_of(s) < pow83(s.len()),
    decreases s.len(),
{
    if s.len() > 0 {
        let t = s.drop_last();
        lemma_value_bound(t);
        lemma_digit_bound(s.last());
        let a = value_of(t);
        let p = pow83(t.len());
        let d = digit_value(s.last());
        assert(a * 83 + d < 83 * p) by (nonlinear_arith)
            requires
                a < p,
                d < 83,
        ;
    }
}

/// The symbol for a digit below 83.
pub fn symbol(d: u8) -> (c: char)
    requires
        d < 83,
    ensures
        c == symbol_of(d as nat),
        digit_of(c) == Some(d as nat),
{
    if d < 10 {
        (48u8 + d) as char
    } else if d < 36 {
        (55u8 + d) as char
    } else if d < 62 {
        (61u8 + d) as char
    } else {
        match d {
            62 => '#',
            63 => '$',
            64 => '%',
            65 => '*',
            66 => '+',
            67 => ',',
            68 => '-',
            69 => '.',
            70 => ':',
            71 => ';',
            72 => '=',
            73 => '?',
            74 => '@',
            75 => '[',
            76 => ']',
            77 => '^',
            78 => '_',
            79 => '{',
            80 => '|',
            81 => '}',
            _ => '~',
        }
    }
}

/// The digit that a character stands for, if it belongs to the alphabet.
pub fn digit(c: char) -> (r: Option<u8>)
    ensures
        r matches Some(d) ==> digit_of(c) == Some(d as nat),
        r is None ==> digit_of(c) is None,
{
    let u = c as u32;
    if 48 <= u && u <= 57 {
        Some((u - 48) as u8)
    } else if 65 <= u && u <= 90 {
        Some((u - 55) as u8)
    } else if 97 <= u && u <= 122 {
        Some((u - 61) as u8)
    } else {
        match c {
            '#' => Some(62),
            '$' => Some(63),
            '%' => Some(64),
            '*' => Some(65),
            '+' => Some(66),
            ',' => Some(67),
            '-' => Some(68),
            '.' => Some(69),
            ':' => Some(70),
            ';' => Some(71),
            '=' => Some(72),
            '?' => Some(73),
            '@' => Some(74),
            '[' => Some(75),
            ']' => Some(76),
            '^' => Some(77),
            '_' => Some(78),
            '{' => Some(79),
            '|' => Some(80),
            '}' => Some(81),
            '~' => Some(82),
            _ => None,
        }
    }
}

pub proof fn lemma_pow83_mono(a: nat, b: nat)
    requires
        a <= b,
    ensures
        pow83(a) <= pow83(b),
    decreases b,
{
    if a < b {
        lemma_pow83_mono(a, (b - 1) as nat);
    }
}

pub proof fn lemma_pow83_ten()
    ensures
        pow83(1) == 83,
        pow83(2) == 6889,
        pow83(4) == 47458321,
        pow83(10) == 15516041187205853449,
{
    assert(pow83(0) == 1);
    assert(pow83(1) == 83);
    assert(pow83(2) == 6889);
    assert(pow83(3) == 571787);
    assert(pow83(4) == 47458321);
    assert(pow83(5) == 3939040643);
    assert(pow83(6) == 326940373369);
    assert(pow83(7) == 27136050989627);
    assert(pow83(8) == 2252292232139041);
    assert(pow83(9) == 186940255267540403);
}

/// The number that the symbols `cs[start..end]` denote; `InvalidCharacter`
/// exactly when one of them lies outside the alphabet.
pub fn decode_range(cs: &Vec<char>, start: usize, end: usize) -> (r: Result<u64, Base83Error>)
    requires
        start <= end <= cs@.len(),
        end - start <= 10,
    ensures
        r is Ok <==> all_symbols(cs@.subrange(start as int, end as int)),
        r is Err ==> r == Err::<u64, Base83Error>(Base83Error::InvalidCharacter),
        r matches Ok(v) ==> v == value_of(cs@.subrange(start as int, end as int)),
{
    let ghost full = cs@.subrange(start as int, end as int);
    let mut acc: u64 = 0;
    let mut i: usize = start;
    proof {
        assert(cs@.subrange(start as int, start as int) =~= Seq::<char>::empty());
        lemma_pow83_ten();
    }
    while i < end
        invariant
            start <= i <= end <= cs@.len(),
            end - start <= 10,
            full == cs@.subrange(start as int, end as int),
            pow83(10) == 15516041187205853449,
            all_symbols(cs@.subrange(start as int, i as int)),
            acc == value_of(cs@.subrange(start as int, i as int)),
        decreases end - i,
    {
        let c = cs[i];
        match digit(c) {
            None => {
                assert(full[i - start] == c);
                return Err(Base83Error::InvalidCharacter);
            },
            Some(d) => {
                let ghost next = cs@.subrange(start as int, i + 1);
                proof {
                    assert(next.drop_last() =~= cs@.subrange(start as int, i as int));
                    assert(next.last() == c);
                    lemma_value_bound(next);
                    lemma_pow83_mono(next.len(), 10);
                    assert(value_of(next) == acc * 83 + d);
                }
                acc = acc * 83 + d as u64;
                assert(all_symbols(next)) by {
                    assert forall|k: int| 0 <= k < next.len() implies is_symbol(#[trigger] next[k]) by {
                        if k < next.len() - 1 {
                            assert(next[k] == cs@.subrange(start as int, i as int)[k]);
                        }
                    }
                }
                i = i + 1;
            },
        }
    }
    assert(cs@.subrange(start as int, i as int) == full);
    Ok(acc)
}

/// The number that a string of at most ten symbols denotes.
pub fn decode(s: &str) -> (r: Result<u64, Base83Error>)
    requires
        s@.len() <= 10,
    ensures
        r is Ok <==> all_symbols(s@),
        r is Err ==> r == Err::<u64, Base83Error>(Base83Error::InvalidCharacter),
        r matches Ok(v) ==> v == value_of(s@),
{
    let cs = chars_of(s);
    assert(cs@.subrange(0, cs@.len() as int) =~= s@);
    decode_range(&cs, 0, cs.len())
}

pub proof fn lemma_symbol_digit(d: nat)
    requires
        d < 83,
    ensures
        digit_of(symbol_of(d)) == Some(d),
{
}

pub proof fn lemma_encoded_shape(v: nat, n: nat)
    ensures
        encoded(v, n).len() == n,
        all_symbols(encoded(v, n)),
    decreases n,
{
    if n > 0 {
        lemma_encoded_shape(v / 83, (n - 1) as nat);
        lemma_symbol_digit(v % 83);
        let e = encoded(v, n);
        let t = encoded(v / 83, (n - 1) as nat);
        assert forall|k: int| 0 <= k < e.len() implies is_symbol(#[trigger] e[k]) by {
            if k < t.len() {
                assert(e[k] == t[k]);
            }
        }
    }
}

/// Digits come out least significant first: the digit of weight `83^i` goes
/// in front of the last `i` digits.
pub proof fn lemma_encoded_step(v: nat, i: nat)
    ensures
        encoded(v, i + 1) == seq![symbol_of((v / pow83(i)) % 83)] + encoded(v, i),
    decreases i,
{
    if i == 0 {
        assert(pow83(0) == 1);
        assert(v / 1 == v);
        assert(encoded(v / 83, 0) =~= Seq::<char>::empty());
        assert(encoded(v, 1) =~= seq![symbol_of((v / pow83(i)) % 83)] + encoded(v, i));
    } else {
        let j = (i - 1) as nat;
        lemma_encoded_step(v / 83, j);
        lemma_pow83_positive(j);
        lemma_div_denominator(v as int, 83, pow83(j) as int);
        assert(pow83(i) == 83 * pow83(j));
        assert((v / 83) / pow83(j) == v / pow83(i));
        let s = symbol_of((v / pow83(i)) % 83);
        assert(encoded(v, i + 1) == encoded(v / 83, i).push(symbol_of(v % 83)));
        assert(encoded(v, i) == encoded(v / 83, j).push(symbol_of(v % 83)));
        assert(encoded(v, i + 1) =~= seq![s] + encoded(v, i));
    }
}

/// Decoding the `n`-symbol encoding of a value below `83^n` gives the value back.
pub proof fn lemma_round_trip(v: nat, n: nat)
    requires
        v < pow83(n),
    ensures
        encoded(v, n).len() == n,
        all_symbols(encoded(v, n)),
        value_of(encoded(v, n)) == v,
    decreases n,
{
    lemma_encoded_shape(v, n);
    if n > 0 {
        let m = (n - 1) as nat;
        let p = pow83(m);
        assert(v / 83 < p) by (nonlinear_arith)
            requires
                v < 83 * p,
        ;
        lemma_round_trip(v / 83, m);
        lemma_symbol_digit(v % 83);
        let e = encoded(v, n);
        assert(e.drop_last() == encoded(v / 83, m));
        assert(e.last() == symbol_of(v % 83));
        assert(value_of(e) == (v / 83) * 83 + v % 83);
    }
}

/// The `length` symbols that denote `value`, most significant first, zero-padded;
/// `ValueTooLarge` exactly when `value` needs more than `length` symbols.
pub fn encode(value: u64, length: usize) -> (r: Result<String, Base83Error>)
    ensures
        r is Ok <==> value < pow83(length as nat),
        r is Err ==> r == Err::<String, Base83Error>(Base83Error::ValueTooLarge),
        r matches Ok(s) ==> s@ == encoded(value as nat, length as nat),
        r matches Ok(s) ==> s@.len() == length && all_symbols(s@) && value_of(s@) == value,
{
    let mut low: Vec<char> = Vec::new();
    let mut cur: u64 = value;
    let mut i: usize = 0;
    proof {
        assert(pow83(0) == 1);
        assert(value as nat / 1 == value);
        assert(encoded(value as nat, 0) =~= Seq::<char>::empty());
    }
    while i < length
        invariant
            i <= length,
            low@.len() == i,
            cur == value as nat / pow83(i as nat),
            encoded(value as nat, i as nat).len() == i,
            forall|k: int| 0 <= k < i ==> low@[k] == #[trigger] encoded(value as nat, i as nat)[i - 1 - k],
        decreases length - i,
    {
        let ghost before = encoded(value as nat, i as nat);
        let d = (cur % 83) as u8;
        let c = symbol(d);
        low.push(c);
        proof {
            lemma_encoded_step(value as nat, i as nat);
            lemma_encoded_shape(value as nat, i as nat);
            lemma_encoded_shape(value as nat, (i + 1) as nat);
            lemma_pow83_positive(i as nat);
            lemma_div_denominator(value as int, pow83(i as nat) as int, 83);
            assert(pow83((i + 1) as nat) == pow83(i as nat) * 83);
            let after = encoded(value as nat, (i + 1) as nat);
            assert(after == seq![c] + before);
            assert forall|k: int| 0 <= k < i + 1 implies low@[k] == #[trigger] after[i + 1 - 1 - k] by {
                if k < i {
                    assert(after[i - k] == before[i - 1 - k]);
                }
            }
        }
        cur = cur / 83;
        i = i + 1;
    }
    proof {
        lemma_pow83_positive(length as nat);
        lemma_encoded_shape(value as nat, length as nat);
    }
    if cur != 0 {
        proof {
            if value < pow83(length as nat) {
                lemma_basic_div(value as int, pow83(length as nat) as int);
            }
        }
        return Err(Base83Error::ValueTooLarge);
    }
    proof {
        if value >= pow83(length as nat) {
            lemma_div_non_zero(value as int, pow83(length as nat) as int);
        }
        lemma_round_trip(value as nat, length as nat);
    }
    let ghost acc = encoded(value as nat, length as nat);
    let mut out = String::new();
    let mut j: usize = 0;
    while j < length
        invariant
            j <= length,
            low@.len() == length,
            acc.len() == length,
            acc == encoded(value as nat, length as nat),
            forall|k: int| 0 <= k < length ==> low@[k] == #[trigger] acc[length - 1 - k],
            out@ == acc.subrange(0, j as int),
        decreases length - j,
    {
        let c = low[length - 1 - j];
        assert(low@[length - 1 - j] == acc[length - 1 - (length - 1 - j)]);
        out.push(c);
        assert(out@ =~= acc.subrange(0, j + 1));
        j = j + 1;
    }
    assert(out@ =~= acc);
    Ok(out)
}

} // verus!
