use crate::compare::{Arith, FloatOps, FloatOrder, FloatPair, FloatSyntax};
use crate::text::{chars_of, first_index, index_of, trim_bounds, trimmed, word_is};
use crate::value::ValueType;
use vstd::prelude::*;

verus! {

/// The value of the digit `c` in base `radix` (ten or sixteen; either case for hex).
pub open spec fn digit_of(c: char, radix: nat) -> Option<nat> {
    let u = c as u32;
    if 0x30 <= u <= 0x39 && ((u - 0x30) as nat) < radix {
        Some((u - 0x30) as nat)
    } else if radix == 16 && 0x61 <= u <= 0x66 {
        Some((u - 0x57) as nat)
    } else if radix == 16 && 0x41 <= u <= 0x46 {
        Some((u - 0x37) as nat)
    } else {
        None
    }
}

pub open spec fn all_digits(s: Seq<char>, radix: nat) -> bool {
    forall|i: int| 0 <= i < s.len() ==> (#[trigger] digit_of(s[i], radix)) is Some
}

/// The number the digits of `s` spell in base `radix`, most significant first.
pub open spec fn digits_value(s: Seq<char>, radix: nat) -> nat
    decreases s.len(),
{
    if s.len() == 0 {
        0
    } else {
        digits_value(s.drop_last(), radix) * radix + match digit_of(s.last(), radix) {
            Some(d) => d,
            None => 0,
        }
    }
}

/// The number `s` spells when it is a non-empty run of digits.
pub open spec fn magnitude(s: Seq<char>, radix: nat) -> Option<nat> {
    if s.len() > 0 && all_digits(s, radix) {
        Some(digits_value(s, radix))
    } else {
        None
    }
}

/// An integer in std's syntax: an optional `+` (or `-`, where `signed`), then digits.
pub open spec fn int_literal(s: Seq<char>, radix: nat, signed: bool) -> Option<int> {
    if s.len() > 0 && s[0] == '+' {
        match magnitude(s.drop_first(), radix) {
            Some(m) => Some(m as int),
            None => None,
        }
    } else if signed && s.len() > 0 && s[0] == '-' {
        match magnitude(s.drop_first(), radix) {
            Some(m) => Some(-m),
            None => None,
        }
    } else {
        match magnitude(s, radix) {
            Some(m) => Some(m as int),
            None => None,
        }
    }
}

/// The integer `s` spells, when it lies in `lo..=hi`.
pub open spec fn int_in(s: Seq<char>, radix: nat, signed: bool, lo: int, hi: int) -> Option<int> {
    match int_literal(s, radix, signed) {
        Some(n) => if lo <= n <= hi {
            Some(n)
        } else {
            None
        },
        None => None,
    }
}

proof fn lemma_digits_prefix(s: Seq<char>, radix: nat, k: int)
    requires
        radix >= 1,
        0 <= k <= s.len(),
        all_digits(s, radix),
    ensures
        digits_value(s.take(k), radix) <= digits_value(s, radix),
    decreases s.len() - k,
{
    if k < s.len() {
        let t = s.drop_last();
        assert(t.take(k) =~= s.take(k));
        assert(all_digits(t, radix)) by {
            assert forall|i: int| 0 <= i < t.len() implies (#[trigger] digit_of(t[i], radix)) is Some by {
                assert(t[i] == s[i]);
            }
        }
        lemma_digits_prefix(t, radix, k);
        let d = digits_value(t, radix);
        assert(d <= d * radix) by (nonlinear_arith)
            requires
                radix >= 1,
        ;
    } else {
        assert(s.take(k) =~= s);
    }
}

fn digit(c: char, radix: u32) -> (r: Option<u32>)
    requires
        radix == 10 || radix == 16,
    ensures
        match digit_of(c, radix as nat) {
            Some(d) => r == Some(d as u32),
            None => r is None,
        },
        r is Some ==> r->0 < radix,
{
    let u = c as u32;
    if 0x30 <= u && u <= 0x39 && u - 0x30 < radix {
        Some(u - 0x30)
    } else if radix == 16 && 0x61 <= u && u <= 0x66 {
        Some(u - 0x57)
    } else if radix == 16 && 0x41 <= u && u <= 0x46 {
        Some(u - 0x37)
    } else {
        None
    }
}

/// The number the digits `s[start..end]` spell, when there are some, all are digits, and
/// the number is at most `limit`.
fn magnitude_at(s: &Vec<char>, start: usize, end: usize, radix: u32, limit: u64) -> (r: Option<u64>)
    requires
        start <= end <= s@.len(),
        radix == 10 || radix == 16,
        limit >= 16,
    ensures
        match magnitude(s@.subrange(start as int, end as int), radix as nat) {
            Some(m) => if m <= limit {
                r == Some(m as u64)
            } else {
                r is None
            },
            None => r is None,
        },
{
    let ghost w = s@.subrange(start as int, end as int);
    let ghost rd = radix as nat;
    if start == end {
        return None;
    }
    let mut acc: u64 = 0;
    let mut i: usize = start;
    proof {
        assert(s@.subrange(start as int, start as int) =~= Seq::<char>::empty());
    }
    while i < end
        invariant
            start <= i <= end <= s@.len(),
            start < end,
            radix == 10 || radix == 16,
            rd == radix as nat,
            limit >= 16,
            w == s@.subrange(start as int, end as int),
            all_digits(s@.subrange(start as int, i as int), rd),
            acc as nat == digits_value(s@.subrange(start as int, i as int), rd),
            acc <= limit,
        decreases end - i,
    {
        let ghost pre = s@.subrange(start as int, i as int);
        let ghost next = s@.subrange(start as int, i + 1);
        proof {
            assert(next.drop_last() =~= pre);
            assert(w.take(i + 1 - start) =~= next);
        }
        let d = match digit(s[i], radix) {
            Some(d) => d,
            None => {
                proof {
                    assert(w[i - start] == s@[i as int]);
                    assert(!all_digits(w, rd));
                }
                return None;
            },
        };
        let q: u64 = (limit - d as u64) / radix as u64;
        if acc > q {
            proof {
                let a = acc as int;
                let qq = q as int;
                let r = radix as int;
                let l = limit as int;
                let dd = d as int;
                assert(qq * r + (l - dd) % r == l - dd) by {
                    vstd::arithmetic::div_mod::lemma_fundamental_div_mod(l - dd, r);
                }
                assert(a * r + dd > l) by (nonlinear_arith)
                    requires
                        a >= qq + 1,
                        qq * r + (l - dd) % r == l - dd,
                        (l - dd) % r < r,
                        r > 0,
                ;
                assert(digits_value(next, rd) == a * r + dd);
                if all_digits(w, rd) {
                    lemma_digits_prefix(w, rd, i + 1 - start);
                }
            }
            return None;
        }
        proof {
            let a = acc as int;
            let qq = q as int;
            let r = radix as int;
            let l = limit as int;
            let dd = d as int;
            assert(qq * r <= l - dd) by {
                vstd::arithmetic::div_mod::lemma_fundamental_div_mod(l - dd, r);
                vstd::arithmetic::div_mod::lemma_mod_pos_bound(l - dd, r);
            }
            assert(a * r <= qq * r) by (nonlinear_arith)
                requires
                    a <= qq,
                    r > 0,
            ;
            assert(all_digits(next, rd)) by {
                assert forall|j: int| 0 <= j < next.len() implies (#[trigger] digit_of(
                    next[j],
                    rd,
                )) is Some by {
                    if j < pre.len() {
                        assert(next[j] == pre[j]);
                    }
                }
            }
        }
        acc = acc * radix as u64 + d as u64;
        i = i + 1;
    }
    proof {
        assert(s@.subrange(start as int, i as int) =~= w);
    }
    Some(acc)
}

/// The integer `s[start..end]` spells in base `radix`, when it lies in
/// `-neg_limit..=hi` (in `0..=hi` unless `signed`).
pub(crate) fn int_at(
    s: &Vec<char>,
    start: usize,
    end: usize,
    radix: u32,
    signed: bool,
    neg_limit: u64,
    hi: u64,
) -> (r: Option<i128>)
    requires
        start <= end <= s@.len(),
        radix == 10 || radix == 16,
        neg_limit >= 16,
        hi >= 16,
    ensures
        match int_in(
            s@.subrange(start as int, end as int),
            radix as nat,
            signed,
            if signed {
                -(neg_limit as int)
            } else {
                0
            },
            hi as int,
        ) {
            Some(n) => r == Some(n as i128),
            None => r is None,
        },
{
    let ghost w = s@.subrange(start as int, end as int);
    if start < end && s[start] == '+' {
        proof {
            assert(w.drop_first() =~= s@.subrange(start + 1, end as int));
        }
        match magnitude_at(s, start + 1, end, radix, hi) {
            Some(m) => Some(m as i128),
            None => None,
        }
    } else if signed && start < end && s[start] == '-' {
        proof {
            assert(w.drop_first() =~= s@.subrange(start + 1, end as int));
        }
        match magnitude_at(s, start + 1, end, radix, neg_limit) {
            Some(m) => Some(-(m as i128)),
            None => None,
        }
    } else {
        match magnitude_at(s, start, end, radix, hi) {
            Some(m) => Some(m as i128),
            None => None,
        }
    }
}



/// The type a value text names before its `:`.
#[derive(Clone, Copy, Debug, PartialEq, Eq, Structural)]
pub enum Prefix {
    Bool,
    Byte,
    Hex,
    Int8,
    Int16,
    Int32,
    Int64,
    Float32,
    Float64,
    Size,
    Pointer,
}

/// The type prefix `p` spells, with its short aliases.
#[verifier::opaque]
pub open spec fn prefix_named(p: Seq<char>) -> Option<Prefix> {
    if p == seq!['b', 'o', 'o', 'l'] || p == seq!['b', 'o', 'o', 'l', 'e', 'a', 'n'] {
        Some(Prefix::Bool)
    } else if p == seq!['b', 'y', 't', 'e'] || p == seq!['b'] {
        Some(Prefix::Byte)
    } else if p == seq!['h', 'e', 'x'] || p == seq!['h'] {
        Some(Prefix::Hex)
    } else if p == seq!['i', 'n', 't', '8'] || p == seq!['i', '8'] || p == seq!['c', 'h', 'a', 'r'] {
        Some(Prefix::Int8)
    } else if p == seq!['i', 'n', 't', '1', '6'] || p == seq!['i', '1', '6'] || p == seq!['s', 'h', 'o', 'r', 't'] {
        Some(Prefix::Int16)
    } else if p == seq!['i', 'n', 't', '3', '2'] || p == seq!['i', '3', '2'] || p == seq!['i', 'n', 't'] {
        Some(Prefix::Int32)
    } else if p == seq!['i', 'n', 't', '6', '4'] || p == seq!['i', '6', '4'] || p == seq!['l', 'o', 'n', 'g'] {
        Some(Prefix::Int64)
    } else if p == seq!['f', 'l', 'o', 'a', 't', '3', '2'] || p == seq!['f', '3', '2'] || p == seq!['f', 'l', 'o', 'a', 't'] {
        Some(Prefix::Float32)
    } else if p == seq!['f', 'l', 'o', 'a', 't', '6', '4'] || p == seq!['f', '6', '4'] || p == seq!['d', 'o', 'u', 'b', 'l', 'e'] {
        Some(Prefix::Float64)
    } else if p == seq!['s', 'i', 'z', 'e'] || p == seq!['s'] {
        Some(Prefix::Size)
    } else if p == seq!['p', 't', 'r'] || p == seq!['p', 'o', 'i', 'n', 't', 'e', 'r'] {
        Some(Prefix::Pointer)
    } else {
        None
    }
}

fn prefix_at(s: &Vec<char>, start: usize, end: usize) -> (r: Option<Prefix>)
    requires
        start <= end <= s@.len(),
    ensures
        r == prefix_named(s@.subrange(start as int, end as int)),
{
    reveal(prefix_named);
    let w0: Vec<char> = vec!['b', 'o', 'o', 'l'];
    assert(w0@ =~= seq!['b', 'o', 'o', 'l']);
    let w1: Vec<char> = vec!['b', 'o', 'o', 'l', 'e', 'a', 'n'];
    assert(w1@ =~= seq!['b', 'o', 'o', 'l', 'e', 'a', 'n']);
    let w2: Vec<char> = vec!['b', 'y', 't', 'e'];
    assert(w2@ =~= seq!['b', 'y', 't', 'e']);
    let w3: Vec<char> = vec!['b'];
    assert(w3@ =~= seq!['b']);
    let w4: Vec<char> = vec!['h', 'e', 'x'];
    assert(w4@ =~= seq!['h', 'e', 'x']);
    let w5: Vec<char> = vec!['h'];
    assert(w5@ =~= seq!['h']);
    let w6: Vec<char> = vec!['i', 'n', 't', '8'];
    assert(w6@ =~= seq!['i', 'n', 't', '8']);
    let w7: Vec<char> = vec!['i', '8'];
    assert(w7@ =~= seq!['i', '8']);
    let w8: Vec<char> = vec!['c', 'h', 'a', 'r'];
    assert(w8@ =~= seq!['c', 'h', 'a', 'r']);
    let w9: Vec<char> = vec!['i', 'n', 't', '1', '6'];
    assert(w9@ =~= seq!['i', 'n', 't', '1', '6']);
    let w10: Vec<char> = vec!['i', '1', '6'];
    assert(w10@ =~= seq!['i', '1', '6']);
    let w11: Vec<char> = vec!['s', 'h', 'o', 'r', 't'];
    assert(w11@ =~= seq!['s', 'h', 'o', 'r', 't']);
    let w12: Vec<char> = vec!['i', 'n', 't', '3', '2'];
    assert(w12@ =~= seq!['i', 'n', 't', '3', '2']);
    let w13: Vec<char> = vec!['i', '3', '2'];
    assert(w13@ =~= seq!['i', '3', '2']);
    let w14: Vec<char> = vec!['i', 'n', 't'];
    assert(w14@ =~= seq!['i', 'n', 't']);
    let w15: Vec<char> = vec!['i', 'n', 't', '6', '4'];
    assert(w15@ =~= seq!['i', 'n', 't', '6', '4']);
    let w16: Vec<char> = vec!['i', '6', '4'];
    assert(w16@ =~= seq!['i', '6', '4']);
    let w17: Vec<char> = vec!['l', 'o', 'n', 'g'];
    assert(w17@ =~= seq!['l', 'o', 'n', 'g']);
    let w18: Vec<char> = vec!['f', 'l', 'o', 'a', 't', '3', '2'];
    assert(w18@ =~= seq!['f', 'l', 'o', 'a', 't', '3', '2']);
    let w19: Vec<char> = vec!['f', '3', '2'];
    assert(w19@ =~= seq!['f', '3', '2']);
    let w20: Vec<char> = vec!['f', 'l', 'o', 'a', 't'];
    assert(w20@ =~= seq!['f', 'l', 'o', 'a', 't']);
    let w21: Vec<char> = vec!['f', 'l', 'o', 'a', 't', '6', '4'];
    assert(w21@ =~= seq!['f', 'l', 'o', 'a', 't', '6', '4']);
    let w22: Vec<char> = vec!['f', '6', '4'];
    assert(w22@ =~= seq!['f', '6', '4']);
    let w23: Vec<char> = vec!['d', 'o', 'u', 'b', 'l', 'e'];
    assert(w23@ =~= seq!['d', 'o', 'u', 'b', 'l', 'e']);
    let w24: Vec<char> = vec!['s', 'i', 'z', 'e'];
    assert(w24@ =~= seq!['s', 'i', 'z', 'e']);
    let w25: Vec<char> = vec!['s'];
    assert(w25@ =~= seq!['s']);
    let w26: Vec<char> = vec!['p', 't', 'r'];
    assert(w26@ =~= seq!['p', 't', 'r']);
    let w27: Vec<char> = vec!['p', 'o', 'i', 'n', 't', 'e', 'r'];
    assert(w27@ =~= seq!['p', 'o', 'i', 'n', 't', 'e', 'r']);
    if word_is(s, start, end, &w0) || word_is(s, start, end, &w1) {
        Some(Prefix::Bool)
    } else if word_is(s, start, end, &w2) || word_is(s, start, end, &w3) {
        Some(Prefix::Byte)
    } else if word_is(s, start, end, &w4) || word_is(s, start, end, &w5) {
        Some(Prefix::Hex)
    } else if word_is(s, start, end, &w6) || word_is(s, start, end, &w7) || word_is(s, start, end, &w8) {
        Some(Prefix::Int8)
    } else if word_is(s, start, end, &w9) || word_is(s, start, end, &w10) || word_is(s, start, end, &w11) {
        Some(Prefix::Int16)
    } else if word_is(s, start, end, &w12) || word_is(s, start, end, &w13) || word_is(s, start, end, &w14) {
        Some(Prefix::Int32)
    } else if word_is(s, start, end, &w15) || word_is(s, start, end, &w16) || word_is(s, start, end, &w17) {
        Some(Prefix::Int64)
    } else if word_is(s, start, end, &w18) || word_is(s, start, end, &w19) || word_is(s, start, end, &w20) {
        Some(Prefix::Float32)
    } else if word_is(s, start, end, &w21) || word_is(s, start, end, &w22) || word_is(s, start, end, &w23) {
        Some(Prefix::Float64)
    } else if word_is(s, start, end, &w24) || word_is(s, start, end, &w25) {
        Some(Prefix::Size)
    } else if word_is(s, start, end, &w26) || word_is(s, start, end, &w27) {
        Some(Prefix::Pointer)
    } else {
        None
    }
}

/// The narrowest signed variant that holds `n`.
pub open spec fn narrow_signed(n: int) -> ValueType {
    if -0x80 <= n <= 0x7f {
        ValueType::Int8(n as i8)
    } else if -0x8000 <= n <= 0x7fff {
        ValueType::Int16(n as i16)
    } else if -0x8000_0000 <= n <= 0x7fff_ffff {
        ValueType::Int32(n as i32)
    } else {
        ValueType::Int64(n as i64)
    }
}

/// The narrowest unsigned variant that holds `n`.
pub open spec fn narrow_unsigned(n: int) -> ValueType {
    if n <= 0xff {
        ValueType::UInt8(n as u8)
    } else if n <= 0xffff {
        ValueType::UInt16(n as u16)
    } else if n <= 0xffff_ffff {
        ValueType::UInt32(n as u32)
    } else {
        ValueType::UInt64(n as u64)
    }
}

impl<P, O, A> FloatOps<P, O, A> where
    P: Fn(Vec<char>, FloatSyntax) -> Option<ValueType>,
    O: Fn(FloatPair) -> FloatOrder,
    A: Fn(FloatPair, Arith) -> u64,
 {
    /// The value the text `v` spells for the type prefix `k`.
    #[verifier::opaque]
    pub open spec fn typed_value(&self, k: Prefix, v: Seq<char>) -> Option<ValueType> {
        match k {
            Prefix::Bool => if v == seq!['t', 'r', 'u', 'e'] {
                Some(ValueType::Bool(true))
            } else if v == seq!['f', 'a', 'l', 's', 'e'] {
                Some(ValueType::Bool(false))
            } else {
                None
            },
            Prefix::Byte => match int_in(v, 10, false, 0, 0xff) {
                Some(n) => Some(ValueType::UInt8(n as u8)),
                None => None,
            },
            Prefix::Hex => match int_in(v, 16, false, 0, 0xffff_ffff_ffff_ffff) {
                Some(n) => Some(narrow_unsigned(n)),
                None => None,
            },
            Prefix::Int8 => match int_in(v, 10, true, -0x80, 0x7f) {
                Some(n) => Some(ValueType::Int8(n as i8)),
                None => None,
            },
            Prefix::Int16 => match int_in(v, 10, true, -0x8000, 0x7fff) {
                Some(n) => Some(ValueType::Int16(n as i16)),
                None => None,
            },
            Prefix::Int32 => match int_in(v, 10, true, -0x8000_0000, 0x7fff_ffff) {
                Some(n) => Some(ValueType::Int32(n as i32)),
                None => None,
            },
            Prefix::Int64 => match int_in(
                v,
                10,
                true,
                -0x8000_0000_0000_0000,
                0x7fff_ffff_ffff_ffff,
            ) {
                Some(n) => Some(ValueType::Int64(n as i64)),
                None => None,
            },
            Prefix::Float32 => self.parse_of(v, FloatSyntax::Single),
            Prefix::Float64 => self.parse_of(v, FloatSyntax::Double),
            Prefix::Size => match int_in(v, 10, false, 0, usize::MAX as int) {
                Some(n) => Some(ValueType::Size(n as usize)),
                None => None,
            },
            Prefix::Pointer => match int_in(v, 10, false, 0, usize::MAX as int) {
                Some(n) => Some(ValueType::Pointer(n as usize)),
                None => None,
            },
        }
    }

    /// The value a text without a type prefix spells: the narrowest signed integer
    /// holding it, else the number it reads as.
    #[verifier::opaque]
    pub open spec fn bare_value(&self, t: Seq<char>) -> Option<ValueType> {
        match int_in(t, 10, true, -0x8000_0000_0000_0000, 0x7fff_ffff_ffff_ffff) {
            Some(n) => Some(narrow_signed(n)),
            None => self.parse_of(t, FloatSyntax::Auto),
        }
    }

    /// The value an operator's text spells, once white space is taken off its ends.
    pub open spec fn text_value(&self, input: Seq<char>) -> Option<ValueType> {
        let t = trimmed(input);
        match first_index(t, ':') {
            Some(p) => match prefix_named(t.take(p)) {
                Some(k) => self.typed_value(k, t.skip(p + 1)),
                None => self.bare_value(t),
            },
            None => self.bare_value(t),
        }
    }
}

/// The characters `s[start..end]`.
fn slice_of(s: &Vec<char>, start: usize, end: usize) -> (r: Vec<char>)
    requires
        start <= end <= s@.len(),
    ensures
        r@ == s@.subrange(start as int, end as int),
{
    let mut r: Vec<char> = Vec::new();
    let mut i: usize = start;
    while i < end
        invariant
            start <= i <= end <= s@.len(),
            r@ == s@.subrange(start as int, i as int),
        decreases end - i,
    {
        r.push(s[i]);
        i = i + 1;
    }
    r
}

fn narrow_signed_of(n: i128) -> (r: ValueType)
    requires
        -0x8000_0000_0000_0000 <= n <= 0x7fff_ffff_ffff_ffff,
    ensures
        r == narrow_signed(n as int),
{
    if -0x80 <= n && n <= 0x7f {
        ValueType::Int8(n as i8)
    } else if -0x8000 <= n && n <= 0x7fff {
        ValueType::Int16(n as i16)
    } else if -0x8000_0000 <= n && n <= 0x7fff_ffff {
        ValueType::Int32(n as i32)
    } else {
        ValueType::Int64(n as i64)
    }
}

fn narrow_unsigned_of(n: i128) -> (r: ValueType)
    requires
        0 <= n <= 0xffff_ffff_ffff_ffff,
    ensures
        r == narrow_unsigned(n as int),
{
    if n <= 0xff {
        ValueType::UInt8(n as u8)
    } else if n <= 0xffff {
        ValueType::UInt16(n as u16)
    } else if n <= 0xffff_ffff {
        ValueType::UInt32(n as u32)
    } else {
        ValueType::UInt64(n as u64)
    }
}

fn typed_at<P, O, A>(s: &Vec<char>, start: usize, end: usize, k: Prefix, fl: &FloatOps<P, O, A>) -> (r: Option<ValueType>) where
    P: Fn(Vec<char>, FloatSyntax) -> Option<ValueType>,
    O: Fn(FloatPair) -> FloatOrder,
    A: Fn(FloatPair, Arith) -> u64,

    requires
        start <= end <= s@.len(),
        fl.wf(),
    ensures
        r == fl.typed_value(k, s@.subrange(start as int, end as int)),
{
    reveal(FloatOps::typed_value);
    match k {
        Prefix::Bool => {
            let yes: Vec<char> = vec!['t', 'r', 'u', 'e'];
            let no: Vec<char> = vec!['f', 'a', 'l', 's', 'e'];
            assert(yes@ =~= seq!['t', 'r', 'u', 'e']);
            assert(no@ =~= seq!['f', 'a', 'l', 's', 'e']);
            if word_is(s, start, end, &yes) {
                Some(ValueType::Bool(true))
            } else if word_is(s, start, end, &no) {
                Some(ValueType::Bool(false))
            } else {
                None
            }
        },
        Prefix::Byte => match int_at(s, start, end, 10, false, 16, 0xff) {
            Some(n) => Some(ValueType::UInt8(n as u8)),
            None => None,
        },
        Prefix::Hex => match int_at(s, start, end, 16, false, 16, 0xffff_ffff_ffff_ffff) {
            Some(n) => Some(narrow_unsigned_of(n)),
            None => None,
        },
        Prefix::Int8 => match int_at(s, start, end, 10, true, 0x80, 0x7f) {
            Some(n) => Some(ValueType::Int8(n as i8)),
            None => None,
        },
        Prefix::Int16 => match int_at(s, start, end, 10, true, 0x8000, 0x7fff) {
            Some(n) => Some(ValueType::Int16(n as i16)),
            None => None,
        },
        Prefix::Int32 => match int_at(s, start, end, 10, true, 0x8000_0000, 0x7fff_ffff) {
            Some(n) => Some(ValueType::Int32(n as i32)),
            None => None,
        },
        Prefix::Int64 => match int_at(
            s,
            start,
            end,
            10,
            true,
            0x8000_0000_0000_0000,
            0x7fff_ffff_ffff_ffff,
        ) {
            Some(n) => Some(ValueType::Int64(n as i64)),
            None => None,
        },
        Prefix::Float32 => fl.parse_float(slice_of(s, start, end), FloatSyntax::Single),
        Prefix::Float64 => fl.parse_float(slice_of(s, start, end), FloatSyntax::Double),
        Prefix::Size => match int_at(s, start, end, 10, false, 16, usize::MAX as u64) {
            Some(n) => Some(ValueType::Size(n as usize)),
            None => None,
        },
        Prefix::Pointer => match int_at(s, start, end, 10, false, 16, usize::MAX as u64) {
            Some(n) => Some(ValueType::Pointer(n as usize)),
            None => None,
        },
    }
}

fn bare_at<P, O, A>(s: &Vec<char>, start: usize, end: usize, fl: &FloatOps<P, O, A>) -> (r: Option<ValueType>) where
    P: Fn(Vec<char>, FloatSyntax) -> Option<ValueType>,
    O: Fn(FloatPair) -> FloatOrder,
    A: Fn(FloatPair, Arith) -> u64,

    requires
        start <= end <= s@.len(),
        fl.wf(),
    ensures
        r == fl.bare_value(s@.subrange(start as int, end as int)),
{
    reveal(FloatOps::bare_value);
    match int_at(s, start, end, 10, true, 0x8000_0000_0000_0000, 0x7fff_ffff_ffff_ffff) {
        Some(n) => Some(narrow_signed_of(n)),
        None => fl.parse_float(slice_of(s, start, end), FloatSyntax::Auto),
    }
}

impl ValueType {
    /// Reads the value an operator typed: `type:text` for an explicit type, or a bare
    /// number.
    pub fn parse_user_value<P, O, A>(input: &str, fl: &FloatOps<P, O, A>) -> (r: Option<ValueType>) where
        P: Fn(Vec<char>, FloatSyntax) -> Option<ValueType>,
        O: Fn(FloatPair) -> FloatOrder,
        A: Fn(FloatPair, Arith) -> u64,

        requires
            fl.wf(),
        ensures
            r == fl.text_value(input@),
    {
        let s = chars_of(input);
        let (a, z) = trim_bounds(&s, 0, s.len());
        proof {
            assert(s@.subrange(0, s@.len() as int) =~= s@);
        }
        let ghost t = s@.subrange(a as int, z as int);
        assert(t == trimmed(input@));
        let c = index_of(&s, a, z, ':');
        if let Some(p) = c {
            assert(first_index(t, ':') == Some(p - a));
            proof {
                assert(t.take(p - a) =~= s@.subrange(a as int, p as int));
                assert(t.skip(p - a + 1) =~= s@.subrange(p + 1, z as int));
            }
            let k = prefix_at(&s, a, p);
            if let Some(k) = k {
                typed_at(&s, p + 1, z, k, fl)
            } else {
                bare_at(&s, a, z, fl)
            }
        } else {
            assert(first_index(t, ':') is None);
            bare_at(&s, a, z, fl)
        }
    }
}

} // verus!
