//! The hardware protocol's byte encoding: values rendered as `0xNN`
//! hexadecimal literals (lowercase, zero-padded to two digits), and the
//! decoding back.

use vstd::prelude::*;

verus! {

/// The lowercase hexadecimal digit character for `n` (`n` < 16).
pub open spec fn hex_digit_char(n: nat) -> char {
    if n < 10 {
        ((48 + n) as u8) as char
    } else {
        ((87 + n) as u8) as char
    }
}

/// The hexadecimal rendering of `n`, most significant digit first, no
/// leading zeros.
pub open spec fn hex_digits_of(n: nat) -> Seq<char>
    decreases n,
{
    if n < 16 {
        seq![hex_digit_char(n)]
    } else {
        hex_digits_of(n / 16).push(hex_digit_char(n % 16))
    }
}

/// The `0xNN` literal a value is encoded as: "0x", then the value's
/// lowercase hexadecimal digits, zero-padded to at least two.
pub open spec fn hex_literal_of(n: nat) -> Seq<char> {
    seq!['0', 'x'] + (if n < 16 {
        seq!['0']
    } else {
        Seq::<char>::empty()
    }) + hex_digits_of(n)
}

/// `c` is one of '0'..='9' or 'a'..='f'.
pub open spec fn is_lower_hex_digit(c: char) -> bool {
    (48 <= c as u32 && c as u32 <= 57) || (97 <= c as u32 && c as u32 <= 102)
}

/// The numeric value of a lowercase hexadecimal digit character.
pub open spec fn hex_digit_val(c: char) -> nat {
    if 48 <= c as u32 && c as u32 <= 57 {
        (c as u32 - 48) as nat
    } else {
        (c as u32 - 87) as nat
    }
}

/// The number a run of lowercase hexadecimal digits denotes.
pub open spec fn hex_run_val(d: Seq<char>) -> nat
    decreases d.len(),
{
    if d.len() == 0 {
        0
    } else {
        hex_run_val(d.drop_last()) * 16 + hex_digit_val(d.last())
    }
}

/// What decoding a duty literal yields: the denoted value exactly when
/// the text is "0x" followed by one or more lowercase hexadecimal
/// digits whose value fits an unsigned 16-bit integer.
pub open spec fn spec_decode_duty(s: Seq<char>) -> Option<u16> {
    if s.len() >= 3 && s[0] == '0' && s[1] == 'x' && (forall|k: int|
        2 <= k < s.len() ==> is_lower_hex_digit(#[trigger] s[k])) && hex_run_val(s.skip(2))
        <= 0xffff {
        Option::Some(hex_run_val(s.skip(2)) as u16)
    } else {
        Option::None
    }
}

/// Dropping hexadecimal digits from the right never increases the
/// denoted value.
proof fn lemma_hex_run_val_prefix(d: Seq<char>, k: int)
    requires
        0 <= k <= d.len(),
    ensures
        hex_run_val(d.take(k)) <= hex_run_val(d),
    decreases d.len(),
{
    if k == d.len() {
        assert(d.take(k) =~= d);
    } else {
        lemma_hex_run_val_prefix(d.drop_last(), k);
        assert(d.drop_last().take(k) =~= d.take(k));
    }
}

/// The digits of `hex_digits_of(n)` denote `n`, and are lowercase
/// hexadecimal digit characters.
proof fn lemma_hex_digits_of(n: nat)
    ensures
        hex_run_val(hex_digits_of(n)) == n,
        forall|k: int|
            0 <= k < hex_digits_of(n).len() ==> is_lower_hex_digit(#[trigger] hex_digits_of(n)[k]),
        hex_digits_of(n).len() >= 1,
    decreases n,
{
    reveal_with_fuel(hex_run_val, 3);
    if n < 16 {
        let s = seq![hex_digit_char(n)];
        assert(s.drop_last() =~= Seq::<char>::empty());
        assert(hex_run_val(s) == hex_digit_val(hex_digit_char(n)));
    } else {
        lemma_hex_digits_of(n / 16);
        let d = hex_digits_of(n / 16);
        let c = hex_digit_char(n % 16);
        assert(d.push(c).drop_last() =~= d);
        assert(d.push(c).last() == c);
        assert(hex_run_val(d.push(c)) == hex_run_val(d) * 16 + hex_digit_val(c));
        assert(hex_digit_val(c) == n % 16);
        assert(n / 16 * 16 + n % 16 == n) by (nonlinear_arith);
        assert forall|k: int|
            0 <= k < hex_digits_of(n).len() implies is_lower_hex_digit(
            #[trigger] hex_digits_of(n)[k],
        ) by {
            if k < d.len() {
                assert(hex_digits_of(n)[k] == d[k]);
            }
        }
    }
}

/// A leading zero digit leaves the denoted value unchanged.
proof fn lemma_hex_leading_zero(d: Seq<char>)
    ensures
        hex_run_val(seq!['0'] + d) == hex_run_val(d),
    decreases d.len(),
{
    reveal_with_fuel(hex_run_val, 3);
    let z = seq!['0'];
    if d.len() == 0 {
        assert((z + d) =~= z);
        assert(z.drop_last() =~= Seq::<char>::empty());
        assert(z.last() == '0');
        assert(hex_run_val(z) == hex_digit_val('0'));
        assert(hex_digit_val('0') == 0);
    } else {
        lemma_hex_leading_zero(d.drop_last());
        assert((z + d).drop_last() =~= z + d.drop_last());
        assert((z + d).last() == d.last());
        assert(hex_run_val(z + d) == hex_run_val(z + d.drop_last()) * 16 + hex_digit_val(d.last()));
        assert(hex_run_val(d) == hex_run_val(d.drop_last()) * 16 + hex_digit_val(d.last()));
    }
}

/// Encoding a value as its duty literal and decoding it back is
/// lossless for every value the decoder accepts, the whole byte range
/// included.
pub proof fn lemma_duty_round_trip(v: u16)
    ensures
        spec_decode_duty(hex_literal_of(v as nat)) == Option::Some(v),
{
    let s = hex_literal_of(v as nat);
    let digits = hex_digits_of(v as nat);
    lemma_hex_digits_of(v as nat);
    if v < 16 {
        assert(s.skip(2) =~= seq!['0'] + digits);
        lemma_hex_leading_zero(digits);
        assert forall|k: int| 2 <= k < s.len() implies is_lower_hex_digit(#[trigger] s[k]) by {
            if k >= 3 {
                assert(s[k] == digits[k - 3]);
            }
        }
    } else {
        assert(s.skip(2) =~= digits);
        assert forall|k: int| 2 <= k < s.len() implies is_lower_hex_digit(#[trigger] s[k]) by {
            assert(s[k] == digits[k - 2]);
        }
    }
}

/// One lowercase hexadecimal digit as a string slice.
fn hex_digit_str(d: u16) -> (r: &'static str)
    requires
        d < 16,
    ensures
        r@ =~= seq![hex_digit_char(d as nat)],
{
    let tbl = "0123456789abcdef";
    proof {
        reveal_strlit("0123456789abcdef");
    }
    tbl.substring_ascii(d as usize, d as usize + 1)
}

/// The hexadecimal rendering of `v`, executable form.
fn hex_digits_string(v: u16) -> (r: String)
    ensures
        r@ == hex_digits_of(v as nat),
    decreases v,
{
    if v < 16 {
        String::from_str(hex_digit_str(v))
    } else {
        let mut hi = hex_digits_string(v / 16);
        hi.append(hex_digit_str(v % 16));
        proof {
            assert(hi@ =~= hex_digits_of(v as nat));
        }
        hi
    }
}

/// Encode a fan index or duty value as the hardware protocol's `0xNN`
/// byte literal: lowercase hexadecimal, zero-padded to two digits.
/// Values above 0xff keep their longer natural rendering.
pub fn encode_duty(v: u16) -> (r: String)
    ensures
        r@ == hex_literal_of(v as nat),
{
    let mut out = String::from_str("0x");
    proof {
        reveal_strlit("0x");
        reveal_strlit("0");
    }
    if v < 16 {
        out.append("0");
    }
    let digits = hex_digits_string(v);
    out.append(digits.as_str());
    proof {
        assert(out@ =~= hex_literal_of(v as nat));
    }
    out
}

/// Decode a `0xNN` duty literal back to its value.
pub fn decode_duty(s: &str) -> (r: Option<u16>)
    ensures
        r == spec_decode_duty(s@),
{
    let n = s.unicode_len();
    if n < 3 {
        return Option::None;
    }
    if s.get_char(0) != '0' || s.get_char(1) != 'x' {
        return Option::None;
    }
    let mut i: usize = 2;
    let mut v: u32 = 0;
    proof {
        assert(s@.subrange(2, 2) =~= Seq::<char>::empty());
    }
    while i < n
        invariant
            n == s@.len(),
            2 <= i <= n,
            forall|k: int| 2 <= k < i ==> is_lower_hex_digit(#[trigger] s@[k]),
            v as nat == hex_run_val(s@.subrange(2, i as int)),
            v <= 0xffff,
        decreases n - i,
    {
        let c = s.get_char(i);
        let u = c as u32;
        let d: u32;
        if 48 <= u && u <= 57 {
            d = u - 48;
        } else if 97 <= u && u <= 102 {
            d = u - 87;
        } else {
            return Option::None;
        }
        let v2 = v * 16 + d;
        proof {
            let pr = s@.subrange(2, i as int);
            assert(s@.subrange(2, i as int + 1) =~= pr.push(s@[i as int]));
            assert(pr.push(s@[i as int]).drop_last() =~= pr);
        }
        if v2 > 0xffff {
            proof {
                lemma_hex_run_val_prefix(s@.skip(2), i as int + 1 - 2);
                assert(s@.skip(2).take(i as int - 1) =~= s@.subrange(2, i as int + 1));
            }
            return Option::None;
        }
        v = v2;
        i += 1;
    }
    proof {
        assert(s@.subrange(2, n as int) =~= s@.skip(2));
    }
    Option::Some(v as u16)
}

} // verus!
