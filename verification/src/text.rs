//! Character classes and the two textual value encodings the library uses:
//! decimal numbers and lowercase hexadecimal strings.

use vstd::prelude::*;
use vstd::string::StrSliceExecFns;
use vstd::string::StringExecFns;

verus! {

/// A character that can stand unescaped inside a JSON string literal and
/// that our interchange files are restricted to: printable ASCII without
/// the quote and the backslash.
pub open spec fn plain_char(c: char) -> bool {
    &&& 0x20 <= c as u32
    &&& c as u32 <= 0x7e
    &&& c != '"'
    &&& c != '\\'
}

pub open spec fn plain_seq(s: Seq<char>) -> bool {
    forall|i: int| 0 <= i < s.len() ==> plain_char(#[trigger] s[i])
}

/// Executable test for [`plain_char`].
pub fn is_plain_char(c: char) -> (b: bool)
    ensures
        b == plain_char(c),
{
    let u: u32 = c as u32;
    0x20 <= u && u <= 0x7e && c != '"' && c != '\\'
}

pub open spec fn is_digit(c: char) -> bool {
    48 <= c as u32 && c as u32 <= 57
}

pub open spec fn digits_seq(s: Seq<char>) -> bool {
    forall|i: int| 0 <= i < s.len() ==> is_digit(#[trigger] s[i])
}

/// Executable test for [`is_digit`].
pub fn is_digit_char(c: char) -> (b: bool)
    ensures
        b == is_digit(c),
{
    let u: u32 = c as u32;
    48 <= u && u <= 57
}

/// The numeric value of a decimal digit character.
pub open spec fn digit_val(c: char) -> int {
    c as u32 - 48
}

/// The decimal digit character for a value below ten.
pub open spec fn digit_char(d: int) -> char {
    ((d + 48) as u32) as char
}

pub proof fn lemma_digit_char_val(d: int)
    requires
        0 <= d <= 9,
    ensures
        is_digit(digit_char(d)),
        digit_val(digit_char(d)) == d,
        plain_char(digit_char(d)),
{
    vstd::utf8::char_u32_cast(digit_char(d), (d + 48) as u32);
    assert(((d + 48) as u32) as char as u32 == (d + 48) as u32) by {
        assert(0 <= d + 48 < 0xD800);
    }
}

pub proof fn lemma_digit_val_char(c: char)
    requires
        is_digit(c),
    ensures
        0 <= digit_val(c) <= 9,
        digit_char(digit_val(c)) == c,
{
    vstd::utf8::char_u32_cast(c, c as u32);
}

/// The canonical decimal rendering of a natural number: no sign, no
/// leading zeros (a lone zero for zero itself).
pub open spec fn dec_nat(n: nat) -> Seq<char>
    decreases n,
{
    if n < 10 {
        seq![digit_char(n as int)]
    } else {
        dec_nat(n / 10) + seq![digit_char((n % 10) as int)]
    }
}

/// The value of a sequence of decimal digit characters, most significant
/// digit first.
pub open spec fn text_val(s: Seq<char>) -> int
    decreases s.len(),
{
    if s.len() == 0 {
        0
    } else {
        text_val(s.drop_last()) * 10 + digit_val(s.last())
    }
}

pub proof fn lemma_dec_nat_basics(n: nat)
    ensures
        dec_nat(n).len() >= 1,
        digits_seq(dec_nat(n)),
        plain_seq(dec_nat(n)),
        text_val(dec_nat(n)) == n,
        dec_nat(n)[0] == '0' ==> n == 0,
        n >= 10 ==> dec_nat(n).len() >= 2,
    decreases n,
{
    if n < 10 {
        lemma_digit_char_val(n as int);
        let one = seq![digit_char(n as int)];
        assert(dec_nat(n) =~= one);
        assert(one.drop_last() =~= Seq::<char>::empty());
        assert(text_val(Seq::<char>::empty()) == 0);
        assert(text_val(one) == 0 * 10 + digit_val(one.last()));
        if n > 0 {
            lemma_digit_char_val(0);
            if digit_char(n as int) == '0' {
                assert(digit_val(digit_char(n as int)) == n);
                assert(digit_val('0') == 0) by {
                    lemma_digit_char_val(0);
                    assert(digit_char(0) == '0');
                }
            }
        }
    } else {
        lemma_dec_nat_basics(n / 10);
        lemma_digit_char_val((n % 10) as int);
        let tail = seq![digit_char((n % 10) as int)];
        let whole = dec_nat(n / 10) + tail;
        assert(dec_nat(n) == whole);
        assert(whole.drop_last() =~= dec_nat(n / 10));
        assert(whole.last() == digit_char((n % 10) as int));
        assert(text_val(whole) == text_val(dec_nat(n / 10)) * 10 + (n % 10));
        assert(whole[0] == dec_nat(n / 10)[0]);
        assert(forall|i: int|
            0 <= i < whole.len() ==> is_digit(#[trigger] whole[i]) && plain_char(whole[i]));
    }
}

/// Digit strings without a leading zero are exactly the canonical decimal
/// renderings of their values.
pub proof fn lemma_canonical_digits(s: Seq<char>)
    requires
        s.len() >= 1,
        digits_seq(s),
        s[0] == '0' ==> s.len() == 1,
    ensures
        text_val(s) >= 0,
        s[0] != '0' ==> text_val(s) >= 1,
        dec_nat(text_val(s) as nat) == s,
    decreases s.len(),
{
    let last = s.last();
    lemma_digit_val_char(last);
    if s.len() == 1 {
        assert(s.drop_last() =~= Seq::<char>::empty());
        assert(text_val(Seq::<char>::empty()) == 0);
        assert(text_val(s) == 0 * 10 + digit_val(last));
        assert(dec_nat(text_val(s) as nat) =~= seq![digit_char(digit_val(last))]);
        if s[0] != '0' {
            lemma_digit_char_val(0);
            assert(digit_val(last) != 0);
        }
    } else {
        let front = s.drop_last();
        assert(front[0] == s[0]);
        assert(digits_seq(front));
        lemma_canonical_digits(front);
        assert(text_val(front) >= 1);
        let v = text_val(s);
        assert(v == text_val(front) * 10 + digit_val(last));
        assert(v >= 10);
        assert(v / 10 == text_val(front) && v % 10 == digit_val(last)) by {
            assert(0 <= digit_val(last) <= 9);
        }
        assert(dec_nat(v as nat) == dec_nat((v / 10) as nat) + seq![digit_char((v % 10) as int)]);
        assert(dec_nat(v as nat) =~= s);
    }
}

/// The value of a digit string never shrinks as more digits are appended.
pub proof fn lemma_text_val_bounds(s: Seq<char>)
    requires
        digits_seq(s),
    ensures
        text_val(s) >= 0,
        forall|i: int| 0 <= i <= s.len() ==> text_val(#[trigger] s.subrange(0, i)) <= text_val(s),
    decreases s.len(),
{
    if s.len() == 0 {
        assert(s.subrange(0, 0) =~= s);
    } else {
        let front = s.drop_last();
        assert(digits_seq(front));
        lemma_text_val_bounds(front);
        lemma_digit_val_char(s.last());
        assert(text_val(s) == text_val(front) * 10 + digit_val(s.last()));
        assert(text_val(front) <= text_val(front) * 10);
        assert forall|i: int| 0 <= i <= s.len() implies text_val(
            #[trigger] s.subrange(0, i),
        ) <= text_val(s) by {
            if i < s.len() {
                assert(s.subrange(0, i) =~= front.subrange(0, i));
            } else {
                assert(s.subrange(0, i) =~= s);
            }
        }
    }
}

/// The lowercase hexadecimal digit character for a value below sixteen.
pub open spec fn hex_char(d: int) -> char {
    if d < 10 {
        digit_char(d)
    } else {
        ((d + 87) as u32) as char
    }
}

pub open spec fn is_hex_digit(c: char) -> bool {
    ||| is_digit(c)
    ||| (97 <= c as u32 && c as u32 <= 102)
}

/// The numeric value of a lowercase hexadecimal digit character.
pub open spec fn hex_val(c: char) -> int {
    if is_digit(c) {
        c as u32 - 48
    } else {
        c as u32 - 87
    }
}

pub proof fn lemma_hex_char_val(d: int)
    requires
        0 <= d <= 15,
    ensures
        is_hex_digit(hex_char(d)),
        hex_val(hex_char(d)) == d,
        plain_char(hex_char(d)),
{
    if d < 10 {
        lemma_digit_char_val(d);
    } else {
        vstd::utf8::char_u32_cast(hex_char(d), (d + 87) as u32);
        assert(((d + 87) as u32) as char as u32 == (d + 87) as u32) by {
            assert(0 <= d + 87 < 0xD800);
        }
    }
}

pub proof fn lemma_hex_val_char(c: char)
    requires
        is_hex_digit(c),
    ensures
        0 <= hex_val(c) <= 15,
        hex_char(hex_val(c)) == c,
{
    vstd::utf8::char_u32_cast(c, c as u32);
}

/// The lowercase hexadecimal rendering of a byte string: two digits per
/// byte, most significant digit first, no separators.
pub open spec fn hex_of(bs: Seq<u8>) -> Seq<char>
    decreases bs.len(),
{
    if bs.len() == 0 {
        Seq::<char>::empty()
    } else {
        hex_of(bs.drop_last()) + seq![
            hex_char(bs.last() as int / 16),
            hex_char(bs.last() as int % 16),
        ]
    }
}

/// The byte string a hexadecimal character string stands for.
pub open spec fn bytes_of_hex(s: Seq<char>) -> Seq<u8>
    decreases s.len(),
{
    if s.len() < 2 {
        Seq::<u8>::empty()
    } else {
        bytes_of_hex(s.drop_last().drop_last()) + seq![
            (hex_val(s[s.len() - 2]) * 16 + hex_val(s.last())) as u8,
        ]
    }
}

pub open spec fn hex_digits_seq(s: Seq<char>) -> bool {
    forall|i: int| 0 <= i < s.len() ==> is_hex_digit(#[trigger] s[i])
}

pub proof fn lemma_hex_of_basics(bs: Seq<u8>)
    ensures
        hex_of(bs).len() == 2 * bs.len(),
        hex_digits_seq(hex_of(bs)),
        plain_seq(hex_of(bs)),
        bytes_of_hex(hex_of(bs)) == bs,
    decreases bs.len(),
{
    if bs.len() == 0 {
        assert(bytes_of_hex(hex_of(bs)) =~= bs);
    } else {
        let front = bs.drop_last();
        lemma_hex_of_basics(front);
        let b = bs.last();
        let hi = hex_char(b as int / 16);
        let lo = hex_char(b as int % 16);
        lemma_hex_char_val(b as int / 16);
        lemma_hex_char_val(b as int % 16);
        let whole = hex_of(front) + seq![hi, lo];
        assert(hex_of(bs) == whole);
        assert(whole.drop_last().drop_last() =~= hex_of(front));
        assert(whole[whole.len() - 2] == hi && whole.last() == lo);
        assert((hex_val(hi) * 16 + hex_val(lo)) as u8 == b);
        assert(bytes_of_hex(whole) == bytes_of_hex(hex_of(front)) + seq![b]);
        assert(bytes_of_hex(whole) =~= bs);
        assert(forall|i: int|
            0 <= i < whole.len() ==> is_hex_digit(#[trigger] whole[i]) && plain_char(whole[i]));
    }
}

/// A string of hexadecimal digit characters of even length is exactly the
/// rendering of the bytes it stands for.
pub proof fn lemma_hex_of_bytes_of(s: Seq<char>)
    requires
        s.len() % 2 == 0,
        hex_digits_seq(s),
    ensures
        bytes_of_hex(s).len() == s.len() / 2,
        hex_of(bytes_of_hex(s)) == s,
    decreases s.len(),
{
    if s.len() == 0 {
        assert(hex_of(bytes_of_hex(s)) =~= s);
    } else {
        let front = s.drop_last().drop_last();
        assert(front =~= s.subrange(0, s.len() - 2));
        assert(hex_digits_seq(front));
        lemma_hex_of_bytes_of(front);
        let hi = s[s.len() - 2];
        let lo = s.last();
        lemma_hex_val_char(hi);
        lemma_hex_val_char(lo);
        let b = (hex_val(hi) * 16 + hex_val(lo)) as u8;
        assert(bytes_of_hex(s) == bytes_of_hex(front) + seq![b]);
        let bs = bytes_of_hex(s);
        assert(bs.drop_last() =~= bytes_of_hex(front));
        assert(bs.last() == b);
        assert(b as int / 16 == hex_val(hi) && b as int % 16 == hex_val(lo)) by {
            assert(0 <= hex_val(hi) <= 15 && 0 <= hex_val(lo) <= 15);
        }
        assert(hex_of(bs) == hex_of(bytes_of_hex(front)) + seq![
            hex_char(b as int / 16),
            hex_char(b as int % 16),
        ]);
        assert(hex_of(bs) =~= s);
    }
}

/// The decimal digit as a one-character string slice.
pub fn digit_str(d: u8) -> (r: &'static str)
    requires
        d < 10,
    ensures
        r@ =~= seq![digit_char(d as int)],
{
    let r: &'static str = if d == 0 {
        "0"
    } else if d == 1 {
        "1"
    } else if d == 2 {
        "2"
    } else if d == 3 {
        "3"
    } else if d == 4 {
        "4"
    } else if d == 5 {
        "5"
    } else if d == 6 {
        "6"
    } else if d == 7 {
        "7"
    } else if d == 8 {
        "8"
    } else {
        "9"
    };
    proof {
        reveal_strlit("0");
        reveal_strlit("1");
        reveal_strlit("2");
        reveal_strlit("3");
        reveal_strlit("4");
        reveal_strlit("5");
        reveal_strlit("6");
        reveal_strlit("7");
        reveal_strlit("8");
        reveal_strlit("9");
        lemma_digit_char_val(d as int);
        assert(r@ =~= seq![digit_char(d as int)]);
    }
    r
}

/// The lowercase hexadecimal digit as a one-character string slice.
pub fn hex_digit_str(d: u8) -> (r: &'static str)
    requires
        d < 16,
    ensures
        r@ =~= seq![hex_char(d as int)],
{
    if d < 10 {
        let r = digit_str(d);
        proof {
            assert(r@ =~= seq![hex_char(d as int)]);
        }
        r
    } else {
        let r: &'static str = if d == 10 {
            "a"
        } else if d == 11 {
            "b"
        } else if d == 12 {
            "c"
        } else if d == 13 {
            "d"
        } else if d == 14 {
            "e"
        } else {
            "f"
        };
        proof {
            reveal_strlit("a");
            reveal_strlit("b");
            reveal_strlit("c");
            reveal_strlit("d");
            reveal_strlit("e");
            reveal_strlit("f");
            lemma_hex_char_val(d as int);
            assert(r@ =~= seq![hex_char(d as int)]);
        }
        r
    }
}

/// Appends the canonical decimal rendering of `n` to `out`.
pub fn push_dec(out: &mut String, n: u64)
    ensures
        final(out)@ == old(out)@ + dec_nat(n as nat),
    decreases n,
{
    if n < 10 {
        out.append(digit_str(n as u8));
        proof {
            assert(out@ =~= old(out)@ + dec_nat(n as nat));
        }
    } else {
        let q: u64 = n / 10;
        let r: u64 = n % 10;
        push_dec(out, q);
        out.append(digit_str(r as u8));
        proof {
            assert(out@ =~= old(out)@ + dec_nat(n as nat));
        }
    }
}

/// Appends the lowercase hexadecimal rendering of `bs[from..to]` to `out`.
pub fn push_hex_range(out: &mut String, bs: &Vec<u8>, from: usize, to: usize)
    requires
        from <= to,
        to <= bs@.len(),
    ensures
        final(out)@ == old(out)@ + hex_of(bs@.subrange(from as int, to as int)),
{
    let mut i: usize = from;
    while i < to
        invariant
            from <= i <= to <= bs@.len(),
            out@ == old(out)@ + hex_of(bs@.subrange(from as int, i as int)),
        decreases to - i,
    {
        let b = bs[i];
        out.append(hex_digit_str(b / 16));
        out.append(hex_digit_str(b % 16));
        proof {
            let pre = bs@.subrange(from as int, i as int);
            let cur = bs@.subrange(from as int, i + 1);
            assert(cur.drop_last() =~= pre);
            assert(cur.last() == bs@[i as int]);
            assert(hex_of(cur) == hex_of(pre) + seq![
                hex_char(bs@[i as int] as int / 16),
                hex_char(bs@[i as int] as int % 16),
            ]);
            assert(out@ =~= old(out)@ + hex_of(cur));
        }
        i = i + 1;
    }
}

/// Appends the lowercase hexadecimal rendering of `bs` to `out`.
pub fn push_hex(out: &mut String, bs: &Vec<u8>)
    ensures
        final(out)@ == old(out)@ + hex_of(bs@),
{
    let n = bs.len();
    let mut i: usize = 0;
    while i < n
        invariant
            n == bs@.len(),
            i <= n,
            out@ == old(out)@ + hex_of(bs@.subrange(0, i as int)),
        decreases n - i,
    {
        let b = bs[i];
        out.append(hex_digit_str(b / 16));
        out.append(hex_digit_str(b % 16));
        proof {
            let pre = bs@.subrange(0, i as int);
            let cur = bs@.subrange(0, i + 1);
            assert(cur.drop_last() =~= pre);
            assert(cur.last() == bs@[i as int]);
            assert(hex_of(cur) == hex_of(pre) + seq![
                hex_char(bs@[i as int] as int / 16),
                hex_char(bs@[i as int] as int % 16),
            ]);
            assert(out@ =~= old(out)@ + hex_of(cur));
        }
        i = i + 1;
    }
    proof {
        assert(bs@.subrange(0, n as int) =~= bs@);
    }
}

/// Decodes a lowercase hexadecimal string into bytes; fails exactly on
/// strings of odd length or with a character that is not a lowercase
/// hexadecimal digit.
pub fn hex_to_bytes(s: &str) -> (r: Option<Vec<u8>>)
    ensures
        r is Some <==> s@.len() % 2 == 0 && hex_digits_seq(s@),
        r is Some ==> r->0@ == bytes_of_hex(s@) && s@ == hex_of(r->0@),
{
    let n = s.unicode_len();
    if n % 2 != 0 {
        return None;
    }
    let mut out: Vec<u8> = Vec::new();
    let mut i: usize = 0;
    while i < n
        invariant
            n == s@.len(),
            n % 2 == 0,
            i <= n,
            i % 2 == 0,
            out@ == bytes_of_hex(s@.subrange(0, i as int)),
            forall|j: int| 0 <= j < i ==> is_hex_digit(#[trigger] s@[j]),
        decreases n - i,
    {
        let hi = s.get_char(i);
        let lo = s.get_char(i + 1);
        if !is_hex_digit_char(hi) || !is_hex_digit_char(lo) {
            return None;
        }
        let hv = hex_digit_value(hi);
        let lv = hex_digit_value(lo);
        out.push(hv * 16 + lv);
        proof {
            let pre = s@.subrange(0, i as int);
            let cur = s@.subrange(0, i + 2);
            assert(cur.drop_last().drop_last() =~= pre);
            assert(cur[cur.len() - 2] == s@[i as int]);
            assert(cur.last() == s@[i + 1]);
            assert(bytes_of_hex(cur) == bytes_of_hex(pre) + seq![
                (hex_val(s@[i as int]) * 16 + hex_val(s@[i + 1])) as u8,
            ]);
            assert(out@ =~= bytes_of_hex(cur));
        }
        i = i + 2;
    }
    proof {
        assert(s@.subrange(0, n as int) =~= s@);
        lemma_hex_of_bytes_of(s@);
    }
    Some(out)
}

/// Executable test for [`is_hex_digit`].
pub fn is_hex_digit_char(c: char) -> (b: bool)
    ensures
        b == is_hex_digit(c),
{
    let u: u32 = c as u32;
    (48 <= u && u <= 57) || (97 <= u && u <= 102)
}

/// The numeric value of a lowercase hexadecimal digit character.
pub fn hex_digit_value(c: char) -> (v: u8)
    requires
        is_hex_digit(c),
    ensures
        v == hex_val(c),
        v <= 15,
{
    let u: u32 = c as u32;
    if u <= 57 {
        (u - 48) as u8
    } else {
        (u - 87) as u8
    }
}

} // verus!
