//! What holds of the rules on text and of the order of byte strings.

use vstd::prelude::*;

use crate::bytes::{byte_range, le_bytes, lemma_le_bytes_len, lex_lt};
use crate::text::{
    begins_with, decimal, digits_of, hex, hex_digit, joined, pieces, signed32, trim_end, trim_start,
    trimmed, unsigned, unsigned_up_to, white_space,
};

verus! {

/// The first byte in which two byte strings differ decides their order, and a byte
/// string comes before every longer one that begins with it.
pub proof fn law_first_difference_decides(a: Seq<u8>, b: Seq<u8>, n: int)
    requires
        0 <= n <= a.len(),
        n <= b.len(),
        forall|i: int| 0 <= i < n ==> a[i] == b[i],
    ensures
        n < a.len() && n < b.len() && a[n] < b[n] ==> lex_lt(a, b) && !lex_lt(b, a),
        n == a.len() && n < b.len() ==> lex_lt(a, b) && !lex_lt(b, a),
        n == a.len() && n == b.len() ==> !lex_lt(a, b) && !lex_lt(b, a),
    decreases n,
{
    if n > 0 {
        let ta = a.subrange(1, a.len() as int);
        let tb = b.subrange(1, b.len() as int);
        assert forall|i: int| 0 <= i < n - 1 implies ta[i] == tb[i] by {
            assert(a[i + 1] == b[i + 1]);
        }
        assert(a[0] == b[0]);
        law_first_difference_decides(ta, tb, n - 1);
    }
}

/// An integer's bytes come with the least significant first, each the remainder by the
/// number of values of a byte of what is left of the integer.
pub proof fn law_least_significant_first(v: nat, n: nat, i: int)
    requires
        0 <= i < n,
    ensures
        le_bytes(v, n).len() == n,
        le_bytes(v, n)[i] == (v / byte_range(i as nat)) % 256,
        byte_range(0) == 1,
        byte_range((i + 1) as nat) == 256 * byte_range(i as nat),
    decreases n,
{
    lemma_le_bytes_len(v, n);
    if i > 0 {
        lemma_le_bytes_len(v / 256, (n - 1) as nat);
        law_least_significant_first(v / 256, (n - 1) as nat, i - 1);
        let r = byte_range((i - 1) as nat);
        lemma_byte_range_positive((i - 1) as nat);
        vstd::arithmetic::div_mod::lemma_div_denominator(v as int, 256, r as int);
        assert(le_bytes(v, n)[i] == le_bytes(v / 256, (n - 1) as nat)[i - 1]);
        assert(byte_range(i as nat) == 256 * r);
        assert((v / 256) / r == v / (256 * r));
    } else {
        assert(byte_range(0) == 1);
        assert(v / 1 == v);
        assert(le_bytes(v, n)[0] == v % 256);
    }
}

proof fn lemma_byte_range_positive(n: nat)
    ensures
        byte_range(n) > 0,
    decreases n,
{
    if n > 0 {
        lemma_byte_range_positive((n - 1) as nat);
    }
}

/// A text begins with a prefix exactly where it is the prefix and something after it.
pub proof fn law_prefix_and_rest(s: Seq<char>, prefix: Seq<char>, rest: Seq<char>)
    ensures
        begins_with(prefix + rest, prefix),
        begins_with(s, prefix) ==> s == prefix + s.skip(prefix.len() as int),
        begins_with(s, Seq::empty()),
        s.len() < prefix.len() ==> !begins_with(s, prefix),
{
    assert((prefix + rest).subrange(0, prefix.len() as int) =~= prefix);
    assert(s.subrange(0, 0) =~= Seq::<char>::empty());
    if begins_with(s, prefix) {
        assert(s =~= s.subrange(0, prefix.len() as int) + s.skip(prefix.len() as int));
    }
}

/// Of the ASCII characters the space, the tab and the line breaks are white space.
pub proof fn law_ascii_white_space(c: char)
    requires
        (c as u32) < 0x80,
    ensures
        white_space(c) <==> c == ' ' || 9 <= c as u32 <= 13,
{
}

/// Trimming takes white space off both ends and nothing else: what is left is a part of
/// the text, all that is before and after it is white space, and it neither begins nor
/// ends with any.
pub proof fn law_trimming(s: Seq<char>) -> (range: (int, int))
    ensures
        ({
            let (a, b) = range;
            &&& 0 <= a <= b <= s.len()
            &&& trimmed(s) == s.subrange(a, b)
            &&& forall|i: int| 0 <= i < a ==> white_space(#[trigger] s[i])
            &&& forall|i: int| b <= i < s.len() ==> white_space(#[trigger] s[i])
            &&& a < b ==> !white_space(s[a]) && !white_space(s[b - 1])
        }),
{
    let a = lemma_trim_start(s);
    let t = trim_start(s);
    let n = lemma_trim_end(t);
    let b = a + n;
    assert(trimmed(s) =~= s.subrange(a, b));
    assert forall|i: int| b <= i < s.len() implies white_space(#[trigger] s[i]) by {
        assert(s[i] == t[i - a]);
    }
    if a < b {
        assert(t.len() > 0);
        assert(s[a] == t[0]);
        assert(s[b - 1] == t[n - 1]);
    }
    (a, b)
}

proof fn lemma_trim_start(s: Seq<char>) -> (a: int)
    ensures
        0 <= a <= s.len(),
        trim_start(s) == s.subrange(a, s.len() as int),
        forall|i: int| 0 <= i < a ==> white_space(#[trigger] s[i]),
        a < s.len() ==> !white_space(s[a]),
    decreases s.len(),
{
    if s.len() > 0 && white_space(s[0]) {
        let t = s.subrange(1, s.len() as int);
        let a = lemma_trim_start(t);
        assert(trim_start(s) =~= s.subrange(a + 1, s.len() as int));
        assert forall|i: int| 0 <= i < a + 1 implies white_space(#[trigger] s[i]) by {
            if i > 0 {
                assert(s[i] == t[i - 1]);
            }
        }
        if a + 1 < s.len() {
            assert(s[a + 1] == t[a]);
        }
        a + 1
    } else {
        assert(s =~= s.subrange(0, s.len() as int));
        0
    }
}

proof fn lemma_trim_end(s: Seq<char>) -> (b: int)
    ensures
        0 <= b <= s.len(),
        trim_end(s) == s.subrange(0, b),
        forall|i: int| b <= i < s.len() ==> white_space(#[trigger] s[i]),
        b > 0 ==> !white_space(s[b - 1]),
    decreases s.len(),
{
    if s.len() > 0 && white_space(s.last()) {
        let t = s.drop_last();
        let b = lemma_trim_end(t);
        assert(trim_end(s) =~= s.subrange(0, b));
        assert forall|i: int| b <= i < s.len() implies white_space(#[trigger] s[i]) by {
            if i < t.len() {
                assert(s[i] == t[i]);
            }
        }
        if b > 0 {
            assert(s[b - 1] == t[b - 1]);
        }
        b
    } else {
        assert(s =~= s.subrange(0, s.len() as int));
        s.len() as int
    }
}

/// A number that is written in decimal digits, with a plus sign or without, is read
/// back, and refused exactly where it is above the largest that is accepted.
pub proof fn law_numbers_are_read_back(n: nat, max: nat)
    ensures
        unsigned(digits_of(n)) == Some(n),
        unsigned(seq!['+'] + digits_of(n)) == Some(n),
        n <= max ==> unsigned_up_to(digits_of(n), max) == Some(n),
        n > max ==> unsigned_up_to(digits_of(n), max) is None,
{
    lemma_digits(n);
    let d = digits_of(n);
    let plus = seq!['+'] + d;
    assert(d[0] != '+');
    assert(plus.subrange(1, plus.len() as int) =~= d);
}

proof fn lemma_digits(n: nat)
    ensures
        decimal(digits_of(n)) == Some(n),
        digits_of(n).len() > 0,
        forall|i: int|
            0 <= i < digits_of(n).len() ==> '0' <= #[trigger] digits_of(n)[i] && digits_of(n)[i]
                <= '9',
    decreases n,
{
    let d = (('0' as u32) + (n % 10)) as char;
    assert(0x30 <= (('0' as u32) + (n % 10)) <= 0x39);
    assert('0' <= d && d <= '9');
    assert(d as int - '0' as int == n % 10);
    let s = digits_of(n);
    assert(s.last() == d);
    if n < 10 {
        assert(s.drop_last() =~= Seq::<char>::empty());
        assert(decimal(s.drop_last()) == Some(0nat));
    } else {
        lemma_digits(n / 10);
        assert(s.drop_last() =~= digits_of(n / 10));
        assert forall|i: int| 0 <= i < s.len() implies '0' <= #[trigger] s[i] && s[i] <= '9' by {
            if i < s.len() - 1 {
                assert(s[i] == digits_of(n / 10)[i]);
            }
        }
    }
}

/// A text that is empty or holds anything but decimal digits behind a plus sign is no
/// number.
pub proof fn law_other_text_is_no_number(s: Seq<char>, i: int)
    requires
        s.len() == 0 || (0 <= i < s.len() && !('0' <= s[i] && s[i] <= '9') && (s[i] != '+' || i > 0
            || s.len() == 1)),
    ensures
        unsigned(s) is None,
{
    if s.len() > 0 {
        if s.len() > 1 && s[0] == '+' {
            let t = s.subrange(1, s.len() as int);
            assert(t[i - 1] == s[i]);
            lemma_no_decimal(t, i - 1);
        } else {
            lemma_no_decimal(s, i);
        }
    }
}

proof fn lemma_no_decimal(s: Seq<char>, i: int)
    requires
        0 <= i < s.len(),
        !('0' <= s[i] && s[i] <= '9'),
    ensures
        decimal(s) is None,
    decreases s.len(),
{
    if i < s.len() - 1 {
        assert(s.drop_last()[i] == s[i]);
        lemma_no_decimal(s.drop_last(), i);
    }
}

/// A signed number is read back with its sign, and refused exactly where it does not
/// fit in thirty-two bits.
pub proof fn law_signed_numbers_are_read_back(n: nat)
    ensures
        n < 0x8000_0000 ==> signed32(digits_of(n)) == Some(n as int),
        n >= 0x8000_0000 ==> signed32(digits_of(n)) is None,
        n <= 0x8000_0000 ==> signed32(seq!['-'] + digits_of(n)) == Some(-(n as int)),
        n > 0x8000_0000 ==> signed32(seq!['-'] + digits_of(n)) is None,
{
    lemma_digits(n);
    law_numbers_are_read_back(n, 0x7fff_ffff);
    let d = digits_of(n);
    let minus = seq!['-'] + d;
    assert(d[0] != '-');
    assert(minus.subrange(1, minus.len() as int) =~= d);
}

/// The sixteen hexadecimal digits are the decimal ones and the first small letters, in
/// their order.
pub proof fn law_hex_digits(n: u8)
    requires
        n < 16,
    ensures
        hex_digit(n) == seq![
            '0',
            '1',
            '2',
            '3',
            '4',
            '5',
            '6',
            '7',
            '8',
            '9',
            'a',
            'b',
            'c',
            'd',
            'e',
            'f',
        ][n as int],
{
}

/// Every byte is written as two hexadecimal digits, the higher half first, in the order
/// of the bytes.
pub proof fn law_two_digits_a_byte(bytes: Seq<u8>, i: int)
    requires
        0 <= i < bytes.len(),
    ensures
        hex(bytes).len() == 2 * bytes.len(),
        hex(bytes)[2 * i] == hex_digit((bytes[i] / 16) as u8),
        hex(bytes)[2 * i + 1] == hex_digit((bytes[i] % 16) as u8),
    decreases bytes.len(),
{
    let front = bytes.drop_last();
    lemma_hex_len(front);
    lemma_hex_len(bytes);
    if i < front.len() {
        law_two_digits_a_byte(front, i);
        assert(front[i] == bytes[i]);
    }
}

proof fn lemma_hex_len(bytes: Seq<u8>)
    ensures
        hex(bytes).len() == 2 * bytes.len(),
    decreases bytes.len(),
{
    if bytes.len() > 0 {
        lemma_hex_len(bytes.drop_last());
    }
}

/// A name is put behind its directory with one slash between them; one that begins with
/// a slash stands for itself.
pub proof fn law_paths_are_joined(dir: Seq<char>, name: Seq<char>)
    ensures
        name.len() > 0 && name[0] == '/' ==> joined(dir, name) == name,
        dir.len() == 0 ==> joined(dir, name) == name,
        dir.len() > 0 && !(name.len() > 0 && name[0] == '/') ==> {
            let p = joined(dir, name);
            let n = p.len() - name.len();
            &&& p.skip(n) == name
            &&& p[n - 1] == '/'
            &&& n == dir.len() || n == dir.len() + 1
            &&& n == dir.len() <==> dir.last() == '/'
            &&& p.take(dir.len() as int) == dir
        },
{
    let p = joined(dir, name);
    let n = p.len() - name.len();
    if dir.len() > 0 && !(name.len() > 0 && name[0] == '/') {
        assert(p.skip(n) =~= name);
        assert(p.take(dir.len() as int) =~= dir);
    }
}

/// The pieces with the separator put back between each two.
pub open spec fn rejoined(parts: Seq<Seq<char>>, sep: char) -> Seq<char>
    decreases parts.len(),
{
    if parts.len() == 0 {
        Seq::empty()
    } else if parts.len() == 1 {
        parts[0]
    } else {
        rejoined(parts.drop_last(), sep).push(sep) + parts.last()
    }
}

/// A text is its pieces with the separator between them, and no piece holds the
/// separator.
pub proof fn law_pieces_make_the_text(s: Seq<char>, sep: char)
    ensures
        pieces(s, sep).len() > 0,
        rejoined(pieces(s, sep), sep) == s,
        forall|i: int|
            0 <= i < pieces(s, sep).len() ==> !(#[trigger] pieces(s, sep)[i]).contains(sep),
    decreases s.len(),
{
    let p = pieces(s, sep);
    if s.len() == 0 {
        assert(p[0] =~= Seq::<char>::empty());
        assert(s =~= Seq::<char>::empty());
    } else {
        let t = s.drop_last();
        let q = pieces(t, sep);
        law_pieces_make_the_text(t, sep);
        assert(s =~= t.push(s.last()));
        if s.last() == sep {
            assert(p.drop_last() =~= q);
            assert(rejoined(p, sep) =~= rejoined(q, sep).push(sep));
            assert forall|i: int| 0 <= i < p.len() implies !(#[trigger] p[i]).contains(sep) by {
                if i < q.len() {
                    assert(p[i] == q[i]);
                }
            }
        } else {
            let last = q.last().push(s.last());
            assert(p.last() == last);
            assert(p.drop_last() =~= q.drop_last());
            if q.len() > 1 {
                assert(rejoined(p, sep) =~= rejoined(q, sep).push(s.last()));
            }
            assert forall|i: int| 0 <= i < p.len() implies !(#[trigger] p[i]).contains(sep) by {
                if i < q.len() - 1 {
                    assert(p[i] == q[i]);
                } else {
                    let l = q[q.len() - 1];
                    assert(p[i] == last);
                    assert(!l.contains(sep));
                    if last.contains(sep) {
                        let k = choose|k: int| 0 <= k < last.len() && last[k] == sep;
                        if k < l.len() {
                            assert(l[k] == sep);
                        }
                    }
                }
            }
        }
    }
}

} // verus!
