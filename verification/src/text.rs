//! Text encodings used when talking to the controller and when rendering:
//! percent-encoding of path segments and decimal formatting of latencies.

use vstd::prelude::*;
use vstd::string::StringSliceAdditionalSpecFns;

verus! {

/// Bytes that RFC 3986 calls unreserved: they stand for themselves in a URL.
pub open spec fn is_unreserved(b: u8) -> bool {
    ||| (65 <= b <= 90)
    ||| (97 <= b <= 122)
    ||| (48 <= b <= 57)
    ||| b == 45
    ||| b == 46
    ||| b == 95
    ||| b == 126
}

/// Upper-case hexadecimal digit for a value below sixteen.
pub open spec fn hex_char(n: int) -> char {
    if n < 10 {
        (48 + n) as char
    } else {
        (55 + n) as char
    }
}

/// The text that one byte becomes: itself when unreserved, else `%XX`.
pub open spec fn encode_byte(b: u8) -> Seq<char> {
    if is_unreserved(b) {
        seq![b as char]
    } else {
        seq!['%', hex_char((b / 16) as int), hex_char((b % 16) as int)]
    }
}

/// Percent-encoding of a byte sequence, byte by byte from the front.
pub open spec fn percent_encoded(bytes: Seq<u8>) -> Seq<char>
    decreases bytes.len(),
{
    if bytes.len() == 0 {
        seq![]
    } else {
        encode_byte(bytes[0]) + percent_encoded(bytes.drop_first())
    }
}

fn hex_digit(n: u8) -> (c: char)
    requires
        n < 16,
    ensures
        c == hex_char(n as int),
{
    if n < 10 {
        (48 + n) as char
    } else {
        (55 + n) as char
    }
}

/// `String::push`: appends one character, as its documentation says.
#[verifier::external_body]
fn push_char(s: &mut String, c: char)
    ensures
        final(s)@ == old(s)@.push(c),
{
    s.push(c);
}

/// `a` followed by `b`, as a new string.
pub fn joined(a: &str, b: &str) -> (r: String)
    ensures
        r@ == a@ + b@,
{
    let mut out = String::from_str(a);
    out.append(b);
    out
}

/// The text of an optional string.
pub open spec fn text_of(s: Option<String>) -> Option<Seq<char>> {
    match s {
        Some(t) => Some(t@),
        None => None,
    }
}

/// Whether `a` holds the same text as `b`.
pub fn same_text(a: &String, b: &str) -> (r: bool)
    ensures
        r == (a@ == b@),
{
    *a == String::from_str(b)
}

/// Percent-encodes the UTF-8 bytes of `s` for use as one URL path segment.
pub fn percent_encode(s: &str) -> (r: String)
    ensures
        r@ == percent_encoded(s.spec_bytes()),
{
    let bytes = s.as_bytes();
    let mut out = String::new();
    let mut i: usize = 0;
    assert(bytes@.skip(0) =~= bytes@);
    while i < bytes.len()
        invariant
            i <= bytes@.len(),
            bytes@ == s.spec_bytes(),
            percent_encoded(bytes@) == out@ + percent_encoded(bytes@.skip(i as int)),
        decreases bytes@.len() - i,
    {
        let b = bytes[i];
        let ghost before = out@;
        if (65 <= b && b <= 90) || (97 <= b && b <= 122) || (48 <= b && b <= 57) || b == 45
            || b == 46 || b == 95 || b == 126 {
            push_char(&mut out, b as char);
        } else {
            push_char(&mut out, '%');
            push_char(&mut out, hex_digit(b / 16));
            push_char(&mut out, hex_digit(b % 16));
        }
        assert(out@ == before + encode_byte(b));
        assert(bytes@.skip(i as int).drop_first() =~= bytes@.skip(i + 1));
        assert(out@ + percent_encoded(bytes@.skip(i + 1)) =~= before + (encode_byte(b)
            + percent_encoded(bytes@.skip(i + 1))));
        i = i + 1;
    }
    assert(bytes@.skip(i as int) =~= Seq::<u8>::empty());
    assert(out@ + Seq::<char>::empty() =~= out@);
    out
}

/// Value of an upper-case hexadecimal digit.
pub open spec fn hex_value(c: char) -> int {
    if (c as int) < 58 {
        (c as int) - 48
    } else {
        (c as int) - 55
    }
}

/// Reading of percent-encoded text: `%XX` is one byte, any other character
/// stands for its own code.
pub open spec fn percent_decoded(text: Seq<char>) -> Seq<u8>
    decreases text.len(),
{
    if text.len() == 0 {
        seq![]
    } else if text[0] == '%' && text.len() >= 3 {
        seq![(hex_value(text[1]) * 16 + hex_value(text[2])) as u8] + percent_decoded(text.skip(3))
    } else {
        seq![text[0] as u8] + percent_decoded(text.drop_first())
    }
}

/// Percent-encoding loses nothing: the encoded text reads back as the bytes
/// it came from, so two different names never share an encoding.
pub proof fn lemma_percent_encoding_round_trip(bytes: Seq<u8>)
    ensures
        percent_decoded(percent_encoded(bytes)) == bytes,
    decreases bytes.len(),
{
    if bytes.len() > 0 {
        let b = bytes[0];
        let rest = percent_encoded(bytes.drop_first());
        lemma_percent_encoding_round_trip(bytes.drop_first());
        let all = encode_byte(b) + rest;
        if is_unreserved(b) {
            assert(all.drop_first() =~= rest);
            assert(all[0] == b as char);
        } else {
            assert(all.skip(3) =~= rest);
            let hi = (b / 16) as int;
            let lo = (b % 16) as int;
            assert(hex_value(hex_char(hi)) == hi);
            assert(hex_value(hex_char(lo)) == lo);
            assert(hi * 16 + lo == b);
        }
        assert(bytes =~= seq![b] + bytes.drop_first());
    }
}

/// Two byte sequences with the same percent-encoding are equal.
pub proof fn lemma_percent_encoding_injective(a: Seq<u8>, b: Seq<u8>)
    requires
        percent_encoded(a) == percent_encoded(b),
    ensures
        a == b,
{
    lemma_percent_encoding_round_trip(a);
    lemma_percent_encoding_round_trip(b);
}

/// Decimal digit character for a value below ten.
pub open spec fn digit_char(n: nat) -> char {
    (48 + n) as char
}

/// Decimal notation of a natural number, without leading zeros.
pub open spec fn decimal(n: nat) -> Seq<char>
    decreases n,
{
    if n < 10 {
        seq![digit_char(n)]
    } else {
        decimal(n / 10).push(digit_char(n % 10))
    }
}

/// `s` right-aligned in a field of `width` characters, padded with spaces.
pub open spec fn pad_left(s: Seq<char>, width: nat) -> Seq<char> {
    if s.len() >= width {
        s
    } else {
        Seq::new((width - s.len()) as nat, |i: int| ' ') + s
    }
}

/// How a latency is shown next to a node: ` --` padded for an untested node,
/// else a space, the milliseconds right-aligned in three columns, and `ms`.
pub open spec fn latency_text(delay: Option<u64>) -> Seq<char> {
    match delay {
        None => seq![' ', '-', '-', ' '],
        Some(ms) => seq![' '] + pad_left(decimal(ms as nat), 3) + seq!['m', 's'],
    }
}

proof fn lemma_decimal_len(n: nat)
    ensures
        n < 10 ==> decimal(n).len() == 1,
        10 <= n < 100 ==> decimal(n).len() == 2,
        100 <= n ==> decimal(n).len() >= 3,
    decreases n,
{
    if n >= 10 {
        lemma_decimal_len(n / 10);
    }
}

fn push_decimal(out: &mut String, n: u64)
    ensures
        final(out)@ == old(out)@ + decimal(n as nat),
    decreases n,
{
    if n < 10 {
        push_char(out, (48 + n as u8) as char);
    } else {
        push_decimal(out, n / 10);
        push_char(out, (48 + (n % 10) as u8) as char);
        assert(decimal(n as nat) == decimal((n / 10) as nat).push(digit_char((n % 10) as nat)));
    }
}

/// The latency column of a node row (`format!(" {:3}ms", d)`, or ` -- `).
pub fn latency_label(delay: Option<u64>) -> (r: String)
    ensures
        r@ == latency_text(delay),
{
    let mut out = String::new();
    match delay {
        None => {
            push_char(&mut out, ' ');
            push_char(&mut out, '-');
            push_char(&mut out, '-');
            push_char(&mut out, ' ');
            assert(out@ =~= latency_text(delay));
        },
        Some(ms) => {
            push_char(&mut out, ' ');
            proof {
                lemma_decimal_len(ms as nat);
            }
            if ms < 10 {
                push_char(&mut out, ' ');
                push_char(&mut out, ' ');
            } else if ms < 100 {
                push_char(&mut out, ' ');
            }
            push_decimal(&mut out, ms);
            push_char(&mut out, 'm');
            push_char(&mut out, 's');
            assert(out@ =~= latency_text(delay));
        },
    }
    out
}

/// Upper-case hexadecimal digit `n`, read from the digit table.
pub open spec fn upper_hex_digit(n: int) -> char {
    "0123456789ABCDEF"@[n]
}

/// Percent-encoding works byte by byte: the encoding of two byte
/// sequences one after the other is the two encodings one after the other.
pub proof fn lemma_percent_encoding_concat(a: Seq<u8>, b: Seq<u8>)
    ensures
        percent_encoded(a + b) == percent_encoded(a) + percent_encoded(b),
    decreases a.len(),
{
    if a.len() == 0 {
        assert(a + b =~= b);
    } else {
        lemma_percent_encoding_concat(a.drop_first(), b);
        assert((a + b).drop_first() =~= a.drop_first() + b);
        assert((a + b)[0] == a[0]);
    }
}

/// One byte: an ASCII letter or digit, `-`, `.`, `_` or `~` stands for
/// itself; any other byte becomes `%` and its two upper-case hex digits.
pub proof fn lemma_percent_encoding_of_byte(b: u8)
    ensures
        percent_encoded(seq![b]) == if (65 <= b <= 90) || (97 <= b <= 122) || (48 <= b <= 57)
            || b == 45 || b == 46 || b == 95 || b == 126 {
            seq![b as char]
        } else {
            seq!['%', upper_hex_digit((b / 16) as int), upper_hex_digit((b % 16) as int)]
        },
{
    let one = seq![b];
    assert(one.drop_first() =~= Seq::<u8>::empty());
    assert(one[0] == b);
    assert(percent_encoded(one.drop_first()) == Seq::<char>::empty());
    assert(percent_encoded(one) == encode_byte(b) + Seq::<char>::empty());
    assert(encode_byte(b) + Seq::<char>::empty() =~= encode_byte(b));
    lemma_hex_table((b / 16) as int);
    lemma_hex_table((b % 16) as int);
}

proof fn lemma_hex_table(n: int)
    requires
        0 <= n < 16,
    ensures
        hex_char(n) == upper_hex_digit(n),
{
    reveal_strlit("0123456789ABCDEF");
    let t = "0123456789ABCDEF"@;
    if n == 0 { assert(t[0] == '0'); }
    else if n == 1 { assert(t[1] == '1'); }
    else if n == 2 { assert(t[2] == '2'); }
    else if n == 3 { assert(t[3] == '3'); }
    else if n == 4 { assert(t[4] == '4'); }
    else if n == 5 { assert(t[5] == '5'); }
    else if n == 6 { assert(t[6] == '6'); }
    else if n == 7 { assert(t[7] == '7'); }
    else if n == 8 { assert(t[8] == '8'); }
    else if n == 9 { assert(t[9] == '9'); }
    else if n == 10 { assert(t[10] == 'A'); }
    else if n == 11 { assert(t[11] == 'B'); }
    else if n == 12 { assert(t[12] == 'C'); }
    else if n == 13 { assert(t[13] == 'D'); }
    else if n == 14 { assert(t[14] == 'E'); }
    else { assert(t[15] == 'F'); }
}

/// Value of a sequence of decimal digit characters.
pub open spec fn digits_value(s: Seq<char>) -> int
    decreases s.len(),
{
    if s.len() == 0 {
        0
    } else {
        digits_value(s.drop_last()) * 10 + (s.last() as int - 48)
    }
}

/// The decimal notation of `n` is made of digits, has no leading zero,
/// and reads back as `n`.
pub proof fn lemma_decimal_reads_back(n: nat)
    ensures
        digits_value(decimal(n)) == n,
        decimal(n).len() >= 1,
        forall|i: int| 0 <= i < decimal(n).len() ==> 48 <= #[trigger] (decimal(n)[i] as int) <= 57,
        decimal(n).len() > 1 ==> decimal(n)[0] != '0',
    decreases n,
{
    let k = (n % 10) as int;
    assert(digit_char(n % 10) as int == 48 + k);
    if n >= 10 {
        lemma_decimal_reads_back(n / 10);
        let d = decimal(n);
        let e = decimal(n / 10);
        assert(d == e.push(digit_char(n % 10)));
        assert(d.drop_last() =~= e);
        assert(d.last() == digit_char(n % 10));
        assert(digits_value(d) == digits_value(e) * 10 + k);
        assert(digits_value(e) == n / 10);
        assert(n == (n / 10) * 10 + k);
        assert(d[0] == e[0]);
        if e.len() == 1 {
            assert(n / 10 < 10) by {
                if n / 10 >= 10 {
                    lemma_decimal_len(n / 10);
                }
            }
            assert(e[0] == digit_char(n / 10));
            assert(digit_char(n / 10) as int == 48 + n / 10);
        }
        assert forall|i: int| 0 <= i < d.len() implies 48 <= #[trigger] (d[i] as int) <= 57 by {
            if i < e.len() {
                assert(d[i] == e[i]);
            }
        }
    } else {
        let d = decimal(n);
        assert(d == seq![digit_char(n)]);
        assert(d.drop_last() =~= Seq::<char>::empty());
        assert(digits_value(d) == digits_value(d.drop_last()) * 10 + (d.last() as int - 48));
        assert(digits_value(Seq::<char>::empty()) == 0);
    }
}

/// The latency column is ` -- ` for an untested node; for a measured one
/// it is a space, the decimal notation of the latency right-aligned in
/// three columns by spaces, and `ms`.
pub proof fn lemma_latency_text_layout(d: u64)
    ensures
        latency_text(None) == seq![' ', '-', '-', ' '],
        ({
            let t = latency_text(Some(d));
            let digits = decimal(d as nat);
            let pad = if digits.len() < 3 { 3 - digits.len() } else { 0 };
            &&& t.len() == 1 + pad + digits.len() + 2
            &&& t[0] == ' '
            &&& forall|i: int| 1 <= i < 1 + pad ==> #[trigger] t[i] == ' '
            &&& t.subrange(1 + pad, 1 + pad + digits.len()) == digits
            &&& t[t.len() - 2] == 'm'
            &&& t[t.len() - 1] == 's'
        }),
{
    let t = latency_text(Some(d));
    let digits = decimal(d as nat);
    let pad = if digits.len() < 3 { 3 - digits.len() } else { 0 };
    assert(t.subrange(1 + pad, 1 + pad + digits.len()) =~= digits);
}

} // verus!
