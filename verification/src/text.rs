//! Character-level text helpers shared by the rest of the crate: digit
//! rendering, decimal formatting and parsing, and lexicographic comparison.

use vstd::prelude::*;

verus! {

/// The sixteen lower-case hexadecimal digit characters, in value order.
pub open spec fn hex_digit_chars() -> Seq<char> {
    seq!['0', '1', '2', '3', '4', '5', '6', '7', '8', '9', 'a', 'b', 'c', 'd', 'e', 'f']
}

/// The lower-case character of a digit value below sixteen.
pub open spec fn digit_char(d: nat) -> char
    recommends
        d < 16,
{
    hex_digit_chars()[d as int]
}

/// A one-character string holding the digit of value `d`.
pub fn digit_str(d: u8) -> (r: &'static str)
    requires
        d < 16,
    ensures
        r@ == seq![digit_char(d as nat)],
{
    match d {
        0 => { proof { reveal_strlit("0"); } "0" },
        1 => { proof { reveal_strlit("1"); } "1" },
        2 => { proof { reveal_strlit("2"); } "2" },
        3 => { proof { reveal_strlit("3"); } "3" },
        4 => { proof { reveal_strlit("4"); } "4" },
        5 => { proof { reveal_strlit("5"); } "5" },
        6 => { proof { reveal_strlit("6"); } "6" },
        7 => { proof { reveal_strlit("7"); } "7" },
        8 => { proof { reveal_strlit("8"); } "8" },
        9 => { proof { reveal_strlit("9"); } "9" },
        10 => { proof { reveal_strlit("a"); } "a" },
        11 => { proof { reveal_strlit("b"); } "b" },
        12 => { proof { reveal_strlit("c"); } "c" },
        13 => { proof { reveal_strlit("d"); } "d" },
        14 => { proof { reveal_strlit("e"); } "e" },
        _ => { proof { reveal_strlit("f"); } "f" },
    }
}

/// Decimal digits of a natural number, most significant first, without
/// leading zeros (zero itself is "0").
pub open spec fn decimal_digits(n: nat) -> Seq<char>
    decreases n,
{
    if n < 10 {
        seq![digit_char(n)]
    } else {
        decimal_digits(n / 10).push(digit_char(n % 10))
    }
}

/// The decimal text of an integer: a leading '-' for negative values.
pub open spec fn int_text(i: int) -> Seq<char> {
    if i < 0 {
        seq!['-'] + decimal_digits((-i) as nat)
    } else {
        decimal_digits(i as nat)
    }
}

/// Appends the decimal digits of `n` to `out`.
pub fn append_decimal(out: &mut String, n: u64)
    ensures
        final(out)@ == old(out)@ + decimal_digits(n as nat),
    decreases n,
{
    if n >= 10 {
        append_decimal(out, n / 10);
    }
    let d: u8 = (n % 10) as u8;
    out.append(digit_str(d));
    proof {
        if n >= 10 {
            assert(decimal_digits(n as nat) == decimal_digits((n / 10) as nat).push(digit_char((n % 10) as nat)));
        }
    }
}

/// The decimal text of a signed 64-bit integer, as `i64::to_string` writes it.
pub fn i64_text(i: i64) -> (r: String)
    ensures
        r@ == int_text(i as int),
{
    let mut out = String::new();
    if i < 0 {
        proof { reveal_strlit("-"); }
        out.append("-");
        let magnitude: u64 = if i == i64::MIN {
            9223372036854775808u64
        } else {
            (-i) as u64
        };
        append_decimal(&mut out, magnitude);
    } else {
        append_decimal(&mut out, i as u64);
    }
    out
}


/// The value of an ASCII decimal digit character.
pub open spec fn decimal_value(c: char) -> Option<nat> {
    if '0' <= c && c <= '9' {
        Some(((c as u32) - ('0' as u32)) as nat)
    } else {
        None
    }
}

/// Why text is not an unsigned integer, as `str::parse` reports it.
#[derive(Debug, Clone, Copy, PartialEq, Eq, Structural)]
pub enum IntErrorKind {
    /// The text is empty.
    Empty,
    /// A character is not a decimal digit (or the text is a lone sign).
    InvalidDigit,
    /// The value exceeds the target type's maximum.
    PosOverflow,
}

/// Accumulates decimal digits left to right onto `acc`, failing on the
/// first non-digit or on the first step whose value exceeds `max`.
pub open spec fn accumulate_digits(s: Seq<char>, acc: nat, max: nat) -> Result<nat, IntErrorKind>
    decreases s.len(),
{
    if s.len() == 0 {
        Ok(acc)
    } else {
        match decimal_value(s[0]) {
            None => Err(IntErrorKind::InvalidDigit),
            Some(d) => if acc * 10 + d > max {
                Err(IntErrorKind::PosOverflow)
            } else {
                accumulate_digits(s.drop_first(), acc * 10 + d, max)
            },
        }
    }
}

/// Unsigned decimal parsing as `str::parse` does it for an unsigned type
/// whose maximum is `max`: one optional leading '+', then digits only.
pub open spec fn parse_unsigned(s: Seq<char>, max: nat) -> Result<nat, IntErrorKind> {
    if s.len() == 0 {
        Err(IntErrorKind::Empty)
    } else if s[0] == '+' {
        if s.len() == 1 {
            Err(IntErrorKind::InvalidDigit)
        } else {
            accumulate_digits(s.drop_first(), 0, max)
        }
    } else {
        accumulate_digits(s, 0, max)
    }
}

/// Parses `s` as an unsigned decimal number no greater than `max`.
pub fn parse_unsigned_text(s: &str, max: u64) -> (r: Result<u64, IntErrorKind>)
    ensures
        match r {
            Ok(v) => parse_unsigned(s@, max as nat) == Ok::<nat, IntErrorKind>(v as nat),
            Err(e) => parse_unsigned(s@, max as nat) == Err::<nat, IntErrorKind>(e),
        },
{
    let n = s.unicode_len();
    if n == 0 {
        return Err(IntErrorKind::Empty);
    }
    let mut i: usize = 0;
    if s.get_char(0) == '+' {
        if n == 1 {
            return Err(IntErrorKind::InvalidDigit);
        }
        i = 1;
    }
    let ghost start = i as int;
    assert(s@.subrange(start, n as int) =~= if start == 1 { s@.drop_first() } else { s@ });
    let mut acc: u64 = 0;
    while i < n
        invariant
            n == s@.len(),
            start == 0 || start == 1,
            start == 1 <==> (s@[0] == '+'),
            start <= i <= n,
            acc <= max,
            parse_unsigned(s@, max as nat) == accumulate_digits(s@.subrange(start, n as int), 0, max as nat),
            accumulate_digits(s@.subrange(start, n as int), 0, max as nat)
                == accumulate_digits(s@.subrange(i as int, n as int), acc as nat, max as nat),
        decreases n - i,
    {
        let c = s.get_char(i);
        assert(s@.subrange(i as int, n as int)[0] == c);
        assert(s@.subrange(i as int, n as int).drop_first() =~= s@.subrange(i + 1, n as int));
        if !('0' <= c && c <= '9') {
            return Err(IntErrorKind::InvalidDigit);
        }
        let d: u64 = ((c as u32) - ('0' as u32)) as u64;
        if d > max || acc > (max - d) / 10 {
            assert(acc * 10 + d > max) by (nonlinear_arith)
                requires d > max || acc > (max - d) / 10, d <= 9;
            return Err(IntErrorKind::PosOverflow);
        }
        assert(acc * 10 + d <= max) by (nonlinear_arith)
            requires acc <= (max - d) / 10, d <= max;
        acc = acc * 10 + d;
        i = i + 1;
    }
    assert(s@.subrange(n as int, n as int) =~= Seq::<char>::empty());
    Ok(acc)
}


/// Lexicographic comparison of two character sequences by code point,
/// as `Ord` compares two strings: -1, 0 or 1.
pub open spec fn text_order(a: Seq<char>, b: Seq<char>) -> int
    decreases a.len(),
{
    if a.len() == 0 {
        if b.len() == 0 { 0 } else { -1 }
    } else if b.len() == 0 {
        1
    } else if (a[0] as u32) < (b[0] as u32) {
        -1
    } else if (a[0] as u32) > (b[0] as u32) {
        1
    } else {
        text_order(a.drop_first(), b.drop_first())
    }
}

/// `text_order` is antisymmetric and is zero exactly on equal sequences.
pub proof fn lemma_text_order_basics(a: Seq<char>, b: Seq<char>)
    ensures
        text_order(a, b) == -text_order(b, a),
        -1 <= text_order(a, b) <= 1,
        (text_order(a, b) == 0) <==> (a == b),
    decreases a.len(),
{
    if a.len() > 0 && b.len() > 0 {
        lemma_text_order_basics(a.drop_first(), b.drop_first());
        if a[0] as u32 == b[0] as u32 {
            vstd::utf8::char_u32_cast(a[0], a[0] as u32);
            vstd::utf8::char_u32_cast(b[0], b[0] as u32);
            if a.drop_first() == b.drop_first() {
                assert(a =~= seq![a[0]] + a.drop_first());
                assert(b =~= seq![b[0]] + b.drop_first());
            }
        }
        if a == b {
            assert(a.drop_first() == b.drop_first());
        }
    } else if a.len() == 0 && b.len() == 0 {
        assert(a =~= b);
    }
}

/// `text_order` orders sequences transitively.
pub proof fn lemma_text_order_transitive(a: Seq<char>, b: Seq<char>, c: Seq<char>)
    requires
        text_order(a, b) < 0,
        text_order(b, c) < 0,
    ensures
        text_order(a, c) < 0,
    decreases a.len(),
{
    if a.len() > 0 && b.len() > 0 && c.len() > 0 {
        if a[0] as u32 == b[0] as u32 && b[0] as u32 == c[0] as u32 {
            lemma_text_order_transitive(a.drop_first(), b.drop_first(), c.drop_first());
        }
    }
}

/// `text_order` is the lexicographic order by code point: a proper prefix
/// comes first, and otherwise the first position where the texts differ
/// decides.
pub proof fn lemma_text_order_lexicographic(a: Seq<char>, b: Seq<char>, k: int)
    requires
        0 <= k <= a.len(),
        k <= b.len(),
        a.subrange(0, k) == b.subrange(0, k),
    ensures
        k == a.len() && k < b.len() ==> text_order(a, b) == -1,
        k < a.len() && k < b.len() && (a[k] as u32) < (b[k] as u32) ==> text_order(a, b) == -1,
        k < a.len() && k < b.len() && (a[k] as u32) > (b[k] as u32) ==> text_order(a, b) == 1,
    decreases k,
{
    if k > 0 {
        assert(a[0] == a.subrange(0, k)[0]);
        assert(b[0] == b.subrange(0, k)[0]);
        assert(a.drop_first().subrange(0, k - 1) =~= a.subrange(0, k).drop_first());
        assert(b.drop_first().subrange(0, k - 1) =~= b.subrange(0, k).drop_first());
        lemma_text_order_lexicographic(a.drop_first(), b.drop_first(), k - 1);
    }
}

/// Compares two strings character by character, as `Ord` on strings does.
pub fn compare_text(a: &str, b: &str) -> (r: i8)
    ensures
        r as int == text_order(a@, b@),
{
    let na = a.unicode_len();
    let nb = b.unicode_len();
    let mut i: usize = 0;
    assert(a@.subrange(0, na as int) =~= a@);
    assert(b@.subrange(0, nb as int) =~= b@);
    while i < na && i < nb
        invariant
            na == a@.len(),
            nb == b@.len(),
            i <= na,
            i <= nb,
            text_order(a@, b@) == text_order(a@.subrange(i as int, na as int), b@.subrange(i as int, nb as int)),
        decreases na - i,
    {
        let ca = a.get_char(i);
        let cb = b.get_char(i);
        let ghost sa = a@.subrange(i as int, na as int);
        let ghost sb = b@.subrange(i as int, nb as int);
        assert(sa[0] == ca && sb[0] == cb);
        if (ca as u32) < (cb as u32) {
            return -1;
        }
        if (ca as u32) > (cb as u32) {
            return 1;
        }
        assert(sa.drop_first() =~= a@.subrange(i + 1, na as int));
        assert(sb.drop_first() =~= b@.subrange(i + 1, nb as int));
        i = i + 1;
    }
    if i < na {
        1
    } else if i < nb {
        -1
    } else {
        0
    }
}

/// Whether two strings hold the same characters.
pub fn text_equals(a: &str, b: &str) -> (r: bool)
    ensures
        r == (a@ == b@),
{
    let o = compare_text(a, b);
    proof {
        lemma_text_order_basics(a@, b@);
    }
    o == 0
}

/// The value of the digit character of value `d` below ten.
pub proof fn lemma_decimal_value_of_digit(d: nat)
    requires
        d < 10,
    ensures
        decimal_value(digit_char(d)) == Some(d),
{
    let h = hex_digit_chars();
    if d == 0 { assert(h[0] == '0'); }
    else if d == 1 { assert(h[1] == '1'); }
    else if d == 2 { assert(h[2] == '2'); }
    else if d == 3 { assert(h[3] == '3'); }
    else if d == 4 { assert(h[4] == '4'); }
    else if d == 5 { assert(h[5] == '5'); }
    else if d == 6 { assert(h[6] == '6'); }
    else if d == 7 { assert(h[7] == '7'); }
    else if d == 8 { assert(h[8] == '8'); }
    else { assert(h[9] == '9'); }
}

/// Accumulating a sequence with one more character continues from the
/// value accumulated over the sequence.
pub proof fn lemma_accumulate_push(s: Seq<char>, c: char, acc: nat, max: nat)
    ensures
        accumulate_digits(s.push(c), acc, max) == match accumulate_digits(s, acc, max) {
            Ok(v) => accumulate_digits(seq![c], v, max),
            Err(e) => Err(e),
        },
    decreases s.len(),
{
    if s.len() == 0 {
        assert(s.push(c) =~= seq![c]);
    } else {
        assert(s.push(c).drop_first() =~= s.drop_first().push(c));
        match decimal_value(s[0]) {
            None => {},
            Some(d) => {
                if acc * 10 + d <= max {
                    lemma_accumulate_push(s.drop_first(), c, acc * 10 + d, max);
                }
            },
        }
    }
}

/// Decimal digits accumulate back to the number they spell.
pub proof fn lemma_accumulate_decimal(n: nat, max: nat)
    requires
        n <= max,
    ensures
        accumulate_digits(decimal_digits(n), 0, max) == Ok::<nat, IntErrorKind>(n),
    decreases n,
{
    if n < 10 {
        lemma_decimal_value_of_digit(n);
        assert(seq![digit_char(n)].drop_first() =~= Seq::<char>::empty());
        assert(accumulate_digits(Seq::<char>::empty(), n, max) == Ok::<nat, IntErrorKind>(n));
    } else {
        let q = n / 10;
        let d = n % 10;
        lemma_accumulate_decimal(q, max);
        lemma_accumulate_push(decimal_digits(q), digit_char(d), 0, max);
        lemma_decimal_value_of_digit(d);
        assert(seq![digit_char(d)].drop_first() =~= Seq::<char>::empty());
        assert(q * 10 + d == n);
        assert(accumulate_digits(Seq::<char>::empty(), n, max) == Ok::<nat, IntErrorKind>(n));
        assert(accumulate_digits(seq![digit_char(d)], q, max) == Ok::<nat, IntErrorKind>(n));
    }
}

/// Parsing the decimal text of a number gives the number back.
pub proof fn lemma_parse_decimal_roundtrip(n: nat, max: nat)
    requires
        n <= max,
    ensures
        parse_unsigned(decimal_digits(n), max) == Ok::<nat, IntErrorKind>(n),
    decreases n,
{
    lemma_accumulate_decimal(n, max);
    lemma_decimal_digits_first(n);
}

/// The first character of a decimal text is a digit, never a sign, and the
/// text is never empty.
pub proof fn lemma_decimal_digits_first(n: nat)
    ensures
        decimal_digits(n).len() > 0,
        decimal_value(decimal_digits(n)[0]) is Some,
    decreases n,
{
    if n < 10 {
        lemma_decimal_value_of_digit(n);
    } else {
        lemma_decimal_digits_first(n / 10);
    }
}

} // verus!
