//! How numbers are written in the texts the bot sends.
use vstd::prelude::*;

verus! {

/// The character of a digit below 36: `0`-`9`, then `a`-`z`.
pub open spec fn digit_char(d: nat) -> char {
    if d < 10 {
        (d + 48) as char
    } else {
        (d + 87) as char
    }
}

/// The decimal text of `n`: most significant digit first, no leading
/// zeros (`0` for zero).
pub open spec fn decimal(n: nat) -> Seq<char>
    decreases n,
{
    if n < 10 {
        seq![digit_char(n)]
    } else {
        decimal(n / 10).push(digit_char(n % 10))
    }
}

/// The lower-case hexadecimal text of `n`, no leading zeros (`0` for zero).
pub open spec fn hex(n: nat) -> Seq<char>
    decreases n,
{
    if n < 16 {
        seq![digit_char(n)]
    } else {
        hex(n / 16).push(digit_char(n % 16))
    }
}

/// `s.push(c)`: std's `String::push` appends the character.
#[verifier::external_body]
pub(crate) fn push_char(s: &mut String, c: char)
    ensures
        final(s)@ == old(s)@.push(c),
{
    s.push(c)
}

/// The characters of `s` in reverse order.
pub open spec fn reversed(s: Seq<char>) -> Seq<char> {
    Seq::new(s.len(), |i: int| s[s.len() - 1 - i])
}

/// The character of digit `d`.
fn digit_of(d: u64) -> (c: char)
    requires
        d < 36,
    ensures
        c == digit_char(d as nat),
{
    if d < 10 {
        ((d as u8) + 48) as char
    } else {
        ((d as u8) + 87) as char
    }
}

/// The text of digits collected least significant first.
fn text_of_reversed(digits: &Vec<char>) -> (s: String)
    ensures
        s@ == reversed(digits@),
{
    let mut s = String::new();
    let mut j = digits.len();
    while j > 0
        invariant
            j <= digits@.len(),
            s@ == reversed(digits@).take(digits@.len() - j),
        decreases j,
    {
        j = j - 1;
        push_char(&mut s, digits[j]);
        assert(s@ =~= reversed(digits@).take(digits@.len() - j));
    }
    assert(reversed(digits@).take(digits@.len() as int) =~= reversed(digits@));
    s
}

/// The decimal text of `n`, as `n.to_string()` writes it.
pub(crate) fn decimal_text(n: u128) -> (s: String)
    ensures
        s@ == decimal(n as nat),
{
    let mut digits: Vec<char> = Vec::new();
    let mut m = n;
    assert(reversed(digits@) =~= Seq::<char>::empty());
    assert(decimal(n as nat) =~= decimal(m as nat) + reversed(digits@));
    while m >= 10
        invariant
            decimal(n as nat) == decimal(m as nat) + reversed(digits@),
        decreases m,
    {
        let d = digit_of((m % 10) as u64);
        let ghost before = digits@;
        digits.push(d);
        assert(reversed(digits@) =~= seq![d] + reversed(before));
        assert(decimal(m as nat) == decimal((m / 10) as nat).push(d));
        assert(decimal(m as nat) + reversed(before) =~= decimal((m / 10) as nat) + reversed(digits@));
        m = m / 10;
    }
    let d = digit_of(m as u64);
    let ghost before = digits@;
    digits.push(d);
    assert(reversed(digits@) =~= seq![d] + reversed(before));
    assert(decimal(m as nat) =~= seq![d]);
    text_of_reversed(&digits)
}

/// The lower-case hexadecimal text of `n`, as `format!("{:x}", n)` writes
/// it.
pub(crate) fn hex_text(n: u64) -> (s: String)
    ensures
        s@ == hex(n as nat),
{
    let mut digits: Vec<char> = Vec::new();
    let mut m = n;
    assert(reversed(digits@) =~= Seq::<char>::empty());
    assert(hex(n as nat) =~= hex(m as nat) + reversed(digits@));
    while m >= 16
        invariant
            hex(n as nat) == hex(m as nat) + reversed(digits@),
        decreases m,
    {
        let d = digit_of(m % 16);
        let ghost before = digits@;
        digits.push(d);
        assert(reversed(digits@) =~= seq![d] + reversed(before));
        assert(hex(m as nat) == hex((m / 16) as nat).push(d));
        assert(hex(m as nat) + reversed(before) =~= hex((m / 16) as nat) + reversed(digits@));
        m = m / 16;
    }
    let d = digit_of(m);
    let ghost before = digits@;
    digits.push(d);
    assert(reversed(digits@) =~= seq![d] + reversed(before));
    assert(hex(m as nat) =~= seq![d]);
    text_of_reversed(&digits)
}

/// A decimal digit.
pub open spec fn is_digit(c: char) -> bool {
    48 <= c as int <= 57
}

/// The value of a string of decimal digits, most significant first.
pub open spec fn digits_value(s: Seq<char>) -> int
    decreases s.len(),
{
    if s.len() == 0 {
        0
    } else {
        digits_value(s.drop_last()) * 10 + (s.last() as int - 48)
    }
}

/// The digits of a number's text: without a leading `+`, if it has one.
pub open spec fn unsigned_body(s: Seq<char>) -> Seq<char> {
    if s.len() > 0 && s[0] == '+' {
        s.drop_first()
    } else {
        s
    }
}

/// The value of a number's text as std reads an unsigned integer of at
/// most `max`: an optional `+`, then at least one decimal digit and nothing
/// else; nothing when the text is not such a number or the value is above
/// `max`.
pub open spec fn decimal_parse(s: Seq<char>, max: int) -> Option<int> {
    let b = unsigned_body(s);
    if b.len() > 0 && (forall|i: int| 0 <= i < b.len() ==> #[trigger] is_digit(b[i])) && digits_value(b) <= max {
        Some(digits_value(b))
    } else {
        None
    }
}

proof fn lemma_digits_value_grows(s: Seq<char>, k: int)
    requires
        0 <= k <= s.len(),
        forall|i: int| 0 <= i < s.len() ==> #[trigger] is_digit(s[i]),
    ensures
        digits_value(s) >= digits_value(s.take(k)),
        digits_value(s) >= 0,
    decreases s.len(),
{
    if s.len() > 0 {
        assert forall|i: int| 0 <= i < s.drop_last().len() implies #[trigger] is_digit(s.drop_last()[i]) by {
            assert(s.drop_last()[i] == s[i]);
        }
        assert(is_digit(s[s.len() - 1]));
        if k == s.len() {
            assert(s.take(k) =~= s);
            lemma_digits_value_grows(s.drop_last(), 0);
        } else {
            lemma_digits_value_grows(s.drop_last(), k);
            assert(s.drop_last().take(k) =~= s.take(k));
        }
    } else {
        assert(s.take(k) =~= s);
    }
}

/// Reads a number's text as std reads an unsigned integer of at most
/// `max`.
pub fn parse_decimal(s: &str, max: u128) -> (r: Option<u128>)
    ensures
        match r {
            Some(v) => decimal_parse(s@, max as int) == Some(v as int),
            None => decimal_parse(s@, max as int) is None,
        },
{
    let n = s.unicode_len();
    let mut start: usize = 0;
    if n > 0 && s.get_char(0) == '+' {
        start = 1;
    }
    let ghost b = unsigned_body(s@);
    assert(b =~= s@.subrange(start as int, n as int));
    if start >= n {
        return None;
    }
    let mut v: u128 = 0;
    let mut i: usize = start;
    assert(s@.subrange(start as int, i as int) =~= Seq::<char>::empty());
    while i < n
        invariant
            start <= i <= n,
            n == s@.len(),
            b == unsigned_body(s@),
            b == s@.subrange(start as int, n as int),
            forall|j: int| start <= j < i ==> #[trigger] is_digit(s@[j]),
            v as int == digits_value(s@.subrange(start as int, i as int)),
            v <= max,
        decreases n - i,
    {
        let c = s.get_char(i);
        let ghost sub = s@.subrange(start as int, i as int + 1);
        assert(sub.drop_last() =~= s@.subrange(start as int, i as int));
        assert(sub.last() == c);
        if !('0' <= c && c <= '9') {
            assert(b[i - start] == c);
            assert(!is_digit(b[i - start]));
            return None;
        }
        let d = (c as u32 - 48) as u128;
        assert(digits_value(sub) == v * 10 + d);
        if d > max || v > (max - d) / 10 {
            assert(v * 10 + d > max) by (nonlinear_arith)
                requires
                    d > max || v > (max - d) / 10,
                    d <= 9,
            ;
            proof {
                assert forall|j: int| 0 <= j < b.len() implies #[trigger] is_digit(b[j]) || !(forall|j2: int|
                    0 <= j2 < b.len() ==> #[trigger] is_digit(b[j2])) by {}
                if forall|j: int| 0 <= j < b.len() ==> #[trigger] is_digit(b[j]) {
                    lemma_digits_value_grows(b, i - start + 1);
                    assert(b.take(i - start + 1) =~= sub);
                }
            }
            return None;
        }
        assert(v * 10 + d <= max) by (nonlinear_arith)
            requires
                d <= max,
                v <= (max - d) / 10,
        ;
        v = v * 10 + d;
        i = i + 1;
    }
    assert(s@.subrange(start as int, n as int) =~= b);
    assert forall|j: int| 0 <= j < b.len() implies #[trigger] is_digit(b[j]) by {
        assert(b[j] == s@[start + j]);
    }
    Some(v)
}

/// The decimal text of a number consists of digits and is read back as the
/// number.
pub proof fn lemma_decimal_digits(n: nat)
    ensures
        decimal(n).len() > 0,
        forall|i: int| 0 <= i < decimal(n).len() ==> #[trigger] is_digit(decimal(n)[i]),
        digits_value(decimal(n)) == n,
        decimal(n)[0] != '+',
    decreases n,
{
    assert(digit_char((n % 10) as nat) as int == n % 10 + 48);
    if n >= 10 {
        lemma_decimal_digits(n / 10);
        let d = decimal(n);
        assert(d.drop_last() =~= decimal(n / 10));
        assert(d.last() == digit_char((n % 10) as nat));
        assert(digits_value(d) == digits_value(decimal(n / 10)) * 10 + (n % 10));
        assert forall|i: int| 0 <= i < d.len() implies #[trigger] is_digit(d[i]) by {
            if i < d.len() - 1 {
                assert(d[i] == decimal(n / 10)[i]);
            }
        }
        assert(d[0] == decimal(n / 10)[0]);
    } else {
        assert(decimal(n).drop_last() =~= Seq::<char>::empty());
        assert(decimal(n).last() == digit_char(n));
        assert(digit_char(n) as int == n + 48);
        assert(digits_value(Seq::<char>::empty()) == 0);
        assert(digits_value(decimal(n)) == digits_value(decimal(n).drop_last()) * 10 + (decimal(n).last() as int - 48));
    }
}

/// The decimal text of any number up to `max` is read back as that number.
pub proof fn law_decimal_reads_back(n: nat, max: int)
    requires
        n <= max,
    ensures
        decimal_parse(decimal(n), max) == Some(n as int),
{
    lemma_decimal_digits(n);
}

} // verus!
