//! Building and searching text.
use vstd::prelude::*;

verus! {

/// [`String::push`] appends one character.
pub assume_specification[ String::push ](string: &mut String, c: char)
    ensures
        final(string)@ == old(string)@.push(c),
;

/// The character of the digit `d`, in base 10 or 16.
pub open spec fn digit_char(d: nat) -> char
    recommends
        d < 16,
{
    if d < 10 {
        ('0' as int + d) as char
    } else {
        ('a' as int + (d - 10)) as char
    }
}

/// `n` in base 10, without leading zeros.
pub open spec fn decimal_digits(n: nat) -> Seq<char>
    decreases n,
{
    if n < 10 {
        seq![digit_char(n)]
    } else {
        decimal_digits(n / 10).push(digit_char(n % 10))
    }
}

/// `n` in base 10, with a leading minus sign where it is negative.
pub open spec fn signed_digits(n: int) -> Seq<char> {
    if n >= 0 {
        decimal_digits(n as nat)
    } else {
        seq!['-'] + decimal_digits((-n) as nat)
    }
}

/// `n` as two digits in base 16.
pub open spec fn hex_digits(n: u8) -> Seq<char> {
    seq![digit_char(n as nat / 16), digit_char(n as nat % 16)]
}

/// Whether `pattern` stands in `text` at position `i`.
pub open spec fn occurs_at(text: Seq<char>, pattern: Seq<char>, i: int) -> bool {
    0 <= i && i + pattern.len() <= text.len() && text.subrange(i, i + pattern.len()) == pattern
}

/// Whether `pattern` stands somewhere in `text`.
pub open spec fn occurs_in(text: Seq<char>, pattern: Seq<char>) -> bool {
    exists|i: int| occurs_at(text, pattern, i)
}

/// Whether the text `a` goes strictly before `b` in the order of characters.
pub open spec fn text_before(a: Seq<char>, b: Seq<char>) -> bool
    decreases a.len(),
{
    if b.len() == 0 {
        false
    } else if a.len() == 0 {
        true
    } else if a[0] != b[0] {
        a[0] < b[0]
    } else {
        text_before(a.skip(1), b.skip(1))
    }
}

/// The character of a digit.
fn digit(d: u8) -> (c: char)
    requires
        d < 16,
    ensures
        c == digit_char(d as nat),
{
    if d < 10 {
        (48u8 + d) as char
    } else {
        (87u8 + d) as char
    }
}

/// Writes `n` in base 10.
pub fn decimal(n: u64) -> (text: String)
    ensures
        text@ == decimal_digits(n as nat),
    decreases n,
{
    if n < 10 {
        let mut text = String::new();
        text.push(digit(n as u8));
        assert(text@ =~= decimal_digits(n as nat));
        text
    } else {
        let mut text = decimal(n / 10);
        text.push(digit((n % 10) as u8));
        text
    }
}

/// Writes `n` in base 10.
pub fn signed_decimal(n: i64) -> (text: String)
    ensures
        text@ == signed_digits(n as int),
{
    if n >= 0 {
        decimal(n as u64)
    } else {
        let mut text = String::new();
        text.push('-');
        let magnitude: u64 = if n == i64::MIN {
            0x8000_0000_0000_0000
        } else {
            (-n) as u64
        };
        text.append(decimal(magnitude).as_str());
        assert(text@ =~= signed_digits(n as int));
        text
    }
}

/// Writes `n` as two digits in base 16.
pub fn hex(n: u8) -> (text: String)
    ensures
        text@ == hex_digits(n),
{
    let mut text = String::new();
    text.push(digit(n / 16));
    text.push(digit(n % 16));
    assert(text@ =~= hex_digits(n));
    text
}

/// The characters of a text.
pub fn characters(text: &str) -> (chars: Vec<char>)
    ensures
        chars@ == text@,
{
    let mut chars: Vec<char> = Vec::new();
    for c in iter: text.chars()
        invariant
            chars@ == iter.seq().take(iter.index() as int),
            iter.seq() == text@,
    {
        chars.push(c);
    }
    proof {
        assert(text@.take(text@.len() as int) =~= text@);
    }
    chars
}

/// Whether `pattern` stands somewhere in `text`.
pub fn contains(text: &str, pattern: &str) -> (found: bool)
    ensures
        found == occurs_in(text@, pattern@),
{
    let text_chars = characters(text);
    let pattern_chars = characters(pattern);
    if pattern_chars.len() > text_chars.len() {
        assert forall|i: int| !occurs_at(text@, pattern@, i) by {}
        return false;
    }
    let num_chars: usize = text_chars.len();
    let last: usize = num_chars - pattern_chars.len();
    let mut start: usize = 0;
    while start <= last
        invariant
            text_chars@ == text@,
            pattern_chars@ == pattern@,
            start <= last + 1,
            last + pattern@.len() == text@.len(),
            num_chars == text@.len(),
            forall|i: int| 0 <= i < start ==> !occurs_at(text@, pattern@, i),
        decreases last + 1 - start,
    {
        let mut matched: usize = 0;
        while matched < pattern_chars.len() && text_chars[start + matched] == pattern_chars[matched]
            invariant
                text_chars@ == text@,
                pattern_chars@ == pattern@,
                matched <= pattern@.len(),
                start <= last,
                last + pattern@.len() == text@.len(),
                num_chars == text@.len(),
                forall|k: int| 0 <= k < matched ==> text@[start + k] == pattern@[k],
            decreases pattern_chars.len() - matched,
        {
            matched = matched + 1;
        }
        if matched == pattern_chars.len() {
            proof {
                assert(text@.subrange(start as int, start + pattern@.len()) =~= pattern@);
                assert(occurs_at(text@, pattern@, start as int));
            }
            return true;
        }
        proof {
            if occurs_at(text@, pattern@, start as int) {
                assert(text@.subrange(start as int, start + pattern@.len())[matched as int]
                    == pattern@[matched as int]);
            }
        }
        start = start + 1;
    }
    proof {
        assert forall|i: int| !occurs_at(text@, pattern@, i) by {}
    }
    false
}

/// Whether `a` goes strictly before `b` in the order of characters.
pub fn goes_before(a: &str, b: &str) -> (before: bool)
    ensures
        before == text_before(a@, b@),
{
    let left = characters(a);
    let right = characters(b);
    proof {
        assert(a@.skip(0) =~= a@);
        assert(b@.skip(0) =~= b@);
    }
    let mut i: usize = 0;
    while i < left.len() && i < right.len() && left[i] == right[i]
        invariant
            left@ == a@,
            right@ == b@,
            i <= left@.len(),
            i <= right@.len(),
            text_before(a@, b@) == text_before(a@.skip(i as int), b@.skip(i as int)),
        decreases left.len() - i,
    {
        proof {
            assert(a@.skip(i as int).skip(1) =~= a@.skip(i + 1));
            assert(b@.skip(i as int).skip(1) =~= b@.skip(i + 1));
        }
        i = i + 1;
    }
    if i >= right.len() {
        false
    } else if i >= left.len() {
        true
    } else {
        left[i] < right[i]
    }
}

/// `a` followed by `b`.
pub fn concat(a: &str, b: &str) -> (text: String)
    ensures
        text@ == a@ + b@,
{
    let mut text = a.to_owned();
    text.append(b);
    text
}

/// Numbers with the same decimal text are equal.
pub proof fn lemma_decimal_injective(a: nat, b: nat)
    requires
        decimal_digits(a) == decimal_digits(b),
    ensures
        a == b,
    decreases a,
{
    lemma_decimal_len(a);
    lemma_decimal_len(b);
    if a >= 10 && b >= 10 {
        let x = decimal_digits(a);
        let y = decimal_digits(b);
        assert(x.drop_last() =~= decimal_digits(a / 10));
        assert(y.drop_last() =~= decimal_digits(b / 10));
        assert(x.last() == y.last());
        lemma_digit_injective(a % 10, b % 10);
        lemma_decimal_injective(a / 10, b / 10);
    } else if a < 10 && b < 10 {
        let x = decimal_digits(a);
        let y = decimal_digits(b);
        assert(x =~= seq![digit_char(a)]);
        assert(y =~= seq![digit_char(b)]);
        assert(x[0] == digit_char(a) && y[0] == digit_char(b));
        lemma_digit_injective(a, b);
    }
}

/// Digits with the same character are equal.
proof fn lemma_digit_injective(a: nat, b: nat)
    requires
        a < 10,
        b < 10,
        digit_char(a) == digit_char(b),
    ensures
        a == b,
{
    assert(digit_char(a) as int == 48 + a);
    assert(digit_char(b) as int == 48 + b);
}

/// Only numbers below 10 are written with one digit.
pub proof fn lemma_decimal_len(n: nat)
    ensures
        decimal_digits(n).len() >= 1,
        n >= 10 <==> decimal_digits(n).len() >= 2,
    decreases n,
{
    if n >= 10 {
        lemma_decimal_len(n / 10);
    }
}

/// The order of texts is total and strict.
pub proof fn lemma_text_order_total(a: Seq<char>, b: Seq<char>)
    ensures
        text_before(a, b) || text_before(b, a) || a == b,
        !(text_before(a, b) && text_before(b, a)),
        a == b ==> !text_before(a, b),
    decreases a.len(),
{
    if a.len() > 0 && b.len() > 0 && a[0] == b[0] {
        lemma_text_order_total(a.skip(1), b.skip(1));
        if a.skip(1) == b.skip(1) {
            assert(a =~= seq![a[0]] + a.skip(1));
            assert(b =~= seq![b[0]] + b.skip(1));
        }
    } else if a.len() == 0 && b.len() == 0 {
        assert(a =~= b);
    }
}

/// The order of texts is transitive.
pub proof fn lemma_text_order_transitive(a: Seq<char>, b: Seq<char>, c: Seq<char>)
    requires
        text_before(a, b),
        text_before(b, c),
    ensures
        text_before(a, c),
    decreases a.len(),
{
    if a.len() > 0 && b.len() > 0 && c.len() > 0 && a[0] == b[0] && b[0] == c[0] {
        lemma_text_order_transitive(a.skip(1), b.skip(1), c.skip(1));
    }
}

/// The number that some decimal digits write.
pub open spec fn decimal_value(digits: Seq<char>) -> nat
    decreases digits.len(),
{
    if digits.len() == 0 {
        0
    } else {
        10 * decimal_value(digits.drop_last()) + (digits.last() as nat - '0' as nat) as nat
    }
}

/// A number is written with decimal digits that stand for it, and without leading zeros.
pub proof fn law_decimal_digits_write_the_number(n: nat)
    ensures
        decimal_value(decimal_digits(n)) == n,
        decimal_digits(n).len() > 0,
        forall|i: int|
            0 <= i < decimal_digits(n).len() ==> '0' <= #[trigger] decimal_digits(n)[i] <= '9',
        n > 0 ==> decimal_digits(n)[0] != '0',
    decreases n,
{
    let digits = decimal_digits(n);
    if n < 10 {
        assert(digits.drop_last() =~= Seq::empty());
        assert(decimal_value(digits.drop_last()) == 0);
        assert(digits.last() as nat == '0' as nat + n);
    } else {
        law_decimal_digits_write_the_number(n / 10);
        assert(digits.drop_last() =~= decimal_digits(n / 10));
        assert(digits.last() as nat == '0' as nat + n % 10);
        assert(digits[0] == decimal_digits(n / 10)[0]);
    }
}

/// A negative number is written with a minus sign before the digits of its magnitude, and any other
/// number without.
pub proof fn law_sign_comes_first(n: int)
    ensures
        n < 0 ==> signed_digits(n)[0] == '-' && decimal_value(signed_digits(n).skip(1)) == -n,
        n >= 0 ==> signed_digits(n)[0] != '-' && decimal_value(signed_digits(n)) == n,
{
    if n < 0 {
        law_decimal_digits_write_the_number((-n) as nat);
        assert(signed_digits(n).skip(1) =~= decimal_digits((-n) as nat));
    } else {
        law_decimal_digits_write_the_number(n as nat);
        assert('0' <= decimal_digits(n as nat)[0]);
    }
}

/// The value of a lower case hexadecimal digit.
pub open spec fn hex_value(c: char) -> int {
    if '0' <= c && c <= '9' {
        c as int - '0' as int
    } else {
        c as int - 'a' as int + 10
    }
}

/// A byte is written with two lower case hexadecimal digits that stand for it.
pub proof fn law_hex_digits_write_the_byte(n: u8)
    ensures
        hex_digits(n).len() == 2,
        16 * hex_value(hex_digits(n)[0]) + hex_value(hex_digits(n)[1]) == n,
        forall|i: int|
            0 <= i < 2 ==> ('0' <= #[trigger] hex_digits(n)[i] && hex_digits(n)[i] <= '9') || ('a'
                <= hex_digits(n)[i] && hex_digits(n)[i] <= 'f'),
{
    assert(hex_digits(n)[0] == digit_char(n as nat / 16));
    assert(hex_digits(n)[1] == digit_char(n as nat % 16));
}

/// A text contains a pattern if the pattern is what stands between two parts of the text.
pub proof fn law_pattern_stands_in_the_text(text: Seq<char>, pattern: Seq<char>)
    ensures
        occurs_in(text, pattern) <==> exists|before: Seq<char>, after: Seq<char>|
            #[trigger] (before + pattern + after) == text,
{
    if occurs_in(text, pattern) {
        let i = choose|i: int| occurs_at(text, pattern, i);
        let before = text.take(i);
        let after = text.skip(i + pattern.len());
        assert(before + pattern + after =~= text);
    }
    if exists|before: Seq<char>, after: Seq<char>| #[trigger] (before + pattern + after) == text {
        let (before, after) = choose|before: Seq<char>, after: Seq<char>|
            #[trigger] (before + pattern + after) == text;
        let i = before.len() as int;
        assert(text.subrange(i, i + pattern.len()) =~= pattern);
        assert(occurs_at(text, pattern, i));
    }
}

/// Of two texts, a proper prefix goes first, and otherwise the one with the smaller character where
/// they first differ.
pub proof fn law_first_difference_decides(a: Seq<char>, b: Seq<char>, n: int)
    requires
        0 <= n <= a.len(),
        n <= b.len(),
        a.take(n) == b.take(n),
    ensures
        n == a.len() && n < b.len() ==> text_before(a, b),
        n == b.len() ==> !text_before(a, b),
        n < a.len() && n < b.len() && a[n] != b[n] ==> (text_before(a, b) <==> a[n] < b[n]),
    decreases n,
{
    if n > 0 {
        assert(a[0] == a.take(n)[0] && b[0] == b.take(n)[0]);
        assert(a.skip(1).take(n - 1) =~= a.take(n).skip(1));
        assert(b.skip(1).take(n - 1) =~= b.take(n).skip(1));
        law_first_difference_decides(a.skip(1), b.skip(1), n - 1);
        if n < a.len() && n < b.len() {
            assert(a.skip(1)[n - 1] == a[n] && b.skip(1)[n - 1] == b[n]);
        }
    }
}

} // verus!
