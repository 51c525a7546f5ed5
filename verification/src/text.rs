//! Text as a sequence of characters.
use vstd::prelude::*;

verus! {

/// `String::push` appends one character to the end of the string.
pub assume_specification[ String::push ](s: &mut String, c: char)
    ensures
        final(s)@ == old(s)@.push(c),
;

/// Whether two texts hold the same characters.
pub fn same_text(a: &str, b: &str) -> (same: bool)
    ensures
        same == (a@ == b@),
{
    a.to_owned() == b.to_owned()
}

/// The characters of a text, in order.
pub fn characters(text: &str) -> (chars: Vec<char>)
    ensures
        chars@ == text@,
{
    let mut chars: Vec<char> = Vec::new();
    for c in it: text.chars()
        invariant
            it.seq() == text@,
            chars@ == text@.take(it.index()),
    {
        chars.push(c);
    }
    chars
}

/// The text made of the characters from `from` up to but without `to`.
pub fn text_between(chars: &Vec<char>, from: usize, to: usize) -> (text: String)
    requires
        from <= to <= chars@.len(),
    ensures
        text@ == chars@.subrange(from as int, to as int),
{
    let mut text = String::new();
    for i in from..to
        invariant
            from <= to <= chars@.len(),
            text@ == chars@.subrange(from as int, i as int),
    {
        text.push(chars[i]);
        assert(chars@.subrange(from as int, i + 1) =~= chars@.subrange(from as int, i as int).push(
            chars@[i as int],
        ));
    }
    text
}

/// Whether `pattern` stands in `text` from the position `at` on.
pub open spec fn stands_at(text: Seq<char>, at: int, pattern: Seq<char>) -> bool {
    &&& 0 <= at <= text.len() - pattern.len()
    &&& text.subrange(at, at + pattern.len()) == pattern
}

/// Whether `pattern` occurs anywhere in `text`.
pub open spec fn occurs_in(pattern: Seq<char>, text: Seq<char>) -> bool {
    exists|at: int| #[trigger] stands_at(text, at, pattern)
}

/// Whether a pattern stands at a position.
pub fn pattern_at(text: &Vec<char>, at: usize, pattern: &Vec<char>) -> (found: bool)
    ensures
        found == stands_at(text@, at as int, pattern@),
        found <==> at + pattern@.len() <= text@.len() && text@.subrange(
            at as int,
            at + pattern@.len(),
        ) == pattern@,
{
    if at > text.len() || text.len() - at < pattern.len() {
        return false;
    }
    for i in 0..pattern.len()
        invariant
            at + pattern.len() <= text.len(),
            forall|j: int| 0 <= j < i ==> text@[at + j] == #[trigger] pattern@[j],
    {
        if text[at + i] != pattern[i] {
            assert(text@.subrange(at as int, at + pattern@.len())[i as int] != pattern@[i as int]);
            return false;
        }
    }
    assert(text@.subrange(at as int, at + pattern@.len()) =~= pattern@);
    true
}

/// Whether a pattern occurs in a text.
pub fn contains_pattern(text: &str, pattern: &str) -> (found: bool)
    ensures
        found == occurs_in(pattern@, text@),
        found <==> exists|head: Seq<char>, tail: Seq<char>|
            text@ == #[trigger] (head + pattern@ + tail),
{
    proof {
        law_occurrence_is_a_cut(pattern@, text@);
    }
    let chars = characters(text);
    let wanted = characters(pattern);
    for at in 0..chars.len()
        invariant
            chars@ == text@,
            wanted@ == pattern@,
            forall|i: int| 0 <= i < at ==> !#[trigger] stands_at(text@, i, pattern@),
    {
        if pattern_at(&chars, at, &wanted) {
            proof {
                law_occurrence_is_a_cut(pattern@, text@);
            }
            return true;
        }
    }
    pattern_at(&chars, chars.len(), &wanted)
}

/// The character for a digit below sixteen, with small letters.
pub open spec fn digit(d: int) -> char {
    if d < 10 {
        (48 + d) as char
    } else {
        (87 + d) as char
    }
}

/// A number written out in a base of at most sixteen, without leading zeros.
pub open spec fn numeral(n: nat, base: nat) -> Seq<char>
    decreases n,
{
    if base < 2 || n < base {
        seq![digit(n as int)]
    } else {
        proof {
            vstd::arithmetic::div_mod::lemma_div_decreases(n as int, base as int);
        }
        numeral(n / base, base).push(digit((n % base) as int))
    }
}

/// Appends a number, written out in the given base.
pub fn push_numeral(out: &mut String, n: u128, base: u128)
    requires
        2 <= base <= 16,
    ensures
        final(out)@ == old(out)@ + numeral(n as nat, base as nat),
    decreases n,
{
    if n >= base {
        proof {
            vstd::arithmetic::div_mod::lemma_div_decreases(n as int, base as int);
            vstd::arithmetic::div_mod::lemma_mod_bound(n as int, base as int);
        }
        push_numeral(out, n / base, base);
    }
    let low: u8 = (n % base) as u8;
    proof {
        if n < base {
            vstd::arithmetic::div_mod::lemma_small_mod(n as nat, base as nat);
        }
    }
    out.push(
        if low < 10 {
            (48 + low) as char
        } else {
            (87 + low) as char
        },
    );
    assert(out@ =~= old(out)@ + numeral(n as nat, base as nat));
}

/// Whether a character can stand in a numeral.
pub open spec fn is_digit(c: char) -> bool {
    ('0' <= c && c <= '9') || ('a' <= c && c <= 'f')
}

/// A numeral is made of digits only, and there is at least one.
pub proof fn lemma_numeral_digits(n: nat, base: nat)
    requires
        2 <= base <= 16,
    ensures
        numeral(n, base).len() > 0,
        forall|i: int| 0 <= i < numeral(n, base).len() ==> is_digit(#[trigger] numeral(n, base)[i]),
    decreases n,
{
    if n >= base {
        vstd::arithmetic::div_mod::lemma_div_decreases(n as int, base as int);
        vstd::arithmetic::div_mod::lemma_mod_bound(n as int, base as int);
        lemma_numeral_digits(n / base, base);
    }
}

/// What is not a digit does not stand in a numeral.
pub proof fn lemma_numeral_lacks(n: nat, base: nat, c: char)
    requires
        2 <= base <= 16,
        !is_digit(c),
    ensures
        !numeral(n, base).contains(c),
{
    lemma_numeral_digits(n, base);
    if numeral(n, base).contains(c) {
        let i = numeral(n, base).index_of(c);
        assert(is_digit(numeral(n, base)[i]));
    }
}

/// Different digits have different characters.
proof fn lemma_digit_injective(a: int, b: int)
    requires
        0 <= a < 16,
        0 <= b < 16,
        digit(a) == digit(b),
    ensures
        a == b,
{
    assert(digit(a) as int == if a < 10 { 48 + a } else { 87 + a });
    assert(digit(b) as int == if b < 10 { 48 + b } else { 87 + b });
}

/// Different numbers have different numerals.
pub proof fn lemma_numeral_injective(a: nat, b: nat, base: nat)
    requires
        2 <= base <= 16,
        numeral(a, base) == numeral(b, base),
    ensures
        a == b,
    decreases a,
{
    let x = numeral(a, base);
    let y = numeral(b, base);
    vstd::arithmetic::div_mod::lemma_mod_bound(a as int, base as int);
    vstd::arithmetic::div_mod::lemma_mod_bound(b as int, base as int);
    vstd::arithmetic::div_mod::lemma_fundamental_div_mod(a as int, base as int);
    vstd::arithmetic::div_mod::lemma_fundamental_div_mod(b as int, base as int);
    if a >= base {
        vstd::arithmetic::div_mod::lemma_div_decreases(a as int, base as int);
        lemma_numeral_digits(a / base, base);
    }
    if b >= base {
        lemma_numeral_digits(b / base, base);
    }
    if a >= base && b >= base {
        assert(x.drop_last() =~= numeral(a / base, base));
        assert(y.drop_last() =~= numeral(b / base, base));
        lemma_numeral_injective(a / base, b / base, base);
        assert(x.last() == digit((a % base) as int));
        assert(y.last() == digit((b % base) as int));
        lemma_digit_injective((a % base) as int, (b % base) as int);
    } else {
        assert(a >= base ==> x.len() > 1);
        assert(b >= base ==> y.len() > 1);
        assert(x[0] == digit(a as int));
        assert(y[0] == digit(b as int));
        lemma_digit_injective(a as int, b as int);
    }
}

/// Whether a text is free of control characters, line breaks among them.
pub open spec fn on_one_line(text: Seq<char>) -> bool {
    forall|i: int| 0 <= i < text.len() ==> (#[trigger] text[i]) >= ' '
}

/// A numeral holds no control character.
pub proof fn lemma_numeral_on_one_line(n: nat, base: nat)
    requires
        2 <= base <= 16,
    ensures
        on_one_line(numeral(n, base)),
{
    lemma_numeral_digits(n, base);
    assert forall|i: int| 0 <= i < numeral(n, base).len() implies (#[trigger] numeral(n, base)[i])
        >= ' ' by {
        assert(is_digit(numeral(n, base)[i]));
    }
}

/// The code of a character fits into 32 bits.
proof fn lemma_char_code(c: char)
    ensures
        c as u32 == c as int,
{
}

/// In UTF-8 the byte of a line feed stands for nothing but a line feed.
pub proof fn lemma_no_line_feed(text: Seq<char>)
    requires
        on_one_line(text),
    ensures
        forall|i: int|
            0 <= i < vstd::utf8::encode_utf8(text).len() ==> (
            #[trigger] vstd::utf8::encode_utf8(text)[i]) != 10,
    decreases text.len(),
{
    if text.len() > 0 {
        let first = text[0] as u32;
        let rest = text.drop_first();
        assert forall|i: int| 0 <= i < rest.len() implies (#[trigger] rest[i]) >= ' ' by {
            assert(rest[i] == text[i + 1]);
        }
        lemma_no_line_feed(rest);
        assert(text[0] >= ' ');
        lemma_char_code(text[0]);
        assert(32 <= first <= 0x7F ==> vstd::utf8::leading_byte_width_1(first) != 10)
            by (bit_vector);
        assert(vstd::utf8::leading_byte_width_2(first) != 10) by (bit_vector);
        assert(vstd::utf8::leading_byte_width_3(first) != 10) by (bit_vector);
        assert(vstd::utf8::leading_byte_width_4(first) != 10) by (bit_vector);
        assert(vstd::utf8::last_continuation_byte(first) != 10) by (bit_vector);
        assert(vstd::utf8::second_last_continuation_byte(first) != 10) by (bit_vector);
        assert(vstd::utf8::third_last_continuation_byte(first) != 10) by (bit_vector);
        let head = vstd::utf8::encode_scalar(first);
        let tail = vstd::utf8::encode_utf8(rest);
        assert forall|i: int| 0 <= i < (head + tail).len() implies (#[trigger] (head + tail)[i])
            != 10 by {
            if i < head.len() {
                assert(head[i] != 10);
            } else {
                assert(tail[i - head.len()] != 10);
            }
        }
    }
}

/// Where two texts begin alike and come to the same, what follows is the same.
pub proof fn lemma_same_after(head: Seq<char>, rest_a: Seq<char>, rest_b: Seq<char>)
    requires
        head + rest_a == head + rest_b,
    ensures
        rest_a == rest_b,
{
    let whole = head + rest_a;
    assert(rest_a =~= whole.skip(head.len() as int));
    assert(rest_b =~= whole.skip(head.len() as int));
}

/// Where two texts come to the same, what stands before the first mark is the same, and so is what
/// stands from it on.
pub proof fn lemma_split_at_mark(
    a: Seq<char>,
    b: Seq<char>,
    mark: char,
    rest_a: Seq<char>,
    rest_b: Seq<char>,
)
    requires
        !a.contains(mark),
        !b.contains(mark),
        rest_a.len() > 0 && rest_a[0] == mark,
        rest_b.len() > 0 && rest_b[0] == mark,
        a + rest_a == b + rest_b,
    ensures
        a == b,
        rest_a == rest_b,
{
    let whole = a + rest_a;
    assert(whole[a.len() as int] == mark);
    assert(whole[b.len() as int] == mark);
    if a.len() < b.len() {
        assert(b[a.len() as int] == mark);
    }
    if b.len() < a.len() {
        assert(a[b.len() as int] == mark);
    }
    assert(a =~= whole.take(a.len() as int));
    assert(b =~= whole.take(b.len() as int));
    lemma_same_after(a, rest_a, rest_b);
}

/// Joining texts can be grouped either way.
pub proof fn lemma_regroup(a: Seq<char>, b: Seq<char>, c: Seq<char>)
    ensures
        a + b + c == a + (b + c),
{
    assert(a + b + c =~= a + (b + c));
}

/// The number that a digit stands for, going by its character; negative for any other character.
pub open spec fn digit_value(c: char) -> int {
    if '0' <= c && c <= '9' {
        c as int - '0' as int
    } else if 'a' <= c && c <= 'f' {
        c as int - 'a' as int + 10
    } else {
        -1
    }
}

/// The number that a row of digits stands for when it is read from the left.
pub open spec fn value_of(digits: Seq<char>, base: int) -> int
    decreases digits.len(),
{
    if digits.len() == 0 {
        0
    } else {
        value_of(digits.drop_last(), base) * base + digit_value(digits.last())
    }
}

proof fn lemma_digit_value(d: int)
    requires
        0 <= d < 16,
    ensures
        digit_value(digit(d)) == d,
{
    assert(digit(d) as int == if d < 10 { 48 + d } else { 87 + d });
}

/// A numeral reads back as its number: it is a row of digits of the base without a leading zero, and
/// read from the left it gives the number.
pub proof fn law_numerals_read_back(n: nat, base: nat)
    requires
        2 <= base <= 16,
    ensures
        value_of(numeral(n, base), base as int) == n,
        numeral(n, base).len() > 0,
        numeral(n, base).len() > 1 ==> digit_value(numeral(n, base)[0]) != 0,
        forall|i: int|
            0 <= i < numeral(n, base).len() ==> 0 <= digit_value(#[trigger] numeral(n, base)[i])
                < base,
    decreases n,
{
    let x = numeral(n, base);
    if n < base {
        lemma_digit_value(n as int);
        assert(x.drop_last() =~= Seq::<char>::empty());
        assert(value_of(x.drop_last(), base as int) == 0);
        assert(x.last() == digit(n as int));
        assert(0int * base == 0) by (nonlinear_arith);
    } else {
        vstd::arithmetic::div_mod::lemma_div_decreases(n as int, base as int);
        vstd::arithmetic::div_mod::lemma_mod_bound(n as int, base as int);
        vstd::arithmetic::div_mod::lemma_fundamental_div_mod(n as int, base as int);
        law_numerals_read_back(n / base, base);
        lemma_digit_value((n % base) as int);
        let head = numeral(n / base, base);
        assert(x.drop_last() =~= head);
        assert(x.last() == digit((n % base) as int));
        assert((n / base) * base == base * (n / base)) by (nonlinear_arith);
        assert forall|i: int| 0 <= i < x.len() implies 0 <= digit_value(#[trigger] x[i]) < base by {
            if i < head.len() {
                assert(x[i] == head[i]);
            }
        }
        assert(x[0] == head[0]);
        if head.len() == 1 {
            assert(n / base != 0) by (nonlinear_arith)
                requires
                    n >= base,
                    base >= 2,
            ;
            assert(head.drop_last() =~= Seq::<char>::empty());
            assert(value_of(head.drop_last(), base as int) == 0);
            assert(0int * base == 0) by (nonlinear_arith);
            assert(head.last() == head[0]);
        }
    }
}

/// A pattern occurs in a text where the text can be cut into something, the pattern, and something.
pub proof fn law_occurrence_is_a_cut(pattern: Seq<char>, text: Seq<char>)
    ensures
        occurs_in(pattern, text) <==> exists|head: Seq<char>, tail: Seq<char>|
            text == #[trigger] (head + pattern + tail),
{
    if occurs_in(pattern, text) {
        let at = choose|at: int| #[trigger] stands_at(text, at, pattern);
        let head = text.take(at);
        let tail = text.skip(at + pattern.len());
        assert(text =~= head + pattern + tail);
    }
    if exists|head: Seq<char>, tail: Seq<char>| text == #[trigger] (head + pattern + tail) {
        let (head, tail) = choose|head: Seq<char>, tail: Seq<char>|
            text == #[trigger] (head + pattern + tail);
        assert(text.subrange(head.len() as int, head.len() as int + pattern.len()) =~= pattern);
        assert(stands_at(text, head.len() as int, pattern));
    }
}

/// The number of decimal digits that a text begins with.
pub open spec fn leading_digits(text: Seq<char>) -> nat
    decreases text.len(),
{
    if text.len() > 0 && '0' <= text[0] && text[0] <= '9' {
        1 + leading_digits(text.drop_first())
    } else {
        0
    }
}

/// The number that a text begins with, and what follows it.
pub open spec fn read_number(text: Seq<char>) -> (int, Seq<char>) {
    let count = leading_digits(text) as int;
    (value_of(text.take(count), 10), text.skip(count))
}

proof fn lemma_leading_digits(digits: Seq<char>, rest: Seq<char>)
    requires
        forall|i: int| 0 <= i < digits.len() ==> 0 <= digit_value(#[trigger] digits[i]) < 10,
        rest.len() > 0 ==> !('0' <= rest[0] && rest[0] <= '9'),
    ensures
        leading_digits(digits + rest) == digits.len(),
    decreases digits.len(),
{
    if digits.len() == 0 {
        assert(digits + rest =~= rest);
    } else {
        assert((digits + rest).drop_first() =~= digits.drop_first() + rest);
        assert(0 <= digit_value(digits[0]) < 10);
        assert forall|i: int| 0 <= i < digits.drop_first().len() implies 0 <= digit_value(
            #[trigger] digits.drop_first()[i],
        ) < 10 by {
            assert(digits.drop_first()[i] == digits[i + 1]);
        }
        lemma_leading_digits(digits.drop_first(), rest);
    }
}

/// A decimal numeral can be read off the front of a text.
pub proof fn lemma_read_number(n: nat, rest: Seq<char>)
    requires
        rest.len() > 0 ==> !('0' <= rest[0] && rest[0] <= '9'),
    ensures
        read_number(numeral(n, 10) + rest) == (n as int, rest),
{
    law_numerals_read_back(n, 10);
    lemma_leading_digits(numeral(n, 10), rest);
    let text = numeral(n, 10) + rest;
    assert(text.take(numeral(n, 10).len() as int) =~= numeral(n, 10));
    assert(text.skip(numeral(n, 10).len() as int) =~= rest);
}

/// What follows a given beginning of a text, if the text begins that way.
pub open spec fn after_prefix(text: Seq<char>, prefix: Seq<char>) -> Option<Seq<char>> {
    if prefix.len() <= text.len() && text.take(prefix.len() as int) == prefix {
        Some(text.skip(prefix.len() as int))
    } else {
        None
    }
}

/// A beginning can be taken off a text.
pub proof fn lemma_after_prefix(prefix: Seq<char>, rest: Seq<char>)
    ensures
        after_prefix(prefix + rest, prefix) == Some(rest),
{
    assert((prefix + rest).take(prefix.len() as int) =~= prefix);
    assert((prefix + rest).skip(prefix.len() as int) =~= rest);
}

/// Numerals grow by digits at the end: below the base a numeral is the one digit of the number, and
/// multiplying by the base and adding a digit puts this digit behind. The digits are `0` to `9` and
/// then `a` to `f`.
pub proof fn law_numerals_grow_by_digits(n: nat, d: nat, base: nat)
    requires
        2 <= base <= 16,
        d < base,
    ensures
        ({
            let last = (if d < 10 {
                48 + d
            } else {
                87 + d
            }) as char;
            &&& numeral(d, base) == seq![last]
            &&& n > 0 ==> numeral(n * base + d, base) == numeral(n, base).push(last)
        }),
{
    if n > 0 {
        let whole = n * base + d;
        assert(whole >= base) by (nonlinear_arith)
            requires
                n > 0,
                whole == n * base + d,
        ;
        vstd::arithmetic::div_mod::lemma_fundamental_div_mod_converse(
            whole as int,
            base as int,
            n as int,
            d as int,
        );
    }
}

} // verus!
