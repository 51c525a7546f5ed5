//! Texts as JSON string literals.
use vstd::prelude::*;

use crate::text::{digit, on_one_line, value_of};

verus! {

/// What stands for a character inside a JSON string literal: quotes and backslashes get a
/// backslash, control characters the short escape where there is one and else the long one, and
/// everything else stands for itself.
pub open spec fn json_escaped(c: char) -> Seq<char> {
    let code = c as int;
    if c == '"' || c == '\\' {
        seq!['\\', c]
    } else if code == 8 {
        seq!['\\', 'b']
    } else if code == 9 {
        seq!['\\', 't']
    } else if code == 10 {
        seq!['\\', 'n']
    } else if code == 12 {
        seq!['\\', 'f']
    } else if code == 13 {
        seq!['\\', 'r']
    } else if code < 32 {
        seq!['\\', 'u', '0', '0', digit(code / 16), digit(code % 16)]
    } else {
        seq![c]
    }
}

/// What stands for a text between the quotes of a JSON string literal.
pub open spec fn json_content(text: Seq<char>) -> Seq<char>
    decreases text.len(),
{
    if text.len() == 0 {
        Seq::empty()
    } else {
        json_escaped(text[0]) + json_content(text.drop_first())
    }
}

/// The JSON string literal for a text.
pub open spec fn json_literal(text: Seq<char>) -> Seq<char> {
    seq!['"'] + json_content(text) + seq!['"']
}

/// The error type of `serde_json`.
#[verifier::external_type_specification]
#[verifier::external_body]
pub struct ExJsonError(serde_json::Error);

/// `serde_json::to_string` on a `str`. It never fails there: writing to memory does not, and a
/// `str` has no part that JSON cannot hold. It gives the literal for the text, with nothing escaped
/// that need not be.
#[verifier::external_body]
pub(crate) fn json_string(text: &str) -> (r: Result<String, serde_json::Error>)
    ensures
        r is Ok,
        r->Ok_0@ == json_literal(text@),
{
    serde_json::to_string(text)
}

/// A literal holds no control character.
pub proof fn lemma_literal_on_one_line(text: Seq<char>)
    ensures
        on_one_line(json_literal(text)),
{
    lemma_content_on_one_line(text);
}

proof fn lemma_escape_on_one_line(c: char)
    ensures
        on_one_line(json_escaped(c)),
{
}

proof fn lemma_content_on_one_line(text: Seq<char>)
    ensures
        on_one_line(json_content(text)),
    decreases text.len(),
{
    if text.len() > 0 {
        lemma_content_on_one_line(text.drop_first());
        lemma_escape_on_one_line(text[0]);
    }
}

/// An escape tells where it ends and which character it stands for.
proof fn lemma_escape_ends_by_itself(a: char, b: char, rest_a: Seq<char>, rest_b: Seq<char>)
    requires
        json_escaped(a) + rest_a == json_escaped(b) + rest_b,
    ensures
        a == b,
        rest_a == rest_b,
{
    let whole = json_escaped(a) + rest_a;
    let x = json_escaped(a);
    let y = json_escaped(b);
    assert(forall|i: int| 0 <= i < x.len() ==> whole[i] == x[i]);
    assert(forall|i: int| 0 <= i < y.len() ==> whole[i] == y[i]);
    assert(x[0] == y[0]);
    assert(x.len() > 1 && y.len() > 1 ==> x[1] == y[1]);
    assert(x.len() > 2 && y.len() > 2 ==> x[4] == y[4] && x[5] == y[5]);
    assert(a == b);
    assert(rest_a =~= whole.skip(x.len() as int));
    assert(rest_b =~= whole.skip(x.len() as int));
}

proof fn lemma_content_ends_by_itself(
    a: Seq<char>,
    b: Seq<char>,
    rest_a: Seq<char>,
    rest_b: Seq<char>,
)
    requires
        json_content(a) + seq!['"'] + rest_a == json_content(b) + seq!['"'] + rest_b,
    ensures
        a == b,
        rest_a == rest_b,
    decreases a.len(),
{
    let whole = json_content(a) + seq!['"'] + rest_a;
    if a.len() == 0 && b.len() == 0 {
        assert(a =~= b);
        assert(rest_a =~= whole.skip(1));
        assert(rest_b =~= whole.skip(1));
    } else if a.len() == 0 {
        lemma_escape_is_no_quote(b[0]);
        assert(whole[0] == '"');
        assert((json_content(b) + seq!['"'] + rest_b)[0] == json_escaped(b[0])[0]);
    } else if b.len() == 0 {
        lemma_escape_is_no_quote(a[0]);
        assert(whole[0] == json_escaped(a[0])[0]);
        assert((json_content(b) + seq!['"'] + rest_b)[0] == '"');
    } else {
        let tail_a = json_content(a.drop_first()) + seq!['"'] + rest_a;
        let tail_b = json_content(b.drop_first()) + seq!['"'] + rest_b;
        assert(whole =~= json_escaped(a[0]) + tail_a);
        assert(whole =~= json_escaped(b[0]) + tail_b);
        lemma_escape_ends_by_itself(a[0], b[0], tail_a, tail_b);
        lemma_content_ends_by_itself(a.drop_first(), b.drop_first(), rest_a, rest_b);
        assert(a =~= seq![a[0]] + a.drop_first());
        assert(b =~= seq![b[0]] + b.drop_first());
    }
}

proof fn lemma_escape_is_no_quote(c: char)
    ensures
        json_escaped(c).len() > 0,
        json_escaped(c)[0] != '"',
{
}

/// A literal tells where it ends and which text it stands for.
pub proof fn lemma_literal_ends_by_itself(
    a: Seq<char>,
    b: Seq<char>,
    rest_a: Seq<char>,
    rest_b: Seq<char>,
)
    requires
        json_literal(a) + rest_a == json_literal(b) + rest_b,
    ensures
        a == b,
        rest_a == rest_b,
{
    let whole = json_literal(a) + rest_a;
    assert(json_content(a) + seq!['"'] + rest_a =~= whole.skip(1));
    assert(json_content(b) + seq!['"'] + rest_b =~= whole.skip(1));
    lemma_content_ends_by_itself(a, b, rest_a, rest_b);
}

/// The character that a short escape stands for, going by the one after the backslash.
pub open spec fn short_escape(c: char) -> char {
    if c == 'b' {
        8 as char
    } else if c == 't' {
        9 as char
    } else if c == 'n' {
        10 as char
    } else if c == 'f' {
        12 as char
    } else if c == 'r' {
        13 as char
    } else {
        c
    }
}

/// A text that was read, with one more character in front.
pub open spec fn with_first(
    c: char,
    read: Option<(Seq<char>, Seq<char>)>,
) -> Option<(Seq<char>, Seq<char>)> {
    match read {
        Some((text, rest)) => Some((seq![c] + text, rest)),
        None => None,
    }
}

/// Reads a JSON string whose opening quote has been read: the text that it stands for, and what
/// follows the closing quote.
pub open spec fn read_content(text: Seq<char>) -> Option<(Seq<char>, Seq<char>)>
    decreases text.len(),
{
    if text.len() == 0 {
        None
    } else if text[0] == '"' {
        Some((Seq::empty(), text.skip(1)))
    } else if text[0] != '\\' {
        with_first(text[0], read_content(text.skip(1)))
    } else if text.len() >= 6 && text[1] == 'u' {
        with_first(value_of(text.subrange(2, 6), 16) as char, read_content(text.skip(6)))
    } else if text.len() >= 2 && text[1] != 'u' {
        with_first(short_escape(text[1]), read_content(text.skip(2)))
    } else {
        None
    }
}

/// Reads a JSON string: the text that it stands for, and what follows it.
pub open spec fn read_literal(text: Seq<char>) -> Option<(Seq<char>, Seq<char>)> {
    if text.len() > 0 && text[0] == '"' {
        read_content(text.skip(1))
    } else {
        None
    }
}

proof fn lemma_read_escape(c: char, rest: Seq<char>)
    ensures
        read_content(json_escaped(c) + rest) == with_first(c, read_content(rest)),
{
    let x = json_escaped(c);
    let text = x + rest;
    let code = c as int;
    assert(text.skip(x.len() as int) =~= rest);
    if x.len() == 6 {
        let high = digit(code / 16);
        let low = digit(code % 16);
        let digits = seq!['0', '0', high, low];
        assert(text.subrange(2, 6) =~= digits);
        assert(high as int == 48 + code / 16);
        assert(low as int == if code % 16 < 10 {
            48 + code % 16
        } else {
            87 + code % 16
        });
        assert(digits.drop_last() =~= seq!['0', '0', high]);
        assert(seq!['0', '0', high].drop_last() =~= seq!['0', '0']);
        assert(seq!['0', '0'].drop_last() =~= seq!['0']);
        assert(seq!['0'].drop_last() =~= Seq::<char>::empty());
        reveal_with_fuel(value_of, 5);
        assert(value_of(digits, 16) == code);
    }
}

proof fn lemma_read_content(text: Seq<char>, rest: Seq<char>)
    ensures
        read_content(json_content(text) + seq!['"'] + rest) == Some((text, rest)),
    decreases text.len(),
{
    if text.len() == 0 {
        let whole = json_content(text) + seq!['"'] + rest;
        assert(whole.skip(1) =~= rest);
        assert(text =~= Seq::empty());
    } else {
        let tail = json_content(text.drop_first()) + seq!['"'] + rest;
        assert(json_content(text) + seq!['"'] + rest =~= json_escaped(text[0]) + tail);
        lemma_read_escape(text[0], tail);
        lemma_read_content(text.drop_first(), rest);
        assert(seq![text[0]] + text.drop_first() =~= text);
    }
}

/// A literal reads back as its text: whoever reads the literal of a text as a JSON string, whatever
/// follows it, gets the text and what follows.
pub proof fn law_literals_read_back(text: Seq<char>, rest: Seq<char>)
    ensures
        read_literal(json_literal(text) + rest) == Some((text, rest)),
{
    let whole = json_literal(text) + rest;
    assert(whole.skip(1) =~= json_content(text) + seq!['"'] + rest);
    lemma_read_content(text, rest);
}

/// A text without anything to escape stands for itself between quotes.
pub proof fn lemma_read_plain(text: Seq<char>, rest: Seq<char>)
    requires
        forall|i: int| 0 <= i < text.len() ==> (#[trigger] text[i]) != '"' && text[i] != '\\',
    ensures
        read_content(text + (seq!['"'] + rest)) == Some((text, rest)),
    decreases text.len(),
{
    let whole = text + (seq!['"'] + rest);
    if text.len() == 0 {
        assert(whole.skip(1) =~= rest);
        assert(text =~= Seq::empty());
    } else {
        let tail = text.drop_first();
        assert(whole.skip(1) =~= tail + (seq!['"'] + rest));
        assert forall|i: int| 0 <= i < tail.len() implies (#[trigger] tail[i]) != '"' && tail[i]
            != '\\' by {
            assert(tail[i] == text[i + 1]);
        }
        assert(text[0] != '"' && text[0] != '\\');
        lemma_read_plain(tail, rest);
        assert(seq![text[0]] + tail =~= text);
    }
}

} // verus!
