//! Bytes as base64 text.
use base64::engine::general_purpose::STANDARD;
use base64::Engine;
use vstd::prelude::*;

verus! {

/// The character for six bits in the standard alphabet.
pub open spec fn base64_symbol(bits: int) -> char {
    if bits < 26 {
        (65 + bits) as char
    } else if bits < 52 {
        (71 + bits) as char
    } else if bits < 62 {
        (bits - 4) as char
    } else if bits == 62 {
        '+'
    } else {
        '/'
    }
}

/// The base64 text of some bytes, in the standard alphabet with padding: four characters for three
/// bytes, six bits in each, and one equals sign for each byte that is missing at the end.
pub open spec fn base64_encoded(bytes: Seq<u8>) -> Seq<char>
    decreases bytes.len(),
{
    if bytes.len() == 0 {
        Seq::empty()
    } else {
        let first = bytes[0] as int;
        let second = if bytes.len() > 1 { bytes[1] as int } else { 0 };
        let third = if bytes.len() > 2 { bytes[2] as int } else { 0 };
        let symbols = seq![
            base64_symbol(first / 4),
            base64_symbol(first % 4 * 16 + second / 16),
            base64_symbol(second % 16 * 4 + third / 64),
            base64_symbol(third % 64),
        ];
        if bytes.len() == 1 {
            seq![symbols[0], symbols[1], '=', '=']
        } else if bytes.len() == 2 {
            seq![symbols[0], symbols[1], symbols[2], '=']
        } else {
            symbols + base64_encoded(bytes.skip(3))
        }
    }
}

/// Whether a text is the base64 text of some bytes.
pub open spec fn is_base64(text: Seq<char>) -> bool {
    exists|bytes: Seq<u8>| #[trigger] base64_encoded(bytes) == text
}

/// The number of characters in the base64 text of `len` bytes: four for every three begun.
pub open spec fn base64_len(len: nat) -> nat {
    4 * ((len + 2) / 3) as nat
}

/// Why base64 text was refused, with the offset or the length where there is one.
#[derive(Debug, Clone, Copy, PartialEq, Eq, Structural)]
pub enum Base64Fault {
    InvalidByte(usize, u8),
    InvalidLength(usize),
    InvalidLastSymbol(usize, u8),
    InvalidPadding,
}

/// What is wrong with a text that is not base64.
pub uninterp spec fn base64_fault(text: Seq<char>) -> Base64Fault;

/// What comes of decoding base64 text: bytes or a fault.
pub type Base64Outcome = Result<Seq<u8>, Base64Fault>;

/// What decoding a text as base64 gives.
pub open spec fn base64_decoded(text: Seq<char>) -> Base64Outcome {
    if is_base64(text) {
        Ok(choose|bytes: Seq<u8>| #[trigger] base64_encoded(bytes) == text)
    } else {
        Err(base64_fault(text))
    }
}

/// `base64::Engine::encode` of the `STANDARD` engine gives the base64 text of the bytes. The call
/// panics where the length of the text cannot be computed or allocated, so such inputs are left out.
#[verifier::external_body]
pub(crate) fn encode_base64(bytes: &[u8]) -> (text: String)
    requires
        base64_len(bytes@.len()) <= isize::MAX,
    ensures
        text@ == base64_encoded(bytes@),
{
    STANDARD.encode(bytes)
}

/// `base64::Engine::decode` of the `STANDARD` engine, on the UTF-8 bytes of a text. It gives the
/// bytes whose base64 text this is, and refuses every other text: one with characters outside the
/// alphabet, with bits set that no byte accounts for, or without the padding. The fault is a
/// function of the text; each fault of the crate has one of its own name.
#[verifier::external_body]
fn run_decoder(text: &str) -> (outcome: Result<Vec<u8>, Base64Fault>)
    ensures
        outcome is Ok <==> is_base64(text@),
        outcome is Ok ==> base64_encoded(outcome->Ok_0@) == text@,
        outcome is Err ==> outcome->Err_0 == base64_fault(text@),
{
    match STANDARD.decode(text.as_bytes()) {
        Ok(bytes) => Ok(bytes),
        Err(base64::DecodeError::InvalidByte(at, byte)) => Err(Base64Fault::InvalidByte(at, byte)),
        Err(base64::DecodeError::InvalidLength(len)) => Err(Base64Fault::InvalidLength(len)),
        Err(base64::DecodeError::InvalidLastSymbol(at, byte)) => Err(
            Base64Fault::InvalidLastSymbol(at, byte),
        ),
        Err(base64::DecodeError::InvalidPadding) => Err(Base64Fault::InvalidPadding),
    }
}

/// Decodes base64 text.
pub(crate) fn decode_base64(text: &str) -> (outcome: Result<Vec<u8>, Base64Fault>)
    ensures
        match outcome {
            Ok(bytes) => base64_decoded(text@) == Base64Outcome::Ok(bytes@),
            Err(fault) => base64_decoded(text@) == Base64Outcome::Err(fault),
        },
{
    let outcome = run_decoder(text);
    proof {
        if outcome is Ok {
            law_decoding_undoes_encoding(outcome->Ok_0@);
        }
    }
    outcome
}

/// Different bits have different characters, and none is the equals sign.
proof fn lemma_symbol(a: int, b: int)
    requires
        0 <= a < 64,
        0 <= b < 64,
    ensures
        base64_symbol(a) == base64_symbol(b) ==> a == b,
        base64_symbol(a) != '=',
{
    assert(base64_symbol(a) as int == if a < 26 {
        65 + a
    } else if a < 52 {
        71 + a
    } else if a < 62 {
        a - 4
    } else if a == 62 {
        43
    } else {
        47
    });
    assert(base64_symbol(b) as int == if b < 26 {
        65 + b
    } else if b < 52 {
        71 + b
    } else if b < 62 {
        b - 4
    } else if b == 62 {
        43
    } else {
        47
    });
}

/// The base64 text of some bytes tells which bytes they are.
proof fn lemma_encoded_injective(a: Seq<u8>, b: Seq<u8>)
    requires
        base64_encoded(a) == base64_encoded(b),
    ensures
        a == b,
    decreases a.len(),
{
    let x = base64_encoded(a);
    let y = base64_encoded(b);
    if a.len() > 0 && b.len() > 0 {
        let a0 = a[0] as int;
        let b0 = b[0] as int;
        let a1 = if a.len() > 1 { a[1] as int } else { 0 };
        let b1 = if b.len() > 1 { b[1] as int } else { 0 };
        let a2 = if a.len() > 2 { a[2] as int } else { 0 };
        let b2 = if b.len() > 2 { b[2] as int } else { 0 };
        lemma_symbol(a0 / 4, b0 / 4);
        lemma_symbol(a0 % 4 * 16 + a1 / 16, b0 % 4 * 16 + b1 / 16);
        lemma_symbol(a1 % 16 * 4 + a2 / 64, b1 % 16 * 4 + b2 / 64);
        lemma_symbol(b1 % 16 * 4 + b2 / 64, a1 % 16 * 4 + a2 / 64);
        lemma_symbol(a2 % 64, b2 % 64);
        lemma_symbol(b2 % 64, a2 % 64);
        assert(x[0] == y[0] && x[1] == y[1] && x[2] == y[2] && x[3] == y[3]);
        if a.len() > 2 && b.len() > 2 {
            assert(base64_encoded(a.skip(3)) =~= x.skip(4));
            assert(base64_encoded(b.skip(3)) =~= y.skip(4));
            lemma_encoded_injective(a.skip(3), b.skip(3));
            assert(a =~= seq![a[0], a[1], a[2]] + a.skip(3));
            assert(b =~= seq![b[0], b[1], b[2]] + b.skip(3));
        } else {
            assert(a.len() == b.len());
            assert(a =~= b);
        }
    } else {
        assert(a.len() > 0 ==> x.len() >= 4);
        assert(b.len() > 0 ==> y.len() >= 4);
        assert(a =~= b);
    }
}

/// Decoding undoes encoding, whatever the bytes.
pub proof fn law_decoding_undoes_encoding(bytes: Seq<u8>)
    ensures
        base64_decoded(base64_encoded(bytes)) == Base64Outcome::Ok(bytes),
{
    let text = base64_encoded(bytes);
    assert(is_base64(text));
    let other = choose|other: Seq<u8>| #[trigger] base64_encoded(other) == text;
    lemma_encoded_injective(bytes, other);
}

/// The six bits that a character of the standard alphabet stands for; negative for any other.
pub open spec fn symbol_bits(c: char) -> int {
    if 'A' <= c && c <= 'Z' {
        c as int - 'A' as int
    } else if 'a' <= c && c <= 'z' {
        c as int - 'a' as int + 26
    } else if '0' <= c && c <= '9' {
        c as int - '0' as int + 52
    } else if c == '+' {
        62
    } else if c == '/' {
        63
    } else {
        -1
    }
}

proof fn lemma_symbol_bits(bits: int)
    requires
        0 <= bits < 64,
    ensures
        symbol_bits(base64_symbol(bits)) == bits,
{
    lemma_symbol(bits, bits);
    assert(base64_symbol(bits) as int == if bits < 26 {
        65 + bits
    } else if bits < 52 {
        71 + bits
    } else if bits < 62 {
        bits - 4
    } else if bits == 62 {
        43
    } else {
        47
    });
}

/// The byte at a place, read off the bits of base64 text.
pub open spec fn byte_read(text: Seq<char>, i: int) -> int {
    let at = i / 3 * 4;
    if i % 3 == 0 {
        symbol_bits(text[at]) * 4 + symbol_bits(text[at + 1]) / 16
    } else if i % 3 == 1 {
        symbol_bits(text[at + 1]) % 16 * 16 + symbol_bits(text[at + 2]) / 4
    } else {
        symbol_bits(text[at + 2]) % 4 * 64 + symbol_bits(text[at + 3])
    }
}

proof fn lemma_first_group(bytes: Seq<u8>)
    requires
        bytes.len() > 0,
    ensures
        base64_encoded(bytes).len() >= 4,
        byte_read(base64_encoded(bytes), 0) == bytes[0],
        bytes.len() > 1 ==> byte_read(base64_encoded(bytes), 1) == bytes[1],
        bytes.len() > 2 ==> byte_read(base64_encoded(bytes), 2) == bytes[2],
        bytes.len() == 1 ==> symbol_bits(base64_encoded(bytes)[1]) % 16 == 0,
        bytes.len() == 2 ==> symbol_bits(base64_encoded(bytes)[2]) % 4 == 0,
{
    let first = bytes[0] as int;
    let second = if bytes.len() > 1 { bytes[1] as int } else { 0 };
    let third = if bytes.len() > 2 { bytes[2] as int } else { 0 };
    lemma_symbol_bits(first / 4);
    lemma_symbol_bits(first % 4 * 16 + second / 16);
    lemma_symbol_bits(second % 16 * 4 + third / 64);
    lemma_symbol_bits(third % 64);
    let text = base64_encoded(bytes);
    assert(text[0] == base64_symbol(first / 4));
    assert(text[1] == base64_symbol(first % 4 * 16 + second / 16));
    assert(bytes.len() > 1 ==> text[2] == base64_symbol(second % 16 * 4 + third / 64));
    assert(bytes.len() > 2 ==> text[3] == base64_symbol(third % 64));
}

proof fn lemma_later_group(head: Seq<char>, tail: Seq<char>, i: int)
    requires
        head.len() == 4,
        i >= 3,
    ensures
        tail.len() > (i - 3) / 3 * 4 + 3 ==> byte_read(head + tail, i) == byte_read(tail, i - 3),
{
    let at = (i - 3) / 3 * 4;
    assert(i / 3 * 4 == at + 4 && i % 3 == (i - 3) % 3);
    if tail.len() > at + 3 {
        assert((head + tail)[at + 4] == tail[at]);
        assert((head + tail)[at + 5] == tail[at + 1]);
        assert((head + tail)[at + 6] == tail[at + 2]);
        assert((head + tail)[at + 7] == tail[at + 3]);
    }
}

/// Base64 text reads back as its bytes: there are four characters for every three bytes begun; byte
/// by byte, the bits of the characters give the bytes; and what is missing in the last three shows
/// as equals signs, with no bit left over.
pub proof fn law_base64_reads_back(bytes: Seq<u8>)
    ensures
        base64_encoded(bytes).len() == 4 * ((bytes.len() + 2) / 3),
        forall|i: int|
            0 <= i < bytes.len() ==> (#[trigger] bytes[i]) == byte_read(base64_encoded(bytes), i),
        bytes.len() % 3 == 1 ==> {
            let text = base64_encoded(bytes);
            &&& text[text.len() - 1] == '='
            &&& text[text.len() - 2] == '='
            &&& symbol_bits(text[text.len() - 3]) % 16 == 0
        },
        bytes.len() % 3 == 2 ==> {
            let text = base64_encoded(bytes);
            &&& text[text.len() - 1] == '='
            &&& symbol_bits(text[text.len() - 2]) % 4 == 0
        },
    decreases bytes.len(),
{
    if bytes.len() > 0 {
        lemma_first_group(bytes);
    }
    if bytes.len() > 2 {
        let text = base64_encoded(bytes);
        let rest = bytes.skip(3);
        let head = text.take(4);
        let tail = base64_encoded(rest);
        law_base64_reads_back(rest);
        assert(text =~= head + tail);
        assert forall|i: int| 0 <= i < bytes.len() implies (#[trigger] bytes[i]) == byte_read(
            text,
            i,
        ) by {
            if i >= 3 {
                assert(rest[i - 3] == bytes[i]);
                lemma_later_group(head, tail, i);
            }
        }
        if rest.len() > 0 {
            assert(text[text.len() - 1] == tail[tail.len() - 1]);
            assert(text[text.len() - 2] == tail[tail.len() - 2]);
            assert(text[text.len() - 3] == tail[tail.len() - 3]);
        }
    }
}

} // verus!
