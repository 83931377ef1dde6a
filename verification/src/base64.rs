//! Transcoding between bytes and text over a 64-symbol alphabet, without padding.
//!
//! The bits of the input, most significant first, are cut into groups of six; each
//! group is written as one symbol of `a`-`z`, `A`-`Z`, `0`-`9`, `+`, `/`. A last
//! group that is not full is filled with zero bits. Decoding keeps every full
//! group of eight bits and drops what is left over.

use crate::errors::CodecError;
use vstd::prelude::*;
use vstd::utf8::encode_utf8;

verus! {

/// The symbol that stands for the 6-bit value `v`.
pub open spec fn symbol_of(v: int) -> char {
    if v < 26 {
        (v + 97) as char
    } else if v < 52 {
        (v - 26 + 65) as char
    } else if v < 62 {
        (v - 52 + 48) as char
    } else if v == 62 {
        '+'
    } else {
        '/'
    }
}

/// The 6-bit value that `c` stands for, if `c` is a symbol of the alphabet.
pub open spec fn value_of(c: char) -> Option<int> {
    let u = c as int;
    if 97 <= u <= 122 {
        Some(u - 97)
    } else if 65 <= u <= 90 {
        Some(u - 65 + 26)
    } else if 48 <= u <= 57 {
        Some(u - 48 + 52)
    } else if c == '+' {
        Some(62)
    } else if c == '/' {
        Some(63)
    } else {
        None
    }
}

/// The byte at index `i`, and 0 past either end.
pub open spec fn byte_at(bytes: Seq<u8>, i: int) -> int {
    if 0 <= i < bytes.len() {
        bytes[i] as int
    } else {
        0
    }
}

/// The `r`-th of the four groups of six bits that the bytes `b0`, `b1`, `b2` hold.
pub open spec fn sextet_of(b0: int, b1: int, b2: int, r: int) -> int {
    if r == 0 {
        b0 / 4
    } else if r == 1 {
        b0 % 4 * 16 + b1 / 16
    } else if r == 2 {
        b1 % 16 * 4 + b2 / 64
    } else {
        b2 % 64
    }
}

/// The `j`-th group of six bits of `bytes`: each three bytes hold four groups, and
/// bytes past the end count as 0.
#[verifier::opaque]
pub open spec fn sextet(bytes: Seq<u8>, j: int) -> int {
    let k = 3 * (j / 4);
    sextet_of(byte_at(bytes, k), byte_at(bytes, k + 1), byte_at(bytes, k + 2), j % 4)
}

/// The number of symbols that `n` bytes are written with.
pub open spec fn encoded_len(n: nat) -> nat {
    ((4 * n + 2) / 3) as nat
}

/// The text that stands for `bytes`.
pub open spec fn encoding(bytes: Seq<u8>) -> Seq<char> {
    Seq::new(encoded_len(bytes.len()), |j: int| symbol_of(sextet(bytes, j)))
}

/// Every character of `text` is a symbol of the alphabet.
pub open spec fn in_alphabet(text: Seq<char>) -> bool {
    forall|j: int| 0 <= j < text.len() ==> (#[trigger] value_of(text[j])) is Some
}

/// The value of the symbol at index `j`, and 0 where there is none.
pub open spec fn digit_at(text: Seq<char>, j: int) -> int {
    if 0 <= j < text.len() && value_of(text[j]) is Some {
        value_of(text[j]).unwrap()
    } else {
        0
    }
}

/// The `r`-th of the three groups of eight bits that the 6-bit values `d0` to
/// `d3` hold.
pub open spec fn octet_of(d0: int, d1: int, d2: int, d3: int, r: int) -> int {
    if r == 0 {
        d0 * 4 + d1 / 16
    } else if r == 1 {
        d1 % 16 * 16 + d2 / 4
    } else {
        d2 % 4 * 64 + d3
    }
}

/// The `i`-th group of eight bits of `text`: each four symbols hold three groups.
#[verifier::opaque]
pub open spec fn octet(text: Seq<char>, i: int) -> int {
    let k = 4 * (i / 3);
    octet_of(
        digit_at(text, k),
        digit_at(text, k + 1),
        digit_at(text, k + 2),
        digit_at(text, k + 3),
        i % 3,
    )
}

/// The number of whole bytes in `m` symbols.
pub open spec fn decoded_len(m: nat) -> nat {
    (3 * m / 4) as nat
}

/// The bytes that `text` stands for, or why it stands for none.
///
/// A text whose UTF-8 form has a length of one more than a multiple of four is
/// refused for its length, whatever it holds; any other text is refused if one of
/// its characters is no symbol of the alphabet.
pub open spec fn decoding(text: Seq<char>) -> Result<Seq<u8>, CodecError> {
    if encode_utf8(text).len() % 4 == 1 {
        Err(CodecError::InvalidLength)
    } else if !in_alphabet(text) {
        Err(CodecError::InvalidCharacter)
    } else {
        Ok(Seq::new(decoded_len(text.len()), |i: int| octet(text, i) as u8))
    }
}

/// The leftover bits of `text` are zero: those of its last symbol that belong to
/// no whole byte.
pub open spec fn canonical(text: Seq<char>) -> bool {
    if text.len() % 4 == 2 {
        digit_at(text, text.len() - 1) % 16 == 0
    } else if text.len() % 4 == 3 {
        digit_at(text, text.len() - 1) % 4 == 0
    } else {
        true
    }
}

/// The outcome of decoding, with the bytes as a sequence.
pub open spec fn decoded(result: Result<Vec<u8>, CodecError>) -> Result<Seq<u8>, CodecError> {
    match result {
        Ok(bytes) => Ok(bytes@),
        Err(e) => Err(e),
    }
}

/// `String::push` of std appends the character to the end of the string.
pub assume_specification[ String::push ](s: &mut String, c: char)
    ensures
        final(s)@ == old(s)@.push(c),
;

/// Computes the symbol of a 6-bit value.
fn symbol(v: u8) -> (c: char)
    requires
        v < 64,
    ensures
        c == symbol_of(v as int),
{
    if v < 26 {
        (v + 97) as char
    } else if v < 52 {
        (v - 26 + 65) as char
    } else if v < 62 {
        (v - 52 + 48) as char
    } else if v == 62 {
        '+'
    } else {
        '/'
    }
}

/// Computes the value of a symbol, and `None` for any other character.
fn value(c: char) -> (r: Option<u8>)
    ensures
        r is Some <==> value_of(c) is Some,
        r matches Some(v) ==> value_of(c) == Some(v as int) && v < 64,
{
    let u: u32 = c as u32;
    if 97 <= u && u <= 122 {
        Some((u - 97) as u8)
    } else if 65 <= u && u <= 90 {
        Some((u - 65 + 26) as u8)
    } else if 48 <= u && u <= 57 {
        Some((u - 48 + 52) as u8)
    } else if c == '+' {
        Some(62)
    } else if c == '/' {
        Some(63)
    } else {
        None
    }
}

/// The group of six bits at index `4 * g + r` is the `r`-th of the `g`-th three
/// bytes.
proof fn lemma_sextet_at(bytes: Seq<u8>, g: int, r: int)
    requires
        0 <= g,
        0 <= r < 4,
    ensures
        sextet(bytes, 4 * g + r) == sextet_of(
            byte_at(bytes, 3 * g),
            byte_at(bytes, 3 * g + 1),
            byte_at(bytes, 3 * g + 2),
            r,
        ),
        0 <= sextet(bytes, 4 * g + r) < 64,
{
    reveal(sextet);
}

/// The group of eight bits at index `3 * g + r` is the `r`-th of the `g`-th four
/// symbols.
proof fn lemma_octet_at(text: Seq<char>, g: int, r: int)
    requires
        0 <= g,
        0 <= r < 3,
    ensures
        octet(text, 3 * g + r) == octet_of(
            digit_at(text, 4 * g),
            digit_at(text, 4 * g + 1),
            digit_at(text, 4 * g + 2),
            digit_at(text, 4 * g + 3),
            r,
        ),
{
    reveal(octet);
}

/// What the low bits of the buffer hold once a byte has been shifted in.
proof fn lemma_shift_in_byte(buffer: u32, byte: u32)
    by (bit_vector)
    requires
        byte < 256,
    ensures
        ((buffer << 8) | byte) & 0xFFFF == ((buffer & 0xFF) << 8) | byte,
        ((buffer << 8) | byte) & 0xFF == byte,
        buffer & 0xFF < 256,
{
}

/// The groups of six bits that can be read from the last two bytes.
proof fn lemma_read_sextets(buffer: u32, prev: u32, cur: u32)
    by (bit_vector)
    requires
        prev < 256,
        cur < 256,
        buffer & 0xFFFF == (prev << 8) | cur,
    ensures
        (buffer >> 2) & 63 == cur / 4,
        (buffer >> 4) & 63 == prev % 4 * 16 + cur / 16,
        (buffer >> 6) & 63 == prev % 16 * 4 + cur / 64,
        (buffer >> 0) & 63 == cur % 64,
{
}

/// The group of six bits that the leftover bits of the last byte fill.
proof fn lemma_read_last_sextet(buffer: u32, cur: u32)
    by (bit_vector)
    requires
        cur < 256,
        buffer & 0xFF == cur,
    ensures
        (buffer << 4) & 63 == cur % 4 * 16,
        (buffer << 2) & 63 == cur % 16 * 4,
{
}

/// Writes `input` as text.
pub fn encode(input: &[u8]) -> (output: String)
    ensures
        output@ == encoding(input@),
{
    let mut output = String::new();
    let mut buffer: u32 = 0;
    let mut bits: u32 = 0;
    let mut i: usize = 0;
    let ghost mut g: int = 0;
    let ghost mut p: int = 0;
    assert(buffer & 0xFF == 0) by (bit_vector)
        requires
            buffer == 0,
    ;
    while i < input.len()
        invariant
            i <= input.len(),
            i == 3 * g + p,
            0 <= g,
            0 <= p < 3,
            bits == 2 * p,
            buffer & 0xFF == byte_at(input@, i - 1),
            output@.len() == 4 * g + p,
            forall|j: int| 0 <= j < output@.len() ==> output@[j] == symbol_of(sextet(input@, j)),
        decreases input.len() - i,
    {
        let byte = input[i];
        let ghost prev: u32 = buffer & 0xFF;
        proof {
            lemma_shift_in_byte(buffer, byte as u32);
        }
        buffer = (buffer << 8) | (byte as u32);
        bits += 8;
        while bits >= 6
            invariant
                i < input.len(),
                i == 3 * g + p,
                0 <= g,
                0 <= p < 3,
                byte == input@[i as int],
                prev == byte_at(input@, i - 1),
                bits + 6 * output@.len() == 8 * (i + 1),
                bits <= 12,
                buffer & 0xFFFF == (prev << 8) | (byte as u32),
                buffer & 0xFF == byte as u32,
                forall|j: int|
                    0 <= j < output@.len() ==> output@[j] == symbol_of(sextet(input@, j)),
            decreases bits,
        {
            bits -= 6;
            let index = (buffer >> bits) & 0b111111;
            proof {
                lemma_read_sextets(buffer, prev, byte as u32);
                let r = output@.len() - 4 * g;
                lemma_sextet_at(input@, g, r);
            }
            output.push(symbol(index as u8));
        }
        i += 1;
        proof {
            if p == 2 {
                g = g + 1;
                p = 0;
            } else {
                p = p + 1;
            }
        }
    }
    if bits > 0 {
        proof {
            lemma_read_last_sextet(buffer, buffer & 0xFF);
            lemma_sextet_at(input@, g, p);
        }
        buffer <<= 6 - bits;
        let index = buffer & 0b111111;
        output.push(symbol(index as u8));
    }
    output
}

/// What the low bits of the buffer hold once a 6-bit value has been shifted in.
proof fn lemma_shift_in_digit(buffer: u32, digit: u32)
    by (bit_vector)
    requires
        digit < 64,
    ensures
        ((buffer << 6) | digit) & 0xFFF == ((buffer & 63) << 6) | digit,
        ((buffer << 6) | digit) & 63 == digit,
        buffer & 63 < 64,
{
}

/// The groups of eight bits that can be read from the last two symbols.
proof fn lemma_read_octets(buffer: u32, prev: u32, cur: u32)
    by (bit_vector)
    requires
        prev < 64,
        cur < 64,
        buffer & 0xFFF == (prev << 6) | cur,
    ensures
        (buffer >> 4) & 0xFF == prev * 4 + cur / 16,
        (buffer >> 2) & 0xFF == prev % 16 * 16 + cur / 4,
        (buffer >> 0) & 0xFF == prev % 4 * 64 + cur,
{
}

/// Reads the bytes that `input` stands for.
pub fn decode(input: &str) -> (result: Result<Vec<u8>, CodecError>)
    ensures
        decoded(result) == decoding(input@),
{
    if input.as_bytes().len() % 4 == 1 {
        return Err(CodecError::InvalidLength);
    }
    let mut output: Vec<u8> = Vec::new();
    let mut buffer: u32 = 0;
    let mut bits: u32 = 0;
    let ghost mut g: int = 0;
    let ghost mut r: int = 0;
    assert(buffer & 63 == 0) by (bit_vector)
        requires
            buffer == 0,
    ;
    for c in it: input.chars()
        invariant
            it.seq() == input@,
            encode_utf8(input@).len() % 4 != 1,
            it.index() == 4 * g + r,
            0 <= g,
            0 <= r < 4,
            bits == (if r == 0 { 0int } else { 8 - 2 * r }),
            buffer & 63 == digit_at(input@, it.index() - 1),
            forall|j: int| 0 <= j < it.index() ==> (#[trigger] value_of(input@[j])) is Some,
            output@.len() == (if r == 0 { 3 * g } else { 3 * g + r - 1 }),
            forall|i: int| 0 <= i < output@.len() ==> output@[i] == octet(input@, i) as u8,
    {
        let digit = match value(c) {
            Some(v) => v as u32,
            None => {
                return Err(CodecError::InvalidCharacter);
            },
        };
        proof {
            lemma_shift_in_digit(buffer, digit);
            lemma_read_octets((buffer << 6) | digit, buffer & 63, digit);
            if r > 0 {
                lemma_octet_at(input@, g, r - 1);
            }
        }
        buffer = (buffer << 6) | digit;
        bits += 6;
        if bits >= 8 {
            bits -= 8;
            let byte = ((buffer >> bits) & 0xFF) as u8;
            output.push(byte);
        }
        proof {
            if r == 3 {
                g = g + 1;
                r = 0;
            } else {
                r = r + 1;
            }
        }
    }
    assert(output@ =~= decoding(input@).unwrap());
    Ok(output)
}

/// A symbol and its value determine each other.
pub proof fn lemma_symbol_value(v: int, c: char)
    ensures
        0 <= v < 64 ==> value_of(symbol_of(v)) == Some(v),
        value_of(c) matches Some(w) ==> 0 <= w < 64 && symbol_of(w) == c,
{
}

/// A text in the alphabet is ASCII, so its UTF-8 form is as long as it is.
pub proof fn lemma_alphabet_is_ascii(text: Seq<char>)
    requires
        in_alphabet(text),
    ensures
        encode_utf8(text).len() == text.len(),
{
    assert forall|i: int| 0 <= i < text.len() implies '\0' <= #[trigger] text[i] <= '\u{7f}' by {
        assert(value_of(text[i]) is Some);
    }
    vstd::utf8::is_ascii_chars_encode_utf8(text);
}

/// The encoding of any bytes is in the alphabet, and the value of its `j`-th
/// symbol is the `j`-th group of six bits.
pub proof fn lemma_encoding_digits(bytes: Seq<u8>)
    ensures
        in_alphabet(encoding(bytes)),
        forall|j: int|
            0 <= j < encoding(bytes).len() ==> #[trigger] digit_at(encoding(bytes), j) == sextet(
                bytes,
                j,
            ),
{
    let text = encoding(bytes);
    assert forall|j: int| 0 <= j < text.len() implies (#[trigger] value_of(text[j])) is Some
        && digit_at(text, j) == sextet(bytes, j) by {
        lemma_sextet_at(bytes, j / 4, j % 4);
        lemma_symbol_value(sextet(bytes, j), 'a');
    }
}

/// Decoding undoes encoding: the text written for any bytes is read back as
/// those bytes.
pub proof fn lemma_decode_encode(bytes: Seq<u8>)
    ensures
        decoding(encoding(bytes)) == Ok::<Seq<u8>, CodecError>(bytes),
{
    let text = encoding(bytes);
    lemma_encoding_digits(bytes);
    lemma_alphabet_is_ascii(text);
    let back = decoding(text).unwrap();
    assert forall|i: int| 0 <= i < bytes.len() implies back[i] == bytes[i] by {
        let g = i / 3;
        let r = i % 3;
        lemma_octet_at(text, g, r);
        lemma_sextet_at(bytes, g, 0);
        lemma_sextet_at(bytes, g, 1);
        lemma_sextet_at(bytes, g, 2);
        lemma_sextet_at(bytes, g, 3);
    }
    assert(back =~= bytes);
}

/// The `j`-th group of six bits of the decoded bytes is the value of the `j`-th
/// symbol, but for leftover bits of the last symbol, which come back as zero.
proof fn lemma_group_restored(text: Seq<char>, j: int)
    requires
        decoding(text) is Ok,
        0 <= j < text.len(),
    ensures
        0 <= digit_at(text, j) < 64,
        symbol_of(digit_at(text, j)) == text[j],
        0 <= sextet(decoding(text).unwrap(), j) < 64,
        j < text.len() - 1 || canonical(text) <==> sextet(decoding(text).unwrap(), j)
            == digit_at(text, j),
{
    let bytes = decoding(text).unwrap();
    lemma_alphabet_is_ascii(text);
    let g = j / 4;
    let r = j % 4;
    lemma_sextet_at(bytes, g, r);
    lemma_octet_at(text, g, 0);
    lemma_octet_at(text, g, 1);
    lemma_octet_at(text, g, 2);
}

/// The `j`-th symbol of the text written for the decoded bytes is the `j`-th
/// symbol of `text`, but where leftover bits of the last symbol are not zero.
proof fn lemma_symbol_restored(text: Seq<char>, j: int)
    requires
        decoding(text) is Ok,
        0 <= j < text.len(),
    ensures
        encoding(decoding(text).unwrap()).len() == text.len(),
        j < text.len() - 1 || canonical(text) <==> encoding(decoding(text).unwrap())[j]
            == text[j],
{
    lemma_alphabet_is_ascii(text);
    lemma_group_restored(text, j);
}

/// Encoding undoes decoding exactly on the canonical texts: a text that decodes
/// is written back unchanged if and only if its leftover bits are zero.
pub proof fn lemma_encode_decode(text: Seq<char>)
    requires
        decoding(text) is Ok,
    ensures
        encoding(decoding(text).unwrap()) == text <==> canonical(text),
{
    let again = encoding(decoding(text).unwrap());
    if text.len() == 0 {
        assert(again =~= text);
    } else {
        lemma_symbol_restored(text, text.len() - 1);
        assert forall|j: int| 0 <= j < text.len() - 1 implies #[trigger] again[j] == text[j] by {
            lemma_symbol_restored(text, j);
        }
        if canonical(text) {
            assert(again =~= text);
        } else {
        }
    }
}

} // verus!
