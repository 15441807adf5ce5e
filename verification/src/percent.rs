//! Percent-encoding of paths for the way out, and decoding for the way in.
use vstd::prelude::*;
use vstd::string::StringSliceAdditionalSpecFns;

verus! {

/// An ASCII letter or digit.
pub open spec fn is_alphanumeric(b: u8) -> bool {
    (0x30 <= b <= 0x39) || (0x41 <= b <= 0x5a) || (0x61 <= b <= 0x7a)
}

/// The bytes that stay as they are: letters, digits, `.`, `/` and `"`.
pub open spec fn is_kept(b: u8) -> bool {
    is_alphanumeric(b) || b == 0x2e || b == 0x2f || b == 0x22
}

/// The upper-case hexadecimal digit for a value below sixteen.
pub open spec fn upper_hex(d: int) -> char {
    if d == 0 {
        '0'
    } else if d == 1 {
        '1'
    } else if d == 2 {
        '2'
    } else if d == 3 {
        '3'
    } else if d == 4 {
        '4'
    } else if d == 5 {
        '5'
    } else if d == 6 {
        '6'
    } else if d == 7 {
        '7'
    } else if d == 8 {
        '8'
    } else if d == 9 {
        '9'
    } else if d == 10 {
        'A'
    } else if d == 11 {
        'B'
    } else if d == 12 {
        'C'
    } else if d == 13 {
        'D'
    } else if d == 14 {
        'E'
    } else {
        'F'
    }
}

/// One byte, encoded: itself where it is kept, `%XX` otherwise.
pub open spec fn encoded_byte(b: u8) -> Seq<char> {
    if is_kept(b) {
        seq![b as char]
    } else {
        seq!['%', upper_hex(b as int / 16), upper_hex(b as int % 16)]
    }
}

/// The bytes, each encoded, one after the other.
pub open spec fn percent_encoded(bytes: Seq<u8>) -> Seq<char>
    decreases bytes.len(),
{
    if bytes.len() == 0 {
        Seq::empty()
    } else {
        percent_encoded(bytes.drop_last()) + encoded_byte(bytes.last())
    }
}

/// The value of a hexadecimal digit in either case.
pub open spec fn hex_value(b: u8) -> Option<u8> {
    if 0x30 <= b <= 0x39 {
        Some((b - 0x30) as u8)
    } else if 0x41 <= b <= 0x46 {
        Some((b - 0x41 + 10) as u8)
    } else if 0x61 <= b <= 0x66 {
        Some((b - 0x61 + 10) as u8)
    } else {
        None
    }
}

/// Whether an escape `%XX` starts the bytes.
pub open spec fn starts_with_escape(s: Seq<u8>) -> bool {
    s.len() >= 3 && s[0] == 0x25 && hex_value(s[1]) is Some && hex_value(s[2]) is Some
}

/// The bytes with every escape `%XX` replaced by the byte it names. A
/// `%` that starts no escape stays.
pub open spec fn percent_decoded(s: Seq<u8>) -> Seq<u8>
    decreases s.len(),
{
    if s.len() == 0 {
        Seq::empty()
    } else if starts_with_escape(s) {
        seq![(hex_value(s[1])->Some_0 * 16 + hex_value(s[2])->Some_0) as u8] + percent_decoded(
            s.skip(3),
        )
    } else {
        seq![s[0]] + percent_decoded(s.skip(1))
    }
}

fn upper_hex_of(d: u8) -> (c: char)
    requires
        d < 16,
    ensures
        c == upper_hex(d as int),
{
    if d == 0 {
        '0'
    } else if d == 1 {
        '1'
    } else if d == 2 {
        '2'
    } else if d == 3 {
        '3'
    } else if d == 4 {
        '4'
    } else if d == 5 {
        '5'
    } else if d == 6 {
        '6'
    } else if d == 7 {
        '7'
    } else if d == 8 {
        '8'
    } else if d == 9 {
        '9'
    } else if d == 10 {
        'A'
    } else if d == 11 {
        'B'
    } else if d == 12 {
        'C'
    } else if d == 13 {
        'D'
    } else if d == 14 {
        'E'
    } else {
        'F'
    }
}

fn hex_value_of(b: u8) -> (r: Option<u8>)
    ensures
        r == hex_value(b),
        r is Some ==> r->Some_0 < 16,
{
    if 0x30 <= b && b <= 0x39 {
        Some(b - 0x30)
    } else if 0x41 <= b && b <= 0x46 {
        Some(b - 0x41 + 10)
    } else if 0x61 <= b && b <= 0x66 {
        Some(b - 0x61 + 10)
    } else {
        None
    }
}

/// The bytes, percent-encoded. Letters, digits, `.`, `/` and `"` stay.
pub fn encode_bytes(bytes: &[u8]) -> (r: String)
    ensures
        r@ == percent_encoded(bytes@),
{
    let mut r = String::new();
    let mut i: usize = 0;
    assert(bytes@.take(0) =~= Seq::<u8>::empty());
    while i < bytes.len()
        invariant
            i <= bytes.len(),
            r@ == percent_encoded(bytes@.take(i as int)),
        decreases bytes.len() - i,
    {
        let b = bytes[i];
        proof {
            assert(bytes@.take(i + 1).drop_last() =~= bytes@.take(i as int));
            assert(bytes@.take(i + 1).last() == b);
        }
        let ghost before = r@;
        let kept = (0x30 <= b && b <= 0x39) || (0x41 <= b && b <= 0x5a) || (0x61 <= b && b
            <= 0x7a) || b == 0x2e || b == 0x2f || b == 0x22;
        if kept {
            r.push(b as char);
            assert(r@ =~= before + encoded_byte(b));
        } else {
            r.push('%');
            r.push(upper_hex_of(b / 16));
            r.push(upper_hex_of(b % 16));
            assert(r@ =~= before + encoded_byte(b));
        }
        i += 1;
    }
    assert(bytes@.take(bytes@.len() as int) =~= bytes@);
    r
}

/// The text, percent-encoded byte by byte.
pub fn percent_encode(text: &str) -> (r: String)
    ensures
        r@ == percent_encoded(text.spec_bytes()),
{
    encode_bytes(text.as_bytes())
}

/// The bytes that a percent-encoded text stands for.
pub fn percent_decode(text: &str) -> (r: Vec<u8>)
    ensures
        r@ == percent_decoded(text.spec_bytes()),
{
    let s = text.as_bytes();
    let mut r: Vec<u8> = Vec::new();
    let mut i: usize = 0;
    assert(s@.skip(0) =~= s@);
    while i < s.len()
        invariant
            i <= s.len(),
            percent_decoded(s@) == r@ + percent_decoded(s@.skip(i as int)),
        decreases s.len() - i,
    {
        let ghost rest = s@.skip(i as int);
        let ghost before = r@;
        let mut step: usize = 1;
        let mut byte: u8 = s[i];
        if s[i] == 0x25 && s.len() - i >= 3 {
            let hi = hex_value_of(s[i + 1]);
            let lo = hex_value_of(s[i + 2]);
            if hi.is_some() && lo.is_some() {
                byte = hi.unwrap() * 16 + lo.unwrap();
                step = 3;
            }
        }
        proof {
            assert(rest[0] == s@[i as int]);
            if rest.len() >= 3 {
                assert(rest[1] == s@[i + 1]);
                assert(rest[2] == s@[i + 2]);
            }
            assert(rest.skip(step as int) =~= s@.skip(i + step));
            assert(percent_decoded(rest) == seq![byte] + percent_decoded(rest.skip(step as int)));
        }
        r.push(byte);
        assert(r@ + percent_decoded(s@.skip(i + step)) =~= before + percent_decoded(rest));
        i += step;
    }
    assert(r@ + Seq::<u8>::empty() =~= r@);
    r
}

/// The bytes of a text of ASCII characters.
pub open spec fn ascii_bytes(text: Seq<char>) -> Seq<u8> {
    text.map_values(|c: char| c as u8)
}

/// The first byte of a text is encoded first.
proof fn lemma_encoded_from_front(bytes: Seq<u8>)
    requires
        bytes.len() > 0,
    ensures
        percent_encoded(bytes) == encoded_byte(bytes[0]) + percent_encoded(bytes.skip(1)),
    decreases bytes.len(),
{
    if bytes.len() == 1 {
        assert(bytes.drop_last() =~= Seq::<u8>::empty());
        assert(bytes.skip(1) =~= Seq::<u8>::empty());
        assert(percent_encoded(bytes.drop_last()) =~= Seq::<char>::empty());
        assert(percent_encoded(bytes) =~= encoded_byte(bytes[0]));
        assert(encoded_byte(bytes[0]) + percent_encoded(bytes.skip(1)) =~= encoded_byte(bytes[0]));
    } else {
        lemma_encoded_from_front(bytes.drop_last());
        assert(bytes.drop_last().skip(1) =~= bytes.skip(1).drop_last());
        assert(bytes.drop_last()[0] == bytes[0]);
        assert(bytes.skip(1).last() == bytes.last());
        assert(percent_encoded(bytes) =~= encoded_byte(bytes[0]) + percent_encoded(bytes.skip(1)));
    }
}

/// An upper-case hexadecimal digit has the value it stands for.
proof fn lemma_hex_value(d: int)
    requires
        0 <= d < 16,
    ensures
        hex_value(upper_hex(d) as u8) == Some(d as u8),
{
}

/// One encoded byte in front of a text decodes to the byte in front of
/// what the text decodes to.
proof fn lemma_decoded_byte(b: u8, rest: Seq<u8>)
    ensures
        percent_decoded(ascii_bytes(encoded_byte(b)) + rest) == seq![b] + percent_decoded(rest),
{
    let head = ascii_bytes(encoded_byte(b));
    let s = head + rest;
    if is_kept(b) {
        assert(head =~= seq![b]);
        assert(s[0] == b);
        assert(s.skip(1) =~= rest);
    } else {
        let hi = b as int / 16;
        let lo = b as int % 16;
        lemma_hex_value(hi);
        lemma_hex_value(lo);
        assert(head =~= seq![0x25u8, upper_hex(hi) as u8, upper_hex(lo) as u8]);
        assert(s[0] == 0x25 && s[1] == upper_hex(hi) as u8 && s[2] == upper_hex(lo) as u8);
        assert(s.skip(3) =~= rest);
        assert((hi * 16 + lo) as u8 == b);
    }
}

/// In front of any text, what bytes are encoded to decodes to the bytes.
pub proof fn lemma_decoded_in_front(bytes: Seq<u8>, rest: Seq<u8>)
    ensures
        percent_decoded(ascii_bytes(percent_encoded(bytes)) + rest) == bytes + percent_decoded(rest),
    decreases bytes.len(),
{
    if bytes.len() == 0 {
        assert(ascii_bytes(percent_encoded(bytes)) + rest =~= rest);
        assert(bytes + percent_decoded(rest) =~= percent_decoded(rest));
    } else {
        lemma_encoded_from_front(bytes);
        let head = ascii_bytes(encoded_byte(bytes[0]));
        let tail = ascii_bytes(percent_encoded(bytes.skip(1)));
        assert(ascii_bytes(percent_encoded(bytes)) =~= head + tail);
        assert(ascii_bytes(percent_encoded(bytes)) + rest =~= head + (tail + rest));
        lemma_decoded_byte(bytes[0], tail + rest);
        lemma_decoded_in_front(bytes.skip(1), rest);
        assert(seq![bytes[0]] + (bytes.skip(1) + percent_decoded(rest)) =~= bytes
            + percent_decoded(rest));
    }
}

/// What bytes are encoded to decodes to the bytes.
pub proof fn law_decoding_undoes_encoding(bytes: Seq<u8>)
    ensures
        percent_decoded(ascii_bytes(percent_encoded(bytes))) == bytes,
{
    lemma_decoded_in_front(bytes, Seq::empty());
    assert(ascii_bytes(percent_encoded(bytes)) + Seq::<u8>::empty() =~= ascii_bytes(
        percent_encoded(bytes),
    ));
    assert(percent_decoded(Seq::<u8>::empty()) =~= Seq::<u8>::empty());
    assert(bytes + Seq::<u8>::empty() =~= bytes);
}

} // verus!
