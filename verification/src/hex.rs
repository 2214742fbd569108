//! Bytes in hexadecimal notation.
use vstd::prelude::*;
use vstd::string::*;
use vstd::utf8::{encode_utf8, is_ascii_chars, is_ascii_chars_encode_utf8};

use crate::text::{concat, decimal, decimal_string};

verus! {

/// Why a text is not hexadecimal.
#[derive(Debug, Clone, Copy, PartialEq, Eq)]
pub enum HexError {
    /// An invalid character was found. A character of more than one byte is told by its first byte.
    InvalidHexCharacter { c: char, index: usize },
    /// Two digits correspond to one byte.
    OddLength,
}

impl HexError {
    /// The message shown for this error.
    pub open spec fn spec_message(self) -> Seq<char> {
        match self {
            HexError::InvalidHexCharacter { c, index } => "Invalid character "@ + seq![c]
                + " at position "@ + decimal(index as nat),
            HexError::OddLength => "Odd number of digits"@,
        }
    }

    /// The message shown for this error.
    pub fn message(&self) -> (r: String)
        ensures
            r@ == self.spec_message(),
    {
        match self {
            Self::InvalidHexCharacter { c, index } => {
                let mut text = "Invalid character ".to_owned();
                text.push(*c);
                text.append(" at position ");
                assert(text@ =~= "Invalid character "@ + seq![*c] + " at position "@);
                concat(&text, &decimal_string(*index as u64))
            },
            Self::OddLength => "Odd number of digits".to_owned(),
        }
    }
}

/// The digit of a half byte.
pub open spec fn hex_digit(d: nat) -> char {
    if d < 10 {
        (48 + d) as u8 as char
    } else {
        (87 + d) as u8 as char
    }
}

/// The half byte that a digit, in upper or lower case, stands for.
pub open spec fn hex_value(b: u8) -> Option<u8> {
    if 48 <= b <= 57 {
        Some((b - 48) as u8)
    } else if 65 <= b <= 70 {
        Some((b - 55) as u8)
    } else if 97 <= b <= 102 {
        Some((b - 87) as u8)
    } else {
        None
    }
}

/// Some bytes as text: two lower-case digits for each.
pub open spec fn hex_text(data: Seq<u8>) -> Seq<char> {
    Seq::new(
        data.len() * 2,
        |i: int| hex_digit(if i % 2 == 0 {
            data[i / 2] as nat / 16
        } else {
            data[i / 2] as nat % 16
        }),
    )
}

/// The first position from `from` on without a digit, or the length.
pub open spec fn first_non_digit(text: Seq<u8>, from: int) -> int
    decreases text.len() - from,
{
    if from < 0 || from >= text.len() {
        text.len() as int
    } else if hex_value(text[from]) is None {
        from
    } else {
        first_non_digit(text, from + 1)
    }
}

/// The bytes that a text, given as its UTF-8 bytes, stands for.
pub open spec fn hex_read(text: Seq<u8>) -> Result<Seq<u8>, HexError> {
    let bad = first_non_digit(text, 0);
    if text.len() % 2 != 0 {
        Err(HexError::OddLength)
    } else if bad < text.len() {
        Err(HexError::InvalidHexCharacter { c: text[bad] as char, index: bad as usize })
    } else {
        Ok(
            Seq::new(
                text.len() / 2,
                |i: int| (hex_value(text[2 * i])->0 * 16 + hex_value(text[2 * i + 1])->0) as u8,
            ),
        )
    }
}

/// Some bytes as text.
pub fn hex_encode(data: &[u8]) -> (r: String)
    ensures
        r@ == hex_text(data@),
{
    let mut text = String::new();
    let mut i: usize = 0;
    while i < data.len()
        invariant
            i <= data@.len(),
            text@ == hex_text(data@).take(2 * i),
        decreases data@.len() - i,
    {
        let b = data[i];
        let high: u8 = b / 16;
        let low: u8 = b % 16;
        text.push(if high < 10 { (48 + high) as char } else { (87 + high) as char });
        text.push(if low < 10 { (48 + low) as char } else { (87 + low) as char });
        assert(text@ =~= hex_text(data@).take(2 * (i + 1)));
        i += 1;
    }
    assert(hex_text(data@).take(2 * i) =~= hex_text(data@));
    text
}

fn digit_value(b: u8) -> (r: Option<u8>)
    ensures
        r == hex_value(b),
        r matches Some(v) ==> v < 16,
{
    match b {
        48..=57 => Some(b - 48),
        65..=70 => Some(b - 55),
        97..=102 => Some(b - 87),
        _ => None,
    }
}

/// What holds of the first position without a digit.
proof fn lemma_first_non_digit(text: Seq<u8>, from: int, r: int)
    requires
        0 <= from <= r <= text.len(),
        forall|i: int| from <= i < r ==> hex_value(#[trigger] text[i]) is Some,
        r < text.len() ==> hex_value(text[r]) is None,
    ensures
        first_non_digit(text, from) == r,
    decreases r - from,
{
    if from < r {
        assert(hex_value(text[from]) is Some);
        lemma_first_non_digit(text, from + 1, r);
    }
}

/// The bytes that a text stands for.
pub fn hex_decode(text: &str) -> (r: Result<Vec<u8>, HexError>)
    ensures
        match hex_read(encode_utf8(text@)) {
            Ok(data) => r matches Ok(v) && v@ == data,
            Err(e) => r matches Err(e2) && e2 == e,
        },
{
    let bytes = text.as_bytes();
    let n: usize = bytes.len();
    assert(bytes@ == encode_utf8(text@));
    if n % 2 != 0 {
        return Err(HexError::OddLength);
    }
    let mut out: Vec<u8> = Vec::new();
    let mut i: usize = 0;
    while i < n
        invariant
            i <= n,
            n == bytes@.len(),
            n % 2 == 0,
            i % 2 == 0,
            bytes@ == encode_utf8(text@),
            forall|j: int| 0 <= j < i ==> hex_value(#[trigger] bytes@[j]) is Some,
            out@ == Seq::new(
                (i / 2) as nat,
                |k: int|
                    (hex_value(bytes@[2 * k])->0 * 16 + hex_value(bytes@[2 * k + 1])->0) as u8,
            ),
        decreases n - i,
    {
        let high: u8 = match digit_value(bytes[i]) {
            Some(v) => v,
            None => {
                proof {
                    lemma_first_non_digit(bytes@, 0, i as int);
                }
                return Err(HexError::InvalidHexCharacter { c: bytes[i] as char, index: i });
            },
        };
        let low: u8 = match digit_value(bytes[i + 1]) {
            Some(v) => v,
            None => {
                proof {
                    lemma_first_non_digit(bytes@, 0, i + 1);
                }
                return Err(
                    HexError::InvalidHexCharacter { c: bytes[i + 1] as char, index: i + 1 },
                );
            },
        };
        out.push(high * 16 + low);
        i += 2;
        assert(out@ =~= Seq::new(
            (i / 2) as nat,
            |k: int| (hex_value(bytes@[2 * k])->0 * 16 + hex_value(bytes@[2 * k + 1])->0) as u8,
        ));
    }
    proof {
        lemma_first_non_digit(bytes@, 0, n as int);
    }
    Ok(out)
}

/// The text of some bytes is read back as those bytes.
pub proof fn law_hex_round_trips(data: Seq<u8>)
    ensures
        hex_read(encode_utf8(hex_text(data))) == Ok::<_, HexError>(data),
{
    let text = hex_text(data);
    assert forall|i: int| 0 <= i < text.len() implies 48 <= (#[trigger] text[i]) as u32 <= 102 by {
        assert(data[i / 2] as nat / 16 < 16);
    }
    assert(is_ascii_chars(text));
    is_ascii_chars_encode_utf8(text);
    let bytes = encode_utf8(text);
    assert(bytes.len() == text.len());
    assert forall|i: int| 0 <= i < bytes.len() implies hex_value(#[trigger] bytes[i]) == Some(
        if i % 2 == 0 {
            data[i / 2] / 16
        } else {
            data[i / 2] % 16
        },
    ) by {
        assert(bytes[i] == text[i] as u8);
    }
    lemma_first_non_digit(bytes, 0, bytes.len() as int);
    let read = hex_read(bytes)->Ok_0;
    assert forall|i: int| 0 <= i < data.len() implies #[trigger] read[i] == data[i] by {
        assert(hex_value(bytes[2 * i]) == Some(data[i] / 16));
        assert(hex_value(bytes[2 * i + 1]) == Some(data[i] % 16));
    }
    assert(read =~= data);
}

/// The value of a digit, in upper or lower case; none where it is no digit.
pub open spec fn digit_of(c: int) -> Option<int> {
    if '0' as int <= c <= '9' as int {
        Some(c - '0' as int)
    } else if 'a' as int <= c <= 'f' as int {
        Some(c - 'a' as int + 10)
    } else if 'A' as int <= c <= 'F' as int {
        Some(c - 'A' as int + 10)
    } else {
        None
    }
}

/// Each byte is written as two digits, the higher one first, none of them in upper case.
pub proof fn law_bytes_are_written_in_digits(data: Seq<u8>)
    ensures
        hex_text(data).len() == 2 * data.len(),
        forall|i: int|
            0 <= i < data.len() ==> {
                let high = hex_text(data)[2 * i];
                let low = hex_text(data)[2 * i + 1];
                &&& digit_of(high as int) matches Some(h)
                &&& digit_of(low as int) matches Some(l)
                &&& h * 16 + l == #[trigger] data[i]
                &&& !('A' <= high <= 'Z') && !('A' <= low <= 'Z')
            },
{
    assert forall|i: int| 0 <= i < data.len() implies {
        let high = hex_text(data)[2 * i];
        let low = hex_text(data)[2 * i + 1];
        &&& digit_of(high as int) matches Some(h)
        &&& digit_of(low as int) matches Some(l)
        &&& h * 16 + l == #[trigger] data[i]
        &&& !('A' <= high <= 'Z') && !('A' <= low <= 'Z')
    } by {
        assert((2 * i) / 2 == i && (2 * i + 1) / 2 == i);
        assert((2 * i) % 2 == 0 && (2 * i + 1) % 2 == 1);
    }
}

/// A text is read where its length is even and each of its bytes is a digit: two digits, the higher one
/// first, for each byte. An odd length is refused first; then the first byte that is no digit, with its
/// position.
pub proof fn law_digits_are_read(text: Seq<u8>)
    requires
        text.len() <= usize::MAX,
    ensures
        text.len() % 2 != 0 <==> hex_read(text) == Err::<Seq<u8>, _>(HexError::OddLength),
        hex_read(text) matches Ok(data) ==> {
            &&& data.len() * 2 == text.len()
            &&& forall|i: int|
                0 <= i < data.len() ==> {
                    &&& digit_of(text[2 * i] as int) matches Some(h)
                    &&& digit_of(text[2 * i + 1] as int) matches Some(l)
                    &&& #[trigger] data[i] == h * 16 + l
                }
        },
        hex_read(text) matches Err(HexError::InvalidHexCharacter { c, index }) ==> {
            &&& index < text.len()
            &&& digit_of(text[index as int] as int) is None
            &&& c as int == text[index as int]
            &&& forall|j: int| 0 <= j < index ==> digit_of(#[trigger] text[j] as int) is Some
        },
{
    lemma_first_non_digit_found(text, 0);
    if hex_read(text) is Ok {
        let data = hex_read(text)->Ok_0;
        assert forall|i: int| 0 <= i < data.len() implies {
            &&& digit_of(text[2 * i] as int) matches Some(h)
            &&& digit_of(text[2 * i + 1] as int) matches Some(l)
            &&& #[trigger] data[i] == h * 16 + l
        } by {
            assert(hex_value(text[2 * i]) is Some);
            assert(hex_value(text[2 * i + 1]) is Some);
        }
    }
}

/// What holds of the first byte that is no digit.
proof fn lemma_first_non_digit_found(text: Seq<u8>, from: int)
    requires
        0 <= from <= text.len(),
    ensures
        from <= first_non_digit(text, from) <= text.len(),
        forall|j: int|
            from <= j < first_non_digit(text, from) ==> hex_value(#[trigger] text[j]) is Some,
        first_non_digit(text, from) < text.len() ==> hex_value(text[first_non_digit(text, from)])
            is None,
    decreases text.len() - from,
{
    if from < text.len() && hex_value(text[from]) is Some {
        lemma_first_non_digit_found(text, from + 1);
    }
}

} // verus!
