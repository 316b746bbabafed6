//! Conversion of UTF-8 text to the UTF-16 code units that firmware file
//! names are made of.
use vstd::prelude::*;
use vstd::string::StringSliceAdditionalSpecFns;

verus! {

/// How far a conversion got: the bytes of input consumed and the code units
/// written, the closing zero not counted.
pub struct EncodeStatus {
    pub input_read: usize,
    pub output_written: usize,
}

/// The code unit written in place of a character that has no single code
/// unit or is cut short.
pub const UNREADABLE_CHAR_REPLACEMENT: u16 = 0x2588;

/// What the first character of some input comes to.
#[derive(Debug, Clone, Copy, PartialEq, Eq, Structural)]
pub enum EncodeCharStatus {
    EncodedChar { encoded_char: u16, input_read: usize },
    SurrogatePair { input_read: usize },
    InsufficientInputBytes { input_read: usize },
}

impl EncodeCharStatus {
    /// The bytes of input that the character took.
    pub open spec fn consumed(self) -> int {
        match self {
            EncodeCharStatus::EncodedChar { input_read, .. } => input_read as int,
            EncodeCharStatus::SurrogatePair { input_read } => input_read as int,
            EncodeCharStatus::InsufficientInputBytes { input_read } => input_read as int,
        }
    }

    /// The code unit that stands for the character.
    pub open spec fn unit(self) -> u16 {
        match self {
            EncodeCharStatus::EncodedChar { encoded_char, .. } => encoded_char,
            _ => 0x2588,
        }
    }
}

/// What the character that starts `input` comes to. A first byte below
/// 0x80 stands for itself. Of the first bytes from 0xC0 to 0xDF and from
/// 0xE0 to 0xEF the low five bits, with the low six bits of each of the one
/// or two bytes that follow, make the code unit. Any other first byte
/// starts a character of four bytes, which has no single code unit. A
/// character that the input cuts short takes one byte where it is of two
/// bytes, else all that is left.
pub open spec fn first_char(input: Seq<u8>) -> EncodeCharStatus {
    let first = input[0];
    if first < 0x80 {
        EncodeCharStatus::EncodedChar { encoded_char: first as u16, input_read: 1 }
    } else if 0xC0 <= first < 0xE0 {
        if input.len() < 2 {
            EncodeCharStatus::InsufficientInputBytes { input_read: 1 }
        } else {
            EncodeCharStatus::EncodedChar {
                encoded_char: ((first % 0x20) * 0x40 + input[1] % 0x40) as u16,
                input_read: 2,
            }
        }
    } else if 0xE0 <= first < 0xF0 {
        if input.len() < 3 {
            EncodeCharStatus::InsufficientInputBytes { input_read: input.len() as usize }
        } else {
            EncodeCharStatus::EncodedChar {
                encoded_char: ((first % 0x10) * 0x1000 + (input[1] % 0x40) * 0x40 + input[2]
                    % 0x40) as u16,
                input_read: 3,
            }
        }
    } else {
        if input.len() < 4 {
            EncodeCharStatus::InsufficientInputBytes { input_read: input.len() as usize }
        } else {
            EncodeCharStatus::SurrogatePair { input_read: 4 }
        }
    }
}

proof fn lemma_utf8_bits(a: u8, b: u8, c: u8)
    ensures
        (a & 0x80 == 0) == (a < 0x80),
        (a & 0xE0 == 0xC0) == (0xC0 <= a < 0xE0),
        (a & 0xF0 == 0xE0) == (0xE0 <= a < 0xF0),
        ((a & 0x1F) as u16) << 6 | ((b & 0x3F) as u16) == (a % 0x20) * 0x40 + b % 0x40,
        0xE0 <= a < 0xF0 ==> ((a & 0x1F) as u16) << 12 | ((b & 0x3F) as u16) << 6 | ((c
            & 0x3F) as u16) == (a % 0x10) * 0x1000 + (b % 0x40) * 0x40 + c % 0x40,
{
    assert((a & 0x80 == 0) == (a < 0x80) && (a & 0xE0 == 0xC0) == (0xC0 <= a < 0xE0) && (a & 0xF0
        == 0xE0) == (0xE0 <= a < 0xF0) && ((a & 0x1F) as u16) << 6 | ((b & 0x3F) as u16) == (a
        % 0x20) * 0x40 + b % 0x40 && (0xE0 <= a < 0xF0 ==> ((a & 0x1F) as u16) << 12 | ((b
        & 0x3F) as u16) << 6 | ((c & 0x3F) as u16) == (a % 0x10) * 0x1000 + (b % 0x40) * 0x40 + c
        % 0x40)) by (bit_vector);
}

/// What the character that starts `input` comes to: see `first_char`.
pub fn char_utf8_to_utf16(input: &[u8]) -> (r: EncodeCharStatus)
    requires
        input@.len() > 0,
    ensures
        r == first_char(input@),
        1 <= r.consumed() <= input@.len(),
{
    let first_byte = input[0];
    proof {
        lemma_utf8_bits(first_byte, 0, 0);
    }
    if first_byte & 0b1000_0000 == 0 {
        return EncodeCharStatus::EncodedChar { encoded_char: first_byte as u16, input_read: 1 };
    } else if first_byte & 0b1110_0000 == 0b1100_0000 {
        if input.len() < 2 {
            return EncodeCharStatus::InsufficientInputBytes { input_read: 1 };
        }
        let second_byte = input[1];
        proof {
            lemma_utf8_bits(first_byte, second_byte, 0);
        }
        let out_char = ((first_byte & 0b0001_1111) as u16) << 6 | ((second_byte
            & 0b0011_1111) as u16);
        return EncodeCharStatus::EncodedChar { encoded_char: out_char, input_read: 2 };
    } else if first_byte & 0b1111_0000 == 0b1110_0000 {
        if input.len() < 3 {
            return EncodeCharStatus::InsufficientInputBytes { input_read: input.len() };
        }
        let second_byte = input[1];
        let third_byte = input[2];
        proof {
            lemma_utf8_bits(first_byte, second_byte, third_byte);
        }
        let out_char = ((first_byte & 0b0001_1111) as u16) << 12 | ((second_byte
            & 0b0011_1111) as u16) << 6 | ((third_byte & 0b0011_1111) as u16);
        return EncodeCharStatus::EncodedChar { encoded_char: out_char, input_read: 3 };
    } else {
        if input.len() < 4 {
            return EncodeCharStatus::InsufficientInputBytes { input_read: input.len() };
        }
        return EncodeCharStatus::SurrogatePair { input_read: 4 };
    }
}

/// The code units of the characters of `input` from byte `from` on, as
/// many as fit in `room` code units.
pub open spec fn encoded(input: Seq<u8>, from: int, room: int) -> Seq<u16>
    decreases input.len() - from,
{
    if from >= input.len() || room <= 0 || from < 0 {
        Seq::empty()
    } else {
        let status = first_char(input.subrange(from, input.len() as int));
        seq![status.unit()] + encoded(input, from + status.consumed(), room - 1)
    }
}

/// The bytes of `input` that those characters take.
pub open spec fn consumed(input: Seq<u8>, from: int, room: int) -> int
    decreases input.len() - from,
{
    if from >= input.len() || room <= 0 || from < 0 {
        from
    } else {
        let status = first_char(input.subrange(from, input.len() as int));
        consumed(input, from + status.consumed(), room - 1)
    }
}

/// Writes the code units of `input` to `buffer`, one for each character,
/// as far as the buffer has room for them and a closing zero, and writes
/// the zero behind them. The rest of the buffer is left as it was.
pub fn str_utf8_to_utf16(input: &str, buffer: &mut [u16]) -> (r: EncodeStatus)
    requires
        old(buffer)@.len() > 0,
    ensures
        final(buffer)@.len() == old(buffer)@.len(),
        r.output_written == encoded(input.spec_bytes(), 0, old(buffer)@.len() - 1).len(),
        r.output_written < old(buffer)@.len(),
        final(buffer)@.subrange(0, r.output_written as int) == encoded(
            input.spec_bytes(),
            0,
            old(buffer)@.len() - 1,
        ),
        final(buffer)@[r.output_written as int] == 0,
        forall|k: int|
            r.output_written < k < old(buffer)@.len() ==> final(buffer)@[k] == old(buffer)@[k],
        r.input_read == consumed(input.spec_bytes(), 0, old(buffer)@.len() - 1),
{
    let input_bytes = input.as_bytes();
    let input_len = input_bytes.len();
    let mut current_pos: usize = 0;
    let buffer_max_pos = buffer.len() - 1;
    let mut buffer_pos: usize = 0;
    let ghost bytes = input.spec_bytes();
    let ghost room = buffer_max_pos as int;
    while current_pos < input_len && buffer_pos < buffer_max_pos
        invariant
            bytes == input_bytes@,
            input_len == bytes.len(),
            buffer@.len() == old(buffer)@.len(),
            buffer_max_pos == buffer@.len() - 1,
            room == buffer_max_pos,
            buffer_pos <= buffer_max_pos,
            current_pos <= input_len + 3,
            encoded(bytes, 0, room) == buffer@.subrange(0, buffer_pos as int) + encoded(
                bytes,
                current_pos as int,
                room - buffer_pos,
            ),
            consumed(bytes, 0, room) == consumed(bytes, current_pos as int, room - buffer_pos),
            forall|k: int| buffer_pos <= k < buffer@.len() ==> buffer@[k] == old(buffer)@[k],
        decreases input_len + 3 - current_pos,
    {
        let ghost written = buffer@.subrange(0, buffer_pos as int);
        let status = char_utf8_to_utf16(&input_bytes[current_pos..input_len]);
        match status {
            EncodeCharStatus::EncodedChar { encoded_char, input_read } => {
                buffer[buffer_pos] = encoded_char;
                buffer_pos += 1;
                current_pos += input_read;
            },
            EncodeCharStatus::InsufficientInputBytes { input_read } => {
                buffer[buffer_pos] = UNREADABLE_CHAR_REPLACEMENT;
                buffer_pos += 1;
                current_pos += input_read;
            },
            EncodeCharStatus::SurrogatePair { input_read } => {
                buffer[buffer_pos] = UNREADABLE_CHAR_REPLACEMENT;
                buffer_pos += 1;
                current_pos += input_read;
            },
        }
        proof {
            assert(buffer@.subrange(0, buffer_pos as int) =~= written.push(status.unit()));
            assert(written.push(status.unit()) + encoded(
                bytes,
                current_pos as int,
                room - buffer_pos,
            ) =~= written + (seq![status.unit()] + encoded(
                bytes,
                current_pos as int,
                room - buffer_pos,
            )));
        }
    }
    buffer[buffer_pos] = 0;
    proof {
        assert(encoded(bytes, current_pos as int, room - buffer_pos) =~= Seq::<u16>::empty());
        assert(buffer@.subrange(0, buffer_pos as int) =~= encoded(bytes, 0, room));
    }
    EncodeStatus { input_read: current_pos, output_written: buffer_pos }
}

} // verus!
