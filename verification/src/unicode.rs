//! UTF-8 to UCS-2 re-encoding for firmware console strings.
//!
//! The firmware text console takes null-terminated UCS-2; this encoder
//! walks a UTF-8 string byte by byte, emits one 16-bit character per
//! encoded code point, and substitutes a replacement glyph for anything
//! it cannot carry: truncated sequences and four-byte code points, which
//! would need a surrogate pair.

use vstd::prelude::*;
use vstd::string::StringSliceAdditionalSpecFns;

verus! {

pub const UNREADABLE_CHAR_REPLACEMENT: u16 = 0x2588;

/// How many input bytes one encoding step consumes at `pos`: the length
/// the lead byte announces, cut short when the input ends first.
pub open spec fn spec_step_read(s: Seq<u8>, pos: int) -> int {
    let b = s[pos];
    if b & 0x80 == 0 {
        1
    } else if b & 0xE0 == 0xC0 {
        if pos + 1 >= s.len() {
            1
        } else {
            2
        }
    } else if b & 0xF0 == 0xE0 {
        if pos + 1 >= s.len() {
            1
        } else if pos + 2 >= s.len() {
            2
        } else {
            3
        }
    } else {
        if pos + 1 >= s.len() {
            1
        } else if pos + 2 >= s.len() {
            2
        } else if pos + 3 >= s.len() {
            3
        } else {
            4
        }
    }
}

/// The 16-bit character one step at `pos` encodes, or `None` where only
/// the replacement glyph can be emitted: a sequence cut short by the end
/// of the input, or a four-byte sequence.
pub open spec fn spec_step_char(s: Seq<u8>, pos: int) -> Option<u16> {
    let b = s[pos];
    if b & 0x80 == 0 {
        Option::Some(b as u16)
    } else if b & 0xE0 == 0xC0 {
        if pos + 1 >= s.len() {
            Option::<u16>::None
        } else {
            Option::Some((((b & 0x1F) as u16) << 6) | ((s[pos + 1] & 0x3F) as u16))
        }
    } else if b & 0xF0 == 0xE0 {
        if pos + 2 >= s.len() {
            Option::<u16>::None
        } else {
            Option::Some(
                (((b & 0x1F) as u16) << 12) | (((s[pos + 1] & 0x3F) as u16) << 6) | ((s[pos + 2]
                    & 0x3F) as u16),
            )
        }
    } else {
        Option::<u16>::None
    }
}

/// What one step at `pos` writes to the output: the encoded character,
/// or the replacement glyph.
pub open spec fn spec_step_out(s: Seq<u8>, pos: int) -> u16 {
    match spec_step_char(s, pos) {
        Option::Some(c) => c,
        Option::None => UNREADABLE_CHAR_REPLACEMENT,
    }
}

/// The output characters the encoder emits from `pos` with `room`
/// output slots left.
pub open spec fn spec_encode_out(s: Seq<u8>, pos: int, room: int) -> Seq<u16>
    decreases s.len() - pos,
{
    if pos < 0 || pos >= s.len() || room <= 0 {
        Seq::<u16>::empty()
    } else {
        seq![spec_step_out(s, pos)] + spec_encode_out(s, pos + spec_step_read(s, pos), room - 1)
    }
}

/// The input position the encoder stops at, starting at `pos` with
/// `room` output slots left.
pub open spec fn spec_encode_end(s: Seq<u8>, pos: int, room: int) -> int
    decreases s.len() - pos,
{
    if pos < 0 || pos >= s.len() || room <= 0 {
        pos
    } else {
        spec_encode_end(s, pos + spec_step_read(s, pos), room - 1)
    }
}

/// What one whole encoding run did: how much input it read and how many
/// output characters it wrote.
pub struct EncodeStatus {
    pub input_read: usize,
    pub output_written: usize,
}

/// What one encoding step did.
enum EncodeCharStatus {
    EncodedChar { encoded_char: u16, input_read: usize },
    SurrogatePair { input_read: usize },
    InsufficientInputBytes { input_read: usize },
}

/// Reads one UTF-8 sequence from `input` at `start_pos` and encodes it
/// as a single UCS-2 character where one exists.
fn encode_u8_char_as_ucs2(input: &[u8], start_pos: usize) -> (r: EncodeCharStatus)
    requires
        start_pos < input@.len(),
    ensures
        match r {
            EncodeCharStatus::EncodedChar { encoded_char, input_read } => {
                &&& spec_step_char(input@, start_pos as int) == Option::Some(encoded_char)
                &&& input_read == spec_step_read(input@, start_pos as int)
            },
            EncodeCharStatus::SurrogatePair { input_read } => {
                &&& spec_step_char(input@, start_pos as int) is None
                &&& input_read == 4
                &&& input_read == spec_step_read(input@, start_pos as int)
            },
            EncodeCharStatus::InsufficientInputBytes { input_read } => {
                &&& spec_step_char(input@, start_pos as int) is None
                &&& input_read == spec_step_read(input@, start_pos as int)
            },
        },
        1 <= spec_step_read(input@, start_pos as int) <= 4,
        start_pos + spec_step_read(input@, start_pos as int) <= input@.len(),
{
    let first_byte = input[start_pos];

    if first_byte & 0x80 == 0 {
        // Single-byte characters convert directly.
        EncodeCharStatus::EncodedChar { encoded_char: first_byte as u16, input_read: 1 }
    } else if first_byte & 0xE0 == 0xC0 {
        // Two-byte characters carry five and six payload bits.
        if start_pos + 1 >= input.len() {
            return EncodeCharStatus::InsufficientInputBytes { input_read: 1 };
        }
        let second_byte = input[start_pos + 1];

        let out_char: u16 = (((first_byte & 0x1F) as u16) << 6u16) | ((second_byte & 0x3F) as u16);
        EncodeCharStatus::EncodedChar { encoded_char: out_char, input_read: 2 }
    } else if first_byte & 0xF0 == 0xE0 {
        if start_pos + 1 >= input.len() {
            return EncodeCharStatus::InsufficientInputBytes { input_read: 1 };
        }
        if start_pos + 2 >= input.len() {
            return EncodeCharStatus::InsufficientInputBytes { input_read: 2 };
        }
        let second_byte = input[start_pos + 1];
        let third_byte = input[start_pos + 2];

        let out_char: u16 = (((first_byte & 0x1F) as u16) << 12u16) | (((second_byte
            & 0x3F) as u16) << 6u16) | ((third_byte & 0x3F) as u16);
        EncodeCharStatus::EncodedChar { encoded_char: out_char, input_read: 3 }
    } else {
        if start_pos + 1 >= input.len() {
            return EncodeCharStatus::InsufficientInputBytes { input_read: 1 };
        }
        if start_pos + 2 >= input.len() {
            return EncodeCharStatus::InsufficientInputBytes { input_read: 2 };
        }
        if start_pos + 3 >= input.len() {
            return EncodeCharStatus::InsufficientInputBytes { input_read: 3 };
        }
        // A four-byte sequence would need a surrogate pair, which UCS-2
        // cannot carry.
        EncodeCharStatus::SurrogatePair { input_read: 4 }
    }
}

/// Encodes `input` from `start_pos` into `buffer` as UCS-2, leaving the
/// last slot for the null terminator, and reports the input position
/// reached and the number of characters written.
pub fn encode_str_as_ucs2(input: &str, start_pos: usize, buffer: &mut Vec<u16>) -> (r: EncodeStatus)
    requires
        old(buffer).len() >= 1,
    ensures
        final(buffer).len() == old(buffer).len(),
        ({
            let s = input.spec_bytes();
            let out = spec_encode_out(s, start_pos as int, old(buffer).len() - 1);
            &&& r.output_written == out.len()
            &&& r.input_read == spec_encode_end(s, start_pos as int, old(buffer).len() - 1)
            &&& forall|i: int| 0 <= i < out.len() ==> final(buffer)@[i] == out[i]
            &&& final(buffer)@[out.len() as int] == 0u16
            &&& forall|i: int|
                out.len() < i < old(buffer).len() ==> final(buffer)@[i] == old(buffer)@[i]
        }),
{
    let input_bytes = input.as_bytes();
    let ghost s = input_bytes@;
    let input_len = input_bytes.len();
    let mut current_pos: usize = start_pos;
    let buffer_max_pos = buffer.len() - 1;  // Last character must be a null
    let mut buffer_pos: usize = 0;

    while current_pos < input_len && buffer_pos < buffer_max_pos
        invariant
            buffer.len() == old(buffer).len(),
            buffer_max_pos == old(buffer).len() - 1,
            input_len == s.len(),
            s == input.spec_bytes(),
            input_bytes@ == s,
            buffer_pos <= buffer_max_pos,
            start_pos <= current_pos,
            spec_encode_out(s, start_pos as int, buffer_max_pos as int) =~= buffer@.subrange(
                0,
                buffer_pos as int,
            ) + spec_encode_out(s, current_pos as int, buffer_max_pos - buffer_pos),
            spec_encode_end(s, start_pos as int, buffer_max_pos as int) == spec_encode_end(
                s,
                current_pos as int,
                buffer_max_pos - buffer_pos,
            ),
            forall|i: int|
                buffer_pos <= i < old(buffer).len() ==> buffer@[i] == old(buffer)@[i],
        decreases input_len - current_pos,
    {
        let ghost room = buffer_max_pos - buffer_pos;
        let step = encode_u8_char_as_ucs2(input_bytes, current_pos);
        let ghost read = spec_step_read(s, current_pos as int);
        proof {
            assert(spec_encode_out(s, current_pos as int, room as int) == seq![
                spec_step_out(s, current_pos as int),
            ] + spec_encode_out(s, current_pos + read, room - 1));
        }
        match step {
            EncodeCharStatus::EncodedChar { encoded_char, input_read } => {
                buffer[buffer_pos] = encoded_char;
                buffer_pos = buffer_pos + 1;
                current_pos = current_pos + input_read;
            },
            EncodeCharStatus::InsufficientInputBytes { input_read } => {
                buffer[buffer_pos] = UNREADABLE_CHAR_REPLACEMENT;
                buffer_pos = buffer_pos + 1;
                current_pos = current_pos + input_read;
            },
            EncodeCharStatus::SurrogatePair { input_read } => {
                buffer[buffer_pos] = UNREADABLE_CHAR_REPLACEMENT;
                buffer_pos = buffer_pos + 1;
                current_pos = current_pos + input_read;
            },
        }
        proof {
            assert(spec_encode_out(s, start_pos as int, buffer_max_pos as int) =~= buffer@.subrange(
                0,
                buffer_pos as int,
            ) + spec_encode_out(s, current_pos as int, buffer_max_pos - buffer_pos));
        }
    }

    proof {
        assert(spec_encode_out(s, current_pos as int, buffer_max_pos - buffer_pos)
            =~= Seq::<u16>::empty());
        assert(spec_encode_out(s, start_pos as int, buffer_max_pos as int) =~= buffer@.subrange(
            0,
            buffer_pos as int,
        ));
        assert(spec_encode_end(s, current_pos as int, buffer_max_pos - buffer_pos)
            == current_pos as int);
    }

    let ghost pre_null = buffer@;
    let null_pos = buffer_pos;
    buffer[null_pos] = 0;

    proof {
        let out = spec_encode_out(s, start_pos as int, old(buffer).len() - 1);
        assert(out.len() == buffer_pos);
        assert forall|i: int| 0 <= i < out.len() implies buffer@[i] == out[i] by {
            assert(buffer@[i] == pre_null[i]);
            assert(pre_null.subrange(0, buffer_pos as int)[i] == out[i]);
        }
    }
    EncodeStatus { input_read: current_pos, output_written: buffer_pos }
}

} // verus!
