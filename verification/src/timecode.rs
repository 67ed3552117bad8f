//! Reading `MM:SS` time codes.
//!
//! A time code is a run of fields separated by `:`. The first field counts
//! minutes and the second counts seconds; further fields are ignored. A field
//! that is not a plain decimal number that fits in 32 bits counts as zero, and
//! so does a field that is absent.

use vstd::prelude::*;
use vstd::string::StringSliceAdditionalSpecFns;

verus! {

/// The separator between the fields of a time code.
pub const FIELD_SEPARATOR: u8 = 0x3a;

/// Whether `b` is an ASCII decimal digit.
pub open spec fn is_digit(b: u8) -> bool {
    0x30 <= b <= 0x39
}

/// Whether every byte of `s` is a decimal digit.
pub open spec fn all_digits(s: Seq<u8>) -> bool {
    forall|i: int| 0 <= i < s.len() ==> is_digit(#[trigger] s[i])
}

/// The number that the digits of `s` spell in base ten.
pub open spec fn digits_value(s: Seq<u8>) -> nat
    decreases s.len(),
{
    if s.len() == 0 {
        0
    } else {
        (digits_value(s.drop_last()) * 10 + (s.last() - 0x30)) as nat
    }
}

/// The value of one field: its number when it is a non-empty run of digits
/// that fits in 32 bits, zero otherwise.
pub open spec fn field_value(s: Seq<u8>) -> nat {
    if s.len() > 0 && all_digits(s) && digits_value(s) <= u32::MAX {
        digits_value(s)
    } else {
        0
    }
}

/// The end of the field that starts at `from`: the position of the first
/// separator at or after `from`, or the length of `s` when there is none.
pub open spec fn field_end(s: Seq<u8>, from: int) -> int
    decreases s.len() - from,
{
    if from >= s.len() {
        s.len() as int
    } else if s[from] == FIELD_SEPARATOR {
        from
    } else {
        field_end(s, from + 1)
    }
}

/// The seconds that the time code `s` denotes.
pub open spec fn time_code_seconds(s: Seq<u8>) -> nat {
    let first_end = field_end(s, 0);
    let minutes = field_value(s.subrange(0, first_end));
    let seconds = if first_end < s.len() {
        field_value(s.subrange(first_end + 1, field_end(s, first_end + 1)))
    } else {
        0
    };
    minutes * 60 + seconds
}

/// A longer run of digits never spells a smaller number than its prefix.
pub proof fn lemma_digits_value_grows(s: Seq<u8>, k: int)
    requires
        all_digits(s),
        0 <= k <= s.len(),
    ensures
        digits_value(s.subrange(0, k)) <= digits_value(s),
    decreases s.len(),
{
    if k == s.len() {
        assert(s.subrange(0, k) =~= s);
    } else {
        assert(s.drop_last().subrange(0, k) =~= s.subrange(0, k));
        assert(is_digit(s[s.len() - 1]));
        lemma_digits_value_grows(s.drop_last(), k);
    }
}

/// Finds where the field starting at `from` ends.
pub fn find_field_end(bytes: &[u8], from: usize) -> (end: usize)
    requires
        from <= bytes@.len(),
    ensures
        end == field_end(bytes@, from as int),
        from <= end <= bytes@.len(),
{
    let mut i: usize = from;
    while i < bytes.len() && bytes[i] != FIELD_SEPARATOR
        invariant
            from <= i <= bytes@.len(),
            field_end(bytes@, from as int) == field_end(bytes@, i as int),
        decreases bytes@.len() - i,
    {
        i += 1;
    }
    i
}

/// Reads the field `bytes[from..to]`.
pub fn parse_field(bytes: &[u8], from: usize, to: usize) -> (value: u32)
    requires
        from <= to <= bytes@.len(),
    ensures
        value == field_value(bytes@.subrange(from as int, to as int)),
{
    let ghost field = bytes@.subrange(from as int, to as int);
    if from == to {
        return 0;
    }
    let mut acc: u64 = 0;
    let mut i: usize = from;
    while i < to
        invariant
            from <= i <= to <= bytes@.len(),
            field == bytes@.subrange(from as int, to as int),
            all_digits(field.subrange(0, i - from)),
            acc == digits_value(field.subrange(0, i - from)),
            acc <= u32::MAX,
        decreases to - i,
    {
        let b: u8 = bytes[i];
        if b < 0x30 || b > 0x39 {
            assert(!is_digit(field[i - from]));
            return 0;
        }
        proof {
            let next = field.subrange(0, i - from + 1);
            assert(next.drop_last() =~= field.subrange(0, i - from));
            assert(next.last() == b);
            assert forall|j: int| 0 <= j < next.len() implies is_digit(#[trigger] next[j]) by {
                if j < i - from {
                    assert(field.subrange(0, i - from)[j] == next[j]);
                }
            }
        }
        acc = acc * 10 + (b - 0x30) as u64;
        if acc > 0xffff_ffff {
            proof {
                if all_digits(field) {
                    lemma_digits_value_grows(field, i - from + 1);
                }
            }
            return 0;
        }
        i += 1;
    }
    assert(field.subrange(0, to - from) =~= field);
    acc as u32
}

/// Reads a time code given as bytes and returns its seconds.
pub fn parse_time_code(bytes: &[u8]) -> (seconds: u64)
    ensures
        seconds == time_code_seconds(bytes@),
{
    let first_end: usize = find_field_end(bytes, 0);
    let minutes: u32 = parse_field(bytes, 0, first_end);
    let seconds: u32 = if first_end < bytes.len() {
        let second_end: usize = find_field_end(bytes, first_end + 1);
        parse_field(bytes, first_end + 1, second_end)
    } else {
        0
    };
    minutes as u64 * 60 + seconds as u64
}

/// Reads a time code such as `"1:30"` and returns its seconds. Fields that
/// cannot be read count as zero, so every string has a value.
pub fn parse_time_to_seconds(time_str: &str) -> (seconds: u64)
    ensures
        seconds == time_code_seconds(time_str.spec_bytes()),
{
    parse_time_code(time_str.as_bytes())
}

} // verus!
