use vstd::prelude::*;

verus! {

/// Whether `byte` is an ASCII hexadecimal digit, in either case.
pub open spec fn is_hex(byte: u8) -> bool {
    0x30 <= byte <= 0x39 || 0x41 <= byte <= 0x46 || 0x61 <= byte <= 0x66
}

/// The number from 0 to 15 that a hexadecimal digit denotes.
pub open spec fn hex_digit(byte: u8) -> nat {
    if 0x30 <= byte <= 0x39 {
        (byte - 0x30) as nat
    } else if 0x41 <= byte <= 0x46 {
        (byte - 0x41 + 10) as nat
    } else {
        (byte - 0x61 + 10) as nat
    }
}

/// Whether `text` holds hexadecimal digits only.
pub open spec fn all_hex(text: Seq<u8>) -> bool {
    forall|i: int| 0 <= i < text.len() ==> is_hex(#[trigger] text[i])
}

/// The number that a string of hexadecimal digits denotes; the empty string
/// denotes zero.
pub open spec fn hex_value(text: Seq<u8>) -> nat
    decreases text.len(),
{
    if text.len() == 0 {
        0
    } else {
        hex_value(text.drop_last()) * 16 + hex_digit(text.last())
    }
}

/// The 16-bit group that `field` denotes: one to four hexadecimal digits.
pub open spec fn group_of(field: Seq<u8>) -> Option<u16> {
    if 1 <= field.len() <= 4 && all_hex(field) {
        Some(hex_value(field) as u16)
    } else {
        None
    }
}

/// One more than the largest number of `digits` hexadecimal digits, for up
/// to four of them.
pub open spec fn hex_limit(digits: int) -> nat {
    if digits <= 0 {
        1
    } else if digits == 1 {
        0x10
    } else if digits == 2 {
        0x100
    } else if digits == 3 {
        0x1000
    } else {
        0x10000
    }
}

/// The number that one hexadecimal digit denotes, if `byte` is one.
pub fn read_hex_digit(byte: u8) -> (digit: Option<u8>)
    ensures
        digit is Some <==> is_hex(byte),
        digit is Some ==> digit->0 == hex_digit(byte),
{
    if 0x30 <= byte && byte <= 0x39 {
        Some(byte - 0x30)
    } else if 0x41 <= byte && byte <= 0x46 {
        Some(byte - 0x41 + 10)
    } else if 0x61 <= byte && byte <= 0x66 {
        Some(byte - 0x61 + 10)
    } else {
        None
    }
}

/// Reads a field of one to four hexadecimal digits as a 16-bit group.
pub fn read_group(field: &[u8]) -> (group: Option<u16>)
    ensures
        group == group_of(field@),
        group is Some ==> hex_value(field@) <= 0xffff,
{
    let len = field.len();
    if len == 0 || len > 4 {
        return None;
    }
    let mut value: u32 = 0;
    let mut i: usize = 0;
    assert(field@.subrange(0, 0) =~= Seq::<u8>::empty());
    while i < len
        invariant
            i <= len <= 4,
            len == field.len(),
            all_hex(field@.subrange(0, i as int)),
            value == hex_value(field@.subrange(0, i as int)),
            value < hex_limit(i as int),
        decreases len - i,
    {
        let ghost before = field@.subrange(0, i as int);
        let ghost after = field@.subrange(0, i + 1);
        proof {
            assert(after.drop_last() =~= before);
            assert(after.last() == field@[i as int]);
        }
        match read_hex_digit(field[i]) {
            None => {
                return None;
            },
            Some(digit) => {
                assert forall|j: int| 0 <= j < after.len() implies is_hex(#[trigger] after[j]) by {
                    if j < before.len() {
                        assert(after[j] == before[j]);
                    }
                }
                value = value * 16 + digit as u32;
                i += 1;
            },
        }
    }
    assert(field@.subrange(0, len as int) =~= field@);
    Some(value as u16)
}

} // verus!
