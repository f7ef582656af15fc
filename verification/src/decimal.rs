use vstd::prelude::*;

verus! {

/// Whether `byte` is one of the ten ASCII decimal digits.
pub open spec fn is_digit(byte: u8) -> bool {
    0x30 <= byte <= 0x39
}

/// Whether `text` holds decimal digits only.
pub open spec fn all_digits(text: Seq<u8>) -> bool {
    forall|i: int| 0 <= i < text.len() ==> is_digit(#[trigger] text[i])
}

/// The number that a string of decimal digits denotes; the empty string
/// denotes zero.
pub open spec fn digits_value(text: Seq<u8>) -> nat
    decreases text.len(),
{
    if text.len() == 0 {
        0
    } else {
        (digits_value(text.drop_last()) * 10 + (text.last() - 0x30)) as nat
    }
}

/// The smaller of two numbers.
pub open spec fn at_most(value: nat, cap: nat) -> nat {
    if value <= cap {
        value
    } else {
        cap
    }
}

/// Reads `text[start..end]` as a decimal number. `None` where that range is
/// empty or holds anything but digits; else the number it denotes, or
/// `cap + 1` where the number exceeds `cap`.
pub fn read_digits(text: &[u8], start: usize, end: usize, cap: u32) -> (number: Option<u32>)
    requires
        start <= end <= text.len(),
        cap <= 0x0fff_ffff,
    ensures
        number is Some <==> start < end && all_digits(text@.subrange(start as int, end as int)),
        number is Some ==> number->0 == at_most(
            digits_value(text@.subrange(start as int, end as int)),
            cap as nat + 1,
        ),
{
    if start == end {
        return None;
    }
    let mut value: u32 = 0;
    let mut i: usize = start;
    assert(text@.subrange(start as int, start as int) =~= Seq::<u8>::empty());
    while i < end
        invariant
            start <= i <= end <= text.len(),
            cap <= 0x0fff_ffff,
            all_digits(text@.subrange(start as int, i as int)),
            value == at_most(digits_value(text@.subrange(start as int, i as int)), cap as nat + 1),
        decreases end - i,
    {
        let byte: u8 = text[i];
        let ghost before = text@.subrange(start as int, i as int);
        let ghost after = text@.subrange(start as int, i + 1);
        proof {
            assert(after.drop_last() =~= before);
            assert(after.last() == byte);
        }
        if byte < 0x30 || byte > 0x39 {
            proof {
                let whole = text@.subrange(start as int, end as int);
                assert(whole[i - start] == byte);
            }
            return None;
        }
        assert forall|j: int| 0 <= j < after.len() implies is_digit(#[trigger] after[j]) by {
            if j < before.len() {
                assert(after[j] == before[j]);
            }
        }
        let next: u32 = value * 10 + (byte - 0x30) as u32;
        value = if next > cap { cap + 1 } else { next };
        i += 1;
    }
    Some(value)
}

} // verus!
