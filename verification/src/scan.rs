use vstd::prelude::*;

verus! {

/// The first place at or after `start` where `text` holds `mark`, or the
/// end of `text` where it holds none there (`start` itself where `start`
/// lies beyond the end).
pub open spec fn find_from(text: Seq<u8>, start: nat, mark: u8) -> nat
    decreases text.len() - start,
{
    if start >= text.len() || text[start as int] == mark {
        start
    } else {
        find_from(text, start + 1, mark)
    }
}

/// The first place at or after `start` where `text` holds `mark`, or the
/// length of `text`.
pub fn find_byte(text: &[u8], start: usize, mark: u8) -> (place: usize)
    requires
        start <= text.len(),
    ensures
        place == find_from(text@, start as nat, mark),
        start <= place <= text.len(),
        forall|i: int| start <= i < place ==> text@[i] != mark,
        place < text.len() ==> text@[place as int] == mark,
{
    let mut i: usize = start;
    while i < text.len() && text[i] != mark
        invariant
            start <= i <= text.len(),
            find_from(text@, start as nat, mark) == find_from(text@, i as nat, mark),
            forall|j: int| start <= j < i ==> text@[j] != mark,
        decreases text.len() - i,
    {
        i += 1;
    }
    i
}

} // verus!
