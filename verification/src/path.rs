use vstd::prelude::*;

verus! {

/// Whether `byte` starts the query string (`?`) or the fragment (`#`) of a
/// request target.
pub open spec fn is_delimiter(byte: u8) -> bool {
    byte == 0x3f || byte == 0x23
}

/// The length of the longest prefix of `target` that holds no delimiter.
pub open spec fn path_len(target: Seq<u8>) -> nat
    decreases target.len(),
{
    if target.len() == 0 || is_delimiter(target[0]) {
        0
    } else {
        1 + path_len(target.drop_first())
    }
}

/// The path `/`, for which an empty path stands.
pub open spec fn root_path() -> Seq<u8> {
    seq![0x2fu8]
}

/// The normalized form of a request target: what precedes its query string
/// and fragment, or `/` where nothing does.
pub open spec fn normalized(target: Seq<u8>) -> Seq<u8> {
    if path_len(target) == 0 {
        root_path()
    } else {
        target.subrange(0, path_len(target) as int)
    }
}

/// `path_len` is the one index that follows a delimiter-free prefix and is
/// either the end of the target or the place of a delimiter.
pub proof fn lemma_path_len_unique(target: Seq<u8>, k: int)
    requires
        0 <= k <= target.len(),
        forall|i: int| 0 <= i < k ==> !is_delimiter(#[trigger] target[i]),
        k < target.len() ==> is_delimiter(target[k]),
    ensures
        path_len(target) == k,
    decreases target.len(),
{
    if target.len() == 0 || is_delimiter(target[0]) {
        if k > 0 {
            assert(!is_delimiter(target[0]));
        }
    } else {
        let rest = target.drop_first();
        assert forall|i: int| 0 <= i < k - 1 implies !is_delimiter(#[trigger] rest[i]) by {
            assert(rest[i] == target[i + 1]);
        }
        lemma_path_len_unique(rest, k - 1);
    }
}

/// What `path_len` is: it lies within the target, no delimiter stands before
/// it, and one stands at it unless it is the end.
pub proof fn lemma_path_len_bounds(target: Seq<u8>)
    ensures
        path_len(target) <= target.len(),
        forall|i: int| 0 <= i < path_len(target) ==> !is_delimiter(#[trigger] target[i]),
        path_len(target) < target.len() ==> is_delimiter(target[path_len(target) as int]),
    decreases target.len(),
{
    if target.len() == 0 || is_delimiter(target[0]) {
    } else {
        let rest = target.drop_first();
        lemma_path_len_bounds(rest);
        assert forall|i: int| 0 <= i < path_len(target) implies !is_delimiter(
            #[trigger] target[i],
        ) by {
            if i > 0 {
                assert(target[i] == rest[i - 1]);
            }
        }
    }
}

/// A normalized path is never empty and holds no delimiter.
pub proof fn lemma_normalized_clean(target: Seq<u8>)
    ensures
        normalized(target).len() > 0,
        forall|i: int| 0 <= i < normalized(target).len() ==> !is_delimiter(
            #[trigger] normalized(target)[i],
        ),
{
    lemma_path_len_bounds(target);
}

/// Normalizing twice gives what normalizing once gives.
pub proof fn lemma_normalized_idempotent(target: Seq<u8>)
    ensures
        normalized(normalized(target)) == normalized(target),
{
    lemma_normalized_clean(target);
    let once = normalized(target);
    lemma_path_len_unique(once, once.len() as int);
    assert(once.subrange(0, once.len() as int) =~= once);
}

/// The number of leading bytes of `target` that make up its path.
pub fn path_length(target: &[u8]) -> (len: usize)
    ensures
        len == path_len(target@),
        len <= target.len(),
{
    let mut i: usize = 0;
    while i < target.len() && target[i] != 0x3f && target[i] != 0x23
        invariant
            i <= target.len(),
            forall|j: int| 0 <= j < i ==> !is_delimiter(#[trigger] target@[j]),
        decreases target.len() - i,
    {
        i += 1;
    }
    proof {
        lemma_path_len_unique(target@, i as int);
    }
    i
}

/// Normalizes a request target: cuts it before its query string and
/// fragment, and takes `/` for an empty path.
pub fn normalize(target: &[u8]) -> (path: Vec<u8>)
    ensures
        path@ == normalized(target@),
{
    let len = path_length(target);
    let mut path: Vec<u8> = Vec::new();
    if len == 0 {
        path.push(0x2fu8);
        assert(path@ =~= root_path());
    } else {
        let mut i: usize = 0;
        while i < len
            invariant
                i <= len <= target.len(),
                path@ == target@.subrange(0, i as int),
            decreases len - i,
        {
            path.push(target[i]);
            assert(path@ =~= target@.subrange(0, i + 1));
            i += 1;
        }
    }
    path
}

} // verus!
