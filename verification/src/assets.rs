use crate::path::{normalize, normalized, lemma_normalized_idempotent};
use vstd::prelude::*;
use vstd::string::StringSliceAdditionalSpecFns;
use vstd::utf8::encode_utf8;

verus! {

/// One static asset: its content and its MIME type.
pub struct AssetRecord {
    pub bytes: Vec<u8>,
    pub content_type: String,
}

/// What an asset record holds, as mathematical values.
pub ghost struct AssetModel {
    pub bytes: Seq<u8>,
    pub content_type: Seq<char>,
}

impl View for AssetRecord {
    type V = AssetModel;

    open spec fn view(&self) -> AssetModel {
        AssetModel { bytes: self.bytes@, content_type: self.content_type@ }
    }
}

impl AssetRecord {
    /// A record of the given content and MIME type.
    pub fn new(bytes: Vec<u8>, content_type: String) -> (record: AssetRecord)
        ensures
            record.bytes == bytes,
            record.content_type == content_type,
    {
        AssetRecord { bytes, content_type }
    }
}

/// A request as the resolver sees it. Only the target decides what answers
/// it: every method is answered alike.
pub struct IncomingRequest {
    pub path: String,
    pub method: String,
}

/// An asset under the path by which it is found.
struct Entry {
    path: Vec<u8>,
    record: AssetRecord,
}

/// The mapping that a list of entries stands for; of two entries under one
/// path the later one counts.
spec fn assets_of(entries: Seq<Entry>) -> Map<Seq<u8>, AssetModel>
    decreases entries.len(),
{
    if entries.len() == 0 {
        Map::empty()
    } else {
        assets_of(entries.drop_last()).insert(entries.last().path@, entries.last().record@)
    }
}

/// No two entries share a path.
spec fn distinct_paths(entries: Seq<Entry>) -> bool {
    forall|i: int, j: int|
        0 <= i < j < entries.len() ==> (#[trigger] entries[i]).path@ != (#[trigger] entries[j]).path@
}

/// Every entry stands under a normalized path.
spec fn normalized_paths(entries: Seq<Entry>) -> bool {
    forall|i: int| 0 <= i < entries.len() ==> normalized((#[trigger] entries[i]).path@) == entries[i].path@
}

/// Every key of `assets` is a normalized path.
pub open spec fn normalized_keys(assets: Map<Seq<u8>, AssetModel>) -> bool {
    forall|key: Seq<u8>| #[trigger] assets.contains_key(key) ==> normalized(key) == key
}

/// The asset that answers a request target: the one under the target's
/// normalized path where there is one, else the one under `index`.
pub open spec fn resolved(assets: Map<Seq<u8>, AssetModel>, index: Seq<u8>, target: Seq<u8>) -> AssetModel {
    if assets.contains_key(normalized(target)) {
        assets[normalized(target)]
    } else {
        assets[index]
    }
}

/// The keys of `assets_of(entries)` are the paths of the entries.
proof fn lemma_assets_keys(entries: Seq<Entry>, key: Seq<u8>)
    ensures
        assets_of(entries).contains_key(key) <==> exists|i: int|
            0 <= i < entries.len() && (#[trigger] entries[i]).path@ == key,
    decreases entries.len(),
{
    if entries.len() > 0 {
        let front = entries.drop_last();
        lemma_assets_keys(front, key);
        if assets_of(entries).contains_key(key) {
            if entries.last().path@ == key {
                assert(entries[entries.len() - 1].path@ == key);
            } else {
                let i = choose|i: int| 0 <= i < front.len() && (#[trigger] front[i]).path@ == key;
                assert(entries[i].path@ == key);
            }
        }
        if exists|i: int| 0 <= i < entries.len() && (#[trigger] entries[i]).path@ == key {
            let i = choose|i: int| 0 <= i < entries.len() && (#[trigger] entries[i]).path@ == key;
            if i < entries.len() - 1 {
                assert(front[i].path@ == key);
            }
        }
    }
}

/// Where no two entries share a path, each entry's path maps to its record.
proof fn lemma_assets_at(entries: Seq<Entry>, i: int)
    requires
        distinct_paths(entries),
        0 <= i < entries.len(),
    ensures
        assets_of(entries).contains_key(entries[i].path@),
        assets_of(entries)[entries[i].path@] == entries[i].record@,
    decreases entries.len(),
{
    if i < entries.len() - 1 {
        let front = entries.drop_last();
        assert(front[i] == entries[i]);
        assert(entries[i].path@ != entries[entries.len() - 1].path@);
        assert forall|a: int, b: int| 0 <= a < b < front.len() implies (#[trigger] front[a]).path@ != (
        #[trigger] front[b]).path@ by {
            assert(front[a] == entries[a] && front[b] == entries[b]);
        }
        lemma_assets_at(front, i);
    }
}

/// Replacing an entry by one under the same path is an insertion into the
/// mapping, and keeps the paths distinct.
proof fn lemma_assets_update(entries: Seq<Entry>, i: int, entry: Entry)
    requires
        distinct_paths(entries),
        0 <= i < entries.len(),
        entries[i].path@ == entry.path@,
    ensures
        distinct_paths(entries.update(i, entry)),
        assets_of(entries.update(i, entry)) == assets_of(entries).insert(entry.path@, entry.record@),
    decreases entries.len(),
{
    let after = entries.update(i, entry);
    assert forall|a: int, b: int| 0 <= a < b < after.len() implies (#[trigger] after[a]).path@ != (
    #[trigger] after[b]).path@ by {
        assert(after[a].path@ == entries[a].path@ && after[b].path@ == entries[b].path@);
    }
    let front = entries.drop_last();
    if i == entries.len() - 1 {
        assert(after.drop_last() =~= front);
        assert(assets_of(after) =~= assets_of(entries).insert(entry.path@, entry.record@));
    } else {
        assert forall|a: int, b: int| 0 <= a < b < front.len() implies (#[trigger] front[a]).path@ != (
        #[trigger] front[b]).path@ by {
            assert(front[a] == entries[a] && front[b] == entries[b]);
        }
        assert(front[i] == entries[i]);
        lemma_assets_update(front, i, entry);
        assert(after.drop_last() =~= front.update(i, entry));
        assert(after.last() == entries.last());
        assert(entries[i].path@ != entries[entries.len() - 1].path@);
        assert(assets_of(after) =~= assets_of(entries).insert(entry.path@, entry.record@));
    }
}

/// Appending an entry is an insertion into the mapping.
proof fn lemma_assets_push(entries: Seq<Entry>, entry: Entry)
    ensures
        assets_of(entries.push(entry)) == assets_of(entries).insert(entry.path@, entry.record@),
{
    assert(entries.push(entry).drop_last() =~= entries);
}

/// The keys of the mapping are normalized where the entries' paths are.
proof fn lemma_assets_normalized(entries: Seq<Entry>)
    requires
        normalized_paths(entries),
    ensures
        normalized_keys(assets_of(entries)),
{
    assert forall|key: Seq<u8>| #[trigger] assets_of(entries).contains_key(key) implies normalized(key)
        == key by {
        lemma_assets_keys(entries, key);
        let i = choose|i: int| 0 <= i < entries.len() && (#[trigger] entries[i]).path@ == key;
        assert(normalized(entries[i].path@) == entries[i].path@);
    }
}

/// Whether two byte strings are equal.
pub fn same_bytes(a: &[u8], b: &[u8]) -> (same: bool)
    ensures
        same == (a@ == b@),
{
    if a.len() != b.len() {
        return false;
    }
    let mut i: usize = 0;
    while i < a.len()
        invariant
            i <= a.len(),
            a.len() == b.len(),
            forall|j: int| 0 <= j < i ==> a@[j] == b@[j],
        decreases a.len() - i,
    {
        if a[i] != b[i] {
            return false;
        }
        i += 1;
    }
    assert(a@ =~= b@);
    true
}

/// The place of the entry under `path`, if there is one.
fn position(entries: &Vec<Entry>, path: &[u8]) -> (place: Option<usize>)
    ensures
        match place {
            Some(i) => i < entries.len() && entries[i as int].path@ == path@,
            None => !assets_of(entries@).contains_key(path@),
        },
{
    let mut i: usize = 0;
    while i < entries.len()
        invariant
            i <= entries.len(),
            forall|j: int| 0 <= j < i ==> (#[trigger] entries@[j]).path@ != path@,
        decreases entries.len() - i,
    {
        if same_bytes(entries[i].path.as_slice(), path) {
            return Some(i);
        }
        i += 1;
    }
    proof {
        lemma_assets_keys(entries@, path@);
    }
    None
}

/// The fixed set of assets that the server answers from, by normalized path,
/// one of them the index document that answers where no path matches.
pub struct AssetSet {
    entries: Vec<Entry>,
}

impl View for AssetSet {
    type V = Map<Seq<u8>, AssetModel>;

    closed spec fn view(&self) -> Map<Seq<u8>, AssetModel> {
        assets_of(self.entries@)
    }
}

impl AssetSet {
    /// What holds of every asset set: it has an index document, and each of
    /// its assets stands under a normalized path of its own.
    pub closed spec fn wf(&self) -> bool {
        &&& self.entries.len() > 0
        &&& distinct_paths(self.entries@)
        &&& normalized_paths(self.entries@)
    }

    /// The path of the index document.
    pub closed spec fn index_path(&self) -> Seq<u8> {
        self.entries@[0].path@
    }

    /// A set that holds the index document alone, under the normalized form
    /// of `index_path`.
    pub fn new(index_path: &str, index: AssetRecord) -> (set: AssetSet)
        ensures
            set.wf(),
            set.index_path() == normalized(index_path.spec_bytes()),
            set@ == Map::<Seq<u8>, AssetModel>::empty().insert(set.index_path(), index@),
    {
        let path = normalize(index_path.as_bytes());
        let entry = Entry { path, record: index };
        let mut entries: Vec<Entry> = Vec::new();
        entries.push(entry);
        proof {
            lemma_normalized_idempotent(index_path.spec_bytes());
            lemma_assets_push(Seq::<Entry>::empty(), entry);
            assert(entries@ =~= Seq::<Entry>::empty().push(entry));
        }
        AssetSet { entries }
    }

    /// Puts `record` under the normalized form of `path`, in place of what
    /// stood there. The index document stays where it is; a record put under
    /// its path becomes the index document.
    pub fn insert(&mut self, path: &str, record: AssetRecord)
        requires
            old(self).wf(),
        ensures
            final(self).wf(),
            final(self)@ == old(self)@.insert(normalized(path.spec_bytes()), record@),
            final(self).index_path() == old(self).index_path(),
    {
        proof {
            lemma_normalized_idempotent(path.spec_bytes());
        }
        let key = normalize(path.as_bytes());
        let place = position(&self.entries, key.as_slice());
        let entry = Entry { path: key, record };
        match place {
            Some(i) => {
                proof {
                    lemma_assets_update(self.entries@, i as int, entry);
                }
                self.entries.set(i, entry);
            },
            None => {
                proof {
                    lemma_assets_push(self.entries@, entry);
                    lemma_assets_keys(self.entries@, entry.path@);
                }
                self.entries.push(entry);
            },
        }
    }

    /// The number of assets.
    pub fn len(&self) -> (n: usize)
        requires
            self.wf(),
        ensures
            n == self@.len(),
            n > 0,
    {
        proof {
            lemma_assets_len(self.entries@);
        }
        self.entries.len()
    }

    /// The asset under exactly the path `path`, if there is one.
    pub fn get(&self, path: &[u8]) -> (found: Option<&AssetRecord>)
        requires
            self.wf(),
        ensures
            match found {
                Some(record) => self@.contains_key(path@) && record@ == self@[path@],
                None => !self@.contains_key(path@),
            },
    {
        proof {
        }
        match position(&self.entries, path) {
            Some(i) => {
                proof {
                    lemma_assets_at(self.entries@, i as int);
                }
                Some(&self.entries[i].record)
            },
            None => None,
        }
    }

    /// The index document.
    pub fn index(&self) -> (record: &AssetRecord)
        requires
            self.wf(),
        ensures
            self@.contains_key(self.index_path()),
            record@ == self@[self.index_path()],
    {
        proof {
            lemma_assets_at(self.entries@, 0);
        }
        &self.entries[0].record
    }

    /// The asset that answers the request target `target`: the one under its
    /// normalized path where there is one, else the index document. Every
    /// target has an answer.
    pub fn resolve_bytes(&self, target: &[u8]) -> (record: &AssetRecord)
        requires
            self.wf(),
        ensures
            record@ == resolved(self@, self.index_path(), target@),
            self@.contains_key(target@) ==> record@ == self@[target@],
            !self@.contains_key(normalized(target@)) ==> record@ == self@[self.index_path()],
    {
        proof {
            lemma_assets_normalized(self.entries@);
        }
        let key = normalize(target);
        match self.get(key.as_slice()) {
            Some(record) => record,
            None => self.index(),
        }
    }

    /// The asset that answers `request`: the one that its target resolves
    /// to, whatever its method.
    pub fn serve(&self, request: &IncomingRequest) -> (record: &AssetRecord)
        requires
            self.wf(),
        ensures
            record@ == resolved(self@, self.index_path(), encode_utf8(request.path@)),
    {
        self.resolve(request.path.as_str())
    }

    /// The asset that answers the request target `target`, as
    /// `resolve_bytes` does for the target's bytes.
    pub fn resolve(&self, target: &str) -> (record: &AssetRecord)
        requires
            self.wf(),
        ensures
            record@ == resolved(self@, self.index_path(), target.spec_bytes()),
            self@.contains_key(target.spec_bytes()) ==> record@ == self@[target.spec_bytes()],
            !self@.contains_key(normalized(target.spec_bytes())) ==> record@ == self@[self.index_path()],
    {
        self.resolve_bytes(target.as_bytes())
    }
}

/// Where no two entries share a path, the mapping has as many keys as there
/// are entries.
proof fn lemma_assets_len(entries: Seq<Entry>)
    requires
        distinct_paths(entries),
    ensures
        assets_of(entries).dom().finite(),
        assets_of(entries).len() == entries.len(),
    decreases entries.len(),
{
    if entries.len() > 0 {
        let front = entries.drop_last();
        assert forall|a: int, b: int| 0 <= a < b < front.len() implies (#[trigger] front[a]).path@ != (
        #[trigger] front[b]).path@ by {
            assert(front[a] == entries[a] && front[b] == entries[b]);
        }
        lemma_assets_len(front);
        lemma_assets_keys(front, entries.last().path@);
        if assets_of(front).contains_key(entries.last().path@) {
            let i = choose|i: int| 0 <= i < front.len() && (#[trigger] front[i]).path@ == entries.last().path@;
            assert(front[i] == entries[i]);
            assert(entries[i].path@ != entries[entries.len() - 1].path@);
        }
    }
}

/// In a well-formed set every key is a normalized path, and the index
/// document is among the assets.
pub proof fn lemma_keys_normalized(set: AssetSet)
    requires
        set.wf(),
    ensures
        normalized_keys(set@),
        set@.contains_key(set.index_path()),
        set@.dom().finite(),
{
    lemma_assets_normalized(set.entries@);
    lemma_assets_at(set.entries@, 0);
    lemma_assets_len(set.entries@);
}

/// A path that the set holds resolves to the asset that stands under it.
pub proof fn lemma_present_path_resolves_to_its_asset(set: AssetSet, path: Seq<u8>)
    requires
        set.wf(),
        set@.contains_key(path),
    ensures
        resolved(set@, set.index_path(), path) == set@[path],
{
    lemma_keys_normalized(set);
}

/// A target whose normalized path the set does not hold resolves to the
/// index document.
pub proof fn lemma_absent_path_resolves_to_index(set: AssetSet, target: Seq<u8>)
    requires
        set.wf(),
        !set@.contains_key(normalized(target)),
    ensures
        set@.contains_key(set.index_path()),
        resolved(set@, set.index_path(), target) == set@[set.index_path()],
{
    lemma_keys_normalized(set);
}

/// What a target resolves to is a function of the set and of the target's
/// normalized path alone: two targets with one normalized path resolve
/// alike, and a target resolves as its normalized path does.
pub proof fn lemma_resolution_is_by_normalized_path(
    assets: Map<Seq<u8>, AssetModel>,
    index: Seq<u8>,
    first: Seq<u8>,
    second: Seq<u8>,
)
    ensures
        normalized(first) == normalized(second) ==> resolved(assets, index, first) == resolved(
            assets,
            index,
            second,
        ),
        resolved(assets, index, normalized(first)) == resolved(assets, index, first),
{
    lemma_normalized_idempotent(first);
}

} // verus!
