//! Remembers what a discovery scan found in each session file.
//!
//! Discovery has to read every session file end to end, because the metadata
//! it reports (turn count, token totals, whether the session is still running)
//! is only knowable from the last line. A session file is append-only and is
//! never rewritten in place, so its modified time and length together identify
//! its contents: anything that still matches what was scanned before is served
//! from here and never opened.
//!
//! Files are keyed by their path's components, the way `std::path::Path`
//! compares paths: `/a//b` and `/a/b/` are the same file.

use vstd::prelude::*;

use crate::auth::strings;
use crate::session::CodexSessionInfo;

verus! {

/// What a file looked like when it was scanned: whole seconds of its modified
/// time, and its length. A session file only ever grows, so an unchanged pair
/// means unchanged contents.
#[derive(Clone, Copy, Debug, PartialEq, Eq, Structural)]
pub struct FileStamp {
    pub modified_secs: u64,
    pub len: u64,
}

/// Bumped whenever the scanner starts reporting a field differently, so
/// entries written by an older build are discarded rather than served as
/// though the new field had been absent from the file.
pub const FORMAT_VERSION: u32 = 1;

/// Whether a persisted cache of this format version may be used.
pub fn format_matches(version: u32) -> (r: bool)
    ensures
        r == (version == FORMAT_VERSION),
{
    version == FORMAT_VERSION
}

/// The components of a path as `std::path::Path::components` reads them (the
/// root as `/`, `.` and `..` as themselves, every other part as its text).
pub uninterp spec fn path_components_of(path: Seq<char>) -> Seq<Seq<char>>;

/// `Path::new(path).components()`, each component as its text
/// (`Component::as_os_str`, lossily). The result is named by
/// `path_components_of`.
#[verifier::external_body]
fn path_components(path: &str) -> (r: Vec<String>)
    ensures
        strings(r@) == path_components_of(path@),
{
    std::path::Path::new(path).components().map(|c| c.as_os_str().to_string_lossy().into_owned()).collect()
}

/// One scanned file.
pub struct CacheEntry {
    /// The file's path components.
    pub key: Vec<String>,
    /// The file's path as first recorded.
    pub path: String,
    pub stamp: FileStamp,
    pub info: CodexSessionInfo,
}

pub open spec fn entry_view(e: CacheEntry) -> (Seq<Seq<char>>, Seq<char>, FileStamp, CodexSessionInfo) {
    (strings(e.key@), e.path@, e.stamp, e.info)
}

pub open spec fn entry_views(v: Seq<CacheEntry>) -> Seq<(Seq<Seq<char>>, Seq<char>, FileStamp, CodexSessionInfo)> {
    v.map_values(|e: CacheEntry| entry_view(e))
}

/// The scan results kept across discoveries.
pub struct ScanCache {
    entries: Vec<CacheEntry>,
}

impl View for ScanCache {
    type V = Seq<(Seq<Seq<char>>, Seq<char>, FileStamp, CodexSessionInfo)>;

    closed spec fn view(&self) -> Self::V {
        entry_views(self.entries@)
    }
}

/// Index of the entry for a file.
pub open spec fn position_of_key(
    v: Seq<(Seq<Seq<char>>, Seq<char>, FileStamp, CodexSessionInfo)>,
    key: Seq<Seq<char>>,
) -> Option<int>
    decreases v.len(),
{
    if v.len() == 0 {
        None
    } else {
        match position_of_key(v.drop_last(), key) {
            Some(i) => Some(i),
            None => if v.last().0 == key {
                Some(v.len() - 1)
            } else {
                None
            },
        }
    }
}

pub proof fn lemma_position_of_key(
    v: Seq<(Seq<Seq<char>>, Seq<char>, FileStamp, CodexSessionInfo)>,
    key: Seq<Seq<char>>,
)
    ensures
        position_of_key(v, key) matches Some(i) ==> 0 <= i < v.len() && v[i].0 == key && forall|k: int|
            0 <= k < i ==> (#[trigger] v[k]).0 != key,
        position_of_key(v, key) is None ==> forall|k: int| 0 <= k < v.len() ==> (#[trigger] v[k]).0 != key,
    decreases v.len(),
{
    if v.len() > 0 {
        let t = v.drop_last();
        lemma_position_of_key(t, key);
        assert(forall|k: int| 0 <= k < t.len() ==> t[k] == v[k]);
    }
}

/// No file has two entries.
pub open spec fn keys_unique(v: Seq<(Seq<Seq<char>>, Seq<char>, FileStamp, CodexSessionInfo)>) -> bool {
    forall|a: int, b: int| 0 <= a < b < v.len() ==> (#[trigger] v[a]).0 != (#[trigger] v[b]).0
}

/// What is served for a file with this stamp: the info scanned before, if the
/// file looked exactly like this then.
pub open spec fn lookup_of(
    v: Seq<(Seq<Seq<char>>, Seq<char>, FileStamp, CodexSessionInfo)>,
    key: Seq<Seq<char>>,
    stamp: FileStamp,
) -> Option<CodexSessionInfo> {
    match position_of_key(v, key) {
        Some(i) => if v[i].2 == stamp {
            Some(v[i].3)
        } else {
            None
        },
        None => None,
    }
}

/// The cache after recording a scan: the file's entry replaced (its recorded
/// path kept), or a new one added at the end.
pub open spec fn put_of(
    v: Seq<(Seq<Seq<char>>, Seq<char>, FileStamp, CodexSessionInfo)>,
    key: Seq<Seq<char>>,
    path: Seq<char>,
    stamp: FileStamp,
    info: CodexSessionInfo,
) -> Seq<(Seq<Seq<char>>, Seq<char>, FileStamp, CodexSessionInfo)> {
    match position_of_key(v, key) {
        Some(i) => v.update(i, (v[i].0, v[i].1, stamp, info)),
        None => v.push((key, path, stamp, info)),
    }
}

/// `Path::starts_with`: `root`'s components are a prefix of the file's.
pub open spec fn under(root: Seq<Seq<char>>, key: Seq<Seq<char>>) -> bool {
    root.len() <= key.len() && key.subrange(0, root.len() as int) == root
}

/// Whether a retain keeps an entry: it is outside `root`, or the walk saw it.
pub open spec fn kept(root: Seq<Seq<char>>, seen: Seq<Seq<Seq<char>>>, key: Seq<Seq<char>>) -> bool {
    !under(root, key) || seen.contains(key)
}

/// The entries a retain keeps, in order.
pub open spec fn retained_of(
    v: Seq<(Seq<Seq<char>>, Seq<char>, FileStamp, CodexSessionInfo)>,
    root: Seq<Seq<char>>,
    seen: Seq<Seq<Seq<char>>>,
) -> Seq<(Seq<Seq<char>>, Seq<char>, FileStamp, CodexSessionInfo)>
    decreases v.len(),
{
    if v.len() == 0 {
        Seq::empty()
    } else {
        let rest = retained_of(v.drop_last(), root, seen);
        if kept(root, seen, v.last().0) {
            rest.push(v.last())
        } else {
            rest
        }
    }
}

fn keys_eq(a: &Vec<String>, b: &Vec<String>) -> (r: bool)
    ensures
        r == (strings(a@) == strings(b@)),
{
    if a.len() != b.len() {
        assert(strings(a@).len() != strings(b@).len());
        return false;
    }
    let mut i: usize = 0;
    while i < a.len()
        invariant
            a@.len() == b@.len(),
            i <= a@.len(),
            forall|k: int| 0 <= k < i ==> strings(a@)[k] == strings(b@)[k],
        decreases a@.len() - i,
    {
        assert(strings(a@)[i as int] == a@[i as int]@);
        assert(strings(b@)[i as int] == b@[i as int]@);
        if !crate::text::chars_eq(
            crate::text::chars_of(a[i].as_str()).as_slice(),
            crate::text::chars_of(b[i].as_str()).as_slice(),
        ) {
            return false;
        }
        i = i + 1;
    }
    assert(strings(a@) =~= strings(b@));
    true
}

fn is_under(root: &Vec<String>, key: &Vec<String>) -> (r: bool)
    ensures
        r == under(strings(root@), strings(key@)),
{
    if root.len() > key.len() {
        return false;
    }
    let mut i: usize = 0;
    while i < root.len()
        invariant
            root@.len() <= key@.len(),
            i <= root@.len(),
            forall|k: int| 0 <= k < i ==> strings(root@)[k] == strings(key@)[k],
        decreases root@.len() - i,
    {
        assert(strings(root@)[i as int] == root@[i as int]@);
        assert(strings(key@)[i as int] == key@[i as int]@);
        if !crate::text::chars_eq(
            crate::text::chars_of(root[i].as_str()).as_slice(),
            crate::text::chars_of(key[i].as_str()).as_slice(),
        ) {
            assert(strings(key@).subrange(0, root@.len() as int)[i as int] != strings(root@)[i as int]);
            return false;
        }
        i = i + 1;
    }
    assert(strings(key@).subrange(0, root@.len() as int) =~= strings(root@));
    true
}

proof fn lemma_subrange_tail<A>(a: Seq<A>, b: Seq<A>, i: int, k: int)
    requires
        0 <= i < a.len(),
        0 <= k <= b.len(),
        a.subrange(i, a.len() as int) == b.subrange(k, b.len() as int),
    ensures
        a.subrange(i + 1, a.len() as int) == b.subrange(k + 1, b.len() as int),
{
    let x = a.subrange(i, a.len() as int);
    let y = b.subrange(k, b.len() as int);
    assert(x.len() == a.len() - i);
    assert(y.len() == b.len() - k);
    assert(x.len() == y.len());
    assert(k < b.len());
    assert forall|j: int| 0 <= j < a.len() - i - 1 implies #[trigger] a.subrange(i + 1, a.len() as int)[j]
        == b.subrange(k + 1, b.len() as int)[j] by {
        assert(x[j + 1] == a[i + j + 1]);
        assert(y[j + 1] == b[k + j + 1]);
        assert(x[j + 1] == y[j + 1]);
    }
    assert(a.subrange(i + 1, a.len() as int) =~= b.subrange(k + 1, b.len() as int));
}

proof fn lemma_entry_views(v: Seq<CacheEntry>)
    ensures
        entry_views(v).len() == v.len(),
        forall|i: int| 0 <= i < v.len() ==> #[trigger] entry_views(v)[i] == entry_view(v[i]),
{
}

/// The index of the entry for `key` among `entries`.
fn find_in(entries: &Vec<CacheEntry>, key: &Vec<String>) -> (r: Option<usize>)
    ensures
        r matches Some(u) ==> position_of_key(entry_views(entries@), strings(key@)) == Some(u as int)
            && u < entries@.len(),
        r is None ==> position_of_key(entry_views(entries@), strings(key@)) is None,
{
    let ghost v = entry_views(entries@);
    proof {
        lemma_entry_views(entries@);
        lemma_position_of_key(v, strings(key@));
    }
    let mut i: usize = 0;
    while i < entries.len()
        invariant
            v == entry_views(entries@),
            i <= entries@.len(),
            v.len() == entries@.len(),
            forall|j: int| 0 <= j < v.len() ==> #[trigger] v[j] == entry_view(entries@[j]),
            forall|k: int| 0 <= k < i ==> (#[trigger] v[k]).0 != strings(key@),
        decreases entries@.len() - i,
    {
        assert(v[i as int].0 == strings(entries@[i as int].key@));
        if keys_eq(&entries[i].key, key) {
            proof {
                lemma_position_of_key(v, strings(key@));
            }
            return Some(i);
        }
        i = i + 1;
    }
    None
}

impl ScanCache {
    /// An empty cache.
    pub fn new() -> (c: ScanCache)
        ensures
            c@.len() == 0,
    {
        ScanCache { entries: Vec::new() }
    }

    /// No file has two entries.
    #[verifier::type_invariant]
    spec fn wf(self) -> bool {
        keys_unique(entry_views(self.entries@))
    }

    /// Every entry, in the order recorded; for writing the cache out.
    pub fn entries(&self) -> (r: &[CacheEntry])
        ensures
            entry_views(r@) == self@,
    {
        self.entries.as_slice()
    }

    /// The scan result for `path`, if the file (as `stamp` describes it now)
    /// is byte-for-byte what was scanned before. A file whose stamp cannot be
    /// read is a miss.
    pub fn get(&self, path: &str, stamp: Option<FileStamp>) -> (r: Option<&CodexSessionInfo>)
        ensures
            match stamp {
                None => r is None,
                Some(st) => match lookup_of(self@, path_components_of(path@), st) {
                    Some(info) => r matches Some(x) && *x == info,
                    None => r is None,
                },
            },
    {
        let st = match stamp {
            Some(s) => s,
            None => {
                return None;
            },
        };
        let key = path_components(path);
        proof {
            lemma_entry_views(self.entries@);
        }
        match find_in(&self.entries, &key) {
            Some(i) => {
                assert(self@[i as int] == entry_view(self.entries@[i as int]));
                if self.entries[i].stamp == st {
                    Some(&self.entries[i].info)
                } else {
                    None
                }
            },
            None => None,
        }
    }

    /// Record what scanning `path` produced, stamped as the file was when it
    /// was read. Nothing is recorded when the stamp could not be read.
    pub fn put(&mut self, path: &str, stamp: Option<FileStamp>, info: CodexSessionInfo)
        ensures
            keys_unique(final(self)@),
            match stamp {
                None => final(self)@ == old(self)@,
                Some(st) => final(self)@ == put_of(
                    old(self)@,
                    path_components_of(path@),
                    path@,
                    st,
                    info,
                ),
            },
    {
        proof {
            use_type_invariant(&*self);
        }
        let st = match stamp {
            Some(s) => s,
            None => {
                return;
            },
        };
        let key = path_components(path);
        let ghost before = self@;
        let mut entries: Vec<CacheEntry> = Vec::new();
        std::mem::swap(&mut entries, &mut self.entries);
        assert(entry_views(entries@) == before);
        proof {
            lemma_entry_views(entries@);
        }
        match find_in(&entries, &key) {
            Some(i) => {
                let old_entry = entries.remove(i);
                let entry = CacheEntry { key: old_entry.key, path: old_entry.path, stamp: st, info };
                entries.insert(i, entry);
                proof {
                    lemma_entry_views(entries@);
                    assert(entry_views(entries@) =~= before.update(
                        i as int,
                        (before[i as int].0, before[i as int].1, st, info),
                    ));
                    let after = entry_views(entries@);
                    assert forall|a: int, b: int| 0 <= a < b < after.len() implies (#[trigger] after[a]).0
                        != (#[trigger] after[b]).0 by {
                        assert(after[a].0 == before[a].0);
                        assert(after[b].0 == before[b].0);
                    }
                }
            },
            None => {
                let entry = CacheEntry { key, path: path.to_owned(), stamp: st, info };
                entries.push(entry);
                proof {
                    lemma_entry_views(entries@);
                    lemma_position_of_key(before, path_components_of(path@));
                    assert(entry_views(entries@) =~= before.push(
                        (path_components_of(path@), path@, st, info),
                    ));
                }
            },
        }
        self.entries = entries;
    }

    /// Drop the entries for files under `root` that the walk (which found the
    /// files `seen`) did not see. Entries outside `root` are kept: the picker
    /// can be pointed at another sessions directory, and its entries must
    /// survive a walk of this one.
    pub fn retain_seen(&mut self, root: &str, seen: &[String])
        ensures
            keys_unique(final(self)@),
            final(self)@ == retained_of(
                old(self)@,
                path_components_of(root@),
                strings(seen@).map_values(|p: Seq<char>| path_components_of(p)),
            ),
    {
        proof {
            use_type_invariant(&*self);
        }
        let root_key = path_components(root);
        let ghost seen_keys = strings(seen@).map_values(|p: Seq<char>| path_components_of(p));
        let mut seen_list: Vec<Vec<String>> = Vec::new();
        let mut s: usize = 0;
        while s < seen.len()
            invariant
                s <= seen@.len(),
                seen_keys == strings(seen@).map_values(|p: Seq<char>| path_components_of(p)),
                seen_list@.len() == s,
                forall|k: int| 0 <= k < s ==> strings((#[trigger] seen_list@[k])@) == seen_keys[k],
            decreases seen@.len() - s,
        {
            assert(seen_keys[s as int] == path_components_of(seen@[s as int]@));
            seen_list.push(path_components(seen[s].as_str()));
            s = s + 1;
        }
        let ghost orig = self@;
        let mut entries: Vec<CacheEntry> = Vec::new();
        std::mem::swap(&mut entries, &mut self.entries);
        let ghost root_keys = strings(root_key@);
        let mut i: usize = 0;
        let ghost mut k: int = 0;
        proof {
            lemma_entry_views(entries@);
        }
        assert(entry_views(entries@) == orig);
        assert(orig.subrange(0, 0) =~= Seq::<(Seq<Seq<char>>, Seq<char>, FileStamp, CodexSessionInfo)>::empty());
        assert(entry_views(entries@).subrange(0, 0) =~= retained_of(orig.subrange(0, 0), root_keys, seen_keys));
        assert(entry_views(entries@).subrange(0, entries@.len() as int) =~= orig.subrange(0, orig.len() as int));
        while i < entries.len()
            invariant
                root_keys == strings(root_key@),
                root_keys == path_components_of(root@),
                seen_list@.len() == seen_keys.len(),
                forall|x: int| 0 <= x < seen_list@.len() ==> strings((#[trigger] seen_list@[x])@) == seen_keys[x],
                0 <= k <= orig.len(),
                i <= entries@.len(),
                entry_views(entries@).subrange(0, i as int) == retained_of(orig.subrange(0, k), root_keys, seen_keys),
                entry_views(entries@).subrange(i as int, entries@.len() as int) == orig.subrange(k, orig.len() as int),
                keys_unique(entry_views(entries@)),
            decreases entries@.len() - i,
        {
            proof {
                lemma_entry_views(entries@);
            }
            let ghost cur = entry_views(entries@);
            assert(cur.subrange(i as int, cur.len() as int).len() == orig.subrange(k, orig.len() as int).len());
            assert(cur[i as int] == orig[k]) by {
                assert(cur.subrange(i as int, cur.len() as int)[0] == orig.subrange(k, orig.len() as int)[0]);
            }
            assert(cur[i as int] == entry_view(entries@[i as int]));
            let keep = if !is_under(&root_key, &entries[i].key) {
                true
            } else {
                let mut found = false;
                let mut j: usize = 0;
                while j < seen_list.len()
                    invariant
                        j <= seen_list@.len(),
                        i < entries@.len(),
                        seen_list@.len() == seen_keys.len(),
                        forall|x: int| 0 <= x < seen_list@.len() ==> strings((#[trigger] seen_list@[x])@) == seen_keys[x],
                        found == (exists|x: int| 0 <= x < j && seen_keys[x] == strings(entries@[i as int].key@)),
                    decreases seen_list@.len() - j,
                {
                    if keys_eq(&seen_list[j], &entries[i].key) {
                        found = true;
                    }
                    j = j + 1;
                }
                found
            };
            let ghost next = orig.subrange(0, k + 1);
            assert(next.drop_last() =~= orig.subrange(0, k));
            assert(next.last() == orig[k]);
            assert(keep == kept(root_keys, seen_keys, orig[k].0));
            if keep {
                proof {
                    lemma_subrange_tail(cur, orig, i as int, k);
                }
                i = i + 1;
                assert(entry_views(entries@).subrange(0, i as int) =~= cur.subrange(0, i - 1).push(orig[k]));
            } else {
                entries.remove(i);
                proof {
                    lemma_entry_views(entries@);
                }
                let ghost after = entry_views(entries@);
                assert(after =~= cur.remove(i as int));
                assert(after.subrange(0, i as int) =~= cur.subrange(0, i as int));
                proof {
                    lemma_subrange_tail(cur, orig, i as int, k);
                    assert(after.subrange(i as int, after.len() as int) =~= cur.subrange(i + 1, cur.len() as int));
                }
                assert forall|a: int, b: int| 0 <= a < b < after.len() implies (#[trigger] after[a]).0 != (#[trigger] after[b]).0 by {
                    let a2 = if a < i { a } else { a + 1 };
                    let b2 = if b < i { b } else { b + 1 };
                    assert(after[a] == cur[a2]);
                    assert(after[b] == cur[b2]);
                }
            }
            proof {
                k = k + 1;
            }
        }
        assert(orig.subrange(k, orig.len() as int).len() == 0);
        assert(orig.subrange(0, k) =~= orig);
        assert(entry_views(entries@) =~= entry_views(entries@).subrange(0, i as int));
        self.entries = entries;
    }
}

/// Drop the entries for files under `root` that the walk no longer found (see
/// `ScanCache::retain_seen`), then hand the cache to `persist` to be written
/// out. Called once per completed discovery, so a deleted session does not
/// keep an entry, and its successor does not inherit one, forever.
pub fn retain_and_persist<F: FnOnce(&ScanCache)>(
    cache: &mut ScanCache,
    root: &str,
    seen: &[String],
    persist: F,
)
    requires
        forall|c: ScanCache| call_requires(persist, (&c,)),
    ensures
        final(cache)@ == retained_of(
            old(cache)@,
            path_components_of(root@),
            strings(seen@).map_values(|p: Seq<char>| path_components_of(p)),
        ),
        call_ensures(persist, (&*final(cache),), ()),
{
    cache.retain_seen(root, seen);
    persist(cache);
}

// ---------------------------------------------------------------------------
// Laws
// ---------------------------------------------------------------------------

/// After recording a scan of a file, looking the file up with the same stamp
/// gives back what was recorded; with another stamp, nothing.
pub proof fn law_put_then_get(
    v: Seq<(Seq<Seq<char>>, Seq<char>, FileStamp, CodexSessionInfo)>,
    key: Seq<Seq<char>>,
    path: Seq<char>,
    stamp: FileStamp,
    info: CodexSessionInfo,
    other_stamp: FileStamp,
)
    ensures
        lookup_of(put_of(v, key, path, stamp, info), key, stamp) == Some(info),
        other_stamp != stamp ==> lookup_of(put_of(v, key, path, stamp, info), key, other_stamp) is None,
{
    lemma_position_of_key(v, key);
    let w = put_of(v, key, path, stamp, info);
    match position_of_key(v, key) {
        Some(i) => {
            lemma_position_of_key_update(v, i, (v[i].0, v[i].1, stamp, info), key);
        },
        None => {
            assert(w.drop_last() =~= v);
        },
    }
}

/// Replacing an entry by one with the same key moves no lookup.
proof fn lemma_position_of_key_update(
    v: Seq<(Seq<Seq<char>>, Seq<char>, FileStamp, CodexSessionInfo)>,
    i: int,
    e: (Seq<Seq<char>>, Seq<char>, FileStamp, CodexSessionInfo),
    key: Seq<Seq<char>>,
)
    requires
        0 <= i < v.len(),
        e.0 == v[i].0,
    ensures
        position_of_key(v.update(i, e), key) == position_of_key(v, key),
    decreases v.len(),
{
    let w = v.update(i, e);
    if i < v.len() - 1 {
        assert(w.drop_last() =~= v.drop_last().update(i, e));
        lemma_position_of_key_update(v.drop_last(), i, e, key);
    } else {
        assert(w.drop_last() =~= v.drop_last());
    }
}

/// Recording a scan of one file changes nothing that is served for another.
pub proof fn law_put_leaves_other_files(
    v: Seq<(Seq<Seq<char>>, Seq<char>, FileStamp, CodexSessionInfo)>,
    key: Seq<Seq<char>>,
    path: Seq<char>,
    stamp: FileStamp,
    info: CodexSessionInfo,
    other: Seq<Seq<char>>,
    other_stamp: FileStamp,
)
    requires
        other != key,
    ensures
        lookup_of(put_of(v, key, path, stamp, info), other, other_stamp) == lookup_of(v, other, other_stamp),
{
    lemma_position_of_key(v, key);
    lemma_position_of_key(v, other);
    let w = put_of(v, key, path, stamp, info);
    match position_of_key(v, key) {
        Some(i) => {
            lemma_position_of_key_update(v, i, (v[i].0, v[i].1, stamp, info), other);
            if let Some(j) = position_of_key(v, other) {
                assert(j != i);
                assert(w[j] == v[j]);
            }
        },
        None => {
            assert(w.drop_last() =~= v);
            if let Some(j) = position_of_key(v, other) {
                assert(w[j] == v[j]);
            }
        },
    }
}

/// A retain keeps exactly the entries outside `root` and those the walk saw,
/// in order: an entry is in the result if and only if it was in the cache and
/// is kept.
pub proof fn law_retain_keeps_exactly_the_kept(
    v: Seq<(Seq<Seq<char>>, Seq<char>, FileStamp, CodexSessionInfo)>,
    root: Seq<Seq<char>>,
    seen: Seq<Seq<Seq<char>>>,
    e: (Seq<Seq<char>>, Seq<char>, FileStamp, CodexSessionInfo),
)
    ensures
        retained_of(v, root, seen).contains(e) <==> (v.contains(e) && kept(root, seen, e.0)),
    decreases v.len(),
{
    if v.len() > 0 {
        let t = v.drop_last();
        law_retain_keeps_exactly_the_kept(t, root, seen, e);
        let r = retained_of(t, root, seen);
        assert(v =~= t.push(v.last()));
        if v.contains(e) && !t.contains(e) {
            assert(e == v.last()) by {
                let j = choose|j: int| 0 <= j < v.len() && v[j] == e;
                if j < t.len() {
                    assert(t[j] == e);
                }
            }
        }
        if t.contains(e) {
            let j = choose|j: int| 0 <= j < t.len() && t[j] == e;
            assert(v[j] == e);
        }
        if kept(root, seen, v.last().0) {
            assert(r.push(v.last()).last() == v.last());
            if r.contains(e) {
                let j = choose|j: int| 0 <= j < r.len() && r[j] == e;
                assert(r.push(v.last())[j] == e);
            }
            if r.push(v.last()).contains(e) && !r.contains(e) {
                let j = choose|j: int| 0 <= j < r.len() + 1 && r.push(v.last())[j] == e;
                if j < r.len() {
                    assert(r[j] == e);
                }
            }
        }
    }
}

} // verus!
