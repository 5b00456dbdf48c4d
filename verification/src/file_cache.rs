//! What the caller has been shown, so that unchanged content need not be sent again.

use vstd::prelude::*;

use crate::file_shared::{content_hash, hash_of};
use crate::json::{opt_text, text_eq};
use crate::outside::{hex_digit, text_hash, text_number};
use crate::text::{chars_of, slice_of, string_of};

verus! {

/// The most files that are remembered.
pub const MAX_CACHE: usize = 64;

/// One remembered file.
#[derive(Debug, PartialEq, Eq)]
pub struct CacheEntry {
    pub path: String,
    pub hash: String,
    pub line_count: usize,
}

/// What is remembered of a file.
#[verifier::ext_equal]
pub struct CachedView {
    pub path: Seq<char>,
    pub hash: Seq<char>,
    pub line_count: usize,
}

impl View for CacheEntry {
    type V = CachedView;

    open spec fn view(&self) -> CachedView {
        CachedView { path: self.path@, hash: self.hash@, line_count: self.line_count }
    }
}

/// The remembered files, the one stored or found last at the end.
pub struct FileCache {
    entries: Vec<CacheEntry>,
    last_read: Option<String>,
}

/// What a cache holds.
#[verifier::ext_equal]
pub struct CacheView {
    pub entries: Seq<CachedView>,
    pub last_read: Option<Seq<char>>,
}

spec fn entry_views(v: Seq<CacheEntry>) -> Seq<CachedView> {
    Seq::new(v.len(), |i: int| v[i]@)
}

impl View for FileCache {
    type V = CacheView;

    closed spec fn view(&self) -> CacheView {
        CacheView { entries: entry_views(self.entries@), last_read: opt_text(self.last_read) }
    }
}

/// The entries for other paths.
pub open spec fn not_for(entries: Seq<CachedView>, path: Seq<char>) -> Seq<CachedView>
    decreases entries.len(),
{
    if entries.len() == 0 {
        Seq::<CachedView>::empty()
    } else {
        let front = not_for(entries.drop_last(), path);
        if entries.last().path == path {
            front
        } else {
            front.push(entries.last())
        }
    }
}

/// The entries with one more: it takes the place of any for its path, and the oldest
/// makes room when the cache is full.
pub open spec fn stored(entries: Seq<CachedView>, e: CachedView) -> Seq<CachedView> {
    let others = not_for(entries, e.path);
    (if others.len() >= MAX_CACHE {
        others.skip(1)
    } else {
        others
    }).push(e)
}

/// A cache that remembers one more file.
pub open spec fn with_file(c: CacheView, path: Seq<char>, hash: Seq<char>, line_count: usize) -> CacheView {
    CacheView { entries: stored(c.entries, CachedView { path, hash, line_count }), ..c }
}

/// The first entry for a path.
pub open spec fn entry_for(entries: Seq<CachedView>, path: Seq<char>) -> Option<CachedView>
    decreases entries.len(),
{
    if entries.len() == 0 {
        None
    } else if entries[0].path == path {
        Some(entries[0])
    } else {
        entry_for(entries.skip(1), path)
    }
}

/// The entries once the one for a path has been used: it moves to the end, so that it is
/// the last to make room.
pub open spec fn used(entries: Seq<CachedView>, path: Seq<char>) -> Seq<CachedView> {
    match entry_for(entries, path) {
        Some(e) => not_for(entries, path).push(e),
        None => entries,
    }
}

/// A cache after a file has been looked up.
pub open spec fn looked_up(c: CacheView, path: Seq<char>, hash: Seq<char>) -> CacheView {
    CacheView {
        entries: if unchanged(c, path, hash) {
            used(c.entries, path)
        } else {
            c.entries
        },
        last_read: Some(path),
    }
}

/// The first eight characters.
pub open spec fn first8(s: Seq<char>) -> Seq<char> {
    if s.len() <= 8 {
        s
    } else {
        s.take(8)
    }
}

/// The last `k` hexadecimal digits of a number.
pub open spec fn hex_digits(n: nat, k: nat) -> Seq<char>
    decreases k,
{
    if k == 0 {
        Seq::<char>::empty()
    } else {
        hex_digits(n / 16, (k - 1) as nat).push(hex_digit((n % 16) as int))
    }
}

/// The fingerprint under which a content is remembered: sixteen hexadecimal digits.
pub open spec fn short_hash(content: Seq<char>) -> Seq<char> {
    hex_digits(text_number(content) as nat, 16)
}

fn write_hex(n: u64, k: usize) -> (out: Vec<char>)
    ensures
        out@ == hex_digits(n as nat, k as nat),
    decreases k,
{
    if k == 0 {
        return Vec::new();
    }
    let mut out: Vec<char> = write_hex(n / 16, k - 1);
    let d: u8 = (n % 16) as u8;
    out.push(
        if d < 10 {
            (48 + d) as char
        } else {
            (87 + d) as char
        },
    );
    out
}

/// The fingerprint under which a content is remembered.
pub fn hash_content(s: &str) -> (out: String)
    ensures
        out@ == short_hash(s@),
{
    string_of(write_hex(text_hash(s), 16).as_slice())
}

/// What is said of a file that has not changed since it was last shown.
#[derive(Debug, PartialEq, Eq)]
pub struct Unchanged {
    pub hash: String,
    pub cache_hash: String,
    pub total_lines: usize,
    pub content: String,
}

/// `hit` is the answer for unchanged content.
pub open spec fn tells(hit: Unchanged, path: Seq<char>, content: Seq<char>, e: CachedView) -> bool {
    &&& hit.hash@ == hash_of(content)
    &&& hit.cache_hash@ == first8(e.hash)
    &&& hit.total_lines == e.line_count
    &&& hit.content@ == path + " unchanged (hash="@ + first8(e.hash) + ")"@
}

/// Whether a read finds the content as it was last shown: the path is not the one
/// read just before, and it is remembered with this fingerprint.
pub open spec fn unchanged(cache: CacheView, path: Seq<char>, hash: Seq<char>) -> bool {
    &&& cache.last_read != Some(path)
    &&& entry_for(cache.entries, path) is Some
    &&& entry_for(cache.entries, path)->0.hash == hash
}

proof fn lemma_not_for_short(entries: Seq<CachedView>, path: Seq<char>)
    ensures
        not_for(entries, path).len() <= entries.len(),
        forall|i: int|
            0 <= i < not_for(entries, path).len() ==> (#[trigger] not_for(entries, path)[i]).path
                != path && entries.contains(not_for(entries, path)[i]),
    decreases entries.len(),
{
    if entries.len() > 0 {
        let front = entries.drop_last();
        lemma_not_for_short(front, path);
        let all = not_for(entries, path);
        assert forall|i: int| 0 <= i < all.len() implies (#[trigger] all[i]).path != path
            && entries.contains(all[i]) by {
            if i < not_for(front, path).len() {
                assert(all[i] == not_for(front, path)[i]);
                assert(front.contains(all[i]));
                let k = choose|k: int| 0 <= k < front.len() && front[k] == all[i];
                assert(entries[k] == all[i]);
            } else {
                assert(entries[entries.len() - 1] == all[i]);
            }
        }
    }
}

proof fn lemma_not_for_drops(entries: Seq<CachedView>, path: Seq<char>, i: int)
    requires
        0 <= i < entries.len(),
        entries[i].path == path,
    ensures
        not_for(entries, path).len() < entries.len(),
    decreases entries.len(),
{
    let front = entries.drop_last();
    lemma_not_for_short(front, path);
    if i < front.len() {
        assert(front[i] == entries[i]);
        lemma_not_for_drops(front, path, i);
    }
}

fn drop_path(entries: Vec<CacheEntry>, path: &str) -> (out: Vec<CacheEntry>)
    ensures
        entry_views(out@) == not_for(entry_views(entries@), path@),
{
    let ghost all = entry_views(entries@);
    let mut rest: Vec<CacheEntry> = entries;
    let mut out: Vec<CacheEntry> = Vec::new();
    let ghost mut done: int = 0;
    proof {
        assert(all.take(0) =~= Seq::<CachedView>::empty());
        assert(entry_views(out@) =~= Seq::<CachedView>::empty());
        assert(all.skip(0) =~= all);
    }
    while rest.len() > 0
        invariant
            0 <= done <= all.len(),
            entry_views(rest@) == all.skip(done),
            entry_views(out@) == not_for(all.take(done), path@),
        decreases rest@.len(),
    {
        let ghost before = rest@;
        let ghost kept = entry_views(out@);
        let e: CacheEntry = rest.remove(0);
        proof {
            assert(entry_views(before)[0] == e@);
            assert(all.skip(done).len() == before.len());
            assert(all.skip(done)[0] == all[done]);
            assert(e@ == all[done]);
            assert(entry_views(rest@) =~= entry_views(before).skip(1));
            assert(all.skip(done).skip(1) =~= all.skip(done + 1));
            assert(all.take(done + 1).drop_last() =~= all.take(done));
            done = done + 1;
        }
        if !text_eq(e.path.as_str(), path) {
            out.push(e);
            proof {
                assert(entry_views(out@) =~= kept.push(e@));
            }
        }
    }
    proof {
        assert(entry_views(rest@).len() == 0);
        assert(all.take(done) =~= all);
    }
    out
}

impl FileCache {
    /// At most so many files.
    #[verifier::type_invariant]
    spec fn bounded(self) -> bool {
        self.entries@.len() <= MAX_CACHE
    }

    /// An empty cache.
    pub fn new() -> (c: FileCache)
        ensures
            c@ == (CacheView { entries: Seq::<CachedView>::empty(), last_read: None }),
    {
        let c: FileCache = FileCache { entries: Vec::new(), last_read: None };
        proof {
            assert(entry_views(c.entries@) =~= Seq::<CachedView>::empty());
        }
        c
    }

    /// How many files are remembered: never more than the limit.
    pub fn len(&self) -> (n: usize)
        ensures
            n == self@.entries.len(),
            n <= MAX_CACHE,
    {
        proof {
            use_type_invariant(self);
        }
        self.entries.len()
    }
}

fn short(s: &str) -> (out: String)
    ensures
        out@ == first8(s@),
{
    let c: Vec<char> = chars_of(s);
    if c.len() <= 8 {
        return s.to_owned();
    }
    let t: Vec<char> = slice_of(c.as_slice(), 0, 8);
    proof {
        assert(c@.subrange(0, 8) =~= c@.take(8));
    }
    string_of(t.as_slice())
}

/// Looks a file up before it is sent, by the fingerprint of its content. A file read
/// twice in a row is always sent again; one that is found counts as used.
pub fn check_hashed(cache: &mut FileCache, path: &str, content: &str, hash: &str) -> (r: Option<
    Unchanged,
>)
    ensures
        final(cache)@ == looked_up(old(cache)@, path@, hash@),
        r is Some <==> unchanged(old(cache)@, path@, hash@),
        r matches Some(hit) ==> tells(
            hit,
            path@,
            content@,
            entry_for(old(cache)@.entries, path@)->0,
        ),
{
    proof {
        use_type_invariant(&*cache);
    }
    let ghost before = cache@;
    let again: bool = match &cache.last_read {
        Some(p) => text_eq(p.as_str(), path),
        None => false,
    };
    cache.last_read = Some(path.to_owned());
    if again {
        return None;
    }
    let mut i: usize = 0;
    let ghost v = entry_views(cache.entries@);
    proof {
        assert(v.skip(0) =~= v);
    }
    while i < cache.entries.len()
        invariant
            i <= cache.entries@.len(),
            v == entry_views(cache.entries@),
            v == before.entries,
            before == old(cache)@,
            before.last_read != Some(path@),
            cache.bounded(),
            cache@ == (CacheView { last_read: Some(path@), ..before }),
            entry_for(v, path@) == entry_for(v.skip(i as int), path@),
        decreases cache.entries@.len() - i,
    {
        let e: &CacheEntry = &cache.entries[i];
        proof {
            assert(v[i as int] == e@);
            assert(v.skip(i as int)[0] == e@);
            assert(v.skip(i as int).skip(1) =~= v.skip(i + 1));
        }
        if text_eq(e.path.as_str(), path) {
            if !text_eq(e.hash.as_str(), hash) {
                return None;
            }
            let line_count: usize = e.line_count;
            let shown: String = short(e.hash.as_str());
            let fresh: CacheEntry = CacheEntry {
                path: path.to_owned(),
                hash: e.hash.clone(),
                line_count,
            };
            proof {
                assert(fresh@ =~= e@);
                lemma_not_for_drops(v, path@, i as int);
            }
            let mut entries: Vec<CacheEntry> = Vec::new();
            std::mem::swap(&mut entries, &mut cache.entries);
            let mut kept: Vec<CacheEntry> = drop_path(entries, path);
            let ghost k = entry_views(kept@);
            kept.push(fresh);
            proof {
                assert(entry_views(kept@) =~= k.push(fresh@));
            }
            cache.entries = kept;
            let mut content_text: String = path.to_owned();
            content_text.append(" unchanged (hash=");
            content_text.append(shown.as_str());
            content_text.append(")");
            return Some(
                Unchanged {
                    hash: content_hash(content),
                    cache_hash: shown,
                    total_lines: line_count,
                    content: content_text,
                },
            );
        }
        i = i + 1;
    }
    None
}

/// Looks a file up before it is sent. A file read twice in a row is always sent again; one
/// that is found counts as used.
pub fn check(cache: &mut FileCache, path: &str, content: &str) -> (r: Option<Unchanged>)
    ensures
        final(cache)@ == looked_up(old(cache)@, path@, short_hash(content@)),
        r is Some <==> unchanged(old(cache)@, path@, short_hash(content@)),
        r matches Some(hit) ==> tells(
            hit,
            path@,
            content@,
            entry_for(old(cache)@.entries, path@)->0,
        ),
{
    let hash: String = hash_content(content);
    check_hashed(cache, path, content, hash.as_str())
}

/// Remembers a file under the fingerprint of its content.
pub fn store_hashed(cache: &mut FileCache, path: &str, hash: String, line_count: usize)
    ensures
        final(cache)@ == with_file(old(cache)@, path@, hash@, line_count),
{
    proof {
        use_type_invariant(&*cache);
        lemma_not_for_short(entry_views(cache.entries@), path@);
    }
    let mut entries: Vec<CacheEntry> = Vec::new();
    std::mem::swap(&mut entries, &mut cache.entries);
    let mut kept: Vec<CacheEntry> = drop_path(entries, path);
    let ghost k0 = entry_views(kept@);
    if kept.len() >= MAX_CACHE {
        let ghost before = kept@;
        let oldest: CacheEntry = kept.remove(0);
        proof {
            assert(entry_views(kept@) =~= entry_views(before).skip(1));
        }
    }
    let ghost k1 = entry_views(kept@);
    let e: CacheEntry = CacheEntry { path: path.to_owned(), hash, line_count };
    kept.push(e);
    proof {
        assert(entry_views(kept@) =~= k1.push(e@));
    }
    cache.entries = kept;
}

/// Remembers a file that was read, under the fingerprint of its content.
pub fn store(cache: &mut FileCache, path: &str, content: &str, line_count: usize)
    ensures
        final(cache)@ == with_file(old(cache)@, path@, short_hash(content@), line_count),
{
    let hash: String = hash_content(content);
    store_hashed(cache, path, hash, line_count);
}

/// Forgets a file.
pub fn invalidate(cache: &mut FileCache, path: &str)
    ensures
        final(cache)@ == (CacheView { entries: not_for(old(cache)@.entries, path@), ..old(cache)@ }),
{
    proof {
        use_type_invariant(&*cache);
        lemma_not_for_short(entry_views(cache.entries@), path@);
    }
    let mut entries: Vec<CacheEntry> = Vec::new();
    std::mem::swap(&mut entries, &mut cache.entries);
    cache.entries = drop_path(entries, path);
}

/// Forgets everything.
pub fn clear(cache: &mut FileCache)
    ensures
        final(cache)@ == (CacheView { entries: Seq::<CachedView>::empty(), last_read: None }),
{
    cache.entries = Vec::new();
    cache.last_read = None;
    proof {
        assert(entry_views(cache.entries@) =~= Seq::<CachedView>::empty());
    }
}

proof fn lemma_no_entry(entries: Seq<CachedView>, path: Seq<char>)
    requires
        forall|i: int| 0 <= i < entries.len() ==> (#[trigger] entries[i]).path != path,
    ensures
        entry_for(entries, path) is None,
    decreases entries.len(),
{
    if entries.len() > 0 {
        assert(entries[0].path != path);
        let rest = entries.skip(1);
        assert forall|i: int| 0 <= i < rest.len() implies (#[trigger] rest[i]).path != path by {
            assert(rest[i] == entries[i + 1]);
        }
        lemma_no_entry(rest, path);
    }
}

proof fn lemma_entry_last(entries: Seq<CachedView>, e: CachedView)
    requires
        forall|i: int| 0 <= i < entries.len() ==> (#[trigger] entries[i]).path != e.path,
    ensures
        entry_for(entries.push(e), e.path) == Some(e),
    decreases entries.len(),
{
    let all = entries.push(e);
    if entries.len() > 0 {
        assert(all[0] == entries[0]);
        let rest = entries.skip(1);
        assert(all.skip(1) =~= rest.push(e));
        assert forall|i: int| 0 <= i < rest.len() implies (#[trigger] rest[i]).path != e.path by {
            assert(rest[i] == entries[i + 1]);
        }
        lemma_entry_last(rest, e);
    }
}

proof fn lemma_entry_found_first(entries: Seq<CachedView>, e: CachedView, path: Seq<char>)
    requires
        entry_for(entries, path) is Some,
    ensures
        entry_for(entries.push(e), path) == entry_for(entries, path),
    decreases entries.len(),
{
    if entries.len() > 0 {
        assert(entries.push(e)[0] == entries[0]);
        if entries[0].path != path {
            assert(entries.push(e).skip(1) =~= entries.skip(1).push(e));
            lemma_entry_found_first(entries.skip(1), e, path);
        }
    }
}

proof fn lemma_entry_path(entries: Seq<CachedView>, path: Seq<char>)
    ensures
        entry_for(entries, path) matches Some(e) ==> e.path == path,
    decreases entries.len(),
{
    if entries.len() > 0 && entries[0].path != path {
        lemma_entry_path(entries.skip(1), path);
    }
}

/// The least recently used file makes room: a file that was just found is still there
/// after another one has been stored, even in a full cache.
pub proof fn used_file_outlasts_the_next_store(
    entries: Seq<CachedView>,
    path: Seq<char>,
    e: CachedView,
)
    requires
        entry_for(entries, path) is Some,
        e.path != path,
    ensures
        entry_for(stored(used(entries, path), e), path) == entry_for(entries, path),
{
    let x = entry_for(entries, path)->0;
    lemma_entry_path(entries, path);
    let rest = not_for(entries, path);
    lemma_not_for_short(entries, path);
    let all = used(entries, path);
    assert(all.drop_last() =~= rest);
    let others = not_for(rest, e.path);
    assert(not_for(all, e.path) == others.push(x));
    lemma_not_for_short(rest, e.path);
    let kept = others.push(x);
    let room = if kept.len() >= MAX_CACHE {
        kept.skip(1)
    } else {
        kept
    };
    let front = room.drop_last();
    assert(room =~= front.push(x));
    assert forall|i: int| 0 <= i < front.len() implies (#[trigger] front[i]).path != path by {
        let k = if kept.len() >= MAX_CACHE {
            i + 1
        } else {
            i
        };
        assert(front[i] == others[k]);
        assert(rest.contains(others[k]));
        let j = choose|j: int| 0 <= j < rest.len() && rest[j] == others[k];
        assert(rest[j].path != path);
    }
    lemma_entry_last(front, x);
    lemma_entry_found_first(room, e, path);
}

/// A forgotten file is not found again until it is stored.
pub proof fn invalidated_file_is_not_found(entries: Seq<CachedView>, path: Seq<char>)
    ensures
        entry_for(not_for(entries, path), path) is None,
{
    lemma_not_for_short(entries, path);
    lemma_no_entry(not_for(entries, path), path);
}

/// A stored file is found again, as it was stored.
pub proof fn stored_file_is_found(entries: Seq<CachedView>, e: CachedView)
    ensures
        entry_for(stored(entries, e), e.path) == Some(e),
{
    lemma_not_for_short(entries, e.path);
    let others = not_for(entries, e.path);
    let room = if others.len() >= MAX_CACHE {
        others.skip(1)
    } else {
        others
    };
    assert forall|i: int| 0 <= i < room.len() implies (#[trigger] room[i]).path != e.path by {
        if others.len() >= MAX_CACHE {
            assert(room[i] == others[i + 1]);
        }
    }
    lemma_entry_last(room, e);
}

/// A file that was stored and then looked up with the same content, other files having
/// been read in between, need not be sent again.
pub proof fn unchanged_file_is_not_sent_again(
    cache: CacheView,
    path: Seq<char>,
    content: Seq<char>,
    line_count: usize,
    between: Option<Seq<char>>,
)
    requires
        between != Some(path),
    ensures
        unchanged(
            CacheView {
                last_read: between,
                ..with_file(cache, path, short_hash(content), line_count)
            },
            path,
            short_hash(content),
        ),
{
    stored_file_is_found(
        cache.entries,
        CachedView { path, hash: short_hash(content), line_count },
    );
}

/// Two reads of one file in a row: the second always sends the content.
pub proof fn consecutive_reads_pass_through(cache: CacheView, path: Seq<char>, hash: Seq<char>)
    ensures
        !unchanged(CacheView { last_read: Some(path), ..cache }, path, hash),
{
}

} // verus!
