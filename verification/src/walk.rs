//! The decisions of the directory walk: which paths are filtered out, and
//! how a batch of walked entries fills the cache.
//!
//! The walk itself — enumerating a directory tree and reading file bytes —
//! is I/O and belongs to the caller. The caller hands each entry over as a
//! [`WalkEntry`]: the path it found, whether it is a regular file, and the
//! bytes it read for it (or `None` when the read failed or was skipped).
//! Everything the walk decides from there is verified here.

use vstd::prelude::*;
use crate::cache::{CacheError, FileCache, has_key};
use crate::text;

verus! {

/// Substrings whose presence anywhere in a path excludes the file from the
/// cache. The match is case-sensitive and runs over the whole path, so a
/// directory whose name contains one of these excludes everything under it.
pub open spec fn denied(p: Seq<char>) -> bool {
    ||| text::contains_sub(p, "git"@)
    ||| text::contains_sub(p, "svg"@)
    ||| text::contains_sub(p, "png"@)
    ||| text::contains_sub(p, "jpg"@)
    ||| text::contains_sub(p, "DS_Store"@)
    ||| text::contains_sub(p, ".wav"@)
    ||| text::contains_sub(p, "provisionprofile"@)
}

/// Decides whether a walked path should be read and cached: only regular
/// files whose path matches no denylist substring are processed.
pub fn should_process(path: &str, is_file: bool) -> (r: bool)
    ensures
        r == (is_file && !denied(path@)),
{
    is_file && !text::contains_str(path, "git") && !text::contains_str(path, "svg")
        && !text::contains_str(path, "png") && !text::contains_str(path, "jpg")
        && !text::contains_str(path, "DS_Store") && !text::contains_str(path, ".wav")
        && !text::contains_str(path, "provisionprofile")
}

/// One entry the directory walk produced: the path, whether it is a
/// regular file, and the bytes read for it (`None` when the read failed,
/// or when the caller skipped reading a filtered path).
pub struct WalkEntry {
    pub path: String,
    pub is_file: bool,
    pub data: Option<Vec<u8>>,
}

/// True when the walk submits this entry to the cache: a regular file
/// whose path matches no denylist substring.
pub open spec fn passes_filter(e: WalkEntry) -> bool {
    e.is_file && !denied(e.path@)
}

/// The bytes the walk read for this entry, when the read succeeded.
pub open spec fn entry_bytes(e: WalkEntry) -> Option<Seq<u8>> {
    match e.data {
        Option::Some(b) => Option::Some(b@),
        Option::None => Option::None,
    }
}

/// True when this entry ends up cached: it passes the filter and its bytes
/// were read and decode as valid text.
pub open spec fn qualifies(e: WalkEntry) -> bool {
    &&& passes_filter(e)
    &&& entry_bytes(e) matches Some(b) && vstd::utf8::valid_utf8(b)
}

/// The decoded text of a qualifying entry.
pub open spec fn entry_text(e: WalkEntry) -> Seq<char>
    recommends
        qualifies(e),
{
    vstd::utf8::decode_utf8(entry_bytes(e)->0)
}

/// The cache contents after one walked entry is processed on top of `cur`:
/// a qualifying entry whose path is not yet a key is appended; everything
/// else leaves the cache as it was.
pub open spec fn load_one(
    cur: Seq<(Seq<char>, Seq<char>)>,
    e: WalkEntry,
) -> Seq<(Seq<char>, Seq<char>)> {
    if qualifies(e) && !has_key(cur, e.path@) {
        cur.push((e.path@, entry_text(e)))
    } else {
        cur
    }
}

/// The cache contents after the walked entries `es` are processed in order
/// on top of `cur`.
pub open spec fn load_seq(
    cur: Seq<(Seq<char>, Seq<char>)>,
    es: Seq<WalkEntry>,
) -> Seq<(Seq<char>, Seq<char>)>
    decreases es.len(),
{
    if es.len() == 0 {
        cur
    } else {
        load_one(load_seq(cur, es.drop_last()), es.last())
    }
}

/// The error kind a failing entry is reported with: `IOError` when its
/// bytes could not be read, `InvalidEncoding` when they are not valid text.
pub open spec fn fail_kind(e: WalkEntry) -> CacheError {
    if entry_bytes(e) is None {
        CacheError::IOError
    } else {
        CacheError::InvalidEncoding
    }
}

/// True when processing `e` on top of the cache contents `cur` fails: the
/// entry passes the filter, its path is not yet cached, and its bytes are
/// missing or are not valid text.
pub open spec fn fails_on(cur: Seq<(Seq<char>, Seq<char>)>, e: WalkEntry) -> bool {
    &&& passes_filter(e)
    &&& !has_key(cur, e.path@)
    &&& !qualifies(e)
}

/// The failures reported while the walked entries `es` are processed in
/// order on top of `cur`: one `(path, error)` pair per failing entry.
pub open spec fn load_fails(
    cur: Seq<(Seq<char>, Seq<char>)>,
    es: Seq<WalkEntry>,
) -> Seq<(Seq<char>, CacheError)>
    decreases es.len(),
{
    if es.len() == 0 {
        Seq::empty()
    } else {
        let prev = load_fails(cur, es.drop_last());
        if fails_on(load_seq(cur, es.drop_last()), es.last()) {
            prev.push((es.last().path@, fail_kind(es.last())))
        } else {
            prev
        }
    }
}

/// Submits every walked entry to the cache in order, skipping paths the
/// filter rejects, and returns one `(path, error)` pair for each file that
/// passed the filter but could not be read or decoded.
pub fn load_all(cache: &mut FileCache, entries: &Vec<WalkEntry>) -> (fails: Vec<
    (String, CacheError),
>)
    requires
        old(cache).wf(),
    ensures
        final(cache).wf(),
        final(cache)@ == load_seq(old(cache)@, entries@),
        fails@.map(|k: int, f: (String, CacheError)| (f.0@, f.1)) == load_fails(
            old(cache)@,
            entries@,
        ),
{
    let ghost fview = |k: int, f: (String, CacheError)| (f.0@, f.1);
    let n = entries.len();
    let mut fails: Vec<(String, CacheError)> = Vec::new();
    let mut i: usize = 0;
    while i < n
        invariant
            old(cache).wf(),
            cache.wf(),
            n == entries@.len(),
            0 <= i <= n,
            cache@ == load_seq(old(cache)@, entries@.take(i as int)),
            fails@.map(fview) == load_fails(old(cache)@, entries@.take(i as int)),
            fview == (|k: int, f: (String, CacheError)| (f.0@, f.1)),
        decreases n - i,
    {
        let e = &entries[i];
        proof {
            assert(entries@.take(i + 1).drop_last() =~= entries@.take(i as int));
            assert(entries@.take(i + 1).last() == entries@[i as int]);
        }
        if should_process(e.path.as_str(), e.is_file) {
            let outcome = cache.get_or_load(e.path.as_str(), e.data.as_ref());
            if let Err(err) = outcome {
                let ghost before = fails@;
                fails.push((e.path.clone(), err));
                proof {
                    assert(fails@.map(fview) =~= before.map(fview).push((e.path@, err)));
                }
            }
        }
        i = i + 1;
    }
    proof {
        assert(entries@.take(n as int) =~= entries@);
    }
    fails
}

proof fn lemma_has_key_push(s: Seq<(Seq<char>, Seq<char>)>, x: (Seq<char>, Seq<char>), p: Seq<char>)
    ensures
        has_key(s.push(x), p) <==> (has_key(s, p) || x.0 == p),
{
    if has_key(s, p) {
        let i = choose|i: int| 0 <= i < s.len() && s[i].0 == p;
        assert(s.push(x)[i] == s[i]);
    }
    if x.0 == p {
        assert(s.push(x)[s.len() as int] == x);
    }
    if has_key(s.push(x), p) {
        let i = choose|i: int| 0 <= i < s.push(x).len() && s.push(x)[i].0 == p;
        if i < s.len() {
            assert(s[i] == s.push(x)[i]);
        }
    }
}

/// Content is immutable once cached: a walk only appends. Every entry the
/// cache held before the walk sits unchanged, at its index, after it.
pub proof fn lemma_load_seq_preserves_entries(
    cur: Seq<(Seq<char>, Seq<char>)>,
    es: Seq<WalkEntry>,
)
    ensures
        cur.len() <= load_seq(cur, es).len(),
        forall|i: int| 0 <= i < cur.len() ==> load_seq(cur, es)[i] == cur[i],
    decreases es.len(),
{
    if es.len() > 0 {
        lemma_load_seq_preserves_entries(cur, es.drop_last());
    }
}

/// The cache has a key after the walk exactly when it had it before, or
/// some walked entry with that path was a regular file that passed the
/// denylist filter and whose bytes were read and decoded as valid text.
pub proof fn lemma_load_seq_keys(
    cur: Seq<(Seq<char>, Seq<char>)>,
    es: Seq<WalkEntry>,
    p: Seq<char>,
)
    ensures
        has_key(load_seq(cur, es), p) <==> (has_key(cur, p) || exists|i: int|
            0 <= i < es.len() && es[i].path@ == p && qualifies(es[i])),
    decreases es.len(),
{
    if es.len() == 0 {
    } else {
        let es0 = es.drop_last();
        let e = es.last();
        let mid = load_seq(cur, es0);
        lemma_load_seq_keys(cur, es0, p);
        if qualifies(e) && !has_key(mid, e.path@) {
            lemma_has_key_push(mid, (e.path@, entry_text(e)), p);
        }
        assert(forall|i: int| 0 <= i < es0.len() ==> es0[i] == es[i]);
        if exists|i: int| 0 <= i < es0.len() && es0[i].path@ == p && qualifies(es0[i]) {
            let i = choose|i: int| 0 <= i < es0.len() && es0[i].path@ == p && qualifies(es0[i]);
            assert(es[i].path@ == p && qualifies(es[i]));
        }
        if exists|i: int| 0 <= i < es.len() && es[i].path@ == p && qualifies(es[i]) {
            let i = choose|i: int| 0 <= i < es.len() && es[i].path@ == p && qualifies(es[i]);
            if i < es0.len() {
                assert(es0[i].path@ == p && qualifies(es0[i]));
            } else {
                assert(es[i] == e);
            }
        }
    }
}

/// Every walked entry that is a regular file, passes the denylist filter,
/// and whose bytes were read and decode as valid text has a cache entry
/// for its path once the walk completes.
pub proof fn lemma_walked_file_is_cached(
    cur: Seq<(Seq<char>, Seq<char>)>,
    es: Seq<WalkEntry>,
    i: int,
)
    requires
        0 <= i < es.len(),
        qualifies(es[i]),
    ensures
        has_key(load_seq(cur, es), es[i].path@),
{
    lemma_load_seq_keys(cur, es, es[i].path@);
}

/// A path that matches a denylist substring never gains a cache entry
/// during a walk, whatever the file holds.
pub proof fn lemma_denied_path_never_cached(
    cur: Seq<(Seq<char>, Seq<char>)>,
    es: Seq<WalkEntry>,
    p: Seq<char>,
)
    requires
        denied(p),
        !has_key(cur, p),
    ensures
        !has_key(load_seq(cur, es), p),
{
    lemma_load_seq_keys(cur, es, p);
}

} // verus!
