//! The file cache: a write-once map from path to decoded text content.
//!
//! The cache is modelled as a sequence of `(path, content)` pairs in
//! insertion order, with pairwise-distinct paths. A key, once present,
//! keeps its content for the life of the cache.

use vstd::prelude::*;
use vstd::string::*;
use crate::text;

verus! {

/// Why a file could not be cached.
#[derive(Clone, Copy, Debug, PartialEq, Eq, Structural)]
pub enum CacheError {
    /// The file could not be opened or read.
    IOError,
    /// The file's bytes are not valid text.
    InvalidEncoding,
}

/// One cached file: a path and the text that was decoded from it.
pub struct CacheEntry {
    pub path: String,
    pub content: String,
}

/// An in-memory cache of decoded text files, keyed by path.
pub struct FileCache {
    entries: Vec<CacheEntry>,
}

impl View for FileCache {
    type V = Seq<(Seq<char>, Seq<char>)>;

    closed spec fn view(&self) -> Seq<(Seq<char>, Seq<char>)> {
        self.entries@.map(|i: int, e: CacheEntry| (e.path@, e.content@))
    }
}

/// True when some pair in `s` has key `p`.
pub open spec fn has_key(s: Seq<(Seq<char>, Seq<char>)>, p: Seq<char>) -> bool {
    exists|i: int| 0 <= i < s.len() && s[i].0 == p
}

/// The content paired with key `p` in `s`; meaningful when `p` occurs once.
pub open spec fn value_of(s: Seq<(Seq<char>, Seq<char>)>, p: Seq<char>) -> Seq<char>
    recommends
        has_key(s, p),
{
    s[choose|i: int| 0 <= i < s.len() && s[i].0 == p].1
}

impl FileCache {
    /// Paths are pairwise distinct: each key was written exactly once.
    pub open spec fn wf(&self) -> bool {
        forall|i: int, j: int| 0 <= i < j < self@.len() ==> self@[i].0 != self@[j].0
    }

    /// An empty cache.
    pub fn new() -> (c: FileCache)
        ensures
            c@ =~= Seq::<(Seq<char>, Seq<char>)>::empty(),
            c.wf(),
    {
        FileCache { entries: Vec::new() }
    }

    /// The index of the entry for `path`, or `None` when no entry has it.
    fn find_index(&self, path: &str) -> (r: Option<usize>)
        ensures
            r matches Some(i) ==> 0 <= i < self@.len() && self@[i as int].0 == path@,
            r is None ==> !has_key(self@, path@),
    {
        let n = self.entries.len();
        let mut i: usize = 0;
        while i < n
            invariant
                n == self@.len(),
                0 <= i <= n,
                forall|k: int| 0 <= k < i ==> self@[k].0 != path@,
            decreases n - i,
        {
            if text::str_eq(self.entries[i].path.as_str(), path) {
                return Some(i);
            }
            i = i + 1;
        }
        None
    }

    /// Returns the cached content for `path` if an entry exists, without
    /// looking at `data`; otherwise decodes `data` — the bytes the caller
    /// read for `path`, or `None` when the read itself failed — and caches
    /// the text under `path` on success. On failure nothing is inserted:
    /// a read failure is reported as `IOError`, bytes that are not valid
    /// UTF-8 as `InvalidEncoding`.
    pub fn get_or_load(&mut self, path: &str, data: Option<&Vec<u8>>) -> (r: Result<
        String,
        CacheError,
    >)
        requires
            old(self).wf(),
        ensures
            final(self).wf(),
            has_key(old(self)@, path@) ==> {
                &&& final(self)@ == old(self)@
                &&& r matches Ok(c) && c@ == value_of(old(self)@, path@)
            },
            !has_key(old(self)@, path@) && data is None ==> {
                &&& final(self)@ == old(self)@
                &&& r matches Err(e) && e == CacheError::IOError
            },
            data matches Some(b) ==> {
                &&& !has_key(old(self)@, path@) && vstd::utf8::valid_utf8(b@) ==> {
                    &&& final(self)@ == old(self)@.push((path@, vstd::utf8::decode_utf8(b@)))
                    &&& r matches Ok(c) && c@ == vstd::utf8::decode_utf8(b@)
                }
                &&& !has_key(old(self)@, path@) && !vstd::utf8::valid_utf8(b@) ==> {
                    &&& final(self)@ == old(self)@
                    &&& r matches Err(e) && e == CacheError::InvalidEncoding
                }
            },
    {
        if let Some(i) = self.find_index(path) {
            proof {
                let j = choose|k: int| 0 <= k < self@.len() && self@[k].0 == path@;
                assert(self@[j].0 == path@);
                assert(j == i as int);
            }
            return Ok(self.entries[i].content.clone());
        }
        match data {
            None => Err(CacheError::IOError),
            Some(bytes) => {
                match text::decode_utf8_bytes(bytes) {
                    Some(content) => {
                        let entry = CacheEntry { path: path.to_owned(), content: content.clone() };
                        let ghost before = self@;
                        self.entries.push(entry);
                        proof {
                            assert(self@ =~= before.push((path@, content@)));
                        }
                        Ok(content)
                    },
                    None => Err(CacheError::InvalidEncoding),
                }
            },
        }
    }

    /// All cached paths, in insertion order.
    pub fn list_entries(&self) -> (r: Vec<String>)
        ensures
            r@.len() == self@.len(),
            forall|i: int| 0 <= i < r@.len() ==> r@[i]@ == self@[i].0,
    {
        let n = self.entries.len();
        let mut out: Vec<String> = Vec::new();
        let mut i: usize = 0;
        while i < n
            invariant
                n == self@.len(),
                0 <= i <= n,
                out@.len() == i,
                forall|k: int| 0 <= k < i ==> out@[k]@ == self@[k].0,
            decreases n - i,
        {
            out.push(self.entries[i].path.clone());
            i = i + 1;
        }
        out
    }

    /// True when the entry with key-content pair `kv` answers a lookup for
    /// `name`: its file-name component equals the whitespace-trimmed `name`
    /// up to case.
    pub open spec fn name_matches(kv: (Seq<char>, Seq<char>), name: Seq<char>) -> bool {
        text::lower_of(text::file_name_of(kv.0)) == text::lower_of(text::trimmed(name))
    }

    /// Looks up a file by bare name: trims whitespace from `name`, then
    /// compares it case-insensitively against the file-name component of
    /// every cached path. Returns the path and content of the first match
    /// in insertion order, or `None` when no cached path matches.
    pub fn find_entry_by_name(&self, name: &str) -> (r: Option<(String, String)>)
        ensures
            r is None ==> forall|i: int| 0 <= i < self@.len()
                ==> !Self::name_matches(self@[i], name@),
            r matches Some(pc) ==> exists|i: int|
                {
                    &&& 0 <= i < self@.len()
                    &&& Self::name_matches(self@[i], name@)
                    &&& (pc.0@, pc.1@) == self@[i]
                    &&& (forall|j: int| 0 <= j < i ==> !Self::name_matches(self@[j], name@))
                },
    {
        let query = text::lowercase(text::trim_str(name).as_str());
        let n = self.entries.len();
        let mut i: usize = 0;
        while i < n
            invariant
                n == self@.len(),
                0 <= i <= n,
                query@ == text::lower_of(text::trimmed(name@)),
                forall|k: int| 0 <= k < i ==> !Self::name_matches(self@[k], name@),
            decreases n - i,
        {
            let fname = text::file_name(self.entries[i].path.as_str());
            let low = text::lowercase(fname.as_str());
            if text::str_eq(low.as_str(), query.as_str()) {
                proof {
                    let ii = i as int;
                    assert(self@[ii] == (self.entries@[ii].path@, self.entries@[ii].content@));
                    assert(Self::name_matches(self@[ii], name@));
                }
                return Some((self.entries[i].path.clone(), self.entries[i].content.clone()));
            }
            i = i + 1;
        }
        None
    }

    /// The content half of [`Self::find_entry_by_name`]: the cached text of
    /// the first entry whose file name equals the trimmed `name` up to
    /// case, or `None` when no cached path matches.
    pub fn find_by_name(&self, name: &str) -> (r: Option<String>)
        ensures
            r is None ==> forall|i: int| 0 <= i < self@.len()
                ==> !Self::name_matches(self@[i], name@),
            r matches Some(c) ==> exists|i: int|
                {
                    &&& 0 <= i < self@.len()
                    &&& Self::name_matches(self@[i], name@)
                    &&& c@ == self@[i].1
                    &&& (forall|j: int| 0 <= j < i ==> !Self::name_matches(self@[j], name@))
                },
    {
        match self.find_entry_by_name(name) {
            Some(pc) => Some(pc.1),
            None => None,
        }
    }
}

} // verus!
