//! The build cache: for each source file the time it was last compiled at,
//! and from that the files that have to be compiled again.

use crate::string_map::StringMap;
use crate::text::views;
use vstd::prelude::*;

verus! {

/// What the cache knows of one source file.
#[derive(Debug)]
pub struct BuildCacheEntry {
    pub source_file: String,
    /// Seconds since the epoch at which the file was modified last.
    pub last_modified: u64,
    pub output_file: String,
}

/// The cache of a project's build.
#[derive(Debug)]
pub struct BuildCache {
    pub entries: StringMap<BuildCacheEntry>,
    pub cache_file: String,
}

/// What the file system says of a source file's modification time.
#[derive(Debug, Clone, Copy, PartialEq, Eq, Structural)]
pub enum Modified {
    /// There is no such file.
    Missing,
    /// The file is there, but its time cannot be told.
    Unknown,
    /// Seconds since the epoch.
    At(u64),
}

/// A source file with what the file system says of it.
#[derive(Debug)]
pub struct SourceState {
    pub path: String,
    pub modified: Modified,
}

/// Whether a file has to be compiled: one that the cache does not know
/// always has; one that it knows has if it was modified since, or if its
/// time cannot be told; a file that is not there any more has not.
pub open spec fn stale(cached: Option<u64>, modified: Modified) -> bool {
    match cached {
        None => true,
        Some(then) => match modified {
            Modified::Missing => false,
            Modified::Unknown => true,
            Modified::At(now) => now > then,
        },
    }
}

/// The time at which the cache saw `path` last.
pub open spec fn cached_time(entries: Map<Seq<char>, BuildCacheEntry>, path: Seq<char>) -> Option<
    u64,
> {
    if entries.contains_key(path) {
        Some(entries[path].last_modified)
    } else {
        None
    }
}

/// The paths of the files that have to be compiled, in their order.
pub open spec fn stale_files(
    entries: Map<Seq<char>, BuildCacheEntry>,
    sources: Seq<SourceState>,
) -> Seq<Seq<char>>
    decreases sources.len(),
{
    if sources.len() == 0 {
        Seq::empty()
    } else {
        let before = stale_files(entries, sources.drop_last());
        let last = sources.last();
        if stale(cached_time(entries, last.path@), last.modified) {
            before.push(last.path@)
        } else {
            before
        }
    }
}

impl BuildCache {
    /// A cache that is kept in `cache_file` and holds `entries`.
    pub fn with_entries(cache_file: String, entries: StringMap<BuildCacheEntry>) -> (c: Self)
        ensures
            c.cache_file == cache_file,
            c.entries == entries,
    {
        BuildCache { entries, cache_file }
    }

    /// Takes note that `source_file` was compiled as it was at
    /// `modified_secs`.
    pub fn record(&mut self, source_file: &str, modified_secs: u64)
        ensures
            final(self).cache_file == old(self).cache_file,
            final(self).entries@.dom() == old(self).entries@.dom().insert(source_file@),
            final(self).entries@[source_file@].source_file@ == source_file@,
            final(self).entries@[source_file@].last_modified == modified_secs,
            final(self).entries@[source_file@].output_file@.len() == 0,
            forall|k: Seq<char>|
                k != source_file@ && old(self).entries@.contains_key(k) ==> final(self).entries@[k]
                    == old(self).entries@[k],
    {
        let entry = BuildCacheEntry {
            source_file: source_file.to_owned(),
            last_modified: modified_secs,
            output_file: String::new(),
        };
        self.entries.insert(source_file.to_owned(), entry);
        proof {
            assert(self.entries@.dom() =~= old(self).entries@.dom().insert(source_file@));
        }
    }

    /// Whether `source_file`, modified as `modified` says, has to be
    /// compiled.
    pub fn needs_compile(&self, source_file: &str, modified: Modified) -> (b: bool)
        ensures
            b == stale(cached_time(self.entries@, source_file@), modified),
    {
        match self.entries.get(source_file) {
            Some(cached) => match modified {
                Modified::Missing => false,
                Modified::Unknown => true,
                Modified::At(now) => now > cached.last_modified,
            },
            None => true,
        }
    }

    /// The files that have to be compiled.
    pub fn files_to_compile(&self, sources: &Vec<SourceState>) -> (r: Vec<String>)
        ensures
            views(r@) == stale_files(self.entries@, sources@),
    {
        let mut r: Vec<String> = Vec::new();
        let mut i: usize = 0;
        proof {
            assert(views(r@) =~= stale_files(self.entries@, sources@.take(0)));
        }
        while i < sources.len()
            invariant
                i <= sources.len(),
                views(r@) == stale_files(self.entries@, sources@.take(i as int)),
            decreases sources.len() - i,
        {
            proof {
                assert(sources@.take(i + 1).drop_last() == sources@.take(i as int));
                assert(sources@.take(i + 1).last() == sources@[i as int]);
            }
            if self.needs_compile(sources[i].path.as_str(), sources[i].modified) {
                proof {
                    crate::text::lemma_views_push(r@, sources@[i as int].path);
                }
                r.push(sources[i].path.clone());
            }
            i += 1;
        }
        proof {
            assert(sources@.take(sources.len() as int) == sources@);
        }
        r
    }

    /// Forgets every file.
    pub fn clear(&mut self)
        ensures
            final(self).cache_file == old(self).cache_file,
            final(self).entries@ == Map::<Seq<char>, BuildCacheEntry>::empty(),
    {
        self.entries.clear();
    }
}


impl Clone for BuildCacheEntry {
    fn clone(&self) -> (r: Self)
        ensures
            r == *self,
    {
        BuildCacheEntry {
            source_file: self.source_file.clone(),
            last_modified: self.last_modified,
            output_file: self.output_file.clone(),
        }
    }
}

} // verus!
