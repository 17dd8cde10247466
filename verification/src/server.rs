//! Server lifecycle logic: startup configuration checks, loading the
//! store from the hash file's lines, merging pending change journals
//! into it, and the operational single-hash probe. The runner reads
//! and writes the files and the network; the decisions live here.

use vstd::prelude::*;

use crate::codec::{pair_of_text, valid_hash_text, FormatError};
use crate::pair::HashPair;
use crate::store::{
    all_lines_valid, inserted_seq, lemma_inserted_seq_props, lemma_sorted_unique, parsed_pairs,
    sorted, HashStore,
};

verus! {

/// An invalid startup argument.
#[derive(PartialEq, Eq, Structural, Clone, Copy, Debug)]
pub enum ConfigError {
    InvalidTestHash,
}

/// The validated startup configuration the runner hands over.
pub struct Args {
    pub host: String,
    pub port: u16,
    pub log_level: String,
    pub hash_file: String,
    pub merge: bool,
    pub test: String,
}

/// What a merge did: how many pending hashes were new, and whether the
/// on-disk hash file must be rewritten (exactly when any were new).
pub struct MergeOutcome {
    pub inserted: usize,
    pub needs_rewrite: bool,
}

/// The server: its configuration and the one shared hash store.
pub struct Server {
    pub args: Args,
    pub store: HashStore,
}

impl Server {
    /// A server with an empty store, before any load.
    pub fn new(args: Args) -> (r: Server)
        ensures
            r.args == args,
            r.store.well_formed(),
            r.store@.len() == 0,
    {
        Server { args, store: HashStore::new() }
    }

    /// The command-line check that needs no filesystem: a probe hash,
    /// when given, must be exactly 32 characters. (That the hash file
    /// exists is checked by the runner, which owns the filesystem.)
    pub fn verify_cmdline(&self) -> (r: Result<(), ConfigError>)
        ensures
            r is Ok <==> (self.args.test@.len() == 0 || self.args.test@.len() == 32),
    {
        let len = self.args.test.as_str().unicode_len();
        if len != 0 && len != 32 {
            Err(ConfigError::InvalidTestHash)
        } else {
            Ok(())
        }
    }

    /// Loads the store from the hash file's lines. A malformed line
    /// fails the whole load and leaves the server unchanged.
    pub fn initialize(&mut self, lines: &Vec<String>) -> (r: Result<(), FormatError>)
        ensures
            r is Ok <==> all_lines_valid(lines@),
            r is Ok ==> final(self).store.well_formed(),
            r is Ok ==> final(self).store@.to_set() =~= parsed_pairs(lines@).to_set(),
            r is Err ==> final(self).store@ == old(self).store@,
            final(self).args == old(self).args,
    {
        match HashStore::load_from_text(lines) {
            Ok(st) => {
                self.store = st;
                Ok(())
            },
            Err(e) => Err(e),
        }
    }

    /// Loads the hash file's lines and folds every pending journal
    /// line into the store. A malformed line in either input fails the
    /// whole merge and leaves the server unchanged. On success the
    /// store holds the union, the outcome counts the pending hashes
    /// that were new, and the hash file needs rewriting exactly when
    /// that count is positive.
    pub fn merge_and_initialize(
        &mut self,
        hash_lines: &Vec<String>,
        change_lines: &Vec<String>,
    ) -> (r: Result<MergeOutcome, FormatError>)
        ensures
            r is Ok <==> (all_lines_valid(hash_lines@) && all_lines_valid(change_lines@)),
            r is Ok ==> final(self).store.well_formed(),
            r is Ok ==> final(self).store@.to_set() =~= parsed_pairs(hash_lines@).to_set().union(
                parsed_pairs(change_lines@).to_set(),
            ),
            r is Ok ==> (r->Ok_0.inserted as int) == parsed_pairs(change_lines@).to_set().difference(
                parsed_pairs(hash_lines@).to_set(),
            ).len(),
            r is Ok ==> (r->Ok_0.needs_rewrite <==> r->Ok_0.inserted > 0),
            r is Err ==> final(self).store@ == old(self).store@,
            final(self).args == old(self).args,
    {
        // Parse every pending journal line first.
        let mut pending: Vec<HashPair> = Vec::new();
        let mut i: usize = 0;
        while i < change_lines.len()
            invariant
                i <= change_lines@.len(),
                forall|k: int| 0 <= k < i ==> valid_hash_text(#[trigger] change_lines@[k]@),
                pending@ =~= parsed_pairs(change_lines@.take(i as int)),
            decreases change_lines@.len() - i,
        {
            let h = match crate::codec::parse_text_line(change_lines[i].as_str()) {
                Ok(h) => h,
                Err(e) => {
                    proof {
                        assert(!valid_hash_text(change_lines@[i as int]@));
                    }
                    return Err(e);
                },
            };
            pending.push(h);
            proof {
                assert(change_lines@.take(i as int + 1) =~= change_lines@.take(i as int).push(
                    change_lines@[i as int],
                ));
                assert(parsed_pairs(change_lines@.take(i as int + 1)) =~= parsed_pairs(
                    change_lines@.take(i as int),
                ).push(h));
            }
            i += 1;
        }
        proof {
            assert(change_lines@.take(change_lines@.len() as int) =~= change_lines@);
        }

        // Load the existing hash file.
        let mut st = match HashStore::load_from_text(hash_lines) {
            Ok(st) => st,
            Err(e) => {
                return Err(e);
            },
        };

        // Insert every pending hash that is not already present.
        let ghost loaded = st@.to_set();
        let inserted = st.bulk_update(&pending);
        proof {
            lemma_inserted_seq_props(loaded, pending@);
            inserted@.unique_seq_to_set();
            assert(inserted@.to_set() =~= pending@.to_set().difference(loaded));
        }
        let count = inserted.len();
        self.store = st;
        Ok(MergeOutcome { inserted: count, needs_rewrite: count > 0 })
    }

    /// The operational probe: parses the configured test hash and
    /// looks it up. Yields the position of the hash in the ascending
    /// sequence when present, nothing when absent, and fails exactly
    /// when the probe text is not a valid hash line.
    pub fn test(&self) -> (r: Result<Option<usize>, FormatError>)
        requires
            self.store.well_formed(),
        ensures
            r is Ok <==> valid_hash_text(self.args.test@),
            match r {
                Ok(found) => match found {
                    Some(i) => i < self.store@.len() && self.store@[i as int] == pair_of_text(
                        self.args.test@,
                    ),
                    None => !self.store@.contains(pair_of_text(self.args.test@)),
                },
                Err(_) => true,
            },
    {
        let h = match crate::codec::parse_text_line(self.args.test.as_str()) {
            Ok(h) => h,
            Err(e) => {
                return Err(e);
            },
        };
        match self.store.search(&h) {
            Ok(i) => Ok(Some(i)),
            Err(_) => Ok(None),
        }
    }
}

/// The capacity hint for loading a hash file: one line per 33 bytes
/// (32 hash characters and a newline), capped at the address space.
pub fn line_count_hint(size: u64) -> (r: usize)
    ensures
        size / 33 <= usize::MAX ==> r as int == (size as int) / 33,
        (size / 33 > usize::MAX) ==> r == usize::MAX,
{
    let q = size / 33;
    if q > (usize::MAX as u64) {
        usize::MAX
    } else {
        q as usize
    }
}

/// The path of the byte-for-byte backup written before a merge
/// rewrites the hash file.
pub fn backup_file_name(hash_file: &str) -> (r: String)
    ensures
        r@ == hash_file@ + ".bak"@,
{
    let mut s = String::from_str(hash_file);
    s.append(".bak");
    s
}

/// A merge that finds no pending journal hashes loads exactly what a
/// plain load of the same hash file loads: with nothing to add, the
/// sorted duplicate-free store over the same set is the same sequence.
pub proof fn lemma_merge_without_pending_is_load(merged: Seq<HashPair>, loaded: Seq<HashPair>)
    requires
        sorted(merged),
        sorted(loaded),
        merged.to_set() == loaded.to_set().union(Set::<HashPair>::empty()),
    ensures
        merged == loaded,
{
    assert(loaded.to_set().union(Set::<HashPair>::empty()) =~= loaded.to_set());
    lemma_sorted_unique(merged, loaded);
}

/// A merge whose pending hashes are all already present inserts
/// nothing: the store keeps its contents and the hash file needs no
/// rewrite.
pub proof fn lemma_merge_of_present_inserts_nothing(
    present: Set<HashPair>,
    pending: Set<HashPair>,
)
    requires
        pending.subset_of(present),
    ensures
        pending.difference(present) =~= Set::<HashPair>::empty(),
        pending.difference(present).len() == 0,
        present.union(pending) =~= present,
{
    assert(pending.difference(present) =~= Set::<HashPair>::empty());
}

} // verus!
