//! One generation of the world: its player records, its uptime and the death
//! record that closed it, if any.
use vstd::prelude::*;

use crate::entries::{
    entries_map, find_entry, has_key, keys_unique, lemma_entry_in_map, lemma_push_entry,
    lemma_update_entry,
};
use crate::error::DatabaseError;
use crate::identity::Profile;
use crate::layout::{
    file_role, is_record_file, lemma_record_file_name, record_file_name,
    record_id_of, FileRole,
};
use crate::stats::{Global, Info, PlayerStats, StatField};

verus! {

/// What the caller found in one file of a generation directory, read and
/// parsed according to its `file_role`.
#[derive(Debug)]
pub enum StoredContent {
    /// A record file, parsed.
    Stats(PlayerStats),
    /// The file was read but did not parse as what its role calls for.
    Unparsable,
    /// The file could not be read; the message says why.
    Unread(String),
    /// The file was not read, its role being `Other`.
    Skipped,
}

/// One file of a generation directory.
#[derive(Debug)]
pub struct StoredFile {
    pub name: String,
    pub content: StoredContent,
}

/// What the caller found in the metadata file.
#[derive(Debug)]
pub enum MetadataFile {
    Parsed(Global),
    Missing,
    Unparsable,
    Unread(String),
}

/// The records read so far, or the error that stopped loading.
pub open spec fn load_step(
    acc: Result<Map<Seq<char>, PlayerStats>, DatabaseError>,
    f: StoredFile,
) -> Result<Map<Seq<char>, PlayerStats>, DatabaseError> {
    match acc {
        Err(e) => Err(e),
        Ok(m) => if is_record_file(f.name@) {
            match f.content {
                StoredContent::Stats(s) => Ok(m.insert(record_id_of(f.name@), s)),
                StoredContent::Unread(msg) => Err(DatabaseError::IOError(msg)),
                _ => Err(DatabaseError::RecordParseError(f.name)),
            }
        } else {
            Ok(m)
        },
    }
}

/// Loading reads the files in order: each `.json` file adds its record under
/// the id that its name gives, other files are passed over, and the first
/// `.json` file that cannot be read or parsed fails the load.
pub open spec fn load_spec(files: Seq<StoredFile>) -> Result<Map<Seq<char>, PlayerStats>, DatabaseError>
    decreases files.len(),
{
    if files.len() == 0 {
        Ok(Map::empty())
    } else {
        load_step(load_spec(files.drop_last()), files.last())
    }
}

/// The uptime that the metadata file gives, or the error it causes.
pub open spec fn metadata_uptime(m: MetadataFile) -> Result<u64, DatabaseError> {
    match m {
        MetadataFile::Parsed(g) => Ok(g.uptime),
        MetadataFile::Missing => Ok(0),
        MetadataFile::Unparsable => Err(DatabaseError::MetadataParseError),
        MetadataFile::Unread(msg) => Err(DatabaseError::IOError(msg)),
    }
}

/// One generation: its records by id, in order of creation, and its uptime.
/// The death record that closes a generation is written to its directory, not
/// held here.
#[derive(Debug)]
pub struct World {
    player_stats: Vec<(String, PlayerStats)>,
    uptime: u64,
}

impl World {
    pub closed spec fn wf(&self) -> bool {
        keys_unique(self.player_stats@)
    }

    /// The generation's uptime.
    pub closed spec fn uptime_of(&self) -> u64 {
        self.uptime
    }

    /// The records by id.
    pub closed spec fn records(&self) -> Map<Seq<char>, PlayerStats> {
        entries_map(self.player_stats@)
    }

    /// The number of records.
    pub closed spec fn record_count(&self) -> nat {
        self.player_stats@.len()
    }

    /// The id of the `i`th record, in order of creation.
    pub closed spec fn record_id(&self, i: int) -> Seq<char> {
        self.player_stats@[i].0@
    }

    /// The `i`th record, in order of creation.
    pub closed spec fn record_at(&self, i: int) -> PlayerStats {
        self.player_stats@[i].1
    }

    /// The records in order are exactly the map's entries.
    pub proof fn lemma_record_order(&self)
        requires
            self.wf(),
        ensures
            self.records().dom().finite(),
            self.records().len() == self.record_count(),
            forall|i: int|
                0 <= i < self.record_count() ==> self.records().contains_key(
                    #[trigger] self.record_id(i),
                ) && self.records()[self.record_id(i)] == self.record_at(i),
            forall|k: Seq<char>|
                #[trigger] self.records().contains_key(k) ==> exists|i: int|
                    0 <= i < self.record_count() && self.record_id(i) == k,
    {
        assert forall|i: int| 0 <= i < self.record_count() implies self.records().contains_key(
            #[trigger] self.record_id(i),
        ) && self.records()[self.record_id(i)] == self.record_at(i) by {
            lemma_entry_in_map(self.player_stats@, i);
        }
        assert forall|k: Seq<char>| #[trigger] self.records().contains_key(k) implies exists|i: int|
            0 <= i < self.record_count() && self.record_id(i) == k by {
            let i = choose|i: int| 0 <= i < self.player_stats@.len() && #[trigger] self.player_stats@[i].0@ == k;
            assert(self.record_id(i) == k);
        }
        lemma_map_len(self.player_stats@);
    }

    /// What persisting writes, loading reads back: files named and filled as
    /// `record_files` gives them load into the same records.
    pub proof fn lemma_persist_load_round_trip(&self, files: Seq<StoredFile>)
        requires
            self.wf(),
            files.len() == self.record_count(),
            forall|i: int|
                0 <= i < files.len() ==> (#[trigger] files[i]).name@ == record_file_name(
                    self.record_id(i),
                ) && files[i].content == StoredContent::Stats(self.record_at(i)),
        ensures
            load_spec(files) == Ok::<Map<Seq<char>, PlayerStats>, DatabaseError>(self.records()),
    {
        self.lemma_persisted_prefix(files, files.len() as int);
        assert(files.take(files.len() as int) =~= files);
        assert(self.player_stats@.take(files.len() as int) =~= self.player_stats@);
    }

    proof fn lemma_persisted_prefix(&self, files: Seq<StoredFile>, j: int)
        requires
            self.wf(),
            0 <= j <= files.len(),
            files.len() == self.record_count(),
            forall|i: int|
                0 <= i < files.len() ==> (#[trigger] files[i]).name@ == record_file_name(
                    self.record_id(i),
                ) && files[i].content == StoredContent::Stats(self.record_at(i)),
        ensures
            keys_unique(self.player_stats@.take(j)),
            load_spec(files.take(j)) == Ok::<Map<Seq<char>, PlayerStats>, DatabaseError>(
                entries_map(self.player_stats@.take(j)),
            ),
        decreases j,
    {
        let ps = self.player_stats@;
        if j == 0 {
            assert(entries_map(ps.take(0)) =~= Map::<Seq<char>, PlayerStats>::empty());
        } else {
            self.lemma_persisted_prefix(files, j - 1);
            let prev = ps.take(j - 1);
            assert(files.take(j).drop_last() =~= files.take(j - 1));
            assert(files.take(j).last() == files[j - 1]);
            let id = self.record_id(j - 1);
            lemma_record_file_name(id);
            assert(!has_key(prev, ps[j - 1].0@)) by {
                if has_key(prev, ps[j - 1].0@) {
                    let k = choose|k: int| 0 <= k < prev.len() && #[trigger] prev[k].0@ == ps[j - 1].0@;
                    assert(prev[k] == ps[k]);
                }
            }
            lemma_push_entry(prev, ps[j - 1]);
            assert(prev.push(ps[j - 1]) =~= ps.take(j));
        }
    }

    /// A generation without records or uptime.
    pub fn new() -> (r: World)
        ensures
            r.wf(),
            r.records() == Map::<Seq<char>, PlayerStats>::empty(),
            r.record_count() == 0,
            r.uptime_of() == 0,
    {
        let r = World { player_stats: Vec::new(), uptime: 0 };
        assert(r.records() =~= Map::<Seq<char>, PlayerStats>::empty());
        r
    }

    /// Sets the record of `id`, adding it where there is none.
    fn put_record(&mut self, id: String, stats: PlayerStats)
        requires
            old(self).wf(),
        ensures
            final(self).wf(),
            final(self).records() == old(self).records().insert(id@, stats),
            final(self).uptime_of() == old(self).uptime_of(),
    {
        match find_entry(&self.player_stats, id.as_str()) {
            Some(i) => {
                let ghost before = self.player_stats@;
                let (key, _) = self.player_stats.remove(i);
                self.player_stats.insert(i, (key, stats));
                proof {
                    assert(self.player_stats@ =~= before.update(i as int, (before[i as int].0, stats)));
                    lemma_update_entry(before, i as int, stats);
                }
            },
            None => {
                proof {
                    lemma_push_entry(self.player_stats@, (id, stats));
                }
                self.player_stats.push((id, stats));
            },
        }
    }

    /// Builds a generation from the files of its directory (`None` where the
    /// directory does not exist) and the metadata file.
    pub fn from(path: &str, listing: Option<Vec<StoredFile>>, metadata: MetadataFile) -> (r: Result<
        World,
        DatabaseError,
    >)
        ensures
            match listing {
                None => r matches Err(DatabaseError::DirectoryNotFound(p)) && p@ == path@,
                Some(files) => match load_spec(files@) {
                    Err(e) => r == Err::<World, DatabaseError>(e),
                    Ok(m) => match metadata_uptime(metadata) {
                        Err(e) => r == Err::<World, DatabaseError>(e),
                        Ok(u) => r matches Ok(w) && w.wf() && w.records() == m && w.uptime_of() == u,
                    },
                },
            },
    {
        let files = match listing {
            None => {
                return Err(DatabaseError::DirectoryNotFound(String::from_str(path)));
            },
            Some(files) => files,
        };
        let mut world = World::new();
        let mut i: usize = 0;
        while i < files.len()
            invariant
                i <= files@.len(),
                listing == Some(files),
                world.wf(),
                world.uptime == 0,
                load_spec(files@.take(i as int)) == Ok::<Map<Seq<char>, PlayerStats>, DatabaseError>(
                    world.records(),
                ),
            decreases files@.len() - i,
        {
            let f = &files[i];
            proof {
                assert(files@.take(i + 1).drop_last() =~= files@.take(i as int));
                assert(files@.take(i + 1).last() == files@[i as int]);
            }
            match file_role(f.name.as_str()) {
                FileRole::Record(id) => match &f.content {
                    StoredContent::Stats(s) => {
                        world.put_record(id, s.duplicate());
                    },
                    StoredContent::Unread(msg) => {
                        proof {
                            lemma_load_error_stays(files@, i + 1);
                        }
                        return Err(DatabaseError::IOError(msg.clone()));
                    },
                    _ => {
                        proof {
                            lemma_load_error_stays(files@, i + 1);
                        }
                        return Err(DatabaseError::RecordParseError(f.name.clone()));
                    },
                },
                FileRole::Other => {},
            }
            i = i + 1;
        }
        proof {
            assert(files@.take(files@.len() as int) =~= files@);
        }
        match metadata {
            MetadataFile::Parsed(g) => {
                world.uptime = g.uptime;
            },
            MetadataFile::Missing => {},
            MetadataFile::Unparsable => {
                return Err(DatabaseError::MetadataParseError);
            },
            MetadataFile::Unread(msg) => {
                return Err(DatabaseError::IOError(msg));
            },
        }
        Ok(world)
    }

    /// The generation's uptime.
    pub fn uptime(&self) -> (r: u64)
        ensures
            r == self.uptime_of(),
    {
        self.uptime
    }

    /// Sets the generation's uptime.
    pub fn set_uptime(&mut self, uptime: u64)
        ensures
            final(self).uptime_of() == uptime,
            final(self).records() == old(self).records(),
            final(self).wf() == old(self).wf(),
            final(self).record_count() == old(self).record_count(),
    {
        self.uptime = uptime;
    }

    /// The record of `id`, if it exists.
    pub fn stats_of(&self, id: &str) -> (r: Option<&PlayerStats>)
        requires
            self.wf(),
        ensures
            match r {
                Some(s) => self.records().contains_key(id@) && *s == self.records()[id@],
                None => !self.records().contains_key(id@),
            },
    {
        match find_entry(&self.player_stats, id) {
            Some(i) => {
                proof {
                    lemma_entry_in_map(self.player_stats@, i as int);
                }
                Some(&self.player_stats[i].1)
            },
            None => None,
        }
    }

    /// Makes sure that `id` has a record. A missing one is created from the
    /// profile: its display name, its decoded skin URL and zero counters. Where
    /// the skin URL does not decode, nothing is created and
    /// `IdentityDecodeError` is returned. An existing record stays as it is.
    pub fn get_player_stats(&mut self, id: &str, profile: &Profile) -> (r: Result<(), DatabaseError>)
        requires
            old(self).wf(),
        ensures
            final(self).wf(),
            final(self).uptime_of() == old(self).uptime_of(),
            old(self).records().contains_key(id@) ==> r is Ok && final(self).records() == old(
                self,
            ).records(),
            !old(self).records().contains_key(id@) ==> match profile.skin_url_spec() {
                Some(url) => r is Ok && final(self).records() == old(self).records().insert(
                    id@,
                    final(self).records()[id@],
                ) && final(self).records()[id@].display_name == profile.name
                    && final(self).records()[id@].skin_url@ == url
                    && final(self).records()[id@].is_fresh(),
                None => r == Err::<(), DatabaseError>(DatabaseError::IdentityDecodeError)
                    && final(self).records() == old(self).records(),
            },
    {
        if self.stats_of(id).is_some() {
            return Ok(());
        }
        let url = match profile.get_skin_url() {
            Ok(url) => url,
            Err(e) => {
                return Err(e);
            },
        };
        let stats = PlayerStats::new(profile.name.clone(), url);
        self.put_record(String::from_str(id), stats);
        Ok(())
    }

    /// Adds `amount` to one counter of `id`'s record: `PlayerNotFound` where
    /// there is no record, `Overflow` (changing nothing) where the sum does not
    /// fit. A generation only holds records; creating a missing one from the
    /// player's profile first is the store's step (`Database::apply_stat`).
    pub fn apply_delta(&mut self, id: &str, field: StatField, amount: u64) -> (r: Result<
        (),
        DatabaseError,
    >)
        requires
            old(self).wf(),
        ensures
            final(self).wf(),
            final(self).uptime_of() == old(self).uptime_of(),
            !old(self).records().contains_key(id@) ==> r == Err::<(), DatabaseError>(
                DatabaseError::PlayerNotFound,
            ) && final(self).records() == old(self).records(),
            old(self).records().contains_key(id@) && old(self).records()[id@].can_add(field, amount)
                ==> r is Ok && final(self).records() == old(self).records().insert(
                id@,
                old(self).records()[id@].added(field, amount),
            ),
            old(self).records().contains_key(id@) && !old(self).records()[id@].can_add(
                field,
                amount,
            ) ==> r == Err::<(), DatabaseError>(DatabaseError::Overflow) && final(self).records()
                == old(self).records(),
    {
        match self.stats_of(id) {
            None => Err(DatabaseError::PlayerNotFound),
            Some(current) => {
                let mut stats = current.duplicate();
                let r = stats.add(field, amount);
                if r.is_ok() {
                    self.put_record(String::from_str(id), stats);
                }
                r
            },
        }
    }

    /// Adds every delta of `info` to `id`'s record, all or none:
    /// `PlayerNotFound` where there is no record, `Overflow` (changing nothing)
    /// where a sum does not fit. Creating a missing record first is the
    /// store's step (`Database::merge_stats`).
    pub fn merge_stats(&mut self, id: &str, info: &Info) -> (r: Result<(), DatabaseError>)
        requires
            old(self).wf(),
        ensures
            final(self).wf(),
            final(self).uptime_of() == old(self).uptime_of(),
            !old(self).records().contains_key(id@) ==> r == Err::<(), DatabaseError>(
                DatabaseError::PlayerNotFound,
            ) && final(self).records() == old(self).records(),
            old(self).records().contains_key(id@) && old(self).records()[id@].can_merge(info) ==> r is Ok
                && final(self).records() == old(self).records().insert(
                id@,
                old(self).records()[id@].merged(info),
            ),
            old(self).records().contains_key(id@) && !old(self).records()[id@].can_merge(info)
                ==> r == Err::<(), DatabaseError>(DatabaseError::Overflow) && final(self).records()
                == old(self).records(),
    {
        match self.stats_of(id) {
            None => Err(DatabaseError::PlayerNotFound),
            Some(current) => {
                let mut stats = current.duplicate();
                let r = stats.merge(info);
                if r.is_ok() {
                    self.put_record(String::from_str(id), stats);
                }
                r
            },
        }
    }

    /// The file name and contents of every record, in order: what persisting
    /// the generation writes into its directory.
    pub fn record_files(&self) -> (r: Vec<(String, PlayerStats)>)
        ensures
            r@.len() == self.record_count(),
            forall|i: int|
                0 <= i < r@.len() ==> (#[trigger] r@[i]).0@ == record_file_name(self.record_id(i))
                    && r@[i].1 == self.record_at(i),
    {
        let mut out: Vec<(String, PlayerStats)> = Vec::new();
        let mut i: usize = 0;
        while i < self.player_stats.len()
            invariant
                i <= self.player_stats@.len(),
                out@.len() == i,
                forall|j: int|
                    0 <= j < i ==> (#[trigger] out@[j]).0@ == record_file_name(self.record_id(j))
                        && out@[j].1 == self.record_at(j),
            decreases self.player_stats@.len() - i,
        {
            let entry = &self.player_stats[i];
            let mut name = entry.0.clone();
            name.append(".json");
            out.push((name, entry.1.duplicate()));
            i = i + 1;
        }
        out
    }

    /// Every record, in order of creation.
    pub fn all_stats(&self) -> (r: Vec<PlayerStats>)
        ensures
            r@.len() == self.record_count(),
            forall|i: int| 0 <= i < r@.len() ==> #[trigger] r@[i] == self.record_at(i),
    {
        let mut out: Vec<PlayerStats> = Vec::new();
        let mut i: usize = 0;
        while i < self.player_stats.len()
            invariant
                i <= self.player_stats@.len(),
                out@.len() == i,
                forall|j: int| 0 <= j < i ==> #[trigger] out@[j] == self.record_at(j),
            decreases self.player_stats@.len() - i,
        {
            out.push(self.player_stats[i].1.duplicate());
            i = i + 1;
        }
        out
    }
}

/// Once a file fails the load, the files after it change nothing.
proof fn lemma_load_error_stays(files: Seq<StoredFile>, j: int)
    requires
        0 <= j <= files.len(),
        load_spec(files.take(j)) is Err,
    ensures
        load_spec(files) == load_spec(files.take(j)),
    decreases files.len() - j,
{
    if j == files.len() {
        assert(files.take(j) =~= files);
    } else {
        assert(files.take(j + 1).drop_last() =~= files.take(j));
        lemma_load_error_stays(files, j + 1);
    }
}

/// The map of a list with unique ids has as many entries as the list.
proof fn lemma_map_len(s: Seq<(String, PlayerStats)>)
    requires
        keys_unique(s),
    ensures
        entries_map(s).dom().finite(),
        entries_map(s).len() == s.len(),
    decreases s.len(),
{
    if s.len() == 0 {
        assert(entries_map(s) =~= Map::<Seq<char>, PlayerStats>::empty());
    } else {
        let p = s.drop_last();
        assert(keys_unique(p));
        assert(!has_key(p, s.last().0@)) by {
            if has_key(p, s.last().0@) {
                let i = choose|i: int| 0 <= i < p.len() && #[trigger] p[i].0@ == s.last().0@;
                assert(s[i] == p[i]);
            }
        }
        lemma_map_len(p);
        lemma_push_entry(p, s.last());
        assert(p.push(s.last()) =~= s);
    }
}

} // verus!
