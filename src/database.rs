//! The store: the active generation, how many generations exist, which one is
//! active, and the identity cache.
//!
//! Every operation that touches the disk is split in two. A function of the
//! store says what to read or write; the caller does it and hands the outcome
//! to a second function, which decides the new state. Holding the store's lock
//! across both halves makes the operation atomic.
use vstd::prelude::*;

use crate::error::DatabaseError;
use crate::identity::{pending_after, next_step, Profile, ProfileCache, ResolveStep};
use crate::layout::{
    death_file_path, death_path, dir_name_kind, generation_path, lemma_dir_name_round_trip,
    parse_world_dir_name, record_file_name, record_path, world_path, DirName,
    generation_dir_name,
};
use crate::stats::{Global, Info, KillInfo, PlayerStats, StatField};
use crate::world::World;

verus! {

/// One entry of the `worlds` directory.
#[derive(Debug)]
pub struct DirEntry {
    pub name: String,
    pub is_dir: bool,
}

/// What a file to be written holds.
#[derive(Debug)]
pub enum FileBody {
    Stats(PlayerStats),
    Death(KillInfo),
    Global(Global),
}

/// A file to be written, its path relative to the store's root.
#[derive(Debug)]
pub struct FileWrite {
    pub path: String,
    pub body: FileBody,
}

/// How a stat update went.
#[derive(Debug, Clone, Copy, PartialEq, Eq, Structural)]
pub enum StatUpdate {
    /// The update was applied.
    Applied,
    /// The player has no record yet and no profile is cached: resolve the id
    /// through `begin_resolve` and `complete_resolve`, then try again.
    IdentityNeeded,
}

/// The highest generation ordinal among the entries, or the error that a
/// malformed generation directory causes.
pub open spec fn highest_generation(entries: Seq<DirEntry>) -> Result<u64, DatabaseError>
    decreases entries.len(),
{
    if entries.len() == 0 {
        Ok(0)
    } else {
        match highest_generation(entries.drop_last()) {
            Err(e) => Err(e),
            Ok(h) => {
                let e = entries.last();
                if !e.is_dir {
                    Ok(h)
                } else {
                    match dir_name_kind(e.name@) {
                        DirName::Generation(n) => Ok(if n > h {
                            n
                        } else {
                            h
                        }),
                        DirName::Malformed => Err(DatabaseError::InvalidGenerationName(e.name)),
                        DirName::Unrelated => Ok(h),
                    }
                }
            },
        }
    }
}

/// The scan finds the largest ordinal: no generation directory among the
/// entries has a larger one, and a result above zero is the ordinal of one of
/// them.
pub proof fn lemma_highest_generation(entries: Seq<DirEntry>)
    ensures
        match highest_generation(entries) {
            Ok(h) => (forall|i: int|
                0 <= i < entries.len() && (#[trigger] entries[i]).is_dir ==> match dir_name_kind(
                    entries[i].name@,
                ) {
                    DirName::Generation(n) => n <= h,
                    _ => true,
                }) && (h > 0 ==> exists|i: int|
                0 <= i < entries.len() && (#[trigger] entries[i]).is_dir && dir_name_kind(
                    entries[i].name@,
                ) == DirName::Generation(h)),
            Err(_) => true,
        },
    decreases entries.len(),
{
    if entries.len() > 0 {
        let p = entries.drop_last();
        lemma_highest_generation(p);
        if let Ok(h) = highest_generation(entries) {
            let last = entries.len() - 1;
            assert forall|i: int| 0 <= i < entries.len() && (#[trigger] entries[i]).is_dir implies match dir_name_kind(
                entries[i].name@,
            ) {
                DirName::Generation(n) => n <= h,
                _ => true,
            } by {
                if i < last {
                    assert(entries[i] == p[i]);
                }
            }
            if h > 0 {
                let hp = highest_generation(p)->Ok_0;
                if h == hp {
                    let i = choose|i: int|
                        0 <= i < p.len() && (#[trigger] p[i]).is_dir && dir_name_kind(p[i].name@)
                            == DirName::Generation(hp);
                    assert(entries[i] == p[i]);
                } else {
                    assert(entries[last].is_dir && dir_name_kind(entries[last].name@)
                        == DirName::Generation(h));
                }
            }
        }
    }
}

/// Some entry is a generation directory.
pub open spec fn has_generation(entries: Seq<DirEntry>) -> bool {
    exists|i: int|
        0 <= i < entries.len() && (#[trigger] entries[i]).is_dir && dir_name_kind(
            entries[i].name@,
        ) is Generation
}

/// The path of the store-wide metadata file, relative to the root.
pub open spec fn metadata_path() -> Seq<char> {
    "global.json"@
}

/// Whether `w` lists the writes that persist generation `n` with `world`:
/// each record to its file, in order, then the metadata file; so every record
/// of the map is written to `worlds/world<n>/<id>.json`.
pub open spec fn persists(w: Seq<FileWrite>, n: u64, world: World) -> bool {
    &&& w.len() == world.record_count() + 1
    &&& forall|k: Seq<char>|
        #[trigger] world.records().contains_key(k) ==> exists|i: int|
            0 <= i < world.record_count() && w[i].path@ == record_path(n as nat, k) && w[i].body
                == FileBody::Stats(world.records()[k])
    &&& forall|i: int|
        0 <= i < world.record_count() ==> (#[trigger] w[i]).path@ == record_path(
            n as nat,
            world.record_id(i),
        ) && w[i].body == FileBody::Stats(world.record_at(i))
    &&& w.last().path@ == metadata_path()
    &&& w.last().body == FileBody::Global(Global { uptime: world.uptime_of() })
}

/// Whether `s` is the record that a stat update creates from `profile`, whose
/// skin URL decodes to `url`: its display data, `amount` in `field` and zero in
/// every other counter.
pub open spec fn created_from(
    s: PlayerStats,
    profile: Profile,
    url: Seq<char>,
    field: StatField,
    amount: u64,
) -> bool {
    &&& s.display_name == profile.name
    &&& s.skin_url@ == url
    &&& s.counter(field) == amount
    &&& s.with_counter(field, 0).is_fresh()
}

/// Whether `s` is the record that a batch update creates from `profile`.
pub open spec fn merged_from(s: PlayerStats, profile: Profile, url: Seq<char>, info: Info) -> bool {
    &&& s.display_name == profile.name
    &&& s.skin_url@ == url
    &&& forall|f: StatField| #[trigger] s.counter(f) == info.delta(f)
}

/// The store.
#[derive(Debug)]
pub struct Database {
    path: String,
    world: World,
    world_count: u64,
    current_world: u64,
    cache: ProfileCache,
}

impl Database {
    pub closed spec fn wf(&self) -> bool {
        &&& self.world.wf()
        &&& self.cache.wf()
        &&& 1 <= self.current_world <= self.world_count
    }

    /// The store's root directory.
    pub closed spec fn root(&self) -> Seq<char> {
        self.path@
    }

    /// The active generation.
    pub closed spec fn active(&self) -> World {
        self.world
    }

    /// How many generations exist.
    pub closed spec fn generation_count(&self) -> u64 {
        self.world_count
    }

    /// The ordinal of the active generation.
    pub closed spec fn active_ordinal(&self) -> u64 {
        self.current_world
    }

    /// The identity cache.
    pub closed spec fn identities(&self) -> ProfileCache {
        self.cache
    }

    /// The active generation of a well-formed store is well formed.
    pub proof fn lemma_active_wf(&self)
        requires
            self.wf(),
        ensures
            self.active().wf(),
            self.identities().wf(),
            1 <= self.active_ordinal() <= self.generation_count(),
    {
    }

    /// The highest generation ordinal in the `worlds` directory (`None` where
    /// it does not exist). Entries that are no directories, or whose names lack
    /// the generation prefix, are passed over; a directory with the prefix but
    /// no valid ordinal is an error.
    pub fn count_worlds(path: &str, listing: &Option<Vec<DirEntry>>) -> (r: Result<u64, DatabaseError>)
        ensures
            match listing {
                None => r matches Err(DatabaseError::GenerationsDirectoryNotFound(p)) && p@ == path@
                    + "/worlds"@,
                Some(entries) => r == highest_generation(entries@),
            },
    {
        let entries = match listing {
            None => {
                let mut missing = String::from_str(path);
                missing.append("/worlds");
                return Err(DatabaseError::GenerationsDirectoryNotFound(missing));
            },
            Some(entries) => entries,
        };
        let mut highest: u64 = 0;
        let mut i: usize = 0;
        while i < entries.len()
            invariant
                i <= entries@.len(),
                *listing == Some::<Vec<DirEntry>>(*entries),
                highest_generation(entries@.take(i as int)) == Ok::<u64, DatabaseError>(highest),
            decreases entries@.len() - i,
        {
            let e = &entries[i];
            proof {
                assert(entries@.take(i + 1).drop_last() =~= entries@.take(i as int));
            }
            if e.is_dir {
                match parse_world_dir_name(e.name.as_str()) {
                    DirName::Generation(n) => {
                        if n > highest {
                            highest = n;
                        }
                    },
                    DirName::Malformed => {
                        proof {
                            lemma_scan_error_stays(entries@, i + 1);
                        }
                        return Err(DatabaseError::InvalidGenerationName(e.name.clone()));
                    },
                    DirName::Unrelated => {},
                }
            }
            i = i + 1;
        }
        proof {
            assert(entries@.take(entries@.len() as int) =~= entries@);
        }
        Ok(highest)
    }

    /// Checks that a root is fit for a fresh store: `StoreNotEmpty` where its
    /// `worlds` directory already holds a generation; else the path of the first
    /// generation's directory, which the caller creates.
    pub fn initalize_db_directory(listing: &Option<Vec<DirEntry>>) -> (r: Result<String, DatabaseError>)
        ensures
            match listing {
                Some(entries) if has_generation(entries@) => r == Err::<String, DatabaseError>(
                    DatabaseError::StoreNotEmpty,
                ),
                _ => r matches Ok(p) && p@ == generation_path(1),
            },
    {
        match listing {
            Some(entries) => {
                let mut i: usize = 0;
                while i < entries.len()
                    invariant
                        i <= entries@.len(),
                        *listing == Some::<Vec<DirEntry>>(*entries),
                        forall|j: int|
                            0 <= j < i ==> !((#[trigger] entries@[j]).is_dir && dir_name_kind(
                                entries@[j].name@,
                            ) is Generation),
                    decreases entries@.len() - i,
                {
                    if entries[i].is_dir {
                        if let DirName::Generation(_) = parse_world_dir_name(entries[i].name.as_str()) {
                            return Err(DatabaseError::StoreNotEmpty);
                        }
                    }
                    i = i + 1;
                }
            },
            None => {},
        }
        Ok(world_path(1))
    }

    /// A fresh store at `path`, its first generation active and empty.
    /// `listing` is the `worlds` directory as it was before; `created` is the
    /// outcome of creating the first generation's directory.
    pub fn new(path: String, listing: &Option<Vec<DirEntry>>, created: Result<(), DatabaseError>) -> (r:
        Result<Database, DatabaseError>)
        ensures
            match listing {
                Some(entries) if has_generation(entries@) => r == Err::<Database, DatabaseError>(
                    DatabaseError::StoreNotEmpty,
                ),
                _ => match created {
                    Err(e) => r == Err::<Database, DatabaseError>(e),
                    Ok(_) => r matches Ok(db) && db.wf() && db.root() == path@
                        && db.generation_count() == 1 && db.active_ordinal() == 1
                        && db.active().records().is_empty() && db.active().uptime_of() == 0
                        && db.identities().resolved_map() == Map::<Seq<char>, Profile>::empty()
                        && db.identities().pending_set() == Set::<Seq<char>>::empty(),
                },
            },
    {
        match Database::initalize_db_directory(listing) {
            Err(e) => {
                return Err(e);
            },
            Ok(_) => {},
        }
        match created {
            Err(e) => Err(e),
            Ok(_) => {
                let world = World::new();
                proof {
                    assert(world.records().dom() =~= Set::<Seq<char>>::empty());
                }
                Ok(Database { path, world, world_count: 1, current_world: 1, cache: ProfileCache::new() })
            },
        }
    }

    /// Opens an existing store whose highest generation is `world_count`, with
    /// that generation as `loaded` from its directory.
    pub fn from(path: String, world_count: u64, loaded: Result<World, DatabaseError>) -> (r: Result<
        Database,
        DatabaseError,
    >)
        requires
            loaded matches Ok(w) ==> w.wf(),
        ensures
            world_count == 0 ==> r == Err::<Database, DatabaseError>(
                DatabaseError::GenerationNotFound(0),
            ),
            world_count > 0 ==> match loaded {
                Err(e) => r == Err::<Database, DatabaseError>(e),
                Ok(w) => r matches Ok(db) && db.wf() && db.root() == path@ && db.generation_count()
                    == world_count && db.active_ordinal() == world_count && db.active() == w
                    && db.identities().resolved_map() == Map::<Seq<char>, Profile>::empty()
                    && db.identities().pending_set() == Set::<Seq<char>>::empty(),
            },
    {
        if world_count == 0 {
            return Err(DatabaseError::GenerationNotFound(0));
        }
        match loaded {
            Err(e) => Err(e),
            Ok(world) => Ok(
                Database {
                    path,
                    world,
                    world_count,
                    current_world: world_count,
                    cache: ProfileCache::new(),
                },
            ),
        }
    }

    /// The store's root directory.
    pub fn get_path(&self) -> (r: &String)
        ensures
            r@ == self.root(),
    {
        &self.path
    }

    /// The ordinal of the active generation.
    pub fn get_current_world(&self) -> (r: u64)
        ensures
            r == self.active_ordinal(),
    {
        self.current_world
    }

    /// How many generations exist.
    pub fn world_count(&self) -> (r: u64)
        ensures
            r == self.generation_count(),
    {
        self.world_count
    }

    /// The active generation.
    pub fn world(&self) -> (r: &World)
        ensures
            *r == self.active(),
    {
        &self.world
    }

    /// Sets the active generation's uptime.
    pub fn set_uptime(&mut self, uptime: u64)
        requires
            old(self).wf(),
        ensures
            final(self).wf(),
            final(self).active().uptime_of() == uptime,
            final(self).active().records() == old(self).active().records(),
            final(self).generation_count() == old(self).generation_count(),
            final(self).active_ordinal() == old(self).active_ordinal(),
    {
        self.world.set_uptime(uptime);
    }

    /// The path of generation `n`'s directory, for loading it before
    /// `switch_world`; `GenerationNotFound(n)` where no such generation exists.
    pub fn world_dir(&self, n: u64) -> (r: Result<String, DatabaseError>)
        ensures
            (n == 0 || n > self.generation_count()) ==> r == Err::<String, DatabaseError>(
                DatabaseError::GenerationNotFound(n),
            ),
            (1 <= n <= self.generation_count()) ==> (r matches Ok(p) && p@ == generation_path(
                n as nat,
            )),
    {
        if n == 0 || n > self.world_count {
            return Err(DatabaseError::GenerationNotFound(n));
        }
        Ok(world_path(n))
    }

    /// Makes generation `n`, as `loaded` from its directory, the active one.
    /// Fails with `GenerationNotFound(n)` where `n` is 0 or beyond the count,
    /// and with the load's error where loading failed; either way nothing
    /// changes. The previous active generation is not persisted.
    pub fn switch_world(&mut self, n: u64, loaded: Result<World, DatabaseError>) -> (r: Result<
        (),
        DatabaseError,
    >)
        requires
            old(self).wf(),
            loaded matches Ok(w) ==> w.wf(),
        ensures
            final(self).wf(),
            final(self).generation_count() == old(self).generation_count(),
            final(self).root() == old(self).root(),
            final(self).identities() == old(self).identities(),
            (n == 0 || n > old(self).generation_count()) ==> r == Err::<(), DatabaseError>(
                DatabaseError::GenerationNotFound(n),
            ) && *final(self) == *old(self),
            (1 <= n <= old(self).generation_count()) ==> match loaded {
                Err(e) => r == Err::<(), DatabaseError>(e) && *final(self) == *old(self),
                Ok(w) => r is Ok && final(self).active_ordinal() == n && final(self).active() == w,
            },
    {
        if n == 0 || n > self.world_count {
            return Err(DatabaseError::GenerationNotFound(n));
        }
        match loaded {
            Err(e) => Err(e),
            Ok(world) => {
                self.world = world;
                self.current_world = n;
                Ok(())
            },
        }
    }

    /// The path of the directory that `create_world` needs, that of the next
    /// generation; `Overflow` where the count cannot grow.
    pub fn next_world_dir(&self) -> (r: Result<String, DatabaseError>)
        ensures
            self.generation_count() == u64::MAX ==> r == Err::<String, DatabaseError>(
                DatabaseError::Overflow,
            ),
            self.generation_count() < u64::MAX ==> (r matches Ok(p) && p@ == generation_path(
                (self.generation_count() + 1) as nat,
            )),
    {
        if self.world_count == u64::MAX {
            return Err(DatabaseError::Overflow);
        }
        Ok(world_path(self.world_count + 1))
    }

    /// Counts the generation whose directory the caller created (`created` is
    /// the outcome) and makes it, empty, the active one. Where the directory
    /// was not created, or the count cannot grow, nothing changes: the count
    /// never runs ahead of the disk.
    pub fn create_world(&mut self, created: Result<(), DatabaseError>) -> (r: Result<(), DatabaseError>)
        requires
            old(self).wf(),
        ensures
            final(self).wf(),
            final(self).root() == old(self).root(),
            final(self).identities() == old(self).identities(),
            old(self).generation_count() == u64::MAX ==> r == Err::<(), DatabaseError>(
                DatabaseError::Overflow,
            ) && *final(self) == *old(self),
            old(self).generation_count() < u64::MAX ==> match created {
                Err(e) => r == Err::<(), DatabaseError>(e) && *final(self) == *old(self),
                Ok(_) => r is Ok && final(self).generation_count() == old(self).generation_count()
                    + 1 && final(self).active_ordinal() == final(self).generation_count()
                    && final(self).active().records().is_empty()
                    && final(self).active().uptime_of() == 0,
            },
    {
        if self.world_count == u64::MAX {
            return Err(DatabaseError::Overflow);
        }
        match created {
            Err(e) => Err(e),
            Ok(_) => {
                let world = World::new();
                proof {
                    assert(world.records().dom() =~= Set::<Seq<char>>::empty());
                }
                self.world_count = self.world_count + 1;
                self.current_world = self.world_count;
                self.world = world;
                Ok(())
            },
        }
    }

    /// The writes that persist the active generation: each record to
    /// `worlds/world<n>/<id>.json`, in order, then the uptime to `global.json`.
    pub fn save(&self) -> (r: Vec<FileWrite>)
        requires
            self.wf(),
        ensures
            persists(r@, self.active_ordinal(), self.active()),
    {
        let files = self.world.record_files();
        let n = self.current_world;
        let mut out: Vec<FileWrite> = Vec::new();
        let mut i: usize = 0;
        while i < files.len()
            invariant
                i <= files@.len(),
                files@.len() == self.world.record_count(),
                forall|j: int|
                    0 <= j < files@.len() ==> (#[trigger] files@[j]).0@ == record_file_name(
                        self.world.record_id(j),
                    ) && files@[j].1 == self.world.record_at(j),
                out@.len() == i,
                forall|j: int|
                    0 <= j < i ==> (#[trigger] out@[j]).path@ == record_path(
                        n as nat,
                        self.world.record_id(j),
                    ) && out@[j].body == FileBody::Stats(self.world.record_at(j)),
            decreases files@.len() - i,
        {
            let mut path = world_path(n);
            path.append("/");
            path.append(files[i].0.as_str());
            proof {
                assert(path@ =~= record_path(n as nat, self.world.record_id(i as int)));
            }
            out.push(FileWrite { path, body: FileBody::Stats(files[i].1.duplicate()) });
            i = i + 1;
        }
        proof {
            self.world.lemma_record_order();
            assert forall|k: Seq<char>| #[trigger] self.world.records().contains_key(k) implies exists|j: int|
                0 <= j < self.world.record_count() && out@[j].path@ == record_path(n as nat, k)
                    && out@[j].body == FileBody::Stats(self.world.records()[k]) by {
                let j = choose|j: int| 0 <= j < self.world.record_count() && self.world.record_id(j) == k;
                assert(out@[j].path@ == record_path(n as nat, self.world.record_id(j)));
            }
        }
        let ghost records_written = out@;
        out.push(
            FileWrite {
                path: String::from_str("global.json"),
                body: FileBody::Global(Global { uptime: self.world.uptime() }),
            },
        );
        proof {
            assert forall|k: Seq<char>| #[trigger] self.world.records().contains_key(k) implies exists|j: int|
                0 <= j < self.world.record_count() && out@[j].path@ == record_path(n as nat, k)
                    && out@[j].body == FileBody::Stats(self.world.records()[k]) by {
                let j = choose|j: int|
                    0 <= j < self.world.record_count() && records_written[j].path@ == record_path(
                        n as nat,
                        k,
                    ) && records_written[j].body == FileBody::Stats(self.world.records()[k]);
                assert(out@[j] == records_written[j]);
            }
        }
        out
    }

    /// The writes that close the active generation: its death record to
    /// `worlds/world<n>/killed.json` first, then everything that `save` writes.
    /// `Overflow` where no next generation could follow, so that nothing is
    /// written for a generation that cannot be closed.
    pub fn world_death_event(&self, kill_info: &KillInfo) -> (r: Result<Vec<FileWrite>, DatabaseError>)
        requires
            self.wf(),
        ensures
            self.generation_count() == u64::MAX ==> r == Err::<Vec<FileWrite>, DatabaseError>(
                DatabaseError::Overflow,
            ),
            self.generation_count() < u64::MAX ==> (r matches Ok(w) && w@.len() >= 1
                && w@[0].path@ == death_path(self.active_ordinal() as nat) && w@[0].body
                == FileBody::Death(*kill_info) && persists(
                w@.drop_first(),
                self.active_ordinal(),
                self.active(),
            )),
    {
        if self.world_count == u64::MAX {
            return Err(DatabaseError::Overflow);
        }
        let mut out: Vec<FileWrite> = Vec::new();
        out.push(
            FileWrite {
                path: death_file_path(self.current_world),
                body: FileBody::Death(kill_info.duplicate()),
            },
        );
        let mut rest = self.save();
        let ghost saved = rest@;
        out.append(&mut rest);
        proof {
            assert(out@.drop_first() =~= saved);
        }
        Ok(out)
    }

    /// Closes the active generation once the caller has performed the writes of
    /// `world_death_event` (`written`) and created the next generation's
    /// directory (`created`): the next generation, empty, becomes active.
    /// Where a write failed, nothing changes and its error is returned.
    pub fn end_generation(&mut self, written: Result<(), DatabaseError>, created: Result<(), DatabaseError>) -> (r:
        Result<(), DatabaseError>)
        requires
            old(self).wf(),
        ensures
            final(self).wf(),
            final(self).root() == old(self).root(),
            final(self).identities() == old(self).identities(),
            written matches Err(e) ==> r == Err::<(), DatabaseError>(e) && *final(self) == *old(self),
            written is Ok && old(self).generation_count() == u64::MAX ==> r == Err::<(), DatabaseError>(
                DatabaseError::Overflow,
            ) && *final(self) == *old(self),
            written is Ok && old(self).generation_count() < u64::MAX ==> match created {
                Err(e) => r == Err::<(), DatabaseError>(e) && *final(self) == *old(self),
                Ok(_) => r is Ok && final(self).generation_count() == old(self).generation_count()
                    + 1 && final(self).active_ordinal() == final(self).generation_count()
                    && final(self).active().records().is_empty()
                    && final(self).active().uptime_of() == 0,
            },
    {
        match written {
            Err(e) => Err(e),
            Ok(_) => self.create_world(created),
        }
    }

    /// The record of `id` in the active generation; `PlayerNotFound` where there
    /// is none. Reading never creates a record.
    pub fn get_player_stats(&self, id: &str) -> (r: Result<&PlayerStats, DatabaseError>)
        requires
            self.wf(),
        ensures
            match r {
                Ok(s) => self.active().records().contains_key(id@) && *s
                    == self.active().records()[id@],
                Err(e) => !self.active().records().contains_key(id@) && e
                    == DatabaseError::PlayerNotFound,
            },
    {
        match self.world.stats_of(id) {
            None => Err(DatabaseError::PlayerNotFound),
            Some(stats) => Ok(stats),
        }
    }

    /// Every record of the active generation, each once, in order of creation.
    pub fn get_all_stats(&self) -> (r: Vec<PlayerStats>)
        requires
            self.wf(),
        ensures
            r@.len() == self.active().records().len(),
            forall|i: int|
                0 <= i < r@.len() ==> #[trigger] r@[i] == self.active().record_at(i)
                    && self.active().records().contains_key(self.active().record_id(i))
                    && self.active().records()[self.active().record_id(i)] == r@[i],
            forall|k: Seq<char>|
                #[trigger] self.active().records().contains_key(k) ==> exists|i: int|
                    0 <= i < r@.len() && self.active().record_id(i) == k,
    {
        proof {
            self.world.lemma_record_order();
        }
        self.world.all_stats()
    }

    /// Makes sure that `id` has a record in the active generation, creating a
    /// missing one from the cached profile: `Ok(true)` once the record exists,
    /// `Ok(false)` (changing nothing) where no profile is cached, and
    /// `IdentityDecodeError` (changing nothing) where the profile's skin URL
    /// does not decode.
    fn prepare_record(&mut self, id: &str) -> (r: Result<bool, DatabaseError>)
        requires
            old(self).wf(),
        ensures
            final(self).wf(),
            final(self).root() == old(self).root(),
            final(self).generation_count() == old(self).generation_count(),
            final(self).active_ordinal() == old(self).active_ordinal(),
            final(self).identities() == old(self).identities(),
            final(self).active().uptime_of() == old(self).active().uptime_of(),
            ({
                let before = old(self).active().records();
                let after = final(self).active().records();
                let cached = old(self).identities().resolved_map();
                &&& before.contains_key(id@) ==> r == Ok::<bool, DatabaseError>(true) && after
                    == before
                &&& !before.contains_key(id@) && !cached.contains_key(id@) ==> r == Ok::<
                    bool,
                    DatabaseError,
                >(false) && after == before
                &&& !before.contains_key(id@) && cached.contains_key(id@) ==> match cached[id@].skin_url_spec() {
                    Some(url) => r == Ok::<bool, DatabaseError>(true) && after == before.insert(
                        id@,
                        after[id@],
                    ) && after[id@].display_name == cached[id@].name && after[id@].skin_url@ == url
                        && after[id@].is_fresh(),
                    None => r == Err::<bool, DatabaseError>(DatabaseError::IdentityDecodeError)
                        && after == before,
                }
            }),
    {
        if self.world.stats_of(id).is_some() {
            return Ok(true);
        }
        match self.cache.get(id) {
            None => Ok(false),
            Some(profile) => match self.world.get_player_stats(id, profile) {
                Err(e) => Err(e),
                Ok(()) => Ok(true),
            },
        }
    }

    /// Adds `amount` to one counter of `id`'s record in the active generation.
    /// A player without a record gets one, made from the cached profile; where
    /// no profile is cached, nothing changes and `IdentityNeeded` asks the
    /// caller to resolve the id first. `IdentityDecodeError` where the profile's
    /// skin URL does not decode and `Overflow` where the sum does not fit leave
    /// everything as it was.
    pub fn apply_stat(&mut self, id: &str, field: StatField, amount: u64) -> (r: Result<
        StatUpdate,
        DatabaseError,
    >)
        requires
            old(self).wf(),
        ensures
            final(self).wf(),
            final(self).root() == old(self).root(),
            final(self).generation_count() == old(self).generation_count(),
            final(self).active_ordinal() == old(self).active_ordinal(),
            final(self).identities() == old(self).identities(),
            final(self).active().uptime_of() == old(self).active().uptime_of(),
            ({
                let before = old(self).active().records();
                let after = final(self).active().records();
                let cached = old(self).identities().resolved_map();
                &&& before.contains_key(id@) && before[id@].can_add(field, amount) ==> r == Ok::<
                    StatUpdate,
                    DatabaseError,
                >(StatUpdate::Applied) && after == before.insert(
                    id@,
                    before[id@].added(field, amount),
                )
                &&& before.contains_key(id@) && !before[id@].can_add(field, amount) ==> r == Err::<
                    StatUpdate,
                    DatabaseError,
                >(DatabaseError::Overflow) && after == before
                &&& !before.contains_key(id@) && !cached.contains_key(id@) ==> r == Ok::<
                    StatUpdate,
                    DatabaseError,
                >(StatUpdate::IdentityNeeded) && after == before
                &&& !before.contains_key(id@) && cached.contains_key(id@) ==> match cached[id@].skin_url_spec() {
                    Some(url) => r == Ok::<StatUpdate, DatabaseError>(StatUpdate::Applied) && after
                        == before.insert(id@, after[id@]) && created_from(
                        after[id@],
                        cached[id@],
                        url,
                        field,
                        amount,
                    ),
                    None => r == Err::<StatUpdate, DatabaseError>(
                        DatabaseError::IdentityDecodeError,
                    ) && after == before,
                }
            }),
    {
        match self.prepare_record(id) {
            Err(e) => {
                return Err(e);
            },
            Ok(false) => {
                return Ok(StatUpdate::IdentityNeeded);
            },
            Ok(true) => {},
        }
        match self.world.apply_delta(id, field, amount) {
            Ok(()) => Ok(StatUpdate::Applied),
            Err(e) => Err(e),
        }
    }

    /// Adds every delta of `info` to `id`'s record in the active generation,
    /// all or none, creating the record as `apply_stat` does.
    pub fn merge_stats(&mut self, id: &str, info: &Info) -> (r: Result<StatUpdate, DatabaseError>)
        requires
            old(self).wf(),
        ensures
            final(self).wf(),
            final(self).root() == old(self).root(),
            final(self).generation_count() == old(self).generation_count(),
            final(self).active_ordinal() == old(self).active_ordinal(),
            final(self).identities() == old(self).identities(),
            final(self).active().uptime_of() == old(self).active().uptime_of(),
            ({
                let before = old(self).active().records();
                let after = final(self).active().records();
                let cached = old(self).identities().resolved_map();
                &&& before.contains_key(id@) && before[id@].can_merge(info) ==> r == Ok::<
                    StatUpdate,
                    DatabaseError,
                >(StatUpdate::Applied) && after == before.insert(id@, before[id@].merged(info))
                &&& before.contains_key(id@) && !before[id@].can_merge(info) ==> r == Err::<
                    StatUpdate,
                    DatabaseError,
                >(DatabaseError::Overflow) && after == before
                &&& !before.contains_key(id@) && !cached.contains_key(id@) ==> r == Ok::<
                    StatUpdate,
                    DatabaseError,
                >(StatUpdate::IdentityNeeded) && after == before
                &&& !before.contains_key(id@) && cached.contains_key(id@) ==> match cached[id@].skin_url_spec() {
                    Some(url) => r == Ok::<StatUpdate, DatabaseError>(StatUpdate::Applied) && after
                        == before.insert(id@, after[id@]) && merged_from(
                        after[id@],
                        cached[id@],
                        url,
                        *info,
                    ),
                    None => r == Err::<StatUpdate, DatabaseError>(
                        DatabaseError::IdentityDecodeError,
                    ) && after == before,
                }
            }),
    {
        match self.prepare_record(id) {
            Err(e) => {
                return Err(e);
            },
            Ok(false) => {
                return Ok(StatUpdate::IdentityNeeded);
            },
            Ok(true) => {},
        }
        match self.world.merge_stats(id, info) {
            Ok(()) => Ok(StatUpdate::Applied),
            Err(e) => Err(e),
        }
    }

    /// The cached profile of `id`, if any.
    pub fn cached_profile(&self, id: &str) -> (r: Option<&Profile>)
        requires
            self.wf(),
        ensures
            match r {
                Some(p) => self.identities().resolved_map().contains_key(id@) && *p
                    == self.identities().resolved_map()[id@],
                None => !self.identities().resolved_map().contains_key(id@),
            },
    {
        self.cache.get(id)
    }

    /// Starts resolving `id` through the cache; see `ProfileCache::begin`.
    pub fn begin_resolve(&mut self, id: &str) -> (r: ResolveStep)
        requires
            old(self).wf(),
        ensures
            final(self).wf(),
            final(self).active() == old(self).active(),
            final(self).generation_count() == old(self).generation_count(),
            final(self).active_ordinal() == old(self).active_ordinal(),
            r == next_step(
                old(self).identities().resolved_map(),
                old(self).identities().pending_set(),
                id@,
            ),
            final(self).identities().resolved_map() == old(self).identities().resolved_map(),
            final(self).identities().pending_set() == pending_after(
                old(self).identities().pending_set(),
                id@,
                r,
            ),
    {
        self.cache.begin(id)
    }

    /// Reports the lookup of `id`; see `ProfileCache::complete`.
    pub fn complete_resolve(&mut self, id: &str, outcome: Result<Profile, DatabaseError>)
        requires
            old(self).wf(),
        ensures
            final(self).wf(),
            final(self).active() == old(self).active(),
            final(self).generation_count() == old(self).generation_count(),
            final(self).active_ordinal() == old(self).active_ordinal(),
            final(self).identities().pending_set() == old(self).identities().pending_set().remove(
                id@,
            ),
            final(self).identities().resolved_map() == (match outcome {
                Ok(p) => if old(self).identities().resolved_map().contains_key(id@) {
                    old(self).identities().resolved_map()
                } else {
                    old(self).identities().resolved_map().insert(id@, p)
                },
                Err(_) => old(self).identities().resolved_map(),
            }),
    {
        self.cache.complete(id, outcome)
    }
}

/// A new generation gets a directory of its own: the one that `create_world`
/// asks for differs from that of every existing generation, so creating it
/// leaves the files of earlier generations alone.
pub proof fn lemma_next_generation_dir_is_new(count: u64, k: u64)
    requires
        1 <= k <= count,
        count < u64::MAX,
    ensures
        generation_path((count + 1) as nat) != generation_path(k as nat),
{
    reveal_strlit("worlds/");
    let next = (count + 1) as u64;
    lemma_dir_name_round_trip(next);
    lemma_dir_name_round_trip(k);
    let a = generation_path(next as nat);
    let b = generation_path(k as nat);
    if a == b {
        assert(a.subrange(7, a.len() as int) =~= generation_dir_name(next as nat));
        assert(b.subrange(7, b.len() as int) =~= generation_dir_name(k as nat));
        assert(dir_name_kind(generation_dir_name(next as nat)) == DirName::Generation(next));
    }
}

/// The state that request handlers share: the store and the token that
/// authorizes changes.
#[derive(Debug)]
pub struct APIData {
    pub database: Database,
    pub auth: String,
}

impl APIData {
    /// Whether `token` is the configured one.
    pub fn authorized(&self, token: &str) -> (r: bool)
        ensures
            r == (token@ == self.auth@),
    {
        String::from_str(token) == self.auth
    }
}

/// A request to make another generation active.
#[derive(Debug, Clone, Copy, PartialEq, Eq, Structural)]
pub struct SwitchInfo {
    pub world: u64,
}

/// Once a directory entry fails the scan, the entries after it change nothing.
proof fn lemma_scan_error_stays(entries: Seq<DirEntry>, j: int)
    requires
        0 <= j <= entries.len(),
        highest_generation(entries.take(j)) is Err,
    ensures
        highest_generation(entries) == highest_generation(entries.take(j)),
    decreases entries.len() - j,
{
    if j == entries.len() {
        assert(entries.take(j) =~= entries);
    } else {
        assert(entries.take(j + 1).drop_last() =~= entries.take(j));
        lemma_scan_error_stays(entries, j + 1);
    }
}

} // verus!
