use hardercore_api::database::{Database, DirEntry, FileBody, StatUpdate};
use hardercore_api::error::DatabaseError;
use hardercore_api::identity::{Profile, ProfileCache, Properties, ResolveStep};
use hardercore_api::stats::{Info, KillInfo, PlayerStats, StatField};
use hardercore_api::world::{MetadataFile, StoredContent, StoredFile, World};

const STEVE_TEXTURES: &str = "eyJ0aW1lc3RhbXAiOjEsInByb2ZpbGVJZCI6ImFiYyIsInByb2ZpbGVOYW1lIjoiU3RldmUiLCJ0ZXh0dXJlcyI6eyJTS0lOIjp7InVybCI6Imh0dHA6Ly90ZXh0dXJlcy5taW5lY3JhZnQubmV0L3RleHR1cmUvc3RldmUifX19";
const STEVE_SKIN: &str = "http://textures.minecraft.net/texture/steve";

fn profile_with(value: &str) -> Profile {
    Profile {
        id: String::from("abc"),
        name: String::from("Steve"),
        properties: vec![Properties {
            name: String::from("textures"),
            value: String::from(value),
            signature: None,
        }],
    }
}

fn steve() -> Profile {
    profile_with(STEVE_TEXTURES)
}

fn record(name: &str, water: u64) -> PlayerStats {
    let mut s = PlayerStats::new(String::from(name), String::from("skin"));
    s.time_in_water = water;
    s
}

fn stored(name: &str, content: StoredContent) -> StoredFile {
    StoredFile { name: String::from(name), content }
}

fn dir(name: &str) -> DirEntry {
    DirEntry { name: String::from(name), is_dir: true }
}

fn fresh_store() -> Database {
    Database::new(String::from("root"), &Some(Vec::new()), Ok(())).unwrap()
}

/// A store whose active generation is `n` of `n`, holding the given records.
fn store_at(n: u64, records: Vec<(&str, PlayerStats)>) -> Database {
    let files: Vec<StoredFile> = records
        .into_iter()
        .map(|(id, s)| stored(&format!("{}.json", id), StoredContent::Stats(s)))
        .collect();
    let world = World::from("worlds/world", Some(files), MetadataFile::Missing).unwrap();
    Database::from(String::from("root"), n, Ok(world)).unwrap()
}

fn kill(killer: &str) -> KillInfo {
    KillInfo {
        killer: String::from(killer),
        source_name: String::from("lava"),
        source_type: String::from("inFire"),
    }
}

#[test]
fn skin_url_is_decoded_from_the_first_property() {
    assert_eq!(steve().get_skin_url(), Ok(String::from(STEVE_SKIN)));
}

#[test]
fn skin_url_errors() {
    let none = Profile { id: String::from("x"), name: String::from("x"), properties: Vec::new() };
    assert_eq!(none.get_skin_url(), Err(DatabaseError::IdentityDecodeError));
    assert_eq!(profile_with("%%%not base64").get_skin_url(), Err(DatabaseError::IdentityDecodeError));
    assert_eq!(profile_with("bm90IGpzb24=").get_skin_url(), Err(DatabaseError::IdentityDecodeError));
    assert_eq!(
        profile_with("eyJ0aW1lc3RhbXAiOjEsInRleHR1cmVzIjp7fX0=").get_skin_url(),
        Err(DatabaseError::IdentityDecodeError)
    );
}

#[test]
fn cache_single_flight() {
    let mut cache = ProfileCache::new();
    assert!(cache.get("abc").is_none());
    assert_eq!(cache.begin("abc"), ResolveStep::Fetch);
    assert_eq!(cache.begin("abc"), ResolveStep::Wait);
    assert_eq!(cache.begin("other"), ResolveStep::Fetch);
    cache.complete("abc", Ok(steve()));
    assert_eq!(cache.begin("abc"), ResolveStep::Ready);
    assert_eq!(cache.get("abc").unwrap().name, "Steve");
}

#[test]
fn failed_lookup_does_not_poison_the_cache() {
    let mut cache = ProfileCache::new();
    assert_eq!(cache.begin("abc"), ResolveStep::Fetch);
    cache.complete("abc", Err(DatabaseError::IdentityUnavailable));
    assert!(cache.get("abc").is_none());
    assert_eq!(cache.begin("abc"), ResolveStep::Fetch);
    cache.complete("abc", Ok(steve()));
    assert!(cache.get("abc").is_some());
}

#[test]
fn fifty_concurrent_updates_resolve_once() {
    let mut db = fresh_store();
    let mut outbound_calls = 0;
    let mut waiting = 0;
    for _ in 0..50 {
        assert_eq!(db.apply_stat("abc", StatField::TimeInWater, 1), Ok(StatUpdate::IdentityNeeded));
        match db.begin_resolve("abc") {
            ResolveStep::Fetch => outbound_calls += 1,
            ResolveStep::Wait => waiting += 1,
            ResolveStep::Ready => panic!("nothing was resolved yet"),
        }
    }
    assert_eq!(outbound_calls, 1);
    assert_eq!(waiting, 49);
    db.complete_resolve("abc", Ok(steve()));
    for _ in 0..50 {
        assert_eq!(db.begin_resolve("abc"), ResolveStep::Ready);
        assert_eq!(db.apply_stat("abc", StatField::TimeInWater, 1), Ok(StatUpdate::Applied));
    }
    let s = db.get_player_stats("abc").unwrap();
    assert_eq!(s.time_in_water, 50);
    assert_eq!(s.display_name, "Steve");
    assert_eq!(s.skin_url, STEVE_SKIN);
    assert_eq!(outbound_calls, 1);
}

#[test]
fn applied_deltas_add_up() {
    let mut db = fresh_store();
    db.complete_resolve("p1", Ok(steve()));
    let deltas: [u64; 5] = [10, 20, 0, 30, 60];
    for d in deltas {
        assert_eq!(db.apply_stat("p1", StatField::DamageTaken, d), Ok(StatUpdate::Applied));
    }
    assert_eq!(db.get_player_stats("p1").unwrap().damage_taken, 120);
    assert_eq!(db.get_player_stats("p1").unwrap().mobs_killed, 0);
}

#[test]
fn apply_stat_overflow_and_decode_errors() {
    let mut db = store_at(1, vec![("p1", record("P", 0))]);
    assert_eq!(db.apply_stat("p1", StatField::FoodEaten, u64::MAX), Ok(StatUpdate::Applied));
    assert_eq!(db.apply_stat("p1", StatField::FoodEaten, 1), Err(DatabaseError::Overflow));
    assert_eq!(db.get_player_stats("p1").unwrap().food_eaten, u64::MAX);
    db.complete_resolve("bad", Ok(profile_with("bm90IGpzb24=")));
    assert_eq!(db.apply_stat("bad", StatField::FoodEaten, 1), Err(DatabaseError::IdentityDecodeError));
    assert_eq!(db.get_player_stats("bad").unwrap_err(), DatabaseError::PlayerNotFound);
}

#[test]
fn merge_stats_creates_and_updates_records() {
    let mut db = fresh_store();
    let mut info = Info {
        auth: String::from("secret"),
        time_in_water: Some(4),
        time_in_nether: Some(9),
        damage_taken: None,
        mobs_killed: Some(1),
        food_eaten: None,
        experience_gained: None,
        has_died: None,
        kill_info: None,
    };
    assert_eq!(db.merge_stats("abc", &info), Ok(StatUpdate::IdentityNeeded));
    db.complete_resolve("abc", Ok(steve()));
    assert_eq!(db.merge_stats("abc", &info), Ok(StatUpdate::Applied));
    info.time_in_nether = None;
    assert_eq!(db.merge_stats("abc", &info), Ok(StatUpdate::Applied));
    let s = db.get_player_stats("abc").unwrap();
    assert_eq!((s.time_in_water, s.time_in_nether, s.mobs_killed, s.damage_taken), (8, 9, 2, 0));
}

#[test]
fn get_stats_never_creates_a_record() {
    let db = store_at(1, vec![("p1", record("P", 1))]);
    assert_eq!(db.get_player_stats("ghost").unwrap_err(), DatabaseError::PlayerNotFound);
    assert_eq!(db.get_player_stats("ghost").unwrap_err(), DatabaseError::PlayerNotFound);
    assert_eq!(db.get_all_stats().len(), 1);
}

#[test]
fn get_all_stats_in_order_of_creation() {
    let mut db = fresh_store();
    db.complete_resolve("b", Ok(steve()));
    db.complete_resolve("a", Ok(steve()));
    assert_eq!(db.apply_stat("b", StatField::MobsKilled, 2), Ok(StatUpdate::Applied));
    assert_eq!(db.apply_stat("a", StatField::MobsKilled, 1), Ok(StatUpdate::Applied));
    let all = db.get_all_stats();
    assert_eq!(all.len(), 2);
    assert_eq!(all[0].mobs_killed, 2);
    assert_eq!(all[1].mobs_killed, 1);
}

#[test]
fn load_reads_every_json_file_as_a_record() {
    let files = vec![
        stored("p1.json", StoredContent::Stats(record("One", 5))),
        stored("notes.txt", StoredContent::Skipped),
        stored("killed.json", StoredContent::Stats(record("", 0))),
        stored("p2.json", StoredContent::Stats(record("Two", 6))),
    ];
    let w = World::from("worlds/world2", Some(files), MetadataFile::Parsed(hardercore_api::stats::Global { uptime: 77 })).unwrap();
    assert_eq!(w.uptime(), 77);
    assert_eq!(w.stats_of("p1").unwrap().time_in_water, 5);
    assert_eq!(w.stats_of("p2").unwrap().display_name, "Two");
    assert_eq!(w.stats_of("killed").unwrap().time_in_water, 0);
    assert!(w.stats_of("notes").is_none());
    assert_eq!(w.all_stats().len(), 3);
}

#[test]
fn round_trip_for_the_id_killed() {
    let mut db = fresh_store();
    db.complete_resolve("killed", Ok(steve()));
    assert_eq!(db.apply_stat("killed", StatField::MobsKilled, 9), Ok(StatUpdate::Applied));
    let files: Vec<StoredFile> = db
        .world()
        .record_files()
        .into_iter()
        .map(|(name, s)| stored(&name, StoredContent::Stats(s)))
        .collect();
    assert_eq!(files[0].name, "killed.json");
    let loaded = World::from("worlds/world1", Some(files), MetadataFile::Missing).unwrap();
    assert_eq!(loaded.stats_of("killed"), db.world().stats_of("killed"));
    assert_eq!(loaded.stats_of("killed").unwrap().mobs_killed, 9);
}

#[test]
fn load_errors() {
    assert_eq!(
        World::from("worlds/world9", None, MetadataFile::Missing).unwrap_err(),
        DatabaseError::DirectoryNotFound(String::from("worlds/world9"))
    );
    let bad = vec![
        stored("p1.json", StoredContent::Stats(record("One", 5))),
        stored("p2.json", StoredContent::Unparsable),
        stored("p3.json", StoredContent::Unread(String::from("denied"))),
    ];
    assert_eq!(
        World::from("w", Some(bad), MetadataFile::Missing).unwrap_err(),
        DatabaseError::RecordParseError(String::from("p2.json"))
    );
    let unread = vec![stored("p3.json", StoredContent::Unread(String::from("denied")))];
    assert_eq!(
        World::from("w", Some(unread), MetadataFile::Missing).unwrap_err(),
        DatabaseError::IOError(String::from("denied"))
    );
    assert_eq!(
        World::from("w", Some(Vec::new()), MetadataFile::Unparsable).unwrap_err(),
        DatabaseError::MetadataParseError
    );
}

#[test]
fn persist_then_load_round_trip() {
    let mut db = fresh_store();
    db.complete_resolve("p1", Ok(steve()));
    db.complete_resolve("p2", Ok(steve()));
    assert_eq!(db.apply_stat("p1", StatField::TimeInWater, 40), Ok(StatUpdate::Applied));
    assert_eq!(db.apply_stat("p2", StatField::ExperienceGained, 3), Ok(StatUpdate::Applied));
    assert_eq!(db.apply_stat("p1", StatField::FoodEaten, 8), Ok(StatUpdate::Applied));
    let files: Vec<StoredFile> = db
        .world()
        .record_files()
        .into_iter()
        .map(|(name, s)| stored(&name, StoredContent::Stats(s)))
        .collect();
    let loaded = World::from("worlds/world1", Some(files), MetadataFile::Missing).unwrap();
    assert_eq!(loaded.all_stats(), db.get_all_stats());
    assert_eq!(loaded.stats_of("p1"), db.world().stats_of("p1"));
    assert_eq!(loaded.stats_of("p2"), db.world().stats_of("p2"));
}

#[test]
fn save_plan_writes_records_then_metadata() {
    let mut db = store_at(2, vec![("p1", record("One", 5)), ("p2", record("Two", 6))]);
    db.set_uptime(99);
    let writes = db.save();
    assert_eq!(writes.len(), 3);
    assert_eq!(writes[0].path, "worlds/world2/p1.json");
    assert_eq!(writes[1].path, "worlds/world2/p2.json");
    assert!(matches!(&writes[1].body, FileBody::Stats(s) if s.time_in_water == 6));
    assert_eq!(writes[2].path, "global.json");
    assert!(matches!(&writes[2].body, FileBody::Global(g) if g.uptime == 99));
}

#[test]
fn fresh_store_refuses_existing_generations() {
    let listing = Some(vec![dir("world1"), dir("world2")]);
    assert_eq!(Database::initalize_db_directory(&listing).unwrap_err(), DatabaseError::StoreNotEmpty);
    assert_eq!(
        Database::new(String::from("root"), &listing, Ok(())).unwrap_err(),
        DatabaseError::StoreNotEmpty
    );
    let other = Some(vec![dir("backup"), DirEntry { name: String::from("world1"), is_dir: false }]);
    assert_eq!(Database::initalize_db_directory(&other).unwrap(), "worlds/world1");
    assert_eq!(Database::initalize_db_directory(&None).unwrap(), "worlds/world1");
    let failed = Database::new(String::from("root"), &None, Err(DatabaseError::IOError(String::from("disk full"))));
    assert_eq!(failed.unwrap_err(), DatabaseError::IOError(String::from("disk full")));
    let db = Database::new(String::from("root"), &other, Ok(())).unwrap();
    assert_eq!(db.get_current_world(), 1);
    assert_eq!(db.world_count(), 1);
    assert_eq!(db.get_path(), "root");
}

#[test]
fn open_finds_the_highest_generation() {
    let listing = Some(vec![dir("world2"), dir("world10"), dir("backup"), dir("world3")]);
    assert_eq!(Database::count_worlds("root", &listing), Ok(10));
    assert_eq!(
        Database::count_worlds("root", &None),
        Err(DatabaseError::GenerationsDirectoryNotFound(String::from("root/worlds")))
    );
    let malformed = Some(vec![dir("world2"), dir("world02")]);
    assert_eq!(
        Database::count_worlds("root", &malformed),
        Err(DatabaseError::InvalidGenerationName(String::from("world02")))
    );
    assert_eq!(Database::count_worlds("root", &Some(Vec::new())), Ok(0));
    assert_eq!(
        Database::from(String::from("root"), 0, Ok(World::new())).unwrap_err(),
        DatabaseError::GenerationNotFound(0)
    );
    let db = Database::from(String::from("root"), 10, Ok(World::new())).unwrap();
    assert_eq!(db.get_current_world(), 10);
    assert_eq!(db.world_count(), 10);
}

#[test]
fn switch_world_bounds() {
    let mut db = store_at(3, vec![("p1", record("One", 5))]);
    assert_eq!(db.world_dir(0), Err(DatabaseError::GenerationNotFound(0)));
    assert_eq!(db.world_dir(4), Err(DatabaseError::GenerationNotFound(4)));
    assert_eq!(db.world_dir(2), Ok(String::from("worlds/world2")));
    assert_eq!(db.switch_world(0, Ok(World::new())), Err(DatabaseError::GenerationNotFound(0)));
    assert_eq!(db.switch_world(4, Ok(World::new())), Err(DatabaseError::GenerationNotFound(4)));
    assert_eq!(db.get_current_world(), 3);
    assert!(db.get_player_stats("p1").is_ok());
    assert_eq!(
        db.switch_world(2, Err(DatabaseError::IOError(String::from("gone")))),
        Err(DatabaseError::IOError(String::from("gone")))
    );
    assert_eq!(db.get_current_world(), 3);
    for n in 1..=3 {
        assert_eq!(db.switch_world(n, Ok(World::new())), Ok(()));
        assert_eq!(db.get_current_world(), n);
    }
    assert_eq!(db.world_count(), 3);
    assert!(db.get_player_stats("p1").is_err());
}

#[test]
fn create_world_counts_and_activates_the_new_generation() {
    let mut db = store_at(2, vec![("p1", record("One", 5))]);
    assert_eq!(db.next_world_dir(), Ok(String::from("worlds/world3")));
    assert_eq!(db.create_world(Err(DatabaseError::IOError(String::from("denied")))), Err(DatabaseError::IOError(String::from("denied"))));
    assert_eq!(db.world_count(), 2);
    assert_eq!(db.get_current_world(), 2);
    assert!(db.get_player_stats("p1").is_ok());
    assert_eq!(db.create_world(Ok(())), Ok(()));
    assert_eq!(db.world_count(), 3);
    assert_eq!(db.get_current_world(), 3);
    assert!(db.get_all_stats().is_empty());
    assert_eq!(db.world().uptime(), 0);
}

#[test]
fn end_generation_scenario() {
    let mut db = store_at(3, vec![("p1", record("One", 0))]);
    assert_eq!(db.apply_stat("p1", StatField::TimeInWater, 120), Ok(StatUpdate::Applied));
    let writes = db.world_death_event(&kill("p1")).unwrap();
    assert_eq!(writes[0].path, "worlds/world3/killed.json");
    assert!(matches!(&writes[0].body, FileBody::Death(k) if k.killer == "p1" && k.source_name == "lava"));
    assert_eq!(writes[1].path, "worlds/world3/p1.json");
    assert!(matches!(&writes[1].body, FileBody::Stats(s) if s.time_in_water == 120));
    assert_eq!(writes[2].path, "global.json");
    assert_eq!(writes.len(), 3);
    assert_eq!(db.next_world_dir(), Ok(String::from("worlds/world4")));
    assert_eq!(db.end_generation(Ok(()), Ok(())), Ok(()));
    assert_eq!(db.get_current_world(), 4);
    assert_eq!(db.world_count(), 4);
    assert_eq!(db.get_player_stats("p1").unwrap_err(), DatabaseError::PlayerNotFound);
}

#[test]
fn end_generation_failed_write_changes_nothing() {
    let mut db = store_at(3, vec![("p1", record("One", 7))]);
    let err = DatabaseError::IOError(String::from("read-only"));
    assert_eq!(db.end_generation(Err(err.clone()), Ok(())), Err(err));
    assert_eq!(db.get_current_world(), 3);
    assert_eq!(db.get_player_stats("p1").unwrap().time_in_water, 7);
}

#[test]
fn no_generation_after_the_largest_ordinal() {
    let mut db = Database::from(String::from("root"), u64::MAX, Ok(World::new())).unwrap();
    assert_eq!(db.next_world_dir(), Err(DatabaseError::Overflow));
    assert!(matches!(db.world_death_event(&kill("p1")), Err(DatabaseError::Overflow)));
    assert_eq!(db.create_world(Ok(())), Err(DatabaseError::Overflow));
    assert_eq!(db.end_generation(Ok(()), Ok(())), Err(DatabaseError::Overflow));
    assert_eq!(db.world_count(), u64::MAX);
    assert_eq!(db.get_current_world(), u64::MAX);
}

#[test]
fn unparsable_killed_file_fails_the_load() {
    let files = vec![
        stored("p1.json", StoredContent::Stats(record("One", 5))),
        stored("killed.json", StoredContent::Unparsable),
    ];
    assert_eq!(
        World::from("w", Some(files), MetadataFile::Missing).unwrap_err(),
        DatabaseError::RecordParseError(String::from("killed.json"))
    );
}
