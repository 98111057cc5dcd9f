use hardercore_api::database::{APIData, Database, SwitchInfo};
use hardercore_api::error::DatabaseError;
use hardercore_api::layout::{
    death_file_path, file_role, format_decimal, parse_decimal, parse_world_dir_name,
    record_file_path, world_dir_name, world_path, DirName, FileRole,
};
use hardercore_api::stats::{Info, KillInfo, PlayerStats, StatField};

fn empty_info() -> Info {
    Info {
        auth: String::from("secret"),
        time_in_water: None,
        time_in_nether: None,
        damage_taken: None,
        mobs_killed: None,
        food_eaten: None,
        experience_gained: None,
        has_died: None,
        kill_info: None,
    }
}

#[test]
fn new_record_has_zero_counters() {
    let s = PlayerStats::new(String::from("Steve"), String::from("http://skin"));
    assert_eq!(s.display_name, "Steve");
    assert_eq!(s.skin_url, "http://skin");
    for f in [
        StatField::TimeInWater,
        StatField::TimeInNether,
        StatField::DamageTaken,
        StatField::MobsKilled,
        StatField::FoodEaten,
        StatField::ExperienceGained,
    ] {
        assert_eq!(s.get(f), 0);
    }
}

#[test]
fn add_sums_deltas_on_one_counter() {
    let mut s = PlayerStats::new(String::from("a"), String::from("b"));
    let deltas: [u64; 4] = [5, 0, 17, 100];
    for d in deltas {
        assert_eq!(s.add(StatField::TimeInWater, d), Ok(()));
    }
    assert_eq!(s.time_in_water, 122);
    assert_eq!(s.time_in_nether, 0);
    assert_eq!(s.mobs_killed, 0);
}

#[test]
fn add_overflow_is_reported_and_changes_nothing() {
    let mut s = PlayerStats::new(String::from("a"), String::from("b"));
    assert_eq!(s.add(StatField::DamageTaken, u64::MAX), Ok(()));
    assert_eq!(s.add(StatField::DamageTaken, 1), Err(DatabaseError::Overflow));
    assert_eq!(s.damage_taken, u64::MAX);
    assert_eq!(s.add(StatField::DamageTaken, 0), Ok(()));
}

#[test]
fn merge_applies_every_present_delta() {
    let mut s = PlayerStats::new(String::from("a"), String::from("b"));
    let mut info = empty_info();
    info.time_in_water = Some(3);
    info.food_eaten = Some(7);
    info.experience_gained = Some(11);
    assert_eq!(s.merge(&info), Ok(()));
    assert_eq!(s.merge(&info), Ok(()));
    assert_eq!(s.time_in_water, 6);
    assert_eq!(s.food_eaten, 14);
    assert_eq!(s.experience_gained, 22);
    assert_eq!(s.damage_taken, 0);
    assert_eq!(info.delta_of(StatField::MobsKilled), 0);
    assert_eq!(info.delta_of(StatField::FoodEaten), 7);
}

#[test]
fn merge_is_all_or_nothing_on_overflow() {
    let mut s = PlayerStats::new(String::from("a"), String::from("b"));
    s.mobs_killed = u64::MAX - 1;
    let mut info = empty_info();
    info.time_in_water = Some(5);
    info.mobs_killed = Some(2);
    assert_eq!(s.merge(&info), Err(DatabaseError::Overflow));
    assert_eq!(s.time_in_water, 0);
    assert_eq!(s.mobs_killed, u64::MAX - 1);
}

#[test]
fn decimal_formatting() {
    assert_eq!(format_decimal(0), "0");
    assert_eq!(format_decimal(7), "7");
    assert_eq!(format_decimal(120), "120");
    assert_eq!(format_decimal(u64::MAX), "18446744073709551615");
}

#[test]
fn decimal_parsing() {
    assert_eq!(parse_decimal("0"), Some(0));
    assert_eq!(parse_decimal("42"), Some(42));
    assert_eq!(parse_decimal("18446744073709551615"), Some(u64::MAX));
    assert_eq!(parse_decimal("18446744073709551616"), None);
    assert_eq!(parse_decimal(""), None);
    assert_eq!(parse_decimal("007"), None);
    assert_eq!(parse_decimal("+5"), None);
    assert_eq!(parse_decimal("4a"), None);
}

#[test]
fn generation_directory_names() {
    assert_eq!(world_dir_name(1), "world1");
    assert_eq!(world_dir_name(12), "world12");
    assert_eq!(world_path(3), "worlds/world3");
    assert_eq!(record_file_path(3, "p1"), "worlds/world3/p1.json");
    assert_eq!(death_file_path(3), "worlds/world3/killed.json");
    assert_eq!(parse_world_dir_name("world1"), DirName::Generation(1));
    assert_eq!(parse_world_dir_name("world250"), DirName::Generation(250));
    assert_eq!(parse_world_dir_name("world0"), DirName::Malformed);
    assert_eq!(parse_world_dir_name("world07"), DirName::Malformed);
    assert_eq!(parse_world_dir_name("world"), DirName::Malformed);
    assert_eq!(parse_world_dir_name("backup"), DirName::Unrelated);
    assert_eq!(parse_world_dir_name("wor"), DirName::Unrelated);
}

#[test]
fn file_roles_in_a_generation_directory() {
    assert_eq!(file_role("p1.json"), FileRole::Record(String::from("p1")));
    assert_eq!(file_role(".json"), FileRole::Record(String::new()));
    assert_eq!(file_role("killed.json"), FileRole::Record(String::from("killed")));
    assert_eq!(file_role("notes.txt"), FileRole::Other);
    assert_eq!(file_role("json"), FileRole::Other);
}

#[test]
fn authorization_compares_the_token() {
    let db = Database::new(String::from("root"), &None, Ok(())).unwrap();
    let api = APIData { database: db, auth: String::from("secret") };
    assert!(api.authorized("secret"));
    assert!(!api.authorized("Secret"));
    assert!(!api.authorized(""));
    let switch = SwitchInfo { world: 2 };
    assert_eq!(switch.world, 2);
}

#[test]
fn kill_info_duplicate_keeps_fields() {
    let k = KillInfo {
        killer: String::from("p1"),
        source_name: String::from("lava"),
        source_type: String::from("fire"),
    };
    let d = k.duplicate();
    assert_eq!(d.killer, "p1");
    assert_eq!(d.source_name, "lava");
    assert_eq!(d.source_type, "fire");
}
