use vstd::prelude::*;

use crate::error::DatabaseError;

verus! {

/// The six counters that a player record tracks.
#[derive(Debug, Clone, Copy, PartialEq, Eq, Structural)]
pub enum StatField {
    TimeInWater,
    TimeInNether,
    DamageTaken,
    MobsKilled,
    FoodEaten,
    ExperienceGained,
}

/// One player's statistics within one generation.
#[derive(Debug, Clone, PartialEq, Eq)]
pub struct PlayerStats {
    pub display_name: String,
    pub skin_url: String,
    pub time_in_water: u64,
    pub time_in_nether: u64,
    pub damage_taken: u64,
    pub mobs_killed: u64,
    pub food_eaten: u64,
    pub experience_gained: u64,
}

impl PlayerStats {
    /// The value of one counter.
    pub open spec fn counter(&self, field: StatField) -> u64 {
        match field {
            StatField::TimeInWater => self.time_in_water,
            StatField::TimeInNether => self.time_in_nether,
            StatField::DamageTaken => self.damage_taken,
            StatField::MobsKilled => self.mobs_killed,
            StatField::FoodEaten => self.food_eaten,
            StatField::ExperienceGained => self.experience_gained,
        }
    }

    /// The same record with one counter set to `value`.
    pub open spec fn with_counter(self, field: StatField, value: u64) -> PlayerStats {
        match field {
            StatField::TimeInWater => PlayerStats { time_in_water: value, ..self },
            StatField::TimeInNether => PlayerStats { time_in_nether: value, ..self },
            StatField::DamageTaken => PlayerStats { damage_taken: value, ..self },
            StatField::MobsKilled => PlayerStats { mobs_killed: value, ..self },
            StatField::FoodEaten => PlayerStats { food_eaten: value, ..self },
            StatField::ExperienceGained => PlayerStats { experience_gained: value, ..self },
        }
    }

    /// Whether `amount` can be added to the counter without leaving the range of `u64`.
    pub open spec fn can_add(&self, field: StatField, amount: u64) -> bool {
        self.counter(field) + amount <= u64::MAX
    }

    /// The record after `amount` is added to one counter.
    pub open spec fn added(self, field: StatField, amount: u64) -> PlayerStats {
        self.with_counter(field, (self.counter(field) + amount) as u64)
    }

    /// A record whose counters are all zero.
    pub open spec fn is_fresh(&self) -> bool {
        &&& self.time_in_water == 0
        &&& self.time_in_nether == 0
        &&& self.damage_taken == 0
        &&& self.mobs_killed == 0
        &&& self.food_eaten == 0
        &&& self.experience_gained == 0
    }

    /// A new record with the given display data and every counter at zero.
    pub fn new(display_name: String, skin_url: String) -> (r: PlayerStats)
        ensures
            r.display_name == display_name,
            r.skin_url == skin_url,
            r.is_fresh(),
    {
        PlayerStats {
            display_name,
            skin_url,
            time_in_water: 0,
            time_in_nether: 0,
            damage_taken: 0,
            mobs_killed: 0,
            food_eaten: 0,
            experience_gained: 0,
        }
    }

    /// A copy of the record.
    pub fn duplicate(&self) -> (r: PlayerStats)
        ensures
            r == *self,
    {
        PlayerStats {
            display_name: self.display_name.clone(),
            skin_url: self.skin_url.clone(),
            time_in_water: self.time_in_water,
            time_in_nether: self.time_in_nether,
            damage_taken: self.damage_taken,
            mobs_killed: self.mobs_killed,
            food_eaten: self.food_eaten,
            experience_gained: self.experience_gained,
        }
    }

    /// Reads one counter.
    pub fn get(&self, field: StatField) -> (r: u64)
        ensures
            r == self.counter(field),
    {
        match field {
            StatField::TimeInWater => self.time_in_water,
            StatField::TimeInNether => self.time_in_nether,
            StatField::DamageTaken => self.damage_taken,
            StatField::MobsKilled => self.mobs_killed,
            StatField::FoodEaten => self.food_eaten,
            StatField::ExperienceGained => self.experience_gained,
        }
    }

    /// Adds `amount` to one counter; fails with `Overflow`, leaving the record as
    /// it was, when the sum does not fit.
    pub fn add(&mut self, field: StatField, amount: u64) -> (r: Result<(), DatabaseError>)
        ensures
            old(self).can_add(field, amount) ==> r is Ok && *final(self) == old(self).added(
                field,
                amount,
            ),
            !old(self).can_add(field, amount) ==> r == Err::<(), DatabaseError>(
                DatabaseError::Overflow,
            ) && *final(self) == *old(self),
    {
        let current = self.get(field);
        if current > u64::MAX - amount {
            return Err(DatabaseError::Overflow);
        }
        let value = current + amount;
        match field {
            StatField::TimeInWater => self.time_in_water = value,
            StatField::TimeInNether => self.time_in_nether = value,
            StatField::DamageTaken => self.damage_taken = value,
            StatField::MobsKilled => self.mobs_killed = value,
            StatField::FoodEaten => self.food_eaten = value,
            StatField::ExperienceGained => self.experience_gained = value,
        }
        Ok(())
    }
}

/// The sum of a list of deltas.
pub open spec fn sum_of(deltas: Seq<u64>) -> nat
    decreases deltas.len(),
{
    if deltas.len() == 0 {
        0
    } else {
        sum_of(deltas.drop_last()) + deltas.last() as nat
    }
}

/// The record after each delta of the list is added, in order, to one counter.
pub open spec fn added_all(s: PlayerStats, field: StatField, deltas: Seq<u64>) -> PlayerStats
    decreases deltas.len(),
{
    if deltas.len() == 0 {
        s
    } else {
        added_all(s, field, deltas.drop_last()).added(field, deltas.last())
    }
}

/// Additivity: adding a list of deltas to one counter, one after the other,
/// leaves it at its first value plus their sum, where that sum fits, and
/// changes nothing else.
pub proof fn lemma_additivity(s: PlayerStats, field: StatField, deltas: Seq<u64>)
    requires
        s.counter(field) + sum_of(deltas) <= u64::MAX,
    ensures
        forall|i: int| 0 <= i < deltas.len() ==> added_all(s, field, deltas.take(i)).can_add(field, #[trigger] deltas[i]),
        added_all(s, field, deltas).counter(field) == s.counter(field) + sum_of(deltas),
        forall|f: StatField| f != field ==> #[trigger] added_all(s, field, deltas).counter(f) == s.counter(f),
        added_all(s, field, deltas).display_name == s.display_name,
        added_all(s, field, deltas).skin_url == s.skin_url,
    decreases deltas.len(),
{
    if deltas.len() > 0 {
        let p = deltas.drop_last();
        lemma_additivity(s, field, p);
        let t = added_all(s, field, p);
        assert forall|i: int| 0 <= i < deltas.len() implies added_all(s, field, deltas.take(i)).can_add(field, #[trigger] deltas[i]) by {
            if i < p.len() {
                assert(deltas.take(i) =~= p.take(i));
                assert(deltas[i] == p[i]);
            } else {
                assert(deltas.take(i) =~= p);
            }
        }
        assert forall|f: StatField| f != field implies #[trigger] t.added(field, deltas.last()).counter(f) == t.counter(f) by {
        }
    }
}

/// The death record that closes a generation.
#[derive(Debug, Clone, PartialEq, Eq)]
pub struct KillInfo {
    /// Id of the player whose death ended the generation.
    pub killer: String,
    /// Name of the damage source that killed the player.
    pub source_name: String,
    /// Category of that damage source.
    pub source_type: String,
}

impl KillInfo {
    /// A copy of the death record.
    pub fn duplicate(&self) -> (r: KillInfo)
        ensures
            r == *self,
    {
        KillInfo {
            killer: self.killer.clone(),
            source_name: self.source_name.clone(),
            source_type: self.source_type.clone(),
        }
    }
}

/// The store-wide metadata file's contents.
#[derive(Debug, Clone, Copy, PartialEq, Eq, Structural)]
pub struct Global {
    pub uptime: u64,
}

/// One stat update: an authentication token, optional deltas for each counter and
/// an optional death payload.
#[derive(Debug, Clone)]
pub struct Info {
    pub auth: String,
    pub time_in_water: Option<u64>,
    pub time_in_nether: Option<u64>,
    pub damage_taken: Option<u64>,
    pub mobs_killed: Option<u64>,
    pub food_eaten: Option<u64>,
    pub experience_gained: Option<u64>,
    pub has_died: Option<bool>,
    pub kill_info: Option<KillInfo>,
}

pub open spec fn or_zero(d: Option<u64>) -> u64 {
    match d {
        Some(v) => v,
        None => 0,
    }
}

impl Info {
    /// The amount that this update adds to one counter (zero where it names none).
    pub open spec fn delta(&self, field: StatField) -> u64 {
        match field {
            StatField::TimeInWater => or_zero(self.time_in_water),
            StatField::TimeInNether => or_zero(self.time_in_nether),
            StatField::DamageTaken => or_zero(self.damage_taken),
            StatField::MobsKilled => or_zero(self.mobs_killed),
            StatField::FoodEaten => or_zero(self.food_eaten),
            StatField::ExperienceGained => or_zero(self.experience_gained),
        }
    }

    pub fn delta_of(&self, field: StatField) -> (r: u64)
        ensures
            r == self.delta(field),
    {
        let d = match field {
            StatField::TimeInWater => self.time_in_water,
            StatField::TimeInNether => self.time_in_nether,
            StatField::DamageTaken => self.damage_taken,
            StatField::MobsKilled => self.mobs_killed,
            StatField::FoodEaten => self.food_eaten,
            StatField::ExperienceGained => self.experience_gained,
        };
        match d {
            Some(v) => v,
            None => 0,
        }
    }
}

impl PlayerStats {
    /// Whether every delta of `info` fits into its counter.
    pub open spec fn can_merge(&self, info: &Info) -> bool {
        &&& self.can_add(StatField::TimeInWater, info.delta(StatField::TimeInWater))
        &&& self.can_add(StatField::TimeInNether, info.delta(StatField::TimeInNether))
        &&& self.can_add(StatField::DamageTaken, info.delta(StatField::DamageTaken))
        &&& self.can_add(StatField::MobsKilled, info.delta(StatField::MobsKilled))
        &&& self.can_add(StatField::FoodEaten, info.delta(StatField::FoodEaten))
        &&& self.can_add(StatField::ExperienceGained, info.delta(StatField::ExperienceGained))
    }

    /// The record with every delta of `info` added to its counter.
    pub open spec fn merged(self, info: &Info) -> PlayerStats {
        PlayerStats {
            time_in_water: (self.time_in_water + info.delta(StatField::TimeInWater)) as u64,
            time_in_nether: (self.time_in_nether + info.delta(StatField::TimeInNether)) as u64,
            damage_taken: (self.damage_taken + info.delta(StatField::DamageTaken)) as u64,
            mobs_killed: (self.mobs_killed + info.delta(StatField::MobsKilled)) as u64,
            food_eaten: (self.food_eaten + info.delta(StatField::FoodEaten)) as u64,
            experience_gained: (self.experience_gained + info.delta(
                StatField::ExperienceGained,
            )) as u64,
            ..self
        }
    }

    /// Adds every delta of `info` to its counter. Either all of them are applied
    /// or, where one would overflow, none is and `Overflow` is returned.
    pub fn merge(&mut self, info: &Info) -> (r: Result<(), DatabaseError>)
        ensures
            old(self).can_merge(info) ==> r is Ok && *final(self) == old(self).merged(info),
            !old(self).can_merge(info) ==> r == Err::<(), DatabaseError>(DatabaseError::Overflow)
                && *final(self) == *old(self),
    {
        let water = info.delta_of(StatField::TimeInWater);
        let nether = info.delta_of(StatField::TimeInNether);
        let damage = info.delta_of(StatField::DamageTaken);
        let mobs = info.delta_of(StatField::MobsKilled);
        let food = info.delta_of(StatField::FoodEaten);
        let experience = info.delta_of(StatField::ExperienceGained);
        if self.time_in_water > u64::MAX - water || self.time_in_nether > u64::MAX - nether
            || self.damage_taken > u64::MAX - damage || self.mobs_killed > u64::MAX - mobs
            || self.food_eaten > u64::MAX - food || self.experience_gained > u64::MAX
            - experience {
            return Err(DatabaseError::Overflow);
        }
        self.time_in_water = self.time_in_water + water;
        self.time_in_nether = self.time_in_nether + nether;
        self.damage_taken = self.damage_taken + damage;
        self.mobs_killed = self.mobs_killed + mobs;
        self.food_eaten = self.food_eaten + food;
        self.experience_gained = self.experience_gained + experience;
        Ok(())
    }
}

} // verus!
