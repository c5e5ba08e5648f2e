use std::collections::HashMap;

use vstd::prelude::*;

use crate::csv::{parse_i32, parse_u64, signed_spec, unsigned_spec, CSVFile};
use crate::enums::{language_of_lowercase, lower_of, Language};

verus! {

broadcast use vstd::std_specs::hash::group_hash_axioms;

/// The settings of one guild.
#[derive(Debug, Clone, Copy)]
pub struct GuildConfigData {
    language: Language,
    utc: i32,
}

/// The id of a guild.
pub type GuildRawId = u64;

/// The setting of one record of a configuration table: field 0 is the guild
/// id, 1 the language and 2 the offset from UTC in hours; `None` where a
/// field is missing or unreadable.
pub open spec fn guild_record_spec(x: Seq<Seq<char>>) -> Option<(u64, Language, i32)> {
    if x.len() < 3 {
        None
    } else {
        match (
            unsigned_spec(x[0], u64::MAX as nat),
            language_of_lowercase(lower_of(x[1])),
            signed_spec(x[2], i32::MIN as int, i32::MAX as int),
        ) {
            (Some(g), Some(l), Some(u)) => Some((g as u64, l, u as i32)),
            _ => None,
        }
    }
}

/// The settings of a configuration table, a later record for a guild
/// replacing an earlier one; `None` where a record is unreadable.
pub open spec fn guilds_spec(records: Seq<Seq<Seq<char>>>) -> Option<Map<u64, (Language, i32)>>
    decreases records.len(),
{
    if records.len() == 0 {
        Some(Map::empty())
    } else {
        match (guilds_spec(records.drop_last()), guild_record_spec(records.last())) {
            (Some(m), Some((g, l, u))) => Some(m.insert(g, (l, u))),
            _ => None,
        }
    }
}

proof fn lemma_guilds_none(records: Seq<Seq<Seq<char>>>, i: int)
    requires
        0 <= i <= records.len(),
        guilds_spec(records.take(i)) is None,
    ensures
        guilds_spec(records) is None,
    decreases records.len() - i,
{
    if i < records.len() {
        assert(records.take(i + 1).drop_last() =~= records.take(i));
        lemma_guilds_none(records, i + 1);
    } else {
        assert(records.take(i) =~= records);
    }
}

/// Relies on `HashMap::iter`: every entry of `m` once, in an order that the
/// map does not fix.
#[verifier::external_body]
fn entries_of(m: &HashMap<u64, GuildConfigData>) -> (r: Vec<(u64, Language, i32)>)
    ensures
        r@.len() == m@.len(),
        forall|i: int|
            0 <= i < r@.len() ==> m@.contains_key((#[trigger] r@[i]).0) && m@[r@[i].0].language
                == r@[i].1 && m@[r@[i].0].utc == r@[i].2,
        forall|i: int, j: int| 0 <= i < j < r@.len() ==> r@[i].0 != r@[j].0,
{
    m.iter().map(|(guild, config)| (*guild, config.language, config.utc)).collect()
}

/// The language and UTC offset of each guild that has settings.
#[derive(Debug)]
pub struct GuildsConfig(HashMap<GuildRawId, GuildConfigData>);

impl GuildsConfig {
    /// The settings of each guild.
    pub closed spec fn guilds(&self) -> Map<u64, (Language, i32)> {
        self.0@.map_values(|c: GuildConfigData| (c.language, c.utc))
    }

    /// The settings that a configuration table holds; no table gives no
    /// settings, and an unreadable record gives `None`.
    pub fn load(file: Option<&CSVFile>) -> (r: Option<Self>)
        ensures
            match file {
                None => r is Some && r->0.guilds() == Map::<u64, (Language, i32)>::empty(),
                Some(csv) => match guilds_spec(csv.records_view()) {
                    Some(m) => r is Some && r->0.guilds() == m,
                    None => r is None,
                },
            },
    {
        let mut hm: HashMap<u64, GuildConfigData> = HashMap::new();
        assert(hm@.map_values(|c: GuildConfigData| (c.language, c.utc)) =~= Map::empty());
        let csv = match file {
            None => return Some(GuildsConfig(hm)),
            Some(csv) => csv,
        };
        let records = csv.records();
        let ghost rv = csv.records_view();
        let mut i: usize = 0;
        assert(rv.take(0) =~= Seq::<Seq<Seq<char>>>::empty());
        while i < records.len()
            invariant
                records.deep_view() == rv,
                rv == csv.records_view(),
                file == Some(csv),
                i <= rv.len(),
                guilds_spec(rv.take(i as int)) == Some(
                    hm@.map_values(|c: GuildConfigData| (c.language, c.utc)),
                ),
            decreases rv.len() - i,
        {
            let x = &records[i];
            assert(rv.take(i + 1).drop_last() =~= rv.take(i as int));
            assert(rv.take(i + 1).last() == rv[i as int]);
            assert(x.deep_view() == rv[i as int]);
            if x.len() < 3 {
                proof {
                    lemma_guilds_none(rv, i + 1);
                }
                return None;
            }
            let guild = parse_u64(x[0].as_str());
            let language = Language::from(&x[1]);
            let utc = parse_i32(x[2].as_str());
            match (guild, language, utc) {
                (Some(guild), Ok(language), Some(utc)) => {
                    let ghost before = hm@;
                    hm.insert(guild, GuildConfigData { language, utc });
                    assert(hm@.map_values(|c: GuildConfigData| (c.language, c.utc))
                        =~= before.map_values(|c: GuildConfigData| (c.language, c.utc)).insert(
                        guild,
                        (language, utc),
                    ));
                },
                _ => {
                    proof {
                        lemma_guilds_none(rv, i + 1);
                    }
                    return None;
                },
            }
            i += 1;
        }
        assert(rv.take(i as int) =~= rv);
        Some(GuildsConfig(hm))
    }

    /// Sets the language of `guild`; a guild without settings gets UTC as its
    /// offset.
    pub fn set_language(&mut self, guild: GuildRawId, lng: Language)
        ensures
            final(self).guilds() == old(self).guilds().insert(
                guild,
                (
                    lng,
                    if old(self).guilds().contains_key(guild) {
                        old(self).guilds()[guild].1
                    } else {
                        0
                    },
                ),
            ),
    {
        let utc = match self.0.get(&guild) {
            Some(config) => config.utc,
            None => 0,
        };
        let ghost before = self.0@;
        self.0.insert(guild, GuildConfigData { language: lng, utc });
        assert(self.guilds() =~= before.map_values(
            |c: GuildConfigData| (c.language, c.utc),
        ).insert(guild, (lng, utc)));
    }

    /// Sets the UTC offset of `guild`; a guild without settings gets English
    /// as its language.
    pub fn set_utc(&mut self, guild: GuildRawId, utc: i32)
        ensures
            final(self).guilds() == old(self).guilds().insert(
                guild,
                (
                    if old(self).guilds().contains_key(guild) {
                        old(self).guilds()[guild].0
                    } else {
                        Language::English
                    },
                    utc,
                ),
            ),
    {
        let language = match self.0.get(&guild) {
            Some(config) => config.language,
            None => Language::English,
        };
        let ghost before = self.0@;
        self.0.insert(guild, GuildConfigData { language, utc });
        assert(self.guilds() =~= before.map_values(
            |c: GuildConfigData| (c.language, c.utc),
        ).insert(guild, (language, utc)));
    }

    /// The language and UTC offset of `guild`: English and 0 where it has no
    /// settings.
    pub fn get_guild_config(&self, guild: GuildRawId) -> (r: (Language, i32))
        ensures
            r == if self.guilds().contains_key(guild) {
                self.guilds()[guild]
            } else {
                (Language::English, 0i32)
            },
    {
        match self.0.get(&guild) {
            Some(config) => (config.language, config.utc),
            None => (Language::English, 0),
        }
    }

    /// Every guild with its language and UTC offset, once each, in no fixed
    /// order.
    pub fn entries(&self) -> (r: Vec<(u64, Language, i32)>)
        ensures
            r@.len() == self.guilds().len(),
            forall|i: int|
                0 <= i < r@.len() ==> self.guilds().contains_key((#[trigger] r@[i]).0)
                    && self.guilds()[r@[i].0] == (r@[i].1, r@[i].2),
            forall|i: int, j: int| 0 <= i < j < r@.len() ==> r@[i].0 != r@[j].0,
    {
        let r = entries_of(&self.0);
        assert(self.guilds().dom() =~= self.0@.dom());
        r
    }
}

} // verus!
