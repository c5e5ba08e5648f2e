use std::collections::HashMap;

use vstd::prelude::*;

use crate::csv::{parse_u32, split_on, split_pieces, unsigned_spec, CSVFile, CSVRecord};
use crate::enums::{attribute_spec, profession_spec, AttributeType, Language, ProfessionType};
use crate::messages::I18nStore;

verus! {

broadcast use vstd::std_specs::hash::group_hash_axioms;

/// Every record has at least `n` fields.
pub open spec fn all_have_fields(records: Seq<Seq<Seq<char>>>, n: nat) -> bool {
    forall|i: int| 0 <= i < records.len() ==> #[trigger] records[i].len() >= n
}

/// Field `j` of a record, copied.
pub(crate) fn field(record: &CSVRecord, j: usize) -> (r: String)
    requires
        j < record@.len(),
    ensures
        r@ == record.deep_view()[j as int],
{
    record[j].clone()
}

// ---------------------------------------------------------------------------
// Tables indexed by position
// ---------------------------------------------------------------------------

/// One Zaishen quest of a rotation.
#[derive(Debug)]
pub struct ZaishenQuestData {
    pub name: String,
}

/// The quests of one Zaishen rotation, in rotation order.
#[derive(Debug)]
pub struct ZaishenQuestStore(Vec<ZaishenQuestData>);

impl ZaishenQuestStore {
    /// The quests, in order.
    pub closed spec fn entries(&self) -> Seq<ZaishenQuestData> {
        self.0@
    }

    /// The quests of a table whose second field is the quest name; `None`
    /// where a record has fewer than two fields.
    pub fn from_csv(csv: &CSVFile) -> (r: Option<Self>)
        ensures
            r is Some <==> all_have_fields(csv.records_view(), 2),
            r is Some ==> r->0.entries().len() == csv.records_view().len() && forall|i: int|
                0 <= i < csv.records_view().len() ==> (#[trigger] r->0.entries()[i]).name@
                    == csv.records_view()[i][1],
    {
        let records = csv.records();
        let ghost rv = csv.records_view();
        let mut store: Vec<ZaishenQuestData> = Vec::new();
        let mut i: usize = 0;
        while i < records.len()
            invariant
                records.deep_view() == rv,
                rv == csv.records_view(),
                i <= rv.len(),
                all_have_fields(rv.take(i as int), 2),
                store@.len() == i,
                forall|j: int| 0 <= j < i ==> (#[trigger] store@[j]).name@ == rv[j][1],
            decreases rv.len() - i,
        {
            let x = &records[i];
            if x.len() < 2 {
                assert(rv[i as int].len() < 2);
                return None;
            }
            store.push(ZaishenQuestData { name: field(x, 1) });
            assert(rv.take(i + 1) =~= rv.take(i as int).push(rv[i as int]));
            i += 1;
        }
        assert(rv.take(i as int) =~= rv);
        Some(ZaishenQuestStore(store))
    }

    /// The quest at position `id`, if there is one.
    pub fn get_from_id(&self, id: i64) -> (r: Option<&ZaishenQuestData>)
        ensures
            r is Some <==> 0 <= id < self.entries().len(),
            r is Some ==> *r->0 == self.entries()[id as int],
    {
        if id < 0 || id as u64 >= self.0.len() as u64 {
            None
        } else {
            Some(&self.0[id as usize])
        }
    }
}

/// One weekly bonus.
#[derive(Debug)]
pub struct BonusEventData {
    pub name: String,
    pub description: String,
}

/// The weekly bonuses of one rotation, in rotation order.
#[derive(Debug)]
pub struct BonusEventStore(Vec<BonusEventData>);

impl BonusEventStore {
    /// The bonuses, in order.
    pub closed spec fn entries(&self) -> Seq<BonusEventData> {
        self.0@
    }

    /// The bonuses of a table whose second and third fields are the name and
    /// the description; `None` where a record has fewer than three fields.
    pub fn from_csv(csv: &CSVFile) -> (r: Option<Self>)
        ensures
            r is Some <==> all_have_fields(csv.records_view(), 3),
            r is Some ==> r->0.entries().len() == csv.records_view().len() && forall|i: int|
                0 <= i < csv.records_view().len() ==> {
                    &&& (#[trigger] r->0.entries()[i]).name@ == csv.records_view()[i][1]
                    &&& r->0.entries()[i].description@ == csv.records_view()[i][2]
                },
    {
        let records = csv.records();
        let ghost rv = csv.records_view();
        let mut store: Vec<BonusEventData> = Vec::new();
        let mut i: usize = 0;
        while i < records.len()
            invariant
                records.deep_view() == rv,
                rv == csv.records_view(),
                i <= rv.len(),
                all_have_fields(rv.take(i as int), 3),
                store@.len() == i,
                forall|j: int|
                    0 <= j < i ==> {
                        &&& (#[trigger] store@[j]).name@ == rv[j][1]
                        &&& store@[j].description@ == rv[j][2]
                    },
            decreases rv.len() - i,
        {
            let x = &records[i];
            if x.len() < 3 {
                assert(rv[i as int].len() < 3);
                return None;
            }
            store.push(BonusEventData { name: field(x, 1), description: field(x, 2) });
            assert(rv.take(i + 1) =~= rv.take(i as int).push(rv[i as int]));
            i += 1;
        }
        assert(rv.take(i as int) =~= rv);
        Some(BonusEventStore(store))
    }

    /// The bonus at position `id`, if there is one.
    pub fn get_from_id(&self, id: i64) -> (r: Option<&BonusEventData>)
        ensures
            r is Some <==> 0 <= id < self.entries().len(),
            r is Some ==> *r->0 == self.entries()[id as int],
    {
        if id < 0 || id as u64 >= self.0.len() as u64 {
            None
        } else {
            Some(&self.0[id as usize])
        }
    }
}

/// One stop of Nicholas the Traveler.
#[derive(Debug)]
pub struct NicholasGiftData {
    pub item: String,
    pub location: String,
    pub region: String,
    pub campaign: String,
    pub item_url: String,
    pub location_url: String,
}

/// The stops of Nicholas the Traveler, in rotation order.
#[derive(Debug)]
pub struct NicholasGiftStore(Vec<NicholasGiftData>);

/// A stop holds fields 1 to 6 of its record, in order.
pub open spec fn gift_matches(d: NicholasGiftData, x: Seq<Seq<char>>) -> bool {
    &&& d.item@ == x[1]
    &&& d.location@ == x[2]
    &&& d.region@ == x[3]
    &&& d.campaign@ == x[4]
    &&& d.item_url@ == x[5]
    &&& d.location_url@ == x[6]
}

impl NicholasGiftStore {
    /// The stops, in order.
    pub closed spec fn entries(&self) -> Seq<NicholasGiftData> {
        self.0@
    }

    /// The stops of a table whose fields 1 to 6 are the item, the location,
    /// the region, the campaign and the two links; `None` where a record has
    /// fewer than seven fields.
    pub fn from_csv(csv: &CSVFile) -> (r: Option<Self>)
        ensures
            r is Some <==> all_have_fields(csv.records_view(), 7),
            r is Some ==> r->0.entries().len() == csv.records_view().len() && forall|i: int|
                0 <= i < csv.records_view().len() ==> gift_matches(
                    #[trigger] r->0.entries()[i],
                    csv.records_view()[i],
                ),
    {
        let records = csv.records();
        let ghost rv = csv.records_view();
        let mut store: Vec<NicholasGiftData> = Vec::new();
        let mut i: usize = 0;
        while i < records.len()
            invariant
                records.deep_view() == rv,
                rv == csv.records_view(),
                i <= rv.len(),
                all_have_fields(rv.take(i as int), 7),
                store@.len() == i,
                forall|j: int| 0 <= j < i ==> gift_matches(#[trigger] store@[j], rv[j]),
            decreases rv.len() - i,
        {
            let x = &records[i];
            if x.len() < 7 {
                assert(rv[i as int].len() < 7);
                return None;
            }
            store.push(
                NicholasGiftData {
                    item: field(x, 1),
                    location: field(x, 2),
                    region: field(x, 3),
                    campaign: field(x, 4),
                    item_url: field(x, 5),
                    location_url: field(x, 6),
                },
            );
            assert(rv.take(i + 1) =~= rv.take(i as int).push(rv[i as int]));
            i += 1;
        }
        assert(rv.take(i as int) =~= rv);
        Some(NicholasGiftStore(store))
    }

    /// The stop at position `id`, if there is one.
    pub fn get_from_id(&self, id: i64) -> (r: Option<&NicholasGiftData>)
        ensures
            r is Some <==> 0 <= id < self.entries().len(),
            r is Some ==> *r->0 == self.entries()[id as int],
    {
        if id < 0 || id as u64 >= self.0.len() as u64 {
            None
        } else {
            Some(&self.0[id as usize])
        }
    }
}

/// One special event.
#[derive(Debug)]
pub struct SpecialEventData {
    pub name: String,
    pub note: String,
}

/// The special events, by position.
#[derive(Debug)]
pub struct SpecialEventStore(Vec<SpecialEventData>);

impl SpecialEventStore {
    /// The events, in order.
    pub closed spec fn entries(&self) -> Seq<SpecialEventData> {
        self.0@
    }

    /// The events of a table whose second and third fields are the name and
    /// a note; `None` where a record has fewer than three fields.
    pub fn from_csv(csv: &CSVFile) -> (r: Option<Self>)
        ensures
            r is Some <==> all_have_fields(csv.records_view(), 3),
            r is Some ==> r->0.entries().len() == csv.records_view().len() && forall|i: int|
                0 <= i < csv.records_view().len() ==> {
                    &&& (#[trigger] r->0.entries()[i]).name@ == csv.records_view()[i][1]
                    &&& r->0.entries()[i].note@ == csv.records_view()[i][2]
                },
    {
        let records = csv.records();
        let ghost rv = csv.records_view();
        let mut store: Vec<SpecialEventData> = Vec::new();
        let mut i: usize = 0;
        while i < records.len()
            invariant
                records.deep_view() == rv,
                rv == csv.records_view(),
                i <= rv.len(),
                all_have_fields(rv.take(i as int), 3),
                store@.len() == i,
                forall|j: int|
                    0 <= j < i ==> {
                        &&& (#[trigger] store@[j]).name@ == rv[j][1]
                        &&& store@[j].note@ == rv[j][2]
                    },
            decreases rv.len() - i,
        {
            let x = &records[i];
            if x.len() < 3 {
                assert(rv[i as int].len() < 3);
                return None;
            }
            store.push(SpecialEventData { name: field(x, 1), note: field(x, 2) });
            assert(rv.take(i + 1) =~= rv.take(i as int).push(rv[i as int]));
            i += 1;
        }
        assert(rv.take(i as int) =~= rv);
        Some(SpecialEventStore(store))
    }

    /// The event at position `id`, if there is one.
    pub fn get_from_id(&self, id: u32) -> (r: Option<&SpecialEventData>)
        ensures
            r is Some <==> id < self.entries().len(),
            r is Some ==> *r->0 == self.entries()[id as int],
    {
        if id as usize >= self.0.len() {
            None
        } else {
            Some(&self.0[id as usize])
        }
    }
}

// ---------------------------------------------------------------------------
// Tables keyed by identifier
// ---------------------------------------------------------------------------

/// The id that field 0 of a record writes, if it is a `u32` in decimal.
pub open spec fn record_id(x: Seq<Seq<char>>) -> Option<nat> {
    unsigned_spec(x[0], u32::MAX as nat)
}

/// The names and descriptions of a skill table: field 0 is the id, 1 the
/// name and 2 the description, and a later record replaces an earlier one
/// with the same id. `None` where a record has fewer than three fields or an
/// id that is no number.
pub open spec fn skill_names_spec(records: Seq<Seq<Seq<char>>>) -> Option<
    Map<u32, (Seq<char>, Seq<char>)>,
>
    decreases records.len(),
{
    if records.len() == 0 {
        Some(Map::empty())
    } else {
        let x = records.last();
        match skill_names_spec(records.drop_last()) {
            None => None,
            Some(m) => if x.len() >= 3 && record_id(x) is Some {
                Some(m.insert(record_id(x)->0 as u32, (x[1], x[2])))
            } else {
                None
            },
        }
    }
}

proof fn lemma_skill_names_none(records: Seq<Seq<Seq<char>>>, i: int)
    requires
        0 <= i <= records.len(),
        skill_names_spec(records.take(i)) is None,
    ensures
        skill_names_spec(records) is None,
    decreases records.len() - i,
{
    if i < records.len() {
        assert(records.take(i + 1).drop_last() =~= records.take(i));
        lemma_skill_names_none(records, i + 1);
    } else {
        assert(records.take(i) =~= records);
    }
}

/// The name and description of a skill in one language.
#[derive(Debug)]
pub struct SkillName {
    pub name: String,
    pub description: String,
}

/// The skill names of one language, by skill id.
#[derive(Debug)]
pub struct SkillNameStore(HashMap<u32, SkillName>);

impl SkillNameStore {
    /// The name and description of each skill id.
    pub closed spec fn names(&self) -> Map<u32, (Seq<char>, Seq<char>)> {
        self.0@.map_values(|s: SkillName| (s.name@, s.description@))
    }

    /// The skill names of a table (see `skill_names_spec`).
    pub fn from_csv(csv: &CSVFile) -> (r: Option<Self>)
        ensures
            match skill_names_spec(csv.records_view()) {
                Some(m) => r is Some && r->0.names() == m,
                None => r is None,
            },
    {
        let records = csv.records();
        let ghost rv = csv.records_view();
        let mut store: HashMap<u32, SkillName> = HashMap::new();
        let mut i: usize = 0;
        assert(rv.take(0) =~= Seq::<Seq<Seq<char>>>::empty());
        assert(store@.map_values(|s: SkillName| (s.name@, s.description@)) =~= Map::empty());
        while i < records.len()
            invariant
                records.deep_view() == rv,
                rv == csv.records_view(),
                i <= rv.len(),
                skill_names_spec(rv.take(i as int)) == Some(
                    store@.map_values(|s: SkillName| (s.name@, s.description@)),
                ),
            decreases rv.len() - i,
        {
            let x = &records[i];
            assert(rv.take(i + 1).drop_last() =~= rv.take(i as int));
            assert(rv.take(i + 1).last() == rv[i as int]);
            if x.len() < 3 {
                proof {
                    lemma_skill_names_none(rv, i + 1);
                }
                return None;
            }
            let id = match parse_u32(x[0].as_str()) {
                Some(id) => id,
                None => {
                    proof {
                        lemma_skill_names_none(rv, i + 1);
                    }
                    return None;
                },
            };
            let ghost before = store@;
            store.insert(id, SkillName { name: field(x, 1), description: field(x, 2) });
            assert(store@.map_values(|s: SkillName| (s.name@, s.description@)) =~= before.map_values(
                |s: SkillName| (s.name@, s.description@),
            ).insert(id, (rv[i as int][1], rv[i as int][2])));
            i += 1;
        }
        assert(rv.take(i as int) =~= rv);
        Some(SkillNameStore(store))
    }

    /// The name of skill `id`, if the table has it.
    pub fn get_from_id(&self, id: u32) -> (r: Option<&SkillName>)
        ensures
            r is Some <==> self.names().contains_key(id),
            r is Some ==> (r->0.name@, r->0.description@) == self.names()[id],
    {
        self.0.get(&id)
    }
}

/// The most recent entry for `k`: the value of the last pair with key `k`.
pub open spec fn last_value_of<K, V>(entries: Seq<(K, V)>, k: K) -> Option<V>
    decreases entries.len(),
{
    if entries.len() == 0 {
        None
    } else if entries.last().0 == k {
        Some(entries.last().1)
    } else {
        last_value_of(entries.drop_last(), k)
    }
}

/// The named entries of a table whose field 0 is an identifier that `kind`
/// maps and field 1 a name, in table order; `None` where a record has fewer
/// than two fields, an id that is no number or one that `kind` does not map.
pub open spec fn named_entries_spec<K>(
    records: Seq<Seq<Seq<char>>>,
    kind: spec_fn(nat) -> Option<K>,
) -> Option<Seq<(K, Seq<char>)>>
    decreases records.len(),
{
    if records.len() == 0 {
        Some(Seq::empty())
    } else {
        let x = records.last();
        match named_entries_spec(records.drop_last(), kind) {
            None => None,
            Some(s) => if x.len() >= 2 && record_id(x) is Some && kind(record_id(x)->0) is Some {
                Some(s.push((kind(record_id(x)->0)->0, x[1])))
            } else {
                None
            },
        }
    }
}

proof fn lemma_named_entries_none<K>(
    records: Seq<Seq<Seq<char>>>,
    kind: spec_fn(nat) -> Option<K>,
    i: int,
)
    requires
        0 <= i <= records.len(),
        named_entries_spec(records.take(i), kind) is None,
    ensures
        named_entries_spec(records, kind) is None,
    decreases records.len() - i,
{
    if i < records.len() {
        assert(records.take(i + 1).drop_last() =~= records.take(i));
        lemma_named_entries_none(records, kind, i + 1);
    } else {
        assert(records.take(i) =~= records);
    }
}

/// The name of an attribute in one language.
#[derive(Debug)]
pub struct AttributeName(pub String);

/// The attribute names of one language.
#[derive(Debug)]
pub struct AttributeStore(Vec<(AttributeType, AttributeName)>);

impl AttributeStore {
    /// The attributes and their names, in table order.
    pub closed spec fn entries(&self) -> Seq<(AttributeType, Seq<char>)> {
        self.0@.map_values(|e: (AttributeType, AttributeName)| (e.0, (e.1).0@))
    }

    /// The attribute names of a table whose field 0 is the attribute id and
    /// field 1 its name.
    pub fn from_csv(csv: &CSVFile) -> (r: Option<Self>)
        ensures
            match named_entries_spec(csv.records_view(), |n: nat| attribute_spec(n)) {
                Some(s) => r is Some && r->0.entries() == s,
                None => r is None,
            },
    {
        let records = csv.records();
        let ghost rv = csv.records_view();
        let ghost kind = |n: nat| attribute_spec(n);
        let mut store: Vec<(AttributeType, AttributeName)> = Vec::new();
        let mut i: usize = 0;
        assert(rv.take(0) =~= Seq::<Seq<Seq<char>>>::empty());
        assert(store@.map_values(|e: (AttributeType, AttributeName)| (e.0, (e.1).0@)) =~= Seq::<
            (AttributeType, Seq<char>),
        >::empty());
        while i < records.len()
            invariant
                records.deep_view() == rv,
                rv == csv.records_view(),
                kind == (|n: nat| attribute_spec(n)),
                i <= rv.len(),
                named_entries_spec(rv.take(i as int), kind) == Some(
                    store@.map_values(|e: (AttributeType, AttributeName)| (e.0, (e.1).0@)),
                ),
            decreases rv.len() - i,
        {
            let x = &records[i];
            assert(rv.take(i + 1).drop_last() =~= rv.take(i as int));
            assert(rv.take(i + 1).last() == rv[i as int]);
            if x.len() < 2 {
                proof {
                    lemma_named_entries_none(rv, kind, i + 1);
                }
                return None;
            }
            let attribute = match parse_u32(x[0].as_str()) {
                Some(id) => AttributeType::from(id),
                None => None,
            };
            match attribute {
                Some(a) => {
                    let ghost before = store@;
                    store.push((a, AttributeName(field(x, 1))));
                    assert(store@.map_values(|e: (AttributeType, AttributeName)| (e.0, (e.1).0@))
                        =~= before.map_values(
                        |e: (AttributeType, AttributeName)| (e.0, (e.1).0@),
                    ).push((a, rv[i as int][1])));
                },
                None => {
                    proof {
                        lemma_named_entries_none(rv, kind, i + 1);
                    }
                    return None;
                },
            }
            i += 1;
        }
        assert(rv.take(i as int) =~= rv);
        Some(AttributeStore(store))
    }

    /// The name of `attr`, if the table has it.
    pub fn from(&self, attr: &AttributeType) -> (r: Option<&AttributeName>)
        ensures
            match last_value_of(self.entries(), *attr) {
                Some(name) => r is Some && (r->0).0@ == name,
                None => r is None,
            },
    {
        let ghost entries = self.entries();
        let mut i: usize = self.0.len();
        assert(entries.take(i as int) =~= entries);
        while i > 0
            invariant
                i <= self.0@.len(),
                entries == self.entries(),
                entries.len() == self.0@.len(),
                last_value_of(entries, *attr) == last_value_of(entries.take(i as int), *attr),
            decreases i,
        {
            assert(entries.take(i as int).drop_last() =~= entries.take(i - 1));
            if self.0[i - 1].0 == *attr {
                return Some(&self.0[i - 1].1);
            }
            i -= 1;
        }
        None
    }
}

/// The name of a profession in one language.
#[derive(Debug)]
pub struct ProfessionName(pub String);

/// The profession names of one language.
#[derive(Debug)]
pub struct ProfessionStore(Vec<(ProfessionType, ProfessionName)>);

impl ProfessionStore {
    /// The professions and their names, in table order.
    pub closed spec fn entries(&self) -> Seq<(ProfessionType, Seq<char>)> {
        self.0@.map_values(|e: (ProfessionType, ProfessionName)| (e.0, (e.1).0@))
    }

    /// The profession names of a table whose field 0 is the profession id
    /// and field 1 its name.
    pub fn from_csv(csv: &CSVFile) -> (r: Option<Self>)
        ensures
            match named_entries_spec(csv.records_view(), |n: nat| profession_spec(n)) {
                Some(s) => r is Some && r->0.entries() == s,
                None => r is None,
            },
    {
        let records = csv.records();
        let ghost rv = csv.records_view();
        let ghost kind = |n: nat| profession_spec(n);
        let mut store: Vec<(ProfessionType, ProfessionName)> = Vec::new();
        let mut i: usize = 0;
        assert(rv.take(0) =~= Seq::<Seq<Seq<char>>>::empty());
        assert(store@.map_values(|e: (ProfessionType, ProfessionName)| (e.0, (e.1).0@)) =~= Seq::<
            (ProfessionType, Seq<char>),
        >::empty());
        while i < records.len()
            invariant
                records.deep_view() == rv,
                rv == csv.records_view(),
                kind == (|n: nat| profession_spec(n)),
                i <= rv.len(),
                named_entries_spec(rv.take(i as int), kind) == Some(
                    store@.map_values(|e: (ProfessionType, ProfessionName)| (e.0, (e.1).0@)),
                ),
            decreases rv.len() - i,
        {
            let x = &records[i];
            assert(rv.take(i + 1).drop_last() =~= rv.take(i as int));
            assert(rv.take(i + 1).last() == rv[i as int]);
            if x.len() < 2 {
                proof {
                    lemma_named_entries_none(rv, kind, i + 1);
                }
                return None;
            }
            let profession = match parse_u32(x[0].as_str()) {
                Some(id) => ProfessionType::from(id),
                None => None,
            };
            match profession {
                Some(p) => {
                    let ghost before = store@;
                    store.push((p, ProfessionName(field(x, 1))));
                    assert(store@.map_values(|e: (ProfessionType, ProfessionName)| (e.0, (e.1).0@))
                        =~= before.map_values(
                        |e: (ProfessionType, ProfessionName)| (e.0, (e.1).0@),
                    ).push((p, rv[i as int][1])));
                },
                None => {
                    proof {
                        lemma_named_entries_none(rv, kind, i + 1);
                    }
                    return None;
                },
            }
            i += 1;
        }
        assert(rv.take(i as int) =~= rv);
        Some(ProfessionStore(store))
    }

    /// The name of `prof`, if the table has it.
    pub fn from(&self, prof: &ProfessionType) -> (r: Option<&ProfessionName>)
        ensures
            match last_value_of(self.entries(), *prof) {
                Some(name) => r is Some && (r->0).0@ == name,
                None => r is None,
            },
    {
        let ghost entries = self.entries();
        let mut i: usize = self.0.len();
        assert(entries.take(i as int) =~= entries);
        while i > 0
            invariant
                i <= self.0@.len(),
                entries == self.entries(),
                entries.len() == self.0@.len(),
                last_value_of(entries, *prof) == last_value_of(entries.take(i as int), *prof),
            decreases i,
        {
            assert(entries.take(i as int).drop_last() =~= entries.take(i - 1));
            if self.0[i - 1].0 == *prof {
                return Some(&self.0[i - 1].1);
            }
            i -= 1;
        }
        None
    }
}

// ---------------------------------------------------------------------------
// Skill details
// ---------------------------------------------------------------------------

/// Relies on `str::starts_with` with a `&str` pattern: `prefix` begins `s`.
#[verifier::external_body]
fn starts_with(s: &str, prefix: &str) -> (r: bool)
    ensures
        r == prefix@.is_prefix_of(s@),
{
    s.starts_with(prefix)
}

/// The entries of `s` whose key is not `k`, in order.
pub open spec fn drop_key<V>(s: Seq<(Seq<char>, V)>, k: Seq<char>) -> Seq<(Seq<char>, V)>
    decreases s.len(),
{
    if s.len() == 0 {
        Seq::empty()
    } else if s.last().0 == k {
        drop_key(s.drop_last(), k)
    } else {
        drop_key(s.drop_last(), k).push(s.last())
    }
}

/// Sets `k` to `v` in a list of entries with distinct keys: an earlier
/// entry for `k` leaves, and the new one comes last.
pub open spec fn put_entry<V>(s: Seq<(Seq<char>, V)>, k: Seq<char>, v: V) -> Seq<(Seq<char>, V)> {
    drop_key(s, k).push((k, v))
}

/// The numeric entries of a skill's info field, given its `|`-separated
/// pieces: each piece is `key=value` with a decimal value; empty pieces and
/// those that begin with `Special` are skipped, and a later entry for a key
/// replaces an earlier one. `None` where another piece has no `=` or no
/// number after it.
pub open spec fn skill_infos_spec(pieces: Seq<Seq<char>>) -> Option<Seq<(Seq<char>, u32)>>
    decreases pieces.len(),
{
    if pieces.len() == 0 {
        Some(Seq::empty())
    } else {
        let p = pieces.last();
        match skill_infos_spec(pieces.drop_last()) {
            None => None,
            Some(s) => if p.len() == 0 || "Special"@.is_prefix_of(p) {
                Some(s)
            } else {
                let kv = split_on(p, '=');
                match unsigned_spec(kv[1], u32::MAX as nat) {
                    Some(v) => if kv.len() >= 2 {
                        Some(put_entry(s, kv[0], v as u32))
                    } else {
                        None
                    },
                    None => None,
                }
            },
        }
    }
}

/// The entries of a skill's stats field, given its `|`-separated pieces:
/// each non-empty piece is `key=value`, and a later entry for a key replaces
/// an earlier one. `None` where one has no `=`.
pub open spec fn skill_stats_spec(pieces: Seq<Seq<char>>) -> Option<Seq<(Seq<char>, Seq<char>)>>
    decreases pieces.len(),
{
    if pieces.len() == 0 {
        Some(Seq::empty())
    } else {
        let p = pieces.last();
        match skill_stats_spec(pieces.drop_last()) {
            None => None,
            Some(s) => if p.len() == 0 {
                Some(s)
            } else {
                let kv = split_on(p, '=');
                if kv.len() >= 2 {
                    Some(put_entry(s, kv[0], kv[1]))
                } else {
                    None
                }
            },
        }
    }
}

proof fn lemma_infos_none(pieces: Seq<Seq<char>>, i: int)
    requires
        0 <= i <= pieces.len(),
        skill_infos_spec(pieces.take(i)) is None,
    ensures
        skill_infos_spec(pieces) is None,
    decreases pieces.len() - i,
{
    if i < pieces.len() {
        assert(pieces.take(i + 1).drop_last() =~= pieces.take(i));
        lemma_infos_none(pieces, i + 1);
    } else {
        assert(pieces.take(i) =~= pieces);
    }
}

proof fn lemma_stats_none(pieces: Seq<Seq<char>>, i: int)
    requires
        0 <= i <= pieces.len(),
        skill_stats_spec(pieces.take(i)) is None,
    ensures
        skill_stats_spec(pieces) is None,
    decreases pieces.len() - i,
{
    if i < pieces.len() {
        assert(pieces.take(i + 1).drop_last() =~= pieces.take(i));
        lemma_stats_none(pieces, i + 1);
    } else {
        assert(pieces.take(i) =~= pieces);
    }
}

/// Sets `key` to `value` among numeric entries (see `put_entry`).
fn put_info(out: &mut Vec<(String, u32)>, key: String, value: u32)
    ensures
        final(out)@.map_values(|e: (String, u32)| (e.0@, e.1)) == put_entry(
            old(out)@.map_values(|e: (String, u32)| (e.0@, e.1)),
            key@,
            value,
        ),
{
    let ghost before = out@.map_values(|e: (String, u32)| (e.0@, e.1));
    let mut kept: Vec<(String, u32)> = Vec::new();
    let mut i: usize = 0;
    assert(before.take(0) =~= Seq::<(Seq<char>, u32)>::empty());
    assert(kept@.map_values(|e: (String, u32)| (e.0@, e.1)) =~= Seq::<(Seq<char>, u32)>::empty());
    while i < out.len()
        invariant
            before == out@.map_values(|e: (String, u32)| (e.0@, e.1)),
            i <= out@.len(),
            kept@.map_values(|e: (String, u32)| (e.0@, e.1)) == drop_key(before.take(i as int), key@),
        decreases out@.len() - i,
    {
        assert(before.take(i + 1).drop_last() =~= before.take(i as int));
        assert(before.take(i + 1).last() == (out@[i as int].0@, out@[i as int].1));
        if out[i].0 != key {
            let ghost prev = kept@.map_values(|e: (String, u32)| (e.0@, e.1));
            kept.push((out[i].0.clone(), out[i].1));
            assert(kept@.map_values(|e: (String, u32)| (e.0@, e.1)) =~= prev.push(
                (out@[i as int].0@, out@[i as int].1),
            ));
        }
        i += 1;
    }
    assert(before.take(i as int) =~= before);
    let ghost prev = kept@.map_values(|e: (String, u32)| (e.0@, e.1));
    kept.push((key, value));
    assert(kept@.map_values(|e: (String, u32)| (e.0@, e.1)) =~= prev.push((key@, value)));
    *out = kept;
}

/// Sets `key` to `value` among stat entries (see `put_entry`).
fn put_stat(out: &mut Vec<(String, String)>, key: String, value: String)
    ensures
        final(out)@.map_values(|e: (String, String)| (e.0@, e.1@)) == put_entry(
            old(out)@.map_values(|e: (String, String)| (e.0@, e.1@)),
            key@,
            value@,
        ),
{
    let ghost before = out@.map_values(|e: (String, String)| (e.0@, e.1@));
    let mut kept: Vec<(String, String)> = Vec::new();
    let mut i: usize = 0;
    assert(before.take(0) =~= Seq::<(Seq<char>, Seq<char>)>::empty());
    assert(kept@.map_values(|e: (String, String)| (e.0@, e.1@)) =~= Seq::<
        (Seq<char>, Seq<char>),
    >::empty());
    while i < out.len()
        invariant
            before == out@.map_values(|e: (String, String)| (e.0@, e.1@)),
            i <= out@.len(),
            kept@.map_values(|e: (String, String)| (e.0@, e.1@)) == drop_key(
                before.take(i as int),
                key@,
            ),
        decreases out@.len() - i,
    {
        assert(before.take(i + 1).drop_last() =~= before.take(i as int));
        assert(before.take(i + 1).last() == (out@[i as int].0@, out@[i as int].1@));
        if out[i].0 != key {
            let ghost prev = kept@.map_values(|e: (String, String)| (e.0@, e.1@));
            kept.push((out[i].0.clone(), out[i].1.clone()));
            assert(kept@.map_values(|e: (String, String)| (e.0@, e.1@)) =~= prev.push(
                (out@[i as int].0@, out@[i as int].1@),
            ));
        }
        i += 1;
    }
    assert(before.take(i as int) =~= before);
    let ghost prev = kept@.map_values(|e: (String, String)| (e.0@, e.1@));
    kept.push((key, value));
    assert(kept@.map_values(|e: (String, String)| (e.0@, e.1@)) =~= prev.push((key@, value@)));
    *out = kept;
}

/// The numeric entries of an info field.
fn parse_infos(raw: &str) -> (r: Option<Vec<(String, u32)>>)
    ensures
        match skill_infos_spec(split_on(raw@, '|')) {
            Some(s) => r is Some && r->0@.map_values(|e: (String, u32)| (e.0@, e.1)) == s,
            None => r is None,
        },
{
    let pieces = split_pieces(raw, '|');
    let ghost ps = split_on(raw@, '|');
    let mut out: Vec<(String, u32)> = Vec::new();
    let mut i: usize = 0;
    assert(ps.take(0) =~= Seq::<Seq<char>>::empty());
    assert(out@.map_values(|e: (String, u32)| (e.0@, e.1)) =~= Seq::<(Seq<char>, u32)>::empty());
    while i < pieces.len()
        invariant
            ps == split_on(raw@, '|'),
            pieces@.len() == ps.len(),
            forall|j: int| 0 <= j < pieces@.len() ==> #[trigger] pieces@[j]@ == ps[j],
            i <= ps.len(),
            skill_infos_spec(ps.take(i as int)) == Some(
                out@.map_values(|e: (String, u32)| (e.0@, e.1)),
            ),
        decreases ps.len() - i,
    {
        let piece = pieces[i].as_str();
        assert(ps.take(i + 1).drop_last() =~= ps.take(i as int));
        assert(ps.take(i + 1).last() == ps[i as int]);
        if !(piece.is_empty() || starts_with(piece, "Special")) {
            let kv = split_pieces(piece, '=');
            if kv.len() < 2 {
                proof {
                    lemma_infos_none(ps, i + 1);
                }
                return None;
            }
            match parse_u32(kv[1].as_str()) {
                Some(v) => {
                    put_info(&mut out, kv[0].clone(), v);
                },
                None => {
                    proof {
                        lemma_infos_none(ps, i + 1);
                    }
                    return None;
                },
            }
        }
        i += 1;
    }
    assert(ps.take(i as int) =~= ps);
    Some(out)
}

/// The entries of a stats field.
fn parse_stats(raw: &str) -> (r: Option<Vec<(String, String)>>)
    ensures
        match skill_stats_spec(split_on(raw@, '|')) {
            Some(s) => r is Some && r->0@.map_values(|e: (String, String)| (e.0@, e.1@)) == s,
            None => r is None,
        },
{
    let pieces = split_pieces(raw, '|');
    let ghost ps = split_on(raw@, '|');
    let mut out: Vec<(String, String)> = Vec::new();
    let mut i: usize = 0;
    assert(ps.take(0) =~= Seq::<Seq<char>>::empty());
    assert(out@.map_values(|e: (String, String)| (e.0@, e.1@)) =~= Seq::<
        (Seq<char>, Seq<char>),
    >::empty());
    while i < pieces.len()
        invariant
            ps == split_on(raw@, '|'),
            pieces@.len() == ps.len(),
            forall|j: int| 0 <= j < pieces@.len() ==> #[trigger] pieces@[j]@ == ps[j],
            i <= ps.len(),
            skill_stats_spec(ps.take(i as int)) == Some(
                out@.map_values(|e: (String, String)| (e.0@, e.1@)),
            ),
        decreases ps.len() - i,
    {
        let piece = pieces[i].as_str();
        assert(ps.take(i + 1).drop_last() =~= ps.take(i as int));
        assert(ps.take(i + 1).last() == ps[i as int]);
        if !piece.is_empty() {
            let kv = split_pieces(piece, '=');
            if kv.len() < 2 {
                proof {
                    lemma_stats_none(ps, i + 1);
                }
                return None;
            }
            put_stat(&mut out, kv[0].clone(), kv[1].clone());
        }
        i += 1;
    }
    assert(ps.take(i as int) =~= ps);
    Some(out)
}

/// What a skill's details hold.
pub ghost struct SkillInfoView {
    pub skill_uri: Seq<char>,
    pub skill_icon: Seq<char>,
    pub skill_infos: Seq<(Seq<char>, u32)>,
    pub skill_stats: Seq<(Seq<char>, Seq<char>)>,
}

/// The details of one record of a skill table: field 0 is the id, 1 the page
/// link, 2 the icon, 3 the info field and 4 the stats field.
pub open spec fn skill_info_record_spec(x: Seq<Seq<char>>) -> Option<(u32, SkillInfoView)> {
    if x.len() < 5 {
        None
    } else {
        match (
            record_id(x),
            skill_infos_spec(split_on(x[3], '|')),
            skill_stats_spec(split_on(x[4], '|')),
        ) {
            (Some(id), Some(infos), Some(stats)) => Some(
                (
                    id as u32,
                    SkillInfoView {
                        skill_uri: x[1],
                        skill_icon: x[2],
                        skill_infos: infos,
                        skill_stats: stats,
                    },
                ),
            ),
            _ => None,
        }
    }
}

/// The details of a skill table, a later record replacing an earlier one
/// with the same id; `None` where a record is unreadable.
pub open spec fn skill_infos_store_spec(records: Seq<Seq<Seq<char>>>) -> Option<
    Map<u32, SkillInfoView>,
>
    decreases records.len(),
{
    if records.len() == 0 {
        Some(Map::empty())
    } else {
        match (skill_infos_store_spec(records.drop_last()), skill_info_record_spec(records.last())) {
            (Some(m), Some((id, info))) => Some(m.insert(id, info)),
            _ => None,
        }
    }
}

proof fn lemma_info_store_none(records: Seq<Seq<Seq<char>>>, i: int)
    requires
        0 <= i <= records.len(),
        skill_infos_store_spec(records.take(i)) is None,
    ensures
        skill_infos_store_spec(records) is None,
    decreases records.len() - i,
{
    if i < records.len() {
        assert(records.take(i + 1).drop_last() =~= records.take(i));
        lemma_info_store_none(records, i + 1);
    } else {
        assert(records.take(i) =~= records);
    }
}

/// The details of a skill: its wiki page, its icon, its numeric properties
/// and its stats, each key once, in the order in which its last entry came.
#[derive(Debug)]
pub struct SkillInfo {
    pub skill_uri: String,
    pub skill_icon: String,
    pub skill_infos: Vec<(String, u32)>,
    pub skill_stats: Vec<(String, String)>,
}

impl SkillInfo {
    /// What the details hold.
    pub open spec fn view_info(&self) -> SkillInfoView {
        SkillInfoView {
            skill_uri: self.skill_uri@,
            skill_icon: self.skill_icon@,
            skill_infos: self.skill_infos@.map_values(|e: (String, u32)| (e.0@, e.1)),
            skill_stats: self.skill_stats@.map_values(|e: (String, String)| (e.0@, e.1@)),
        }
    }
}

/// The details of every skill, by skill id.
#[derive(Debug)]
pub struct SkillInfoStore(HashMap<u32, SkillInfo>);

impl SkillInfoStore {
    /// The details of each skill id.
    pub closed spec fn infos(&self) -> Map<u32, SkillInfoView> {
        self.0@.map_values(|i: SkillInfo| i.view_info())
    }

    /// The skill details of a table (see `skill_info_record_spec`).
    pub fn from_csv(csv: &CSVFile) -> (r: Option<Self>)
        ensures
            match skill_infos_store_spec(csv.records_view()) {
                Some(m) => r is Some && r->0.infos() == m,
                None => r is None,
            },
    {
        let records = csv.records();
        let ghost rv = csv.records_view();
        let mut store: HashMap<u32, SkillInfo> = HashMap::new();
        let mut i: usize = 0;
        assert(rv.take(0) =~= Seq::<Seq<Seq<char>>>::empty());
        assert(store@.map_values(|i: SkillInfo| i.view_info()) =~= Map::empty());
        while i < records.len()
            invariant
                records.deep_view() == rv,
                rv == csv.records_view(),
                i <= rv.len(),
                skill_infos_store_spec(rv.take(i as int)) == Some(
                    store@.map_values(|i: SkillInfo| i.view_info()),
                ),
            decreases rv.len() - i,
        {
            let x = &records[i];
            assert(rv.take(i + 1).drop_last() =~= rv.take(i as int));
            assert(rv.take(i + 1).last() == rv[i as int]);
            assert(x.deep_view() == rv[i as int]);
            if x.len() < 5 {
                proof {
                    lemma_info_store_none(rv, i + 1);
                }
                return None;
            }
            let id = parse_u32(x[0].as_str());
            let skill_infos = parse_infos(x[3].as_str());
            let skill_stats = parse_stats(x[4].as_str());
            match (id, skill_infos, skill_stats) {
                (Some(id), Some(skill_infos), Some(skill_stats)) => {
                    let info = SkillInfo {
                        skill_uri: field(x, 1),
                        skill_icon: field(x, 2),
                        skill_infos,
                        skill_stats,
                    };
                    let ghost before = store@;
                    let ghost v = info.view_info();
                    store.insert(id, info);
                    assert(store@.map_values(|i: SkillInfo| i.view_info()) =~= before.map_values(
                        |i: SkillInfo| i.view_info(),
                    ).insert(id, v));
                },
                _ => {
                    proof {
                        lemma_info_store_none(rv, i + 1);
                    }
                    return None;
                },
            }
            i += 1;
        }
        assert(rv.take(i as int) =~= rv);
        Some(SkillInfoStore(store))
    }

    /// The details of skill `id`, if the table has them.
    pub fn get_from_id(&self, id: u32) -> (r: Option<&SkillInfo>)
        ensures
            r is Some <==> self.infos().contains_key(id),
            r is Some ==> r->0.view_info() == self.infos()[id],
    {
        self.0.get(&id)
    }
}

/// The skill names of every language, with the language-independent details.
#[derive(Debug)]
pub struct SKillI18nStore(I18nStore<SkillNameStore>, SkillInfoStore);

impl SKillI18nStore {
    /// The names of each language.
    pub closed spec fn names(&self) -> Seq<(Language, SkillNameStore)> {
        self.0.entries()
    }

    /// The details.
    pub closed spec fn details(&self) -> SkillInfoStore {
        self.1
    }

    /// A store with French and English names and the given details.
    pub fn new(french: SkillNameStore, english: SkillNameStore, info_store: SkillInfoStore) -> (r:
        Self)
        ensures
            r.names() == seq![(Language::French, french), (Language::English, english)],
            r.details() == info_store,
    {
        let mut m: I18nStore<SkillNameStore> = I18nStore::new();
        m.insert(Language::French, french);
        m.insert(Language::English, english);
        assert(m.entries() =~= seq![(Language::French, french), (Language::English, english)]);
        SKillI18nStore(m, info_store)
    }

    /// The name of skill `id` in `lng`, with its details where there are
    /// any; `None` where `lng` has no name for it.
    pub fn lang_and_id(&self, lng: Language, id: u32) -> (r: Option<(&SkillName, Option<&SkillInfo>)>)
        ensures
            match last_value_of(self.names(), lng) {
                Some(store) => match r {
                    Some((name, info)) => {
                        &&& store.names().contains_key(id)
                        &&& (name.name@, name.description@) == store.names()[id]
                        &&& info is Some <==> self.details().infos().contains_key(id)
                        &&& info is Some ==> info->0.view_info() == self.details().infos()[id]
                    },
                    None => !store.names().contains_key(id),
                },
                None => r is None,
            },
    {
        match self.0.lng(lng) {
            None => None,
            Some(store) => match store.get_from_id(id) {
                None => None,
                Some(skill) => Some((skill, self.1.get_from_id(id))),
            },
        }
    }
}

} // verus!
