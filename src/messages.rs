use vstd::prelude::*;
use vstd::string::StringExecFns;

use crate::csv::CSVFile;
use crate::enums::Language;
use crate::store::{all_have_fields, field, last_value_of};

verus! {

/// One value per language.
#[derive(Debug)]
pub struct I18nStore<T>(Vec<(Language, T)>);

impl<T> I18nStore<T> {
    /// The languages and their values, in order of insertion.
    pub closed spec fn entries(&self) -> Seq<(Language, T)> {
        self.0@
    }

    /// A store with no language.
    pub fn new() -> (r: Self)
        ensures
            r.entries() == Seq::<(Language, T)>::empty(),
    {
        I18nStore(Vec::new())
    }

    /// Sets the value of `lng`, replacing any earlier one.
    pub fn insert(&mut self, lng: Language, value: T)
        ensures
            final(self).entries() == old(self).entries().push((lng, value)),
    {
        self.0.push((lng, value));
    }

    /// The value of `lng`, if it has one.
    pub fn lng(&self, lng: Language) -> (r: Option<&T>)
        ensures
            match last_value_of(self.entries(), lng) {
                Some(v) => r is Some && *r->0 == v,
                None => r is None,
            },
    {
        let ghost entries = self.entries();
        let mut i: usize = self.0.len();
        assert(entries.take(i as int) =~= entries);
        while i > 0
            invariant
                i <= self.0@.len(),
                entries == self.entries(),
                last_value_of(entries, lng) == last_value_of(entries.take(i as int), lng),
            decreases i,
        {
            assert(entries.take(i as int).drop_last() =~= entries.take(i - 1));
            if self.0[i - 1].0 == lng {
                return Some(&self.0[i - 1].1);
            }
            i -= 1;
        }
        None
    }
}

/// The messages of a table: field 0 is the key and field 1 the text.
pub open spec fn messages_spec(records: Seq<Seq<Seq<char>>>) -> Seq<(Seq<char>, Seq<char>)> {
    records.map_values(|x: Seq<Seq<char>>| (x[0], x[1]))
}

/// The messages of one language, by key.
#[derive(Debug)]
pub struct I18nMessageStore(Vec<(String, String)>);

impl I18nMessageStore {
    /// The keys and texts, in table order; a later key hides an earlier one.
    pub closed spec fn messages(&self) -> Seq<(Seq<char>, Seq<char>)> {
        self.0@.map_values(|e: (String, String)| (e.0@, e.1@))
    }

    /// The store has a text for `key`.
    pub open spec fn has(&self, key: Seq<char>) -> bool {
        last_value_of(self.messages(), key) is Some
    }

    /// The text of `key`.
    pub open spec fn text(&self, key: Seq<char>) -> Seq<char> {
        last_value_of(self.messages(), key)->0
    }

    /// The messages of a table whose field 0 is the key and field 1 the
    /// text; `None` where a record has fewer than two fields.
    pub fn from_csv(csv: &CSVFile) -> (r: Option<Self>)
        ensures
            r is Some <==> all_have_fields(csv.records_view(), 2),
            r is Some ==> r->0.messages() == messages_spec(csv.records_view()),
    {
        let records = csv.records();
        let ghost rv = csv.records_view();
        let mut store: Vec<(String, String)> = Vec::new();
        let mut i: usize = 0;
        while i < records.len()
            invariant
                records.deep_view() == rv,
                rv == csv.records_view(),
                i <= rv.len(),
                all_have_fields(rv.take(i as int), 2),
                store@.len() == i,
                forall|j: int|
                    0 <= j < i ==> (#[trigger] store@[j]).0@ == rv[j][0] && store@[j].1@ == rv[j][1],
            decreases rv.len() - i,
        {
            let x = &records[i];
            if x.len() < 2 {
                assert(rv[i as int].len() < 2);
                return None;
            }
            store.push((field(x, 0), field(x, 1)));
            assert(rv.take(i + 1) =~= rv.take(i as int).push(rv[i as int]));
            i += 1;
        }
        assert(rv.take(i as int) =~= rv);
        let r = I18nMessageStore(store);
        assert(r.messages() =~= messages_spec(rv));
        Some(r)
    }

    /// The text of `key`, if the store has one.
    pub fn get(&self, key: &str) -> (r: Option<&str>)
        ensures
            match last_value_of(self.messages(), key@) {
                Some(t) => r is Some && r->0@ == t,
                None => r is None,
            },
    {
        let wanted = String::from_str(key);
        let ghost entries = self.messages();
        let mut i: usize = self.0.len();
        assert(entries.take(i as int) =~= entries);
        while i > 0
            invariant
                i <= self.0@.len(),
                entries == self.messages(),
                entries.len() == self.0@.len(),
                wanted@ == key@,
                last_value_of(entries, key@) == last_value_of(entries.take(i as int), key@),
            decreases i,
        {
            assert(entries.take(i as int).drop_last() =~= entries.take(i - 1));
            assert(entries.take(i as int).last() == entries[i - 1]);
            assert(entries[i - 1] == (self.0@[i - 1].0@, self.0@[i - 1].1@));
            if self.0[i - 1].0 == wanted {
                return Some(self.0[i - 1].1.as_str());
            }
            i -= 1;
        }
        None
    }

    /// The text of `time-days`.
    pub fn time_days(&self) -> (r: &str)
        requires
            self.has("time-days"@),
        ensures
            r@ == self.text("time-days"@),
    {
        self.get("time-days").unwrap()
    }

    /// The text of `event-no-running`.
    pub fn event_no_running(&self) -> (r: &str)
        requires
            self.has("event-no-running"@),
        ensures
            r@ == self.text("event-no-running"@),
    {
        self.get("event-no-running").unwrap()
    }

    /// The text of `event-started`.
    pub fn event_started(&self) -> (r: &str)
        requires
            self.has("event-started"@),
        ensures
            r@ == self.text("event-started"@),
    {
        self.get("event-started").unwrap()
    }

    /// The text of `event-end`.
    pub fn event_end(&self) -> (r: &str)
        requires
            self.has("event-end"@),
        ensures
            r@ == self.text("event-end"@),
    {
        self.get("event-end").unwrap()
    }

    /// The text of `event-next`.
    pub fn event_next(&self) -> (r: &str)
        requires
            self.has("event-next"@),
        ensures
            r@ == self.text("event-next"@),
    {
        self.get("event-next").unwrap()
    }

    /// The text of `event-begin`.
    pub fn event_begin(&self) -> (r: &str)
        requires
            self.has("event-begin"@),
        ensures
            r@ == self.text("event-begin"@),
    {
        self.get("event-begin").unwrap()
    }

    /// The text of `zaishen-quest-headline`.
    pub fn zaishen_quest_headline(&self) -> (r: &str)
        requires
            self.has("zaishen-quest-headline"@),
        ensures
            r@ == self.text("zaishen-quest-headline"@),
    {
        self.get("zaishen-quest-headline").unwrap()
    }

    /// The text of `zaishen-quest-mission`.
    pub fn zaishen_quest_mission(&self) -> (r: &str)
        requires
            self.has("zaishen-quest-mission"@),
        ensures
            r@ == self.text("zaishen-quest-mission"@),
    {
        self.get("zaishen-quest-mission").unwrap()
    }

    /// The text of `zaishen-quest-bounty`.
    pub fn zaishen_quest_bounty(&self) -> (r: &str)
        requires
            self.has("zaishen-quest-bounty"@),
        ensures
            r@ == self.text("zaishen-quest-bounty"@),
    {
        self.get("zaishen-quest-bounty").unwrap()
    }

    /// The text of `zaishen-quest-combat`.
    pub fn zaishen_quest_combat(&self) -> (r: &str)
        requires
            self.has("zaishen-quest-combat"@),
        ensures
            r@ == self.text("zaishen-quest-combat"@),
    {
        self.get("zaishen-quest-combat").unwrap()
    }

    /// The text of `zaishen-quest-vanquish`.
    pub fn zaishen_quest_vanquish(&self) -> (r: &str)
        requires
            self.has("zaishen-quest-vanquish"@),
        ensures
            r@ == self.text("zaishen-quest-vanquish"@),
    {
        self.get("zaishen-quest-vanquish").unwrap()
    }

    /// The text of `zaishen-quest-reset`.
    pub fn zaishen_quest_reset(&self) -> (r: &str)
        requires
            self.has("zaishen-quest-reset"@),
        ensures
            r@ == self.text("zaishen-quest-reset"@),
    {
        self.get("zaishen-quest-reset").unwrap()
    }

    /// The text of `zaishen-quest-tomorrow-headline`.
    pub fn zaishen_quest_tomorrow_headline(&self) -> (r: &str)
        requires
            self.has("zaishen-quest-tomorrow-headline"@),
        ensures
            r@ == self.text("zaishen-quest-tomorrow-headline"@),
    {
        self.get("zaishen-quest-tomorrow-headline").unwrap()
    }

    /// The text of `nicholas-gift-headline`.
    pub fn nicholas_gift_headline(&self) -> (r: &str)
        requires
            self.has("nicholas-gift-headline"@),
        ensures
            r@ == self.text("nicholas-gift-headline"@),
    {
        self.get("nicholas-gift-headline").unwrap()
    }

    /// The text of `nicholas-gift-next-headline`.
    pub fn nicholas_gift_next_headline(&self) -> (r: &str)
        requires
            self.has("nicholas-gift-next-headline"@),
        ensures
            r@ == self.text("nicholas-gift-next-headline"@),
    {
        self.get("nicholas-gift-next-headline").unwrap()
    }

    /// The text of `nicholas-gift-collecting`.
    pub fn nicholas_gift_collecting(&self) -> (r: &str)
        requires
            self.has("nicholas-gift-collecting"@),
        ensures
            r@ == self.text("nicholas-gift-collecting"@),
    {
        self.get("nicholas-gift-collecting").unwrap()
    }

    /// The text of `nicholas-gift-per`.
    pub fn nicholas_gift_per(&self) -> (r: &str)
        requires
            self.has("nicholas-gift-per"@),
        ensures
            r@ == self.text("nicholas-gift-per"@),
    {
        self.get("nicholas-gift-per").unwrap()
    }

    /// The text of `nicholas-gift-in`.
    pub fn nicholas_gift_in(&self) -> (r: &str)
        requires
            self.has("nicholas-gift-in"@),
        ensures
            r@ == self.text("nicholas-gift-in"@),
    {
        self.get("nicholas-gift-in").unwrap()
    }

    /// The text of `nicholas-gift-moving`.
    pub fn nicholas_gift_moving(&self) -> (r: &str)
        requires
            self.has("nicholas-gift-moving"@),
        ensures
            r@ == self.text("nicholas-gift-moving"@),
    {
        self.get("nicholas-gift-moving").unwrap()
    }

    /// The text of `nicholas-gift-found`.
    pub fn nicholas_gift_found(&self) -> (r: &str)
        requires
            self.has("nicholas-gift-found"@),
        ensures
            r@ == self.text("nicholas-gift-found"@),
    {
        self.get("nicholas-gift-found").unwrap()
    }

    /// The text of `bonus-headline`.
    pub fn bonus_headline(&self) -> (r: &str)
        requires
            self.has("bonus-headline"@),
        ensures
            r@ == self.text("bonus-headline"@),
    {
        self.get("bonus-headline").unwrap()
    }

    /// The text of `bonus-next-headline`.
    pub fn bonus_next_headline(&self) -> (r: &str)
        requires
            self.has("bonus-next-headline"@),
        ensures
            r@ == self.text("bonus-next-headline"@),
    {
        self.get("bonus-next-headline").unwrap()
    }

    /// The text of `bonus-pve`.
    pub fn bonus_pve(&self) -> (r: &str)
        requires
            self.has("bonus-pve"@),
        ensures
            r@ == self.text("bonus-pve"@),
    {
        self.get("bonus-pve").unwrap()
    }

    /// The text of `bonus-pvp`.
    pub fn bonus_pvp(&self) -> (r: &str)
        requires
            self.has("bonus-pvp"@),
        ensures
            r@ == self.text("bonus-pvp"@),
    {
        self.get("bonus-pvp").unwrap()
    }

    /// The text of `bonus-expire`.
    pub fn bonus_expire(&self) -> (r: &str)
        requires
            self.has("bonus-expire"@),
        ensures
            r@ == self.text("bonus-expire"@),
    {
        self.get("bonus-expire").unwrap()
    }

    /// The text of `bonus-next-start`.
    pub fn bonus_next_start(&self) -> (r: &str)
        requires
            self.has("bonus-next-start"@),
        ensures
            r@ == self.text("bonus-next-start"@),
    {
        self.get("bonus-next-start").unwrap()
    }

    /// The text of `skill-prefix`.
    pub fn skill_prefix(&self) -> (r: &str)
        requires
            self.has("skill-prefix"@),
        ensures
            r@ == self.text("skill-prefix"@),
    {
        self.get("skill-prefix").unwrap()
    }
}

} // verus!
