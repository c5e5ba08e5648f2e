use gwbot::config::GuildsConfig;
use gwbot::csv::CSVFile;
use gwbot::enums::AttributeType;
use gwbot::enums::Language;
use gwbot::enums::ProfessionType;
use gwbot::messages::I18nMessageStore;
use gwbot::messages::I18nStore;
use gwbot::store::AttributeStore;
use gwbot::store::BonusEventStore;
use gwbot::store::NicholasGiftStore;
use gwbot::store::ProfessionStore;
use gwbot::store::SkillInfoStore;
use gwbot::store::SkillNameStore;
use gwbot::store::SpecialEventStore;
use gwbot::store::ZaishenQuestStore;

fn table(lines: &[&str]) -> CSVFile {
    let lines: Vec<String> = lines.iter().map(|l| l.to_string()).collect();
    CSVFile::parse(&lines).unwrap()
}

#[test]
fn csv_fields_are_split_and_trimmed() {
    let csv = table(&[" id ; name", "1; Augury Rock ;x", "", "2;;"]);
    assert_eq!(csv.headers(), &vec!["id".to_string(), "name".to_string()]);
    assert_eq!(
        csv.records(),
        &vec![
            vec!["1".to_string(), "Augury Rock".to_string(), "x".to_string()],
            vec!["".to_string()],
            vec!["2".to_string(), "".to_string(), "".to_string()],
        ]
    );
}

#[test]
fn csv_without_header_line() {
    assert!(CSVFile::parse(&vec![]).is_none());
    let mut csv = CSVFile::new();
    csv.read_record("a;b".to_string());
    assert_eq!(csv.records().len(), 1);
    assert!(csv.headers().is_empty());
}

#[test]
fn zaishen_quests_by_position() {
    let csv = table(&["id;name", "0;Augury Rock", "1;Frost Gate"]);
    let store = ZaishenQuestStore::from_csv(&csv).unwrap();
    assert_eq!(store.get_from_id(1).unwrap().name, "Frost Gate");
    assert_eq!(store.get_from_id(0).unwrap().name, "Augury Rock");
    assert!(store.get_from_id(2).is_none());
    assert!(store.get_from_id(-1).is_none());
    assert!(ZaishenQuestStore::from_csv(&table(&["id;name", "0"])).is_none());
}

#[test]
fn bonus_events_by_position() {
    let csv = table(&["id;name;description", "0;Extra Luck;More luck", "1;Faction;Double faction"]);
    let store = BonusEventStore::from_csv(&csv).unwrap();
    let bonus = store.get_from_id(1).unwrap();
    assert_eq!(bonus.name, "Faction");
    assert_eq!(bonus.description, "Double faction");
    assert!(store.get_from_id(5).is_none());
    assert!(BonusEventStore::from_csv(&table(&["h", "0;name"])).is_none());
}

#[test]
fn nicholas_gifts_by_position() {
    let csv = table(&["id;item;location;region;campaign;item_url;location_url", "0;5 Red Iris Flowers;Lakeside County;Kryta;Prophecies;u1;u2"]);
    let store = NicholasGiftStore::from_csv(&csv).unwrap();
    let gift = store.get_from_id(0).unwrap();
    assert_eq!(gift.item, "5 Red Iris Flowers");
    assert_eq!(gift.location, "Lakeside County");
    assert_eq!(gift.region, "Kryta");
    assert_eq!(gift.campaign, "Prophecies");
    assert_eq!(gift.item_url, "u1");
    assert_eq!(gift.location_url, "u2");
    assert!(NicholasGiftStore::from_csv(&table(&["h", "0;a;b;c;d;e"])).is_none());
}

#[test]
fn special_events_by_position() {
    let csv = table(&["id;name;note", "0;Canthan New Year;Festival"]);
    let store = SpecialEventStore::from_csv(&csv).unwrap();
    assert_eq!(store.get_from_id(0).unwrap().note, "Festival");
    assert!(store.get_from_id(1).is_none());
}

#[test]
fn skill_names_by_id() {
    let csv = table(&["id;name;description", "5;Old;first", "7;Seven;s", "5;New;second"]);
    let store = SkillNameStore::from_csv(&csv).unwrap();
    assert_eq!(store.get_from_id(5).unwrap().name, "New");
    assert_eq!(store.get_from_id(5).unwrap().description, "second");
    assert_eq!(store.get_from_id(7).unwrap().name, "Seven");
    assert!(store.get_from_id(6).is_none());
    assert!(SkillNameStore::from_csv(&table(&["h", "x;name;d"])).is_none());
    assert!(SkillNameStore::from_csv(&table(&["h", "1;name"])).is_none());
}

#[test]
fn skill_details_by_id() {
    let csv = table(&[
        "id;uri;icon;infos;stats",
        "12;Energy_Storage;es.jpg;energy=5|Special=foo||recharge=20;type=Spell||campaign=Core",
    ]);
    let store = SkillInfoStore::from_csv(&csv).unwrap();
    let info = store.get_from_id(12).unwrap();
    assert_eq!(info.skill_uri, "Energy_Storage");
    assert_eq!(info.skill_icon, "es.jpg");
    assert_eq!(
        info.skill_infos,
        vec![("energy".to_string(), 5), ("recharge".to_string(), 20)]
    );
    assert_eq!(
        info.skill_stats,
        vec![
            ("type".to_string(), "Spell".to_string()),
            ("campaign".to_string(), "Core".to_string())
        ]
    );
    assert!(store.get_from_id(13).is_none());
    let repeated = table(&["h", "1;u;i;energy=5|recharge=2|energy=7;type=Spell|type=Stance"]);
    let store = SkillInfoStore::from_csv(&repeated).unwrap();
    let info = store.get_from_id(1).unwrap();
    assert_eq!(info.skill_infos, vec![("recharge".to_string(), 2), ("energy".to_string(), 7)]);
    assert_eq!(info.skill_stats, vec![("type".to_string(), "Stance".to_string())]);
    assert!(SkillInfoStore::from_csv(&table(&["h", "1;u;i;energy;"])).is_none());
    assert!(SkillInfoStore::from_csv(&table(&["h", "1;u;i;energy=x;"])).is_none());
    assert!(SkillInfoStore::from_csv(&table(&["h", "1;u;i;;bad"])).is_none());
}

#[test]
fn attribute_and_profession_names() {
    let attributes = AttributeStore::from_csv(&table(&["id;name", "10;Fire Magic", "12;Energy Storage"])).unwrap();
    assert_eq!(attributes.from(&AttributeType::FireMagic).unwrap().0, "Fire Magic");
    assert!(attributes.from(&AttributeType::AirMagic).is_none());
    assert!(AttributeStore::from_csv(&table(&["id;name", "26;Nothing"])).is_none());
    let professions = ProfessionStore::from_csv(&table(&["id;name", "6;Elementaliste", "7;Assassin", "6;Élémentaliste"])).unwrap();
    assert_eq!(professions.from(&ProfessionType::Elementalist).unwrap().0, "Élémentaliste");
    assert!(professions.from(&ProfessionType::Monk).is_none());
    assert!(ProfessionStore::from_csv(&table(&["id;name", "11;Nothing"])).is_none());
}

#[test]
fn messages_by_key() {
    let csv = table(&[
        "key;text",
        "time-days;days",
        "skill-prefix;Skill",
        "bonus-pvp;PvP bonus",
        "time-days;jours",
    ]);
    let store = I18nMessageStore::from_csv(&csv).unwrap();
    assert_eq!(store.time_days(), "jours");
    assert_eq!(store.skill_prefix(), "Skill");
    assert_eq!(store.bonus_pvp(), "PvP bonus");
    assert_eq!(store.get("event-end"), None);
    assert!(I18nMessageStore::from_csv(&table(&["key;text", "lonely"])).is_none());
}

#[test]
fn every_message_getter() {
    let keys = [
        "time-days", "event-no-running", "event-started", "event-end", "event-next", "event-begin",
        "zaishen-quest-headline", "zaishen-quest-mission", "zaishen-quest-bounty", "zaishen-quest-combat",
        "zaishen-quest-vanquish", "zaishen-quest-reset", "zaishen-quest-tomorrow-headline",
        "nicholas-gift-headline", "nicholas-gift-next-headline", "nicholas-gift-collecting",
        "nicholas-gift-per", "nicholas-gift-in", "nicholas-gift-moving", "nicholas-gift-found",
        "bonus-headline", "bonus-next-headline", "bonus-pve", "bonus-pvp", "bonus-expire",
        "bonus-next-start", "skill-prefix",
    ];
    let mut lines = vec!["key;text".to_string()];
    for k in keys.iter() {
        lines.push(format!("{};<{}>", k, k));
    }
    let store = I18nMessageStore::from_csv(&CSVFile::parse(&lines).unwrap()).unwrap();
    let got = [
        store.time_days(), store.event_no_running(), store.event_started(), store.event_end(),
        store.event_next(), store.event_begin(), store.zaishen_quest_headline(),
        store.zaishen_quest_mission(), store.zaishen_quest_bounty(), store.zaishen_quest_combat(),
        store.zaishen_quest_vanquish(), store.zaishen_quest_reset(),
        store.zaishen_quest_tomorrow_headline(), store.nicholas_gift_headline(),
        store.nicholas_gift_next_headline(), store.nicholas_gift_collecting(),
        store.nicholas_gift_per(), store.nicholas_gift_in(), store.nicholas_gift_moving(),
        store.nicholas_gift_found(), store.bonus_headline(), store.bonus_next_headline(),
        store.bonus_pve(), store.bonus_pvp(), store.bonus_expire(), store.bonus_next_start(),
        store.skill_prefix(),
    ];
    for (k, text) in keys.iter().zip(got.iter()) {
        assert_eq!(*text, format!("<{}>", k));
    }
}

#[test]
fn values_per_language() {
    let mut store: I18nStore<u32> = I18nStore::new();
    assert!(store.lng(Language::French).is_none());
    store.insert(Language::French, 1);
    store.insert(Language::English, 2);
    store.insert(Language::French, 3);
    assert_eq!(store.lng(Language::French), Some(&3));
    assert_eq!(store.lng(Language::English), Some(&2));
}

#[test]
fn language_names() {
    assert_eq!(Language::from(&"fr".to_string()), Ok(Language::French));
    assert_eq!(Language::from(&"FR_fr".to_string()), Ok(Language::French));
    assert_eq!(Language::from(&"French".to_string()), Ok(Language::French));
    assert_eq!(Language::from(&"EN".to_string()), Ok(Language::English));
    assert_eq!(Language::from(&"English".to_string()), Ok(Language::English));
    assert_eq!(
        Language::from(&"en_US".to_string()),
        Err("Could not convert 'en_US' into a known language".to_string())
    );
    assert_eq!(
        Language::from(&"de".to_string()),
        Err("Could not convert 'de' into a known language".to_string())
    );
    assert_eq!(Language::from_lowercase("english"), Some(Language::English));
    assert_eq!(Language::from_lowercase("English"), None);
}

#[test]
fn guild_settings() {
    let mut config = GuildsConfig::load(None).unwrap();
    assert_eq!(config.get_guild_config(42), (Language::English, 0));
    config.set_language(42, Language::French);
    assert_eq!(config.get_guild_config(42), (Language::French, 0));
    config.set_utc(42, -5);
    assert_eq!(config.get_guild_config(42), (Language::French, -5));
    config.set_utc(7, 2);
    assert_eq!(config.get_guild_config(7), (Language::English, 2));
    let mut entries = config.entries();
    entries.sort();
    assert_eq!(entries, vec![(7, Language::English, 2), (42, Language::French, -5)]);
}

#[test]
fn guild_settings_from_table() {
    let csv = table(&["guild;language;utc", "42;French;-5", "7;english;+2", "42;English;1"]);
    let config = GuildsConfig::load(Some(&csv)).unwrap();
    assert_eq!(config.get_guild_config(42), (Language::English, 1));
    assert_eq!(config.get_guild_config(7), (Language::English, 2));
    assert_eq!(config.get_guild_config(8), (Language::English, 0));
    assert!(GuildsConfig::load(Some(&table(&["h", "42;German;0"]))).is_none());
    assert!(GuildsConfig::load(Some(&table(&["h", "42;French"]))).is_none());
    assert!(GuildsConfig::load(Some(&table(&["h", "-1;French;0"]))).is_none());
    assert!(GuildsConfig::load(Some(&table(&["h", "1;French;x"]))).is_none());
}
