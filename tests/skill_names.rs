use gwbot::csv::CSVFile;
use gwbot::enums::AttributeType;
use gwbot::enums::Language;
use gwbot::enums::ProfessionType;
use gwbot::skill::SkillCodeParser;
use gwbot::skill::SkillCodeRecord;
use gwbot::store::SKillI18nStore;
use gwbot::store::SkillInfoStore;
use gwbot::store::SkillNameStore;

#[derive(Debug, PartialEq)]
pub struct SkillCodeRecordNamed {
    pub primary_profession: ProfessionType,
    pub secondary_profession: ProfessionType,
    pub attributes: Vec<(AttributeType, u32)>,
    pub skills: Vec<String>,
}

fn table(lines: &[&str]) -> CSVFile {
    let lines: Vec<String> = lines.iter().map(|l| l.to_string()).collect();
    CSVFile::parse(&lines).unwrap()
}

fn skill_store() -> SKillI18nStore {
    let english = table(&[
        "id;name;description",
        "0;No Skill;",
        "2;Resurrection Signet;Signet.",
        "184;Fire Attunement;Elementalist Enchantment Spell.",
        "188;Flame Burst;Elementalist Spell.",
        "192;Meteor Shower;Elementalist Spell.",
        "195;Lava Font;Elementalist Spell.",
        "202;Glyph of Sacrifice;Elementalist Glyph.",
        "203;Glyph of Renewal;Elementalist Glyph.",
        "241;Life Bond;Monk Enchantment Spell.",
        "256;Blessed Aura;Monk Enchantment Spell.",
        "297;Blessed Signet;Monk Signet.",
        "952;Death's Charge;Assassin Spell.",
        "1041;Unseen Fury;Assassin Shout.",
        "1043;Dash;Assassin Stance.",
        "1095;Star Burst;Elementalist Spell.",
        "2105;Seed of Life;Monk Enchantment Spell.",
        "2212;Light of Deldrimor;Skill.",
        "2217;\"By Ural's Hammer!\";Shout.",
        "2358;\"You Move Like a Dwarf!\";Shout.",
        "2411;Mindbender;Mesmer Enchantment Spell.",
    ]);
    let french = table(&["id;name;description", "0;Aucune compétence;"]);
    let infos = table(&["id;uri;icon;infos;stats", "0;No_Skill;no.jpg;;"]);
    SKillI18nStore::new(
        SkillNameStore::from_csv(&french).unwrap(),
        SkillNameStore::from_csv(&english).unwrap(),
        SkillInfoStore::from_csv(&infos).unwrap(),
    )
}

fn record_to_named(record: SkillCodeRecord, skills_store: &SKillI18nStore) -> SkillCodeRecordNamed {
    let mut skills_name = vec![];
    record.skills.iter().for_each(|id| {
        let skill = skills_store.lang_and_id(Language::English, *id).unwrap();
        skills_name.push(skill.0.name.clone());
    });
    SkillCodeRecordNamed {
        primary_profession: record.primary_profession,
        secondary_profession: record.secondary_profession,
        attributes: record.attributes,
        skills: skills_name,
    }
}

#[test]
fn full_skill_set() {
    let datas = skill_store();
    let code_skill = "OgdCoMzjyAYg7OiDDeBuQAA".to_string();
    let skills = vec!["Glyph of Sacrifice".to_string(), "Meteor Shower".to_string(), "Death's Charge".to_string(), "Star Burst".to_string(), "Lava Font".to_string(), "Flame Burst".to_string(), "Fire Attunement".to_string(), "Resurrection Signet".to_string()];
    let expected = SkillCodeRecordNamed { primary_profession: ProfessionType::Elementalist, secondary_profession: ProfessionType::Assassin, attributes: vec![(AttributeType::FireMagic, 12), (AttributeType::EnergyStorage, 12)], skills };
    let actual = SkillCodeParser::parse(code_skill).unwrap();
    let actual = record_to_named(actual, &datas);
    assert_eq!(actual, expected);
}

#[test]
fn skill_holed_set() {
    let datas = skill_store();
    let code_skill = "OgdR8ZaCC3xmkUMCCAAAIVE".to_string();
    let skills = vec!["Dash".to_string(), "Death's Charge".to_string(), "\"You Move Like a Dwarf!\"".to_string(), "Light of Deldrimor".to_string(), "Unseen Fury".to_string(), "No Skill".to_string(), "No Skill".to_string(), "\"By Ural's Hammer!\"".to_string()];
    let expected = SkillCodeRecordNamed {
        primary_profession: ProfessionType::Elementalist,
        secondary_profession: ProfessionType::Assassin,
        attributes: vec![(AttributeType::ShadowArts, 12)],
        skills,
    };
    let actual = SkillCodeParser::parse(code_skill).unwrap();
    let actual = record_to_named(actual, &datas);
    assert_eq!(expected, actual);
}

#[test]
fn skill_seed_mindbender_lightdeldrimor() {
    let datas = skill_store();
    let code_skill = "OwYT4yXCZCgYtcZIHMlAAgUMeAA".to_string();
    let skills = vec!["Blessed Aura".to_string(), "Mindbender".to_string(), "Glyph of Renewal".to_string(), "Seed of Life".to_string(), "Blessed Signet".to_string(), "No Skill".to_string(), "Light of Deldrimor".to_string(), "Life Bond".to_string()];
    let expected = SkillCodeRecordNamed {
        primary_profession: ProfessionType::Monk,
        secondary_profession: ProfessionType::Elementalist,
        attributes: vec![(AttributeType::SmitingPrayers, 9), (AttributeType::ProtectionPrayers, 9), (AttributeType::DivineFavor, 12)],
        skills,
    };
    let actual = SkillCodeParser::parse(code_skill).unwrap();
    let actual = record_to_named(actual, &datas);
    assert_eq!(expected, actual);
}

#[test]
fn french_names_are_separate() {
    let datas = skill_store();
    let (name, info) = datas.lang_and_id(Language::French, 0).unwrap();
    assert_eq!(name.name, "Aucune compétence");
    assert_eq!(info.unwrap().skill_uri, "No_Skill");
    assert!(datas.lang_and_id(Language::French, 2212).is_none());
    let (name, info) = datas.lang_and_id(Language::English, 2212).unwrap();
    assert_eq!(name.name, "Light of Deldrimor");
    assert!(info.is_none());
}
