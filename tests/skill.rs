use gwbot::enums::AttributeType;
use gwbot::enums::ProfessionType;
use gwbot::skill::decode;
use gwbot::skill::flip_binary_pad;
use gwbot::skill::standard_decode;
use gwbot::skill::DecodeError;
use gwbot::skill::SkillCodeParser;

fn decode_ok(code: &str) -> gwbot::skill::SkillCodeRecord {
    SkillCodeParser::parse(code.to_string()).expect("the code decodes")
}

#[test]
fn full_skill_set_ids() {
    let actual = decode_ok("OgdCoMzjyAYg7OiDDeBuQAA");
    assert_eq!(actual.primary_profession, ProfessionType::Elementalist);
    assert_eq!(actual.secondary_profession, ProfessionType::Assassin);
    assert_eq!(
        actual.attributes,
        vec![(AttributeType::FireMagic, 12), (AttributeType::EnergyStorage, 12)]
    );
    assert_eq!(actual.skills, [202, 192, 952, 1095, 195, 188, 184, 2]);
}

#[test]
fn skill_holed_set_ids() {
    let actual = decode_ok("OgdR8ZaCC3xmkUMCCAAAIVE");
    assert_eq!(actual.primary_profession, ProfessionType::Elementalist);
    assert_eq!(actual.secondary_profession, ProfessionType::Assassin);
    assert_eq!(actual.attributes, vec![(AttributeType::ShadowArts, 12)]);
    assert_eq!(actual.skills, [1043, 952, 2358, 2212, 1041, 0, 0, 2217]);
}

#[test]
fn skill_seed_mindbender_lightdeldrimor_ids() {
    let actual = decode_ok("OwYT4yXCZCgYtcZIHMlAAgUMeAA");
    assert_eq!(actual.primary_profession, ProfessionType::Monk);
    assert_eq!(actual.secondary_profession, ProfessionType::Elementalist);
    assert_eq!(
        actual.attributes,
        vec![
            (AttributeType::SmitingPrayers, 9),
            (AttributeType::ProtectionPrayers, 9),
            (AttributeType::DivineFavor, 12)
        ]
    );
    assert_eq!(actual.skills[5], 0);
    assert_ne!(actual.skills[6], 0);
    assert_eq!(actual.skills, [256, 2411, 203, 2105, 297, 0, 2212, 241]);
}

#[test]
fn mesmer_without_secondary() {
    let actual = decode_ok("OQBDApwTOhwcgM4mmBaCeAUA");
    assert_eq!(actual.primary_profession, ProfessionType::Mesmer);
    assert_eq!(actual.secondary_profession, ProfessionType::NoProfession);
    assert_eq!(
        actual.attributes,
        vec![
            (AttributeType::FastCasting, 9),
            (AttributeType::DominationMagic, 12),
            (AttributeType::InspirationMagic, 9)
        ]
    );
    assert_eq!(actual.skills, [1057, 57, 50, 1335, 25, 77, 30, 40]);
}

#[test]
fn decoding_twice_gives_the_same_record() {
    let a = decode_ok("OgdR8ZaCC3xmkUMCCAAAIVE");
    let b = decode_ok("OgdR8ZaCC3xmkUMCCAAAIVE");
    assert_eq!(a, b);
}

#[test]
fn every_decoded_code_has_eight_slots() {
    for code in ["OgdCoMzjyAYg7OiDDeBuQAA", "O0AAEUAgAwAABQBgBwBACA"] {
        assert_eq!(decode_ok(code).skills.len(), 8);
    }
}

#[test]
fn empty_attribute_list() {
    let actual = decode_ok("O0AAEUAgAwAABQBgBwBACA");
    assert_eq!(actual.primary_profession, ProfessionType::Monk);
    assert_eq!(actual.secondary_profession, ProfessionType::NoProfession);
    assert!(actual.attributes.is_empty());
    assert_eq!(actual.skills, [1, 2, 3, 4, 5, 6, 7, 8]);
}

#[test]
fn title_track_attribute() {
    let actual = decode_ok("OUgQYn/QAAAAAAAAAAAAAAAA");
    assert_eq!(actual.attributes, vec![(AttributeType::Other, 3)]);
}

#[test]
fn alphabet_values() {
    let alphabet = "ABCDEFGHIJKLMNOPQRSTUVWXYZabcdefghijklmnopqrstuvwxyz0123456789+/";
    for (i, b) in alphabet.bytes().enumerate() {
        assert_eq!(standard_decode(b), Some(i as u8));
    }
    let accepted = (0..=255u8).filter(|b| standard_decode(*b).is_some()).count();
    assert_eq!(accepted, 64);
    assert_eq!(standard_decode(b' '), None);
    assert_eq!(standard_decode(b'!'), None);
    assert_eq!(standard_decode(b'='), None);
}

#[test]
fn single_symbol_bit_order() {
    // 'B' is 1: its group is 100000, so a header read of four bits gives 1
    // and the code ends before the professions.
    assert_eq!(
        SkillCodeParser::parse("B".to_string()),
        Err(DecodeError::Truncated)
    );
}

#[test]
fn invalid_character_is_rejected() {
    assert_eq!(
        SkillCodeParser::parse("OgdCoMzjyAY g7OiDDeBuQAA".to_string()),
        Err(DecodeError::InvalidCharacter)
    );
    assert_eq!(
        SkillCodeParser::parse("OgdCoMzjyAYg7OiDDeBuQA!".to_string()),
        Err(DecodeError::InvalidCharacter)
    );
    assert_eq!(
        SkillCodeParser::parse("Ogd\u{e9}".to_string()),
        Err(DecodeError::InvalidCharacter)
    );
}

#[test]
fn truncated_code_is_rejected() {
    assert_eq!(
        SkillCodeParser::parse("OgdCoMzjyA".to_string()),
        Err(DecodeError::Truncated)
    );
    assert_eq!(
        SkillCodeParser::parse("OgdCoMzjyAYg7OiDDeBuQA".to_string()),
        Err(DecodeError::Truncated)
    );
    assert_eq!(SkillCodeParser::parse(String::new()), Err(DecodeError::Truncated));
}

#[test]
fn unknown_profession_is_rejected() {
    assert_eq!(
        SkillCodeParser::parse("O0SAEEAAAAAAAAAAAAAAAA".to_string()),
        Err(DecodeError::UnknownProfession)
    );
}

#[test]
fn unknown_attribute_is_rejected() {
    assert_eq!(
        SkillCodeParser::parse("OUgQE6iAAAAAAAAAAAAAAAAA".to_string()),
        Err(DecodeError::UnknownAttribute)
    );
}

#[test]
fn profession_and_attribute_identifiers() {
    assert_eq!(ProfessionType::from(10), Some(ProfessionType::Dervish));
    assert_eq!(ProfessionType::from(11), None);
    assert_eq!(AttributeType::from(44), Some(AttributeType::Mysticism));
    assert_eq!(AttributeType::from(26), None);
    assert_eq!(AttributeType::from(97), Some(AttributeType::Asura));
    assert_eq!(AttributeType::from(999), Some(AttributeType::Other));
}

#[test]
fn symbol_groups_are_reversed_renderings() {
    // 'B' is 1, rendered 000001 and reversed to 100000
    assert_eq!(decode("B"), Ok(vec![true, false, false, false, false, false]));
    // 'O' is 14, rendered 001110 and reversed to 011100
    assert_eq!(decode("O"), Ok(vec![false, true, true, true, false, false]));
    assert_eq!(decode(""), Ok(vec![]));
    assert_eq!(decode("Og").map(|bits| bits.len()), Ok(12));
    assert_eq!(decode("O=g"), Err(DecodeError::InvalidCharacter));
    assert_eq!(decode("\u{0}"), Err(DecodeError::InvalidCharacter));
}

#[test]
fn flipping_reverses() {
    let rendering = vec![false, false, true, true, true, false];
    let flipped = flip_binary_pad(&rendering);
    assert_eq!(flipped, vec![false, true, true, true, false, false]);
    assert_eq!(flip_binary_pad(&flipped), rendering);
}

#[test]
fn header_values_are_not_checked() {
    // tag 0 and version 15 instead of 14 and 0: the rest still decodes
    let mut bits = decode("OgdCoMzjyAYg7OiDDeBuQAA").unwrap();
    for i in 0..8 {
        bits[i] = i >= 4;
    }
    let mut code = String::new();
    let alphabet: Vec<char> = "ABCDEFGHIJKLMNOPQRSTUVWXYZabcdefghijklmnopqrstuvwxyz0123456789+/".chars().collect();
    for group in bits.chunks(6) {
        let v: usize = group.iter().enumerate().map(|(i, b)| if *b { 1 << i } else { 0 }).sum();
        code.push(alphabet[v]);
    }
    let record = SkillCodeParser::parse(code).unwrap();
    assert_eq!(record.skills, [202, 192, 952, 1095, 195, 188, 184, 2]);
}
