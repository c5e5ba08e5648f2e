use vstd::prelude::*;
use vstd::string::StringExecFns;

verus! {

/// A language that the messages and name tables exist in.
#[derive(Debug, PartialOrd, PartialEq, Ord, Eq, Clone, Hash, Copy, Structural)]
pub enum Language {
    French,
    English,
}

/// What `str::to_lowercase` makes of a string.
pub uninterp spec fn lower_of(s: Seq<char>) -> Seq<char>;

/// Relies on `str::to_lowercase`: the lower-case form of `s`, which depends on
/// its characters alone.
#[verifier::external_body]
fn lowercase(s: &str) -> (r: String)
    ensures
        r@ == lower_of(s@),
{
    s.to_lowercase()
}

/// The language that an already lower-cased name stands for.
pub open spec fn language_of_lowercase(t: Seq<char>) -> Option<Language> {
    if t == "fr"@ || t == "fr_fr"@ || t == "french"@ {
        Some(Language::French)
    } else if t == "en"@ || t == "en_US"@ || t == "english"@ {
        Some(Language::English)
    } else {
        None
    }
}

/// The message of a name that stands for no language.
pub open spec fn unknown_language_message(s: Seq<char>) -> Seq<char> {
    "Could not convert '"@ + s + "' into a known language"@
}

impl Language {
    /// The language that the lower-case name `t` stands for, if any.
    pub fn from_lowercase(t: &str) -> (r: Option<Language>)
        ensures
            r == language_of_lowercase(t@),
    {
        let t = String::from_str(t);
        if t == String::from_str("fr") || t == String::from_str("fr_fr") || t == String::from_str(
            "french",
        ) {
            Some(Language::French)
        } else if t == String::from_str("en") || t == String::from_str("en_US") || t
            == String::from_str("english") {
            Some(Language::English)
        } else {
            None
        }
    }

    /// The language that `s` names, in any case, or a message that says
    /// that it names none.
    pub fn from(s: &String) -> (r: Result<Language, String>)
        ensures
            match language_of_lowercase(lower_of(s@)) {
                Some(l) => r is Ok && r->Ok_0 == l,
                None => r is Err && r->Err_0@ == unknown_language_message(s@),
            },
    {
        let lower = lowercase(s.as_str());
        match Language::from_lowercase(lower.as_str()) {
            Some(l) => Ok(l),
            None => {
                let mut message = String::from_str("Could not convert '");
                message.append(s.as_str());
                message.append("' into a known language");
                Err(message)
            },
        }
    }
}

/// One of the professions a build template can name; `NoProfession` stands for an
/// absent secondary profession.
#[derive(Debug, Copy, Clone, PartialEq, Eq, Structural, Hash)]
pub enum ProfessionType {
    NoProfession,
    Warrior,
    Ranger,
    Monk,
    Necromancer,
    Mesmer,
    Elementalist,
    Assassin,
    Ritualist,
    Paragon,
    Dervish,
}

/// The profession that a template encodes with identifier `n`, if any.
pub open spec fn profession_spec(n: nat) -> Option<ProfessionType> {
    if n == 0 {
        Some(ProfessionType::NoProfession)
    } else if n == 1 {
        Some(ProfessionType::Warrior)
    } else if n == 2 {
        Some(ProfessionType::Ranger)
    } else if n == 3 {
        Some(ProfessionType::Monk)
    } else if n == 4 {
        Some(ProfessionType::Necromancer)
    } else if n == 5 {
        Some(ProfessionType::Mesmer)
    } else if n == 6 {
        Some(ProfessionType::Elementalist)
    } else if n == 7 {
        Some(ProfessionType::Assassin)
    } else if n == 8 {
        Some(ProfessionType::Ritualist)
    } else if n == 9 {
        Some(ProfessionType::Paragon)
    } else if n == 10 {
        Some(ProfessionType::Dervish)
    } else {
        None
    }
}

impl ProfessionType {
    /// The profession with identifier `n`, or `None` where no profession has it.
    pub fn from(n: u32) -> (r: Option<ProfessionType>)
        ensures
            r == profession_spec(n as nat),
    {
        match n {
            0 => Some(ProfessionType::NoProfession),
            1 => Some(ProfessionType::Warrior),
            2 => Some(ProfessionType::Ranger),
            3 => Some(ProfessionType::Monk),
            4 => Some(ProfessionType::Necromancer),
            5 => Some(ProfessionType::Mesmer),
            6 => Some(ProfessionType::Elementalist),
            7 => Some(ProfessionType::Assassin),
            8 => Some(ProfessionType::Ritualist),
            9 => Some(ProfessionType::Paragon),
            10 => Some(ProfessionType::Dervish),
            _ => None,
        }
    }
}

/// An attribute line of a build, including the title tracks that later
/// revisions of the template format added under high identifiers.
#[derive(Debug, Copy, Clone, PartialEq, Eq, Structural, Hash)]
pub enum AttributeType {
    FastCasting,
    IllusionMagic,
    DominationMagic,
    InspirationMagic,
    BloodMagic,
    DeathMagic,
    SoulReaping,
    Curses,
    AirMagic,
    EarthMagic,
    FireMagic,
    WaterMagic,
    EnergyStorage,
    HealingPrayers,
    SmitingPrayers,
    ProtectionPrayers,
    DivineFavor,
    Strength,
    AxeMastery,
    HammerMastery,
    Swordsmanship,
    Tactics,
    BeastMastery,
    Expertise,
    WildernessSurvival,
    Marksmanship,
    DaggerMastery,
    DeadlyArts,
    ShadowArts,
    Communing,
    RestorationMagic,
    ChannelingMagic,
    CriticalStrikes,
    SpawningPower,
    SpearMastery,
    Command,
    Motivation,
    Leadership,
    ScytheMastery,
    WindPrayers,
    EarthPrayers,
    Mysticism,
    Luxon,
    Kurzick,
    Sunspear,
    Lightbringer,
    Norn,
    EbonVangard,
    Deldrimor,
    Asura,
    Other,
}

/// The attribute that a template encodes with identifier `n`, if any.
pub open spec fn attribute_spec(n: nat) -> Option<AttributeType> {
    if n == 0 {
        Some(AttributeType::FastCasting)
    } else if n == 1 {
        Some(AttributeType::IllusionMagic)
    } else if n == 2 {
        Some(AttributeType::DominationMagic)
    } else if n == 3 {
        Some(AttributeType::InspirationMagic)
    } else if n == 4 {
        Some(AttributeType::BloodMagic)
    } else if n == 5 {
        Some(AttributeType::DeathMagic)
    } else if n == 6 {
        Some(AttributeType::SoulReaping)
    } else if n == 7 {
        Some(AttributeType::Curses)
    } else if n == 8 {
        Some(AttributeType::AirMagic)
    } else if n == 9 {
        Some(AttributeType::EarthMagic)
    } else if n == 10 {
        Some(AttributeType::FireMagic)
    } else if n == 11 {
        Some(AttributeType::WaterMagic)
    } else if n == 12 {
        Some(AttributeType::EnergyStorage)
    } else if n == 13 {
        Some(AttributeType::HealingPrayers)
    } else if n == 14 {
        Some(AttributeType::SmitingPrayers)
    } else if n == 15 {
        Some(AttributeType::ProtectionPrayers)
    } else if n == 16 {
        Some(AttributeType::DivineFavor)
    } else if n == 17 {
        Some(AttributeType::Strength)
    } else if n == 18 {
        Some(AttributeType::AxeMastery)
    } else if n == 19 {
        Some(AttributeType::HammerMastery)
    } else if n == 20 {
        Some(AttributeType::Swordsmanship)
    } else if n == 21 {
        Some(AttributeType::Tactics)
    } else if n == 22 {
        Some(AttributeType::BeastMastery)
    } else if n == 23 {
        Some(AttributeType::Expertise)
    } else if n == 24 {
        Some(AttributeType::WildernessSurvival)
    } else if n == 25 {
        Some(AttributeType::Marksmanship)
    } else if n == 29 {
        Some(AttributeType::DaggerMastery)
    } else if n == 30 {
        Some(AttributeType::DeadlyArts)
    } else if n == 31 {
        Some(AttributeType::ShadowArts)
    } else if n == 32 {
        Some(AttributeType::Communing)
    } else if n == 33 {
        Some(AttributeType::RestorationMagic)
    } else if n == 34 {
        Some(AttributeType::ChannelingMagic)
    } else if n == 35 {
        Some(AttributeType::CriticalStrikes)
    } else if n == 36 {
        Some(AttributeType::SpawningPower)
    } else if n == 37 {
        Some(AttributeType::SpearMastery)
    } else if n == 38 {
        Some(AttributeType::Command)
    } else if n == 39 {
        Some(AttributeType::Motivation)
    } else if n == 40 {
        Some(AttributeType::Leadership)
    } else if n == 41 {
        Some(AttributeType::ScytheMastery)
    } else if n == 42 {
        Some(AttributeType::WindPrayers)
    } else if n == 43 {
        Some(AttributeType::EarthPrayers)
    } else if n == 44 {
        Some(AttributeType::Mysticism)
    } else if n == 90 {
        Some(AttributeType::Luxon)
    } else if n == 91 {
        Some(AttributeType::Kurzick)
    } else if n == 92 {
        Some(AttributeType::Sunspear)
    } else if n == 93 {
        Some(AttributeType::Lightbringer)
    } else if n == 94 {
        Some(AttributeType::Norn)
    } else if n == 95 {
        Some(AttributeType::EbonVangard)
    } else if n == 96 {
        Some(AttributeType::Deldrimor)
    } else if n == 97 {
        Some(AttributeType::Asura)
    } else if n == 999 {
        Some(AttributeType::Other)
    } else {
        None
    }
}

impl AttributeType {
    /// The attribute with identifier `n`, or `None` where no attribute has it.
    pub fn from(n: u32) -> (r: Option<AttributeType>)
        ensures
            r == attribute_spec(n as nat),
    {
        match n {
            0 => Some(AttributeType::FastCasting),
            1 => Some(AttributeType::IllusionMagic),
            2 => Some(AttributeType::DominationMagic),
            3 => Some(AttributeType::InspirationMagic),
            4 => Some(AttributeType::BloodMagic),
            5 => Some(AttributeType::DeathMagic),
            6 => Some(AttributeType::SoulReaping),
            7 => Some(AttributeType::Curses),
            8 => Some(AttributeType::AirMagic),
            9 => Some(AttributeType::EarthMagic),
            10 => Some(AttributeType::FireMagic),
            11 => Some(AttributeType::WaterMagic),
            12 => Some(AttributeType::EnergyStorage),
            13 => Some(AttributeType::HealingPrayers),
            14 => Some(AttributeType::SmitingPrayers),
            15 => Some(AttributeType::ProtectionPrayers),
            16 => Some(AttributeType::DivineFavor),
            17 => Some(AttributeType::Strength),
            18 => Some(AttributeType::AxeMastery),
            19 => Some(AttributeType::HammerMastery),
            20 => Some(AttributeType::Swordsmanship),
            21 => Some(AttributeType::Tactics),
            22 => Some(AttributeType::BeastMastery),
            23 => Some(AttributeType::Expertise),
            24 => Some(AttributeType::WildernessSurvival),
            25 => Some(AttributeType::Marksmanship),
            29 => Some(AttributeType::DaggerMastery),
            30 => Some(AttributeType::DeadlyArts),
            31 => Some(AttributeType::ShadowArts),
            32 => Some(AttributeType::Communing),
            33 => Some(AttributeType::RestorationMagic),
            34 => Some(AttributeType::ChannelingMagic),
            35 => Some(AttributeType::CriticalStrikes),
            36 => Some(AttributeType::SpawningPower),
            37 => Some(AttributeType::SpearMastery),
            38 => Some(AttributeType::Command),
            39 => Some(AttributeType::Motivation),
            40 => Some(AttributeType::Leadership),
            41 => Some(AttributeType::ScytheMastery),
            42 => Some(AttributeType::WindPrayers),
            43 => Some(AttributeType::EarthPrayers),
            44 => Some(AttributeType::Mysticism),
            90 => Some(AttributeType::Luxon),
            91 => Some(AttributeType::Kurzick),
            92 => Some(AttributeType::Sunspear),
            93 => Some(AttributeType::Lightbringer),
            94 => Some(AttributeType::Norn),
            95 => Some(AttributeType::EbonVangard),
            96 => Some(AttributeType::Deldrimor),
            97 => Some(AttributeType::Asura),
            999 => Some(AttributeType::Other),
            _ => None,
        }
    }
}

} // verus!
