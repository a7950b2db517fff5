use vstd::prelude::*;
use crate::text::{parse_hex_u32, parse_hex_u32_exec, chars_of};

verus! {

/// The language identifier the input method registers under (en-US, until
/// a code for Toki Pona is recognized).
pub fn lang_id() -> (r: u16)
    ensures
        r == 0x409,
{
    0x409
}

/// The length of the path that the system wrote into `buf`: the position of
/// the end of the name, found by halving the buffer between a byte that is
/// part of the name and a 0 byte (or the end of the buffer).
pub fn path_end(buf: &Vec<u8>) -> (r: usize)
    requires
        buf@.len() > 0,
        buf@[0] != 0,
    ensures
        1 <= r <= buf@.len(),
        buf@[r - 1] != 0,
        r == buf@.len() || buf@[r as int] == 0,
        (forall|i: int, j: int| 0 <= i < j < buf@.len() && buf@[i] == 0 ==> buf@[j] == 0) ==> forall|k: int|
            0 <= k < r ==> buf@[k] != 0,
{
    let mut from: usize = 0;
    let mut to: usize = buf.len();
    while to != from + 1
        invariant
            0 <= from < to <= buf@.len(),
            buf@[from as int] != 0,
            to == buf@.len() || buf@[to as int] == 0,
        decreases to - from,
    {
        let i = from + (to - from) / 2;
        if buf[i] == 0 {
            to = i;
        } else {
            from = i;
        }
    }
    to
}

/// The keyboard layout handle written in the install file: a hexadecimal
/// number, as `u32::from_str_radix` reads it. `None` when it is not one.
pub fn parse_hkl(text: &str) -> (r: Option<isize>)
    ensures
        r == (match parse_hex_u32(text@) {
            Some(v) => Some(v as isize),
            None => None::<isize>,
        }),
{
    let v = chars_of(text);
    assert(v@.skip(0) =~= v@);
    match parse_hex_u32_exec(&v, 0) {
        Some(x) => Some(x as isize),
        None => None,
    }
}

/// The keyboard layouts known to the system, each with its identifier.
#[derive(Clone, Copy, PartialEq, Eq, Structural, Debug)]
pub enum LanguageID {
    ADLaM,
    Albanian,
    Arabic101,
    Arabic102,
    Arabic102AZERTY,
    ArmenianEasternLegacy,
    ArmenianPhonetic,
    ArmenianTypewriter,
    ArmenianWesternLegacy,
    AssameseINSCRIPT,
    AzerbaijaniStandard,
    AzerbaijaniCyrillic,
    AzerbaijaniLatin,
    Bangla,
    BanglaINSCRIPT,
    BanglaINSCRIPTLegacy,
    Bashkir,
    Belarusian,
    BelgianComma,
    BelgianPeriod,
    BelgianFrench,
    BosnianCyrillic,
    Buginese,
    Bulgarian,
    BulgarianLatin,
    BulgarianPhoneticTraditional,
    BulgarianPhonetic,
    BulgarianTypewriter,
    CanadianFrench,
    CanadianFrenchLegacy,
    CanadianMultilingualStandard,
    CentralAtlasTamazight,
    CentralKurdish,
    CherokeeNation,
    CherokeePhonetic,
    ChineseSimplifiedUS,
    ChineseSimplifiedSingaporeUS,
    ChineseTraditionalUS,
    ChineseTraditionalHongKongSARUS,
    ChineseTraditionalMacaoSARUS,
    Czech,
    CzechQWERTY,
    CzechProgrammers,
    Danish,
    DevanagariINSCRIPT,
    DivehiPhonetic,
    DivehiTypewriter,
    Dutch,
    Dzongkha,
    EnglishIndia,
    Estonian,
    Faeroese,
    Finnish,
    FinnishwithSami,
    French,
    Futhark,
    GeorgianErgonomic,
    GeorgianLegacy,
    GeorgianMES,
    GeorgianOldAlphabets,
    GeorgianQWERTY,
    German,
    GermanIBM,
    Gothic,
    Greek,
    Greek220,
    Greek220Latin,
    Greek319,
    Greek319Latin,
    GreekLatin,
    GreekPolytonic,
    Greenlandic,
    Guarani,
    Gujarati,
    Hausa,
    Hawaiian,
    Hebrew,
    HebrewStandard,
    HindiTraditional,
    Hungarian,
    Hungarian101key,
    Icelandic,
    Igbo,
    InuktitutLatin,
    InuktitutNaqittaut,
    Irish,
    Italian,
    Italian142,
    Japanese,
    Javanese,
    Kannada,
    Kazakh,
    Khmer,
    KhmerNIDA,
    Korean,
    KyrgyzCyrillic,
    Lao,
    LatinAmerican,
    Latvian,
    LatvianQWERTY,
    LatvianStandard,
    LisuBasic,
    LisuStandard,
    Lithuanian,
    LithuanianIBM,
    LithuanianStandard,
    Luxembourgish,
    Macedonian,
    MacedonianStandard,
    Malayalam,
    Maltese47Key,
    Maltese48Key,
    Maori,
    Marathi,
    MongolianMongolianScript,
    MongolianCyrillic,
    MyanmarPhoneticorder,
    MyanmarVisualorder,
    NZAotearoa,
    Nepali,
    NewTaiLue,
    Norwegian,
    NorwegianwithSami,
    NKo,
    Odia,
    Ogham,
    OlChiki,
    OldItalic,
    Osage,
    Osmanya,
    PashtoAfghanistan,
    Persian,
    PersianStandard,
    Phagspa,
    Polish214,
    PolishProgrammers,
    Portuguese,
    PortugueseBrazilABNT,
    PortugueseBrazilABNT2,
    Punjabi,
    RomanianLegacy,
    RomanianProgrammers,
    RomanianStandard,
    Russian,
    RussianTypewriter,
    RussianMnemonic,
    Sakha,
    SamiExtendedFinlandSweden,
    SamiExtendedNorway,
    ScottishGaelic,
    SerbianCyrillic,
    SerbianLatin,
    SesothosaLeboa,
    Setswana,
    Sinhala,
    SinhalaWij9,
    Slovak,
    SlovakQWERTY,
    Slovenian,
    Sora,
    SorbianExtended,
    SorbianStandard,
    SorbianStandardLegacy,
    Spanish,
    SpanishVariation,
    Standard,
    Swedish,
    SwedishwithSami,
    SwissFrench,
    SwissGerman,
    Syriac,
    SyriacPhonetic,
    TaiLe,
    Tajik,
    Tamil,
    Tamil99,
    TamilAnjal,
    Tatar,
    TatarLegacy,
    Telugu,
    ThaiKedmanee,
    ThaiKedmaneenonShiftLock,
    ThaiPattachote,
    ThaiPattachotenonShiftLock,
    TibetanPRC,
    TibetanPRCUpdated,
    TifinaghBasic,
    TifinaghExtended,
    TraditionalMongolianStandard,
    TurkishF,
    TurkishQ,
    Turkmen,
    US,
    USEnglishTableforIBMArabic238_L,
    Ukrainian,
    UkrainianEnhanced,
    UnitedKingdom,
    UnitedKingdomExtended,
    UnitedStatesDvorak,
    UnitedStatesDvorakforlefthand,
    UnitedStatesDvorakforrighthand,
    UnitedStatesInternational,
    Urdu,
    Uyghur,
    UyghurLegacy,
    UzbekCyrillic,
    Vietnamese,
    Wolof,
    Yoruba,
}

/// The identifier of a keyboard layout.
pub open spec fn lang_code(id: LanguageID) -> u32 {
    match id {
        LanguageID::ADLaM => 0x00140C00,
        LanguageID::Albanian => 0x0000041C,
        LanguageID::Arabic101 => 0x00000401,
        LanguageID::Arabic102 => 0x00010401,
        LanguageID::Arabic102AZERTY => 0x00020401,
        LanguageID::ArmenianEasternLegacy => 0x0000042B,
        LanguageID::ArmenianPhonetic => 0x0002042B,
        LanguageID::ArmenianTypewriter => 0x0003042B,
        LanguageID::ArmenianWesternLegacy => 0x0001042B,
        LanguageID::AssameseINSCRIPT => 0x0000044D,
        LanguageID::AzerbaijaniStandard => 0x0001042C,
        LanguageID::AzerbaijaniCyrillic => 0x0000082C,
        LanguageID::AzerbaijaniLatin => 0x0000042C,
        LanguageID::Bangla => 0x00000445,
        LanguageID::BanglaINSCRIPT => 0x00020445,
        LanguageID::BanglaINSCRIPTLegacy => 0x00010445,
        LanguageID::Bashkir => 0x0000046D,
        LanguageID::Belarusian => 0x00000423,
        LanguageID::BelgianComma => 0x0001080C,
        LanguageID::BelgianPeriod => 0x00000813,
        LanguageID::BelgianFrench => 0x0000080C,
        LanguageID::BosnianCyrillic => 0x0000201A,
        LanguageID::Buginese => 0x000B0C00,
        LanguageID::Bulgarian => 0x00030402,
        LanguageID::BulgarianLatin => 0x00010402,
        LanguageID::BulgarianPhoneticTraditional => 0x00040402,
        LanguageID::BulgarianPhonetic => 0x00020402,
        LanguageID::BulgarianTypewriter => 0x00000402,
        LanguageID::CanadianFrench => 0x00001009,
        LanguageID::CanadianFrenchLegacy => 0x00000C0C,
        LanguageID::CanadianMultilingualStandard => 0x00011009,
        LanguageID::CentralAtlasTamazight => 0x0000085F,
        LanguageID::CentralKurdish => 0x00000492,
        LanguageID::CherokeeNation => 0x0000045C,
        LanguageID::CherokeePhonetic => 0x0001045C,
        LanguageID::ChineseSimplifiedUS => 0x00000804,
        LanguageID::ChineseSimplifiedSingaporeUS => 0x00001004,
        LanguageID::ChineseTraditionalUS => 0x00000404,
        LanguageID::ChineseTraditionalHongKongSARUS => 0x00000C04,
        LanguageID::ChineseTraditionalMacaoSARUS => 0x00001404,
        LanguageID::Czech => 0x00000405,
        LanguageID::CzechQWERTY => 0x00010405,
        LanguageID::CzechProgrammers => 0x00020405,
        LanguageID::Danish => 0x00000406,
        LanguageID::DevanagariINSCRIPT => 0x00000439,
        LanguageID::DivehiPhonetic => 0x00000465,
        LanguageID::DivehiTypewriter => 0x00010465,
        LanguageID::Dutch => 0x00000413,
        LanguageID::Dzongkha => 0x00000C51,
        LanguageID::EnglishIndia => 0x00004009,
        LanguageID::Estonian => 0x00000425,
        LanguageID::Faeroese => 0x00000438,
        LanguageID::Finnish => 0x0000040B,
        LanguageID::FinnishwithSami => 0x0001083B,
        LanguageID::French => 0x0000040C,
        LanguageID::Futhark => 0x00120C00,
        LanguageID::GeorgianErgonomic => 0x00020437,
        LanguageID::GeorgianLegacy => 0x00000437,
        LanguageID::GeorgianMES => 0x00030437,
        LanguageID::GeorgianOldAlphabets => 0x00040437,
        LanguageID::GeorgianQWERTY => 0x00010437,
        LanguageID::German => 0x00000407,
        LanguageID::GermanIBM => 0x00010407,
        LanguageID::Gothic => 0x000C0C00,
        LanguageID::Greek => 0x00000408,
        LanguageID::Greek220 => 0x00010408,
        LanguageID::Greek220Latin => 0x00030408,
        LanguageID::Greek319 => 0x00020408,
        LanguageID::Greek319Latin => 0x00040408,
        LanguageID::GreekLatin => 0x00050408,
        LanguageID::GreekPolytonic => 0x00060408,
        LanguageID::Greenlandic => 0x0000046F,
        LanguageID::Guarani => 0x00000474,
        LanguageID::Gujarati => 0x00000447,
        LanguageID::Hausa => 0x00000468,
        LanguageID::Hawaiian => 0x00000475,
        LanguageID::Hebrew => 0x0000040D,
        LanguageID::HebrewStandard => 0x0002040D,
        LanguageID::HindiTraditional => 0x00010439,
        LanguageID::Hungarian => 0x0000040E,
        LanguageID::Hungarian101key => 0x0001040E,
        LanguageID::Icelandic => 0x0000040F,
        LanguageID::Igbo => 0x00000470,
        LanguageID::InuktitutLatin => 0x0000085D,
        LanguageID::InuktitutNaqittaut => 0x0001045D,
        LanguageID::Irish => 0x00001809,
        LanguageID::Italian => 0x00000410,
        LanguageID::Italian142 => 0x00010410,
        LanguageID::Japanese => 0x00000411,
        LanguageID::Javanese => 0x00110C00,
        LanguageID::Kannada => 0x0000044B,
        LanguageID::Kazakh => 0x0000043F,
        LanguageID::Khmer => 0x00000453,
        LanguageID::KhmerNIDA => 0x00010453,
        LanguageID::Korean => 0x00000412,
        LanguageID::KyrgyzCyrillic => 0x00000440,
        LanguageID::Lao => 0x00000454,
        LanguageID::LatinAmerican => 0x0000080A,
        LanguageID::Latvian => 0x00000426,
        LanguageID::LatvianQWERTY => 0x00010426,
        LanguageID::LatvianStandard => 0x00020426,
        LanguageID::LisuBasic => 0x00070C00,
        LanguageID::LisuStandard => 0x00080C00,
        LanguageID::Lithuanian => 0x00010427,
        LanguageID::LithuanianIBM => 0x00000427,
        LanguageID::LithuanianStandard => 0x00020427,
        LanguageID::Luxembourgish => 0x0000046E,
        LanguageID::Macedonian => 0x0000042F,
        LanguageID::MacedonianStandard => 0x0001042F,
        LanguageID::Malayalam => 0x0000044C,
        LanguageID::Maltese47Key => 0x0000043A,
        LanguageID::Maltese48Key => 0x0001043A,
        LanguageID::Maori => 0x00000481,
        LanguageID::Marathi => 0x0000044E,
        LanguageID::MongolianMongolianScript => 0x00000850,
        LanguageID::MongolianCyrillic => 0x00000450,
        LanguageID::MyanmarPhoneticorder => 0x00010C00,
        LanguageID::MyanmarVisualorder => 0x00130C00,
        LanguageID::NZAotearoa => 0x00001409,
        LanguageID::Nepali => 0x00000461,
        LanguageID::NewTaiLue => 0x00020C00,
        LanguageID::Norwegian => 0x00000414,
        LanguageID::NorwegianwithSami => 0x0000043B,
        LanguageID::NKo => 0x00090C00,
        LanguageID::Odia => 0x00000448,
        LanguageID::Ogham => 0x00040C00,
        LanguageID::OlChiki => 0x000D0C00,
        LanguageID::OldItalic => 0x000F0C00,
        LanguageID::Osage => 0x00150C00,
        LanguageID::Osmanya => 0x000E0C00,
        LanguageID::PashtoAfghanistan => 0x00000463,
        LanguageID::Persian => 0x00000429,
        LanguageID::PersianStandard => 0x00050429,
        LanguageID::Phagspa => 0x000A0C00,
        LanguageID::Polish214 => 0x00010415,
        LanguageID::PolishProgrammers => 0x00000415,
        LanguageID::Portuguese => 0x00000816,
        LanguageID::PortugueseBrazilABNT => 0x00000416,
        LanguageID::PortugueseBrazilABNT2 => 0x00010416,
        LanguageID::Punjabi => 0x00000446,
        LanguageID::RomanianLegacy => 0x00000418,
        LanguageID::RomanianProgrammers => 0x00020418,
        LanguageID::RomanianStandard => 0x00010418,
        LanguageID::Russian => 0x00000419,
        LanguageID::RussianTypewriter => 0x00010419,
        LanguageID::RussianMnemonic => 0x00020419,
        LanguageID::Sakha => 0x00000485,
        LanguageID::SamiExtendedFinlandSweden => 0x0002083B,
        LanguageID::SamiExtendedNorway => 0x0001043B,
        LanguageID::ScottishGaelic => 0x00011809,
        LanguageID::SerbianCyrillic => 0x00000C1A,
        LanguageID::SerbianLatin => 0x0000081A,
        LanguageID::SesothosaLeboa => 0x0000046C,
        LanguageID::Setswana => 0x00000432,
        LanguageID::Sinhala => 0x0000045B,
        LanguageID::SinhalaWij9 => 0x0001045B,
        LanguageID::Slovak => 0x0000041B,
        LanguageID::SlovakQWERTY => 0x0001041B,
        LanguageID::Slovenian => 0x00000424,
        LanguageID::Sora => 0x00100C00,
        LanguageID::SorbianExtended => 0x0001042E,
        LanguageID::SorbianStandard => 0x0002042E,
        LanguageID::SorbianStandardLegacy => 0x0000042E,
        LanguageID::Spanish => 0x0000040A,
        LanguageID::SpanishVariation => 0x0001040A,
        LanguageID::Standard => 0x0000041A,
        LanguageID::Swedish => 0x0000041D,
        LanguageID::SwedishwithSami => 0x0000083B,
        LanguageID::SwissFrench => 0x0000100C,
        LanguageID::SwissGerman => 0x00000807,
        LanguageID::Syriac => 0x0000045A,
        LanguageID::SyriacPhonetic => 0x0001045A,
        LanguageID::TaiLe => 0x00030C00,
        LanguageID::Tajik => 0x00000428,
        LanguageID::Tamil => 0x00000449,
        LanguageID::Tamil99 => 0x00020449,
        LanguageID::TamilAnjal => 0x00030449,
        LanguageID::Tatar => 0x00010444,
        LanguageID::TatarLegacy => 0x00000444,
        LanguageID::Telugu => 0x0000044A,
        LanguageID::ThaiKedmanee => 0x0000041E,
        LanguageID::ThaiKedmaneenonShiftLock => 0x0002041E,
        LanguageID::ThaiPattachote => 0x0001041E,
        LanguageID::ThaiPattachotenonShiftLock => 0x0003041E,
        LanguageID::TibetanPRC => 0x00000451,
        LanguageID::TibetanPRCUpdated => 0x00010451,
        LanguageID::TifinaghBasic => 0x0000105F,
        LanguageID::TifinaghExtended => 0x0001105F,
        LanguageID::TraditionalMongolianStandard => 0x00010850,
        LanguageID::TurkishF => 0x0001041F,
        LanguageID::TurkishQ => 0x0000041F,
        LanguageID::Turkmen => 0x00000442,
        LanguageID::US => 0x00000409,
        LanguageID::USEnglishTableforIBMArabic238_L => 0x00050409,
        LanguageID::Ukrainian => 0x00000422,
        LanguageID::UkrainianEnhanced => 0x00020422,
        LanguageID::UnitedKingdom => 0x00000809,
        LanguageID::UnitedKingdomExtended => 0x00000452,
        LanguageID::UnitedStatesDvorak => 0x00010409,
        LanguageID::UnitedStatesDvorakforlefthand => 0x00030409,
        LanguageID::UnitedStatesDvorakforrighthand => 0x00040409,
        LanguageID::UnitedStatesInternational => 0x00020409,
        LanguageID::Urdu => 0x00000420,
        LanguageID::Uyghur => 0x00010480,
        LanguageID::UyghurLegacy => 0x00000480,
        LanguageID::UzbekCyrillic => 0x00000843,
        LanguageID::Vietnamese => 0x0000042A,
        LanguageID::Wolof => 0x00000488,
        LanguageID::Yoruba => 0x0000046A,
    }
}

/// The `i`-th keyboard layout, in the order of their declaration.
pub open spec fn id_at(i: usize) -> LanguageID {
    match i {
        0 => LanguageID::ADLaM,
        1 => LanguageID::Albanian,
        2 => LanguageID::Arabic101,
        3 => LanguageID::Arabic102,
        4 => LanguageID::Arabic102AZERTY,
        5 => LanguageID::ArmenianEasternLegacy,
        6 => LanguageID::ArmenianPhonetic,
        7 => LanguageID::ArmenianTypewriter,
        8 => LanguageID::ArmenianWesternLegacy,
        9 => LanguageID::AssameseINSCRIPT,
        10 => LanguageID::AzerbaijaniStandard,
        11 => LanguageID::AzerbaijaniCyrillic,
        12 => LanguageID::AzerbaijaniLatin,
        13 => LanguageID::Bangla,
        14 => LanguageID::BanglaINSCRIPT,
        15 => LanguageID::BanglaINSCRIPTLegacy,
        16 => LanguageID::Bashkir,
        17 => LanguageID::Belarusian,
        18 => LanguageID::BelgianComma,
        19 => LanguageID::BelgianPeriod,
        20 => LanguageID::BelgianFrench,
        21 => LanguageID::BosnianCyrillic,
        22 => LanguageID::Buginese,
        23 => LanguageID::Bulgarian,
        24 => LanguageID::BulgarianLatin,
        25 => LanguageID::BulgarianPhoneticTraditional,
        26 => LanguageID::BulgarianPhonetic,
        27 => LanguageID::BulgarianTypewriter,
        28 => LanguageID::CanadianFrench,
        29 => LanguageID::CanadianFrenchLegacy,
        30 => LanguageID::CanadianMultilingualStandard,
        31 => LanguageID::CentralAtlasTamazight,
        32 => LanguageID::CentralKurdish,
        33 => LanguageID::CherokeeNation,
        34 => LanguageID::CherokeePhonetic,
        35 => LanguageID::ChineseSimplifiedUS,
        36 => LanguageID::ChineseSimplifiedSingaporeUS,
        37 => LanguageID::ChineseTraditionalUS,
        38 => LanguageID::ChineseTraditionalHongKongSARUS,
        39 => LanguageID::ChineseTraditionalMacaoSARUS,
        40 => LanguageID::Czech,
        41 => LanguageID::CzechQWERTY,
        42 => LanguageID::CzechProgrammers,
        43 => LanguageID::Danish,
        44 => LanguageID::DevanagariINSCRIPT,
        45 => LanguageID::DivehiPhonetic,
        46 => LanguageID::DivehiTypewriter,
        47 => LanguageID::Dutch,
        48 => LanguageID::Dzongkha,
        49 => LanguageID::EnglishIndia,
        50 => LanguageID::Estonian,
        51 => LanguageID::Faeroese,
        52 => LanguageID::Finnish,
        53 => LanguageID::FinnishwithSami,
        54 => LanguageID::French,
        55 => LanguageID::Futhark,
        56 => LanguageID::GeorgianErgonomic,
        57 => LanguageID::GeorgianLegacy,
        58 => LanguageID::GeorgianMES,
        59 => LanguageID::GeorgianOldAlphabets,
        60 => LanguageID::GeorgianQWERTY,
        61 => LanguageID::German,
        62 => LanguageID::GermanIBM,
        63 => LanguageID::Gothic,
        64 => LanguageID::Greek,
        65 => LanguageID::Greek220,
        66 => LanguageID::Greek220Latin,
        67 => LanguageID::Greek319,
        68 => LanguageID::Greek319Latin,
        69 => LanguageID::GreekLatin,
        70 => LanguageID::GreekPolytonic,
        71 => LanguageID::Greenlandic,
        72 => LanguageID::Guarani,
        73 => LanguageID::Gujarati,
        74 => LanguageID::Hausa,
        75 => LanguageID::Hawaiian,
        76 => LanguageID::Hebrew,
        77 => LanguageID::HebrewStandard,
        78 => LanguageID::HindiTraditional,
        79 => LanguageID::Hungarian,
        80 => LanguageID::Hungarian101key,
        81 => LanguageID::Icelandic,
        82 => LanguageID::Igbo,
        83 => LanguageID::InuktitutLatin,
        84 => LanguageID::InuktitutNaqittaut,
        85 => LanguageID::Irish,
        86 => LanguageID::Italian,
        87 => LanguageID::Italian142,
        88 => LanguageID::Japanese,
        89 => LanguageID::Javanese,
        90 => LanguageID::Kannada,
        91 => LanguageID::Kazakh,
        92 => LanguageID::Khmer,
        93 => LanguageID::KhmerNIDA,
        94 => LanguageID::Korean,
        95 => LanguageID::KyrgyzCyrillic,
        96 => LanguageID::Lao,
        97 => LanguageID::LatinAmerican,
        98 => LanguageID::Latvian,
        99 => LanguageID::LatvianQWERTY,
        100 => LanguageID::LatvianStandard,
        101 => LanguageID::LisuBasic,
        102 => LanguageID::LisuStandard,
        103 => LanguageID::Lithuanian,
        104 => LanguageID::LithuanianIBM,
        105 => LanguageID::LithuanianStandard,
        106 => LanguageID::Luxembourgish,
        107 => LanguageID::Macedonian,
        108 => LanguageID::MacedonianStandard,
        109 => LanguageID::Malayalam,
        110 => LanguageID::Maltese47Key,
        111 => LanguageID::Maltese48Key,
        112 => LanguageID::Maori,
        113 => LanguageID::Marathi,
        114 => LanguageID::MongolianMongolianScript,
        115 => LanguageID::MongolianCyrillic,
        116 => LanguageID::MyanmarPhoneticorder,
        117 => LanguageID::MyanmarVisualorder,
        118 => LanguageID::NZAotearoa,
        119 => LanguageID::Nepali,
        120 => LanguageID::NewTaiLue,
        121 => LanguageID::Norwegian,
        122 => LanguageID::NorwegianwithSami,
        123 => LanguageID::NKo,
        124 => LanguageID::Odia,
        125 => LanguageID::Ogham,
        126 => LanguageID::OlChiki,
        127 => LanguageID::OldItalic,
        128 => LanguageID::Osage,
        129 => LanguageID::Osmanya,
        130 => LanguageID::PashtoAfghanistan,
        131 => LanguageID::Persian,
        132 => LanguageID::PersianStandard,
        133 => LanguageID::Phagspa,
        134 => LanguageID::Polish214,
        135 => LanguageID::PolishProgrammers,
        136 => LanguageID::Portuguese,
        137 => LanguageID::PortugueseBrazilABNT,
        138 => LanguageID::PortugueseBrazilABNT2,
        139 => LanguageID::Punjabi,
        140 => LanguageID::RomanianLegacy,
        141 => LanguageID::RomanianProgrammers,
        142 => LanguageID::RomanianStandard,
        143 => LanguageID::Russian,
        144 => LanguageID::RussianTypewriter,
        145 => LanguageID::RussianMnemonic,
        146 => LanguageID::Sakha,
        147 => LanguageID::SamiExtendedFinlandSweden,
        148 => LanguageID::SamiExtendedNorway,
        149 => LanguageID::ScottishGaelic,
        150 => LanguageID::SerbianCyrillic,
        151 => LanguageID::SerbianLatin,
        152 => LanguageID::SesothosaLeboa,
        153 => LanguageID::Setswana,
        154 => LanguageID::Sinhala,
        155 => LanguageID::SinhalaWij9,
        156 => LanguageID::Slovak,
        157 => LanguageID::SlovakQWERTY,
        158 => LanguageID::Slovenian,
        159 => LanguageID::Sora,
        160 => LanguageID::SorbianExtended,
        161 => LanguageID::SorbianStandard,
        162 => LanguageID::SorbianStandardLegacy,
        163 => LanguageID::Spanish,
        164 => LanguageID::SpanishVariation,
        165 => LanguageID::Standard,
        166 => LanguageID::Swedish,
        167 => LanguageID::SwedishwithSami,
        168 => LanguageID::SwissFrench,
        169 => LanguageID::SwissGerman,
        170 => LanguageID::Syriac,
        171 => LanguageID::SyriacPhonetic,
        172 => LanguageID::TaiLe,
        173 => LanguageID::Tajik,
        174 => LanguageID::Tamil,
        175 => LanguageID::Tamil99,
        176 => LanguageID::TamilAnjal,
        177 => LanguageID::Tatar,
        178 => LanguageID::TatarLegacy,
        179 => LanguageID::Telugu,
        180 => LanguageID::ThaiKedmanee,
        181 => LanguageID::ThaiKedmaneenonShiftLock,
        182 => LanguageID::ThaiPattachote,
        183 => LanguageID::ThaiPattachotenonShiftLock,
        184 => LanguageID::TibetanPRC,
        185 => LanguageID::TibetanPRCUpdated,
        186 => LanguageID::TifinaghBasic,
        187 => LanguageID::TifinaghExtended,
        188 => LanguageID::TraditionalMongolianStandard,
        189 => LanguageID::TurkishF,
        190 => LanguageID::TurkishQ,
        191 => LanguageID::Turkmen,
        192 => LanguageID::US,
        193 => LanguageID::USEnglishTableforIBMArabic238_L,
        194 => LanguageID::Ukrainian,
        195 => LanguageID::UkrainianEnhanced,
        196 => LanguageID::UnitedKingdom,
        197 => LanguageID::UnitedKingdomExtended,
        198 => LanguageID::UnitedStatesDvorak,
        199 => LanguageID::UnitedStatesDvorakforlefthand,
        200 => LanguageID::UnitedStatesDvorakforrighthand,
        201 => LanguageID::UnitedStatesInternational,
        202 => LanguageID::Urdu,
        203 => LanguageID::Uyghur,
        204 => LanguageID::UyghurLegacy,
        205 => LanguageID::UzbekCyrillic,
        206 => LanguageID::Vietnamese,
        207 => LanguageID::Wolof,
        _ => LanguageID::Yoruba,
    }
}

/// The number of keyboard layouts.
pub const LANGUAGE_COUNT: usize = 209;

/// Every keyboard layout, in the order of their declaration.
pub open spec fn all_ids() -> Seq<LanguageID> {
    Seq::new(LANGUAGE_COUNT as nat, |i: int| id_at(i as usize))
}

impl LanguageID {
    /// The identifier of the layout.
    pub fn code(self) -> (r: u32)
        ensures
            r == lang_code(self),
    {
        match self {
            LanguageID::ADLaM => 0x00140C00,
            LanguageID::Albanian => 0x0000041C,
            LanguageID::Arabic101 => 0x00000401,
            LanguageID::Arabic102 => 0x00010401,
            LanguageID::Arabic102AZERTY => 0x00020401,
            LanguageID::ArmenianEasternLegacy => 0x0000042B,
            LanguageID::ArmenianPhonetic => 0x0002042B,
            LanguageID::ArmenianTypewriter => 0x0003042B,
            LanguageID::ArmenianWesternLegacy => 0x0001042B,
            LanguageID::AssameseINSCRIPT => 0x0000044D,
            LanguageID::AzerbaijaniStandard => 0x0001042C,
            LanguageID::AzerbaijaniCyrillic => 0x0000082C,
            LanguageID::AzerbaijaniLatin => 0x0000042C,
            LanguageID::Bangla => 0x00000445,
            LanguageID::BanglaINSCRIPT => 0x00020445,
            LanguageID::BanglaINSCRIPTLegacy => 0x00010445,
            LanguageID::Bashkir => 0x0000046D,
            LanguageID::Belarusian => 0x00000423,
            LanguageID::BelgianComma => 0x0001080C,
            LanguageID::BelgianPeriod => 0x00000813,
            LanguageID::BelgianFrench => 0x0000080C,
            LanguageID::BosnianCyrillic => 0x0000201A,
            LanguageID::Buginese => 0x000B0C00,
            LanguageID::Bulgarian => 0x00030402,
            LanguageID::BulgarianLatin => 0x00010402,
            LanguageID::BulgarianPhoneticTraditional => 0x00040402,
            LanguageID::BulgarianPhonetic => 0x00020402,
            LanguageID::BulgarianTypewriter => 0x00000402,
            LanguageID::CanadianFrench => 0x00001009,
            LanguageID::CanadianFrenchLegacy => 0x00000C0C,
            LanguageID::CanadianMultilingualStandard => 0x00011009,
            LanguageID::CentralAtlasTamazight => 0x0000085F,
            LanguageID::CentralKurdish => 0x00000492,
            LanguageID::CherokeeNation => 0x0000045C,
            LanguageID::CherokeePhonetic => 0x0001045C,
            LanguageID::ChineseSimplifiedUS => 0x00000804,
            LanguageID::ChineseSimplifiedSingaporeUS => 0x00001004,
            LanguageID::ChineseTraditionalUS => 0x00000404,
            LanguageID::ChineseTraditionalHongKongSARUS => 0x00000C04,
            LanguageID::ChineseTraditionalMacaoSARUS => 0x00001404,
            LanguageID::Czech => 0x00000405,
            LanguageID::CzechQWERTY => 0x00010405,
            LanguageID::CzechProgrammers => 0x00020405,
            LanguageID::Danish => 0x00000406,
            LanguageID::DevanagariINSCRIPT => 0x00000439,
            LanguageID::DivehiPhonetic => 0x00000465,
            LanguageID::DivehiTypewriter => 0x00010465,
            LanguageID::Dutch => 0x00000413,
            LanguageID::Dzongkha => 0x00000C51,
            LanguageID::EnglishIndia => 0x00004009,
            LanguageID::Estonian => 0x00000425,
            LanguageID::Faeroese => 0x00000438,
            LanguageID::Finnish => 0x0000040B,
            LanguageID::FinnishwithSami => 0x0001083B,
            LanguageID::French => 0x0000040C,
            LanguageID::Futhark => 0x00120C00,
            LanguageID::GeorgianErgonomic => 0x00020437,
            LanguageID::GeorgianLegacy => 0x00000437,
            LanguageID::GeorgianMES => 0x00030437,
            LanguageID::GeorgianOldAlphabets => 0x00040437,
            LanguageID::GeorgianQWERTY => 0x00010437,
            LanguageID::German => 0x00000407,
            LanguageID::GermanIBM => 0x00010407,
            LanguageID::Gothic => 0x000C0C00,
            LanguageID::Greek => 0x00000408,
            LanguageID::Greek220 => 0x00010408,
            LanguageID::Greek220Latin => 0x00030408,
            LanguageID::Greek319 => 0x00020408,
            LanguageID::Greek319Latin => 0x00040408,
            LanguageID::GreekLatin => 0x00050408,
            LanguageID::GreekPolytonic => 0x00060408,
            LanguageID::Greenlandic => 0x0000046F,
            LanguageID::Guarani => 0x00000474,
            LanguageID::Gujarati => 0x00000447,
            LanguageID::Hausa => 0x00000468,
            LanguageID::Hawaiian => 0x00000475,
            LanguageID::Hebrew => 0x0000040D,
            LanguageID::HebrewStandard => 0x0002040D,
            LanguageID::HindiTraditional => 0x00010439,
            LanguageID::Hungarian => 0x0000040E,
            LanguageID::Hungarian101key => 0x0001040E,
            LanguageID::Icelandic => 0x0000040F,
            LanguageID::Igbo => 0x00000470,
            LanguageID::InuktitutLatin => 0x0000085D,
            LanguageID::InuktitutNaqittaut => 0x0001045D,
            LanguageID::Irish => 0x00001809,
            LanguageID::Italian => 0x00000410,
            LanguageID::Italian142 => 0x00010410,
            LanguageID::Japanese => 0x00000411,
            LanguageID::Javanese => 0x00110C00,
            LanguageID::Kannada => 0x0000044B,
            LanguageID::Kazakh => 0x0000043F,
            LanguageID::Khmer => 0x00000453,
            LanguageID::KhmerNIDA => 0x00010453,
            LanguageID::Korean => 0x00000412,
            LanguageID::KyrgyzCyrillic => 0x00000440,
            LanguageID::Lao => 0x00000454,
            LanguageID::LatinAmerican => 0x0000080A,
            LanguageID::Latvian => 0x00000426,
            LanguageID::LatvianQWERTY => 0x00010426,
            LanguageID::LatvianStandard => 0x00020426,
            LanguageID::LisuBasic => 0x00070C00,
            LanguageID::LisuStandard => 0x00080C00,
            LanguageID::Lithuanian => 0x00010427,
            LanguageID::LithuanianIBM => 0x00000427,
            LanguageID::LithuanianStandard => 0x00020427,
            LanguageID::Luxembourgish => 0x0000046E,
            LanguageID::Macedonian => 0x0000042F,
            LanguageID::MacedonianStandard => 0x0001042F,
            LanguageID::Malayalam => 0x0000044C,
            LanguageID::Maltese47Key => 0x0000043A,
            LanguageID::Maltese48Key => 0x0001043A,
            LanguageID::Maori => 0x00000481,
            LanguageID::Marathi => 0x0000044E,
            LanguageID::MongolianMongolianScript => 0x00000850,
            LanguageID::MongolianCyrillic => 0x00000450,
            LanguageID::MyanmarPhoneticorder => 0x00010C00,
            LanguageID::MyanmarVisualorder => 0x00130C00,
            LanguageID::NZAotearoa => 0x00001409,
            LanguageID::Nepali => 0x00000461,
            LanguageID::NewTaiLue => 0x00020C00,
            LanguageID::Norwegian => 0x00000414,
            LanguageID::NorwegianwithSami => 0x0000043B,
            LanguageID::NKo => 0x00090C00,
            LanguageID::Odia => 0x00000448,
            LanguageID::Ogham => 0x00040C00,
            LanguageID::OlChiki => 0x000D0C00,
            LanguageID::OldItalic => 0x000F0C00,
            LanguageID::Osage => 0x00150C00,
            LanguageID::Osmanya => 0x000E0C00,
            LanguageID::PashtoAfghanistan => 0x00000463,
            LanguageID::Persian => 0x00000429,
            LanguageID::PersianStandard => 0x00050429,
            LanguageID::Phagspa => 0x000A0C00,
            LanguageID::Polish214 => 0x00010415,
            LanguageID::PolishProgrammers => 0x00000415,
            LanguageID::Portuguese => 0x00000816,
            LanguageID::PortugueseBrazilABNT => 0x00000416,
            LanguageID::PortugueseBrazilABNT2 => 0x00010416,
            LanguageID::Punjabi => 0x00000446,
            LanguageID::RomanianLegacy => 0x00000418,
            LanguageID::RomanianProgrammers => 0x00020418,
            LanguageID::RomanianStandard => 0x00010418,
            LanguageID::Russian => 0x00000419,
            LanguageID::RussianTypewriter => 0x00010419,
            LanguageID::RussianMnemonic => 0x00020419,
            LanguageID::Sakha => 0x00000485,
            LanguageID::SamiExtendedFinlandSweden => 0x0002083B,
            LanguageID::SamiExtendedNorway => 0x0001043B,
            LanguageID::ScottishGaelic => 0x00011809,
            LanguageID::SerbianCyrillic => 0x00000C1A,
            LanguageID::SerbianLatin => 0x0000081A,
            LanguageID::SesothosaLeboa => 0x0000046C,
            LanguageID::Setswana => 0x00000432,
            LanguageID::Sinhala => 0x0000045B,
            LanguageID::SinhalaWij9 => 0x0001045B,
            LanguageID::Slovak => 0x0000041B,
            LanguageID::SlovakQWERTY => 0x0001041B,
            LanguageID::Slovenian => 0x00000424,
            LanguageID::Sora => 0x00100C00,
            LanguageID::SorbianExtended => 0x0001042E,
            LanguageID::SorbianStandard => 0x0002042E,
            LanguageID::SorbianStandardLegacy => 0x0000042E,
            LanguageID::Spanish => 0x0000040A,
            LanguageID::SpanishVariation => 0x0001040A,
            LanguageID::Standard => 0x0000041A,
            LanguageID::Swedish => 0x0000041D,
            LanguageID::SwedishwithSami => 0x0000083B,
            LanguageID::SwissFrench => 0x0000100C,
            LanguageID::SwissGerman => 0x00000807,
            LanguageID::Syriac => 0x0000045A,
            LanguageID::SyriacPhonetic => 0x0001045A,
            LanguageID::TaiLe => 0x00030C00,
            LanguageID::Tajik => 0x00000428,
            LanguageID::Tamil => 0x00000449,
            LanguageID::Tamil99 => 0x00020449,
            LanguageID::TamilAnjal => 0x00030449,
            LanguageID::Tatar => 0x00010444,
            LanguageID::TatarLegacy => 0x00000444,
            LanguageID::Telugu => 0x0000044A,
            LanguageID::ThaiKedmanee => 0x0000041E,
            LanguageID::ThaiKedmaneenonShiftLock => 0x0002041E,
            LanguageID::ThaiPattachote => 0x0001041E,
            LanguageID::ThaiPattachotenonShiftLock => 0x0003041E,
            LanguageID::TibetanPRC => 0x00000451,
            LanguageID::TibetanPRCUpdated => 0x00010451,
            LanguageID::TifinaghBasic => 0x0000105F,
            LanguageID::TifinaghExtended => 0x0001105F,
            LanguageID::TraditionalMongolianStandard => 0x00010850,
            LanguageID::TurkishF => 0x0001041F,
            LanguageID::TurkishQ => 0x0000041F,
            LanguageID::Turkmen => 0x00000442,
            LanguageID::US => 0x00000409,
            LanguageID::USEnglishTableforIBMArabic238_L => 0x00050409,
            LanguageID::Ukrainian => 0x00000422,
            LanguageID::UkrainianEnhanced => 0x00020422,
            LanguageID::UnitedKingdom => 0x00000809,
            LanguageID::UnitedKingdomExtended => 0x00000452,
            LanguageID::UnitedStatesDvorak => 0x00010409,
            LanguageID::UnitedStatesDvorakforlefthand => 0x00030409,
            LanguageID::UnitedStatesDvorakforrighthand => 0x00040409,
            LanguageID::UnitedStatesInternational => 0x00020409,
            LanguageID::Urdu => 0x00000420,
            LanguageID::Uyghur => 0x00010480,
            LanguageID::UyghurLegacy => 0x00000480,
            LanguageID::UzbekCyrillic => 0x00000843,
            LanguageID::Vietnamese => 0x0000042A,
            LanguageID::Wolof => 0x00000488,
            LanguageID::Yoruba => 0x0000046A,
        }
    }

    /// The `i`-th keyboard layout, in the order of their declaration.
    pub fn nth(i: usize) -> (r: LanguageID)
        requires
            i < LANGUAGE_COUNT,
        ensures
            r == id_at(i),
    {
        match i {
            0 => LanguageID::ADLaM,
            1 => LanguageID::Albanian,
            2 => LanguageID::Arabic101,
            3 => LanguageID::Arabic102,
            4 => LanguageID::Arabic102AZERTY,
            5 => LanguageID::ArmenianEasternLegacy,
            6 => LanguageID::ArmenianPhonetic,
            7 => LanguageID::ArmenianTypewriter,
            8 => LanguageID::ArmenianWesternLegacy,
            9 => LanguageID::AssameseINSCRIPT,
            10 => LanguageID::AzerbaijaniStandard,
            11 => LanguageID::AzerbaijaniCyrillic,
            12 => LanguageID::AzerbaijaniLatin,
            13 => LanguageID::Bangla,
            14 => LanguageID::BanglaINSCRIPT,
            15 => LanguageID::BanglaINSCRIPTLegacy,
            16 => LanguageID::Bashkir,
            17 => LanguageID::Belarusian,
            18 => LanguageID::BelgianComma,
            19 => LanguageID::BelgianPeriod,
            20 => LanguageID::BelgianFrench,
            21 => LanguageID::BosnianCyrillic,
            22 => LanguageID::Buginese,
            23 => LanguageID::Bulgarian,
            24 => LanguageID::BulgarianLatin,
            25 => LanguageID::BulgarianPhoneticTraditional,
            26 => LanguageID::BulgarianPhonetic,
            27 => LanguageID::BulgarianTypewriter,
            28 => LanguageID::CanadianFrench,
            29 => LanguageID::CanadianFrenchLegacy,
            30 => LanguageID::CanadianMultilingualStandard,
            31 => LanguageID::CentralAtlasTamazight,
            32 => LanguageID::CentralKurdish,
            33 => LanguageID::CherokeeNation,
            34 => LanguageID::CherokeePhonetic,
            35 => LanguageID::ChineseSimplifiedUS,
            36 => LanguageID::ChineseSimplifiedSingaporeUS,
            37 => LanguageID::ChineseTraditionalUS,
            38 => LanguageID::ChineseTraditionalHongKongSARUS,
            39 => LanguageID::ChineseTraditionalMacaoSARUS,
            40 => LanguageID::Czech,
            41 => LanguageID::CzechQWERTY,
            42 => LanguageID::CzechProgrammers,
            43 => LanguageID::Danish,
            44 => LanguageID::DevanagariINSCRIPT,
            45 => LanguageID::DivehiPhonetic,
            46 => LanguageID::DivehiTypewriter,
            47 => LanguageID::Dutch,
            48 => LanguageID::Dzongkha,
            49 => LanguageID::EnglishIndia,
            50 => LanguageID::Estonian,
            51 => LanguageID::Faeroese,
            52 => LanguageID::Finnish,
            53 => LanguageID::FinnishwithSami,
            54 => LanguageID::French,
            55 => LanguageID::Futhark,
            56 => LanguageID::GeorgianErgonomic,
            57 => LanguageID::GeorgianLegacy,
            58 => LanguageID::GeorgianMES,
            59 => LanguageID::GeorgianOldAlphabets,
            60 => LanguageID::GeorgianQWERTY,
            61 => LanguageID::German,
            62 => LanguageID::GermanIBM,
            63 => LanguageID::Gothic,
            64 => LanguageID::Greek,
            65 => LanguageID::Greek220,
            66 => LanguageID::Greek220Latin,
            67 => LanguageID::Greek319,
            68 => LanguageID::Greek319Latin,
            69 => LanguageID::GreekLatin,
            70 => LanguageID::GreekPolytonic,
            71 => LanguageID::Greenlandic,
            72 => LanguageID::Guarani,
            73 => LanguageID::Gujarati,
            74 => LanguageID::Hausa,
            75 => LanguageID::Hawaiian,
            76 => LanguageID::Hebrew,
            77 => LanguageID::HebrewStandard,
            78 => LanguageID::HindiTraditional,
            79 => LanguageID::Hungarian,
            80 => LanguageID::Hungarian101key,
            81 => LanguageID::Icelandic,
            82 => LanguageID::Igbo,
            83 => LanguageID::InuktitutLatin,
            84 => LanguageID::InuktitutNaqittaut,
            85 => LanguageID::Irish,
            86 => LanguageID::Italian,
            87 => LanguageID::Italian142,
            88 => LanguageID::Japanese,
            89 => LanguageID::Javanese,
            90 => LanguageID::Kannada,
            91 => LanguageID::Kazakh,
            92 => LanguageID::Khmer,
            93 => LanguageID::KhmerNIDA,
            94 => LanguageID::Korean,
            95 => LanguageID::KyrgyzCyrillic,
            96 => LanguageID::Lao,
            97 => LanguageID::LatinAmerican,
            98 => LanguageID::Latvian,
            99 => LanguageID::LatvianQWERTY,
            100 => LanguageID::LatvianStandard,
            101 => LanguageID::LisuBasic,
            102 => LanguageID::LisuStandard,
            103 => LanguageID::Lithuanian,
            104 => LanguageID::LithuanianIBM,
            105 => LanguageID::LithuanianStandard,
            106 => LanguageID::Luxembourgish,
            107 => LanguageID::Macedonian,
            108 => LanguageID::MacedonianStandard,
            109 => LanguageID::Malayalam,
            110 => LanguageID::Maltese47Key,
            111 => LanguageID::Maltese48Key,
            112 => LanguageID::Maori,
            113 => LanguageID::Marathi,
            114 => LanguageID::MongolianMongolianScript,
            115 => LanguageID::MongolianCyrillic,
            116 => LanguageID::MyanmarPhoneticorder,
            117 => LanguageID::MyanmarVisualorder,
            118 => LanguageID::NZAotearoa,
            119 => LanguageID::Nepali,
            120 => LanguageID::NewTaiLue,
            121 => LanguageID::Norwegian,
            122 => LanguageID::NorwegianwithSami,
            123 => LanguageID::NKo,
            124 => LanguageID::Odia,
            125 => LanguageID::Ogham,
            126 => LanguageID::OlChiki,
            127 => LanguageID::OldItalic,
            128 => LanguageID::Osage,
            129 => LanguageID::Osmanya,
            130 => LanguageID::PashtoAfghanistan,
            131 => LanguageID::Persian,
            132 => LanguageID::PersianStandard,
            133 => LanguageID::Phagspa,
            134 => LanguageID::Polish214,
            135 => LanguageID::PolishProgrammers,
            136 => LanguageID::Portuguese,
            137 => LanguageID::PortugueseBrazilABNT,
            138 => LanguageID::PortugueseBrazilABNT2,
            139 => LanguageID::Punjabi,
            140 => LanguageID::RomanianLegacy,
            141 => LanguageID::RomanianProgrammers,
            142 => LanguageID::RomanianStandard,
            143 => LanguageID::Russian,
            144 => LanguageID::RussianTypewriter,
            145 => LanguageID::RussianMnemonic,
            146 => LanguageID::Sakha,
            147 => LanguageID::SamiExtendedFinlandSweden,
            148 => LanguageID::SamiExtendedNorway,
            149 => LanguageID::ScottishGaelic,
            150 => LanguageID::SerbianCyrillic,
            151 => LanguageID::SerbianLatin,
            152 => LanguageID::SesothosaLeboa,
            153 => LanguageID::Setswana,
            154 => LanguageID::Sinhala,
            155 => LanguageID::SinhalaWij9,
            156 => LanguageID::Slovak,
            157 => LanguageID::SlovakQWERTY,
            158 => LanguageID::Slovenian,
            159 => LanguageID::Sora,
            160 => LanguageID::SorbianExtended,
            161 => LanguageID::SorbianStandard,
            162 => LanguageID::SorbianStandardLegacy,
            163 => LanguageID::Spanish,
            164 => LanguageID::SpanishVariation,
            165 => LanguageID::Standard,
            166 => LanguageID::Swedish,
            167 => LanguageID::SwedishwithSami,
            168 => LanguageID::SwissFrench,
            169 => LanguageID::SwissGerman,
            170 => LanguageID::Syriac,
            171 => LanguageID::SyriacPhonetic,
            172 => LanguageID::TaiLe,
            173 => LanguageID::Tajik,
            174 => LanguageID::Tamil,
            175 => LanguageID::Tamil99,
            176 => LanguageID::TamilAnjal,
            177 => LanguageID::Tatar,
            178 => LanguageID::TatarLegacy,
            179 => LanguageID::Telugu,
            180 => LanguageID::ThaiKedmanee,
            181 => LanguageID::ThaiKedmaneenonShiftLock,
            182 => LanguageID::ThaiPattachote,
            183 => LanguageID::ThaiPattachotenonShiftLock,
            184 => LanguageID::TibetanPRC,
            185 => LanguageID::TibetanPRCUpdated,
            186 => LanguageID::TifinaghBasic,
            187 => LanguageID::TifinaghExtended,
            188 => LanguageID::TraditionalMongolianStandard,
            189 => LanguageID::TurkishF,
            190 => LanguageID::TurkishQ,
            191 => LanguageID::Turkmen,
            192 => LanguageID::US,
            193 => LanguageID::USEnglishTableforIBMArabic238_L,
            194 => LanguageID::Ukrainian,
            195 => LanguageID::UkrainianEnhanced,
            196 => LanguageID::UnitedKingdom,
            197 => LanguageID::UnitedKingdomExtended,
            198 => LanguageID::UnitedStatesDvorak,
            199 => LanguageID::UnitedStatesDvorakforlefthand,
            200 => LanguageID::UnitedStatesDvorakforrighthand,
            201 => LanguageID::UnitedStatesInternational,
            202 => LanguageID::Urdu,
            203 => LanguageID::Uyghur,
            204 => LanguageID::UyghurLegacy,
            205 => LanguageID::UzbekCyrillic,
            206 => LanguageID::Vietnamese,
            207 => LanguageID::Wolof,
            _ => LanguageID::Yoruba,
        }
    }

    /// Every keyboard layout, in the order of their declaration.
    pub fn all() -> (r: Vec<LanguageID>)
        ensures
            r@ == all_ids(),
    {
        let mut r: Vec<LanguageID> = Vec::new();
        let mut k: usize = 0;
        while k < LANGUAGE_COUNT
            invariant
                0 <= k <= LANGUAGE_COUNT,
                r@ == all_ids().take(k as int),
            decreases LANGUAGE_COUNT - k,
        {
            r.push(LanguageID::nth(k));
            proof {
                assert(all_ids().take(k + 1) =~= all_ids().take(k as int).push(id_at(k)));
            }
            k = k + 1;
        }
        proof {
            assert(all_ids().take(LANGUAGE_COUNT as int) =~= all_ids());
        }
        r
    }
}


/// The size from which the log file is started anew: 5 MiB.
pub const LOG_LIMIT: u64 = 5 * 1024 * 1024;

/// Whether the log file is full and is to be started anew.
pub fn log_file_full(size: u64) -> (r: bool)
    ensures
        r == (size >= LOG_LIMIT),
{
    size >= LOG_LIMIT
}

} // verus!
