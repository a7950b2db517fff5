use ajemi::extend::{color_ref, is_joiner_char, CharExt, GUIDExt, HKLExt, IterStr, OsStrExt2, ResultExt, VKExt};
use ajemi::global::{lang_id, parse_hkl, path_end, LanguageID, LANGUAGE_COUNT};
use ajemi::install::{Install, Layout as InstallLayout};
use ajemi::layout::Layout;
use ajemi::ui::Color;
use ajemi::conf::{css_rgb, reload, rgb_value, Toggle};

#[test]
fn guid_in_rfc4122_form() {
    let id: u128 = 0xC93D3D59_2FAC_40E0_ABC6_A3658749E2FA;
    assert_eq!(id.to_rfc4122(), "C93D3D59-2FAC-40E0-ABC6-A3658749E2FA");
    let small: u128 = 0xab;
    assert_eq!(small.to_rfc4122(), "00000000-0000-0000-0000-0000000000AB");
}

#[test]
fn langid_is_the_low_word() {
    assert_eq!((0x0409_0409isize).langid(), 0x0409);
    assert_eq!((0xF002_0409isize).langid(), 0x0409);
    assert_eq!((-1isize).langid(), 0xFFFF);
}

#[test]
fn joiners() {
    assert!('\u{200D}'.is_joiner());
    assert!('\u{F1995}'.is_joiner());
    assert!(is_joiner_char('\u{F1996}'));
    assert!(!'-'.is_joiner());
}

#[test]
fn chars_from_utf16() {
    assert_eq!(char::try_from_utf16(0x61).unwrap(), 'a');
    assert_eq!(char::try_from_utf16(0x3000).unwrap(), '\u{3000}');
    assert!(char::try_from_utf16(0xD800).is_err());
    assert!(char::try_from_utf16(0xDFFF).is_err());
}

#[test]
fn wide_chars() {
    assert_eq!("a\u{1F600}".to_wchars(), vec![0x61, 0xD83D, 0xDE00]);
    assert_eq!("Ajemi".to_null_terminated_wchars(), vec![0x41, 0x6A, 0x65, 0x6D, 0x69, 0]);
    assert_eq!("".to_wchars(), Vec::<u16>::new());
    assert_eq!("\u{F1900}".to_wchars(), vec![0xDB86, 0xDD00]);
}

#[test]
fn strings_as_slices() {
    let v = vec!["a".to_string(), "bc".to_string()];
    assert_eq!(v.iter_str(), vec!["a", "bc"]);
}

#[test]
fn results_pass_through() {
    let ok: Result<u8, ()> = Ok(3);
    assert_eq!(ok.log_err(), Ok(3));
    let err: Result<u8, ()> = Err(());
    assert_eq!(err.log_err(), Err(()));
}

#[test]
fn key_states() {
    assert!((-128i16).is_down());
    assert!(!(1i16).is_down());
    assert!((1i16).is_toggled());
    assert!((-127i16).is_toggled());
    assert!(!(0x7F00i16).is_toggled());
}

#[test]
fn color_values() {
    assert_eq!(color_ref(0x12, 0x34, 0x56), 0x563412);
    assert_eq!(0x123456u32.to_color_ref(), 0x563412);
    assert_eq!(0xFF0078D7u32.to_color_ref(), 0xD77800);
}

#[test]
fn language_ids() {
    assert_eq!(lang_id(), 0x409);
    assert_eq!(LanguageID::US.code(), 0x0409);
    assert_eq!(LanguageID::ADLaM.code(), 0x00140C00);
    assert_eq!(LanguageID::Yoruba.code(), 0x0000046A);
    let all = LanguageID::all();
    assert_eq!(all.len(), LANGUAGE_COUNT);
    assert_eq!(all[0], LanguageID::ADLaM);
    assert_eq!(all[all.len() - 1], LanguageID::Yoruba);
}

#[test]
fn path_ends_at_the_first_zero() {
    let mut buf = vec![0u8; 512];
    for (i, b) in b"C:\\ajemi.dll".iter().enumerate() {
        buf[i] = *b;
    }
    assert_eq!(path_end(&buf), 12);
    assert_eq!(path_end(&vec![1u8; 8]), 8);
    assert_eq!(path_end(&vec![1u8, 0]), 1);
}

#[test]
fn install_file_handle() {
    assert_eq!(parse_hkl("04090409"), Some(0x04090409));
    assert_eq!(parse_hkl("F0020409"), Some(0xF0020409u32 as isize));
    assert_eq!(parse_hkl("+1a"), Some(0x1a));
    assert_eq!(parse_hkl("zz"), None);
    assert_eq!(parse_hkl(""), None);
    assert_eq!(parse_hkl("100000000"), None);
}

#[test]
fn layouts_of_ids() {
    assert!(Layout::from_lang_id(0x0409) == Layout::Qwerty);
    assert!(Layout::from_lang_id(0x0001_0409) == Layout::Dvorak);
    assert!(Layout::from_lang_id(0x0407) == Layout::Qwertz);
    assert!(Layout::from_lang_id(0x040C) == Layout::Azerty);
    assert!(Layout::from_lang_id(0x1009) == Layout::CanadianFrench);
    assert!(Layout::from_lang_id(0xA000_0409) == Layout::Custom);
    assert!(InstallLayout::from_lang_id(0x100C) == InstallLayout::Qwertz);
    assert!(InstallLayout::from_lang_id(0x0813) == InstallLayout::Azerty);
    assert!(InstallLayout::from_lang_id(0x1009) == InstallLayout::QwertyCFR);
    assert!(InstallLayout::from_lang_id(0x0001_0409) == InstallLayout::Qwerty);
}

#[test]
fn layouts_by_name() {
    assert!(Layout::try_from("QWERTY") == Ok(Layout::Qwerty));
    assert!(Layout::try_from("QWERTY_CFR") == Ok(Layout::CanadianFrench));
    assert!(Layout::try_from("CUSTOM") == Ok(Layout::Custom));
    assert!(Layout::try_from("qwerty") == Err(()));
}

#[test]
fn configuration_defaults() {
    reload();
    assert!(Toggle::default() == Toggle::Eisu);
    let install = Install { layout: Some(InstallLayout::Azerty), langid: None };
    assert!(install.layout == Some(InstallLayout::Azerty));
}

#[test]
fn css_colors_of_the_default_configuration() {
    assert_eq!(css_rgb("#0078D7"), Some(0x0078D7));
    assert_eq!(css_rgb("#FAFAFA"), Some(0xFAFAFA));
    assert_eq!(css_rgb("#E8E8FF"), Some(0xE8E8FF));
    assert_eq!(css_rgb("#A0A0A0"), Some(0xA0A0A0));
    assert_eq!(css_rgb("black"), Some(0));
    assert_eq!(css_rgb("white"), Some(0xFFFFFF));
    assert_eq!(css_rgb("no color"), None);
    assert_eq!(rgb_value(0x12, 0x34, 0x56), 0x123456);
}
