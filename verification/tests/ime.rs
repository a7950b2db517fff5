use ajemi::dict::{self, Dict as PrefixDict};
use ajemi::extend::OsStrExt2;
use ajemi::ime::dict::{self as exact_dict, Dict};
use ajemi::ime::keys::{is_caw, is_shift, test_input, Input, KeyDown, KeySink};
use ajemi::words::{self, Engine};

fn w(s: &str) -> Vec<u16> {
    s.to_wchars()
}

fn text(v: &[u16]) -> String {
    String::from_utf16(v).unwrap()
}

#[test]
fn dict_test() {
    let mut dict = Dict::new();
    dict.insert("mi", "我");
    dict.insert("lukin", "看");
    dict.insert("e", "兮");
    dict.insert("kijetesantakalu", "狸");
    dict.insert("nasa", "怪");
    dict.insert("lape", "眠");
    let suggestion = dict.suggest(&w("milukinekijenasalol"));
    assert_eq!(text(&suggestion), "我看兮狸怪");
}

#[test]
fn exact_spellings_come_before_unique_prefixes() {
    let mut dict = Dict::new();
    dict.insert("pi", "P");
    dict.insert("pimeja", "B");
    dict.insert("ma", "M");
    assert_eq!(text(&dict.suggest(&w("pima"))), "PM");
    assert_eq!(text(&dict.suggest(&w("pim"))), "PM");
    assert_eq!(text(&dict.suggest(&w("pimeja"))), "B");
    assert_eq!(text(&dict.suggest(&w("kije"))), "");
    assert_eq!(text(&dict.suggest(&w("x"))), "");
}

#[test]
fn prefix_dictionary_reads_longest_first() {
    let mut dict = PrefixDict::new();
    dict.insert("mi", "我");
    dict.insert("lukin", "看");
    dict.insert("e", "兮");
    dict.insert("kijetesantakalu", "狸");
    dict.insert("nasa", "怪");
    dict.insert("lape", "眠");
    assert_eq!(text(&dict::suggest(&dict, &w("milukinekijenasalol"))), "我看兮狸怪");
    assert_eq!(text(&dict::suggest(&dict, &w(""))), "");
    // "l" is the prefix of two words: reading stops there
    assert_eq!(text(&dict::suggest(&dict, &w("lmi"))), "");
}

#[test]
fn test_dict() {
    let mut engine = Engine::new();
    engine.load_dict(vec![
        ("mi", "我"),
        ("lukin", "看"),
        ("e", "兮"),
        ("kijetesantakalu", "狸"),
        ("nasa", "怪"),
        ("lape", "眠"),
    ]);
    let suggestion = words::suggest(&engine, &w("milukinekijenasalol"));
    assert_eq!(text(&suggestion), "我看兮狸怪");
}

#[test]
fn punctuators_convert() {
    let mut engine = Engine::new();
    engine.insert_punt('.', "\u{F199C}");
    engine.insert_punt('<', "「");
    assert_eq!(words::convert_punct(&engine, b'.'), w("\u{F199C}"));
    assert_eq!(words::convert_punct(&engine, b'<'), w("「"));
    assert_eq!(words::convert_punct(&engine, b','), vec![0x2C]);
}

#[test]
fn the_early_dictionary_knows_ike() {
    assert_eq!(text(&exact_dict::suggest(&w("ike"))), "\u{3B57}");
    assert!(exact_dict::suggest(&w("ik")).is_empty());
    assert!(exact_dict::suggest(&w("ikes")).is_empty());
}

#[test]
fn modifier_keys() {
    assert!(is_shift(0x10) && is_shift(0xA0) && is_shift(0xA1));
    assert!(!is_shift(0x11));
    assert!(is_caw(0x11) && is_caw(0xA4) && is_caw(0x5B) && is_caw(0x5C));
    assert!(!is_caw(0xA5));
}

#[test]
fn key_codes_to_inputs() {
    assert!(Input::from(0x41, false) == Input::Letter('a'));
    assert!(Input::from(0x5A, true) == Input::Letter('Z'));
    assert!(Input::from(0x30, false) == Input::Number('0'));
    assert!(Input::from(0x39, false) == Input::Number('9'));
    assert!(Input::from(0x31, true) == Input::Punct('!'));
    assert!(Input::from(0x30, true) == Input::Punct(')'));
    assert!(Input::from(0xDE, false) == Input::Punct('\''));
    assert!(Input::from(0xDE, true) == Input::Punct('"'));
    assert!(Input::from(0xDC, false) == Input::Punct('\\'));
    assert!(Input::from(0xBD, true) == Input::Punct('_'));
    assert!(Input::from(0x20, true) == Input::Space);
    assert!(Input::from(0x08, false) == Input::Backspace);
    assert!(Input::from(0x0D, false) == Input::Enter);
    assert!(Input::from(0x27, false) == Input::Right);
    assert!(Input::from(0x70, false) == Input::Unknown);
}

#[test]
fn inputs_eaten_when_idle() {
    assert!(test_input(false, Input::Letter('a')));
    assert!(test_input(false, Input::Punct('.')));
    assert!(!test_input(false, Input::Space));
    assert!(test_input(true, Input::Space));
}

#[test]
fn modifiers_are_tracked() {
    let mut k = KeySink::new();
    assert!(k.on_test_key_down(0x41, false));
    assert!(k.on_key_down(0x41) == KeyDown::Handle(Input::Letter('a')));
    // Shift is held: letters are upper case
    assert!(k.on_test_key_down(0x10, false));
    assert!(k.on_key_down(0x10) == KeyDown::Pass);
    assert!(k.on_key_down(0x41) == KeyDown::Handle(Input::Letter('A')));
    assert!(k.on_test_key_up(0x10));
    assert!(!k.on_key_up(0x10));
    assert!(k.on_key_down(0x41) == KeyDown::Handle(Input::Letter('a')));
    // Ctrl is held: nothing is handled
    assert!(!k.on_test_key_down(0x11, false));
    assert!(k.on_key_down(0x41) == KeyDown::Pass);
    assert!(!k.on_test_key_down(0x41, true));
    assert!(!k.on_test_key_up(0x11));
    assert!(k.on_key_down(0x41) == KeyDown::Handle(Input::Letter('a')));
}

#[test]
fn the_order_of_distinct_entries_does_not_matter() {
    let entries = vec![("lili", "小"), ("li", "是"), ("linja", "线"), ("kala", "鱼")];
    let mut reversed = entries.clone();
    reversed.reverse();
    let mut a = Engine::new();
    a.load_dict(entries);
    let mut b = Engine::new();
    b.load_dict(reversed);
    for letters in ["li", "lil", "lin", "lilili", "ka", "kalali", "l"] {
        assert_eq!(words::suggest(&a, &w(letters)), words::suggest(&b, &w(letters)));
    }
    // "lil" starts one spelling only, "l" several
    assert_eq!(text(&words::suggest(&a, &w("lil"))), "小");
    assert!(words::suggest(&a, &w("l")).is_empty());
}

#[test]
fn the_built_in_table_reads_back() {
    let table = words::builtin_words();
    assert_eq!(table.len(), 141);
    assert!(words::has_distinct_spellings(&table));
    let engine = words::setup();
    for (spelling, word) in table {
        assert_eq!(words::suggest(&engine, &w(spelling)), w(word));
    }
    for (punct, output) in words::builtin_puncts() {
        assert_eq!(words::convert_punct(&engine, punct as u8), w(output));
    }
    assert_eq!(words::convert_punct(&engine, b'('), w("\u{F1997}"));
    assert!(!words::has_distinct_spellings(&vec![("li", "a"), ("li", "b")]));
    assert!(!words::has_distinct_spellings(&vec![("", "a")]));
}
