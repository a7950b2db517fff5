use ajemi::conf::{Behavior, Toggle};
use ajemi::engine::schema::Schema;
use ajemi::engine::Engine;
use ajemi::tsf::composition::{Action, TextServiceInner};
use ajemi::tsf::{parse_input, special_input, Input, Shortcut};

const DICT: &str = "kala U+F1914\nkalama U+F1915\nkama U+F1916\nli U+F1927\nlon U+F192C\nma U+F1930\n\
pi U+F194D\n- U+200D\n. U+F199C\n' U+300C U+300D\n";
const KALA: &str = "\u{F1914}";
const KAMA: &str = "\u{F1916}";

fn composer() -> TextServiceInner {
    let b = Behavior { long_pi: false, long_glyph: false, cjk_space: false, toggle: Toggle::Eisu };
    TextServiceInner::new(Engine::new(vec![Schema::from(DICT)], b))
}

fn texts(actions: &[Action]) -> Vec<String> {
    actions
        .iter()
        .map(|a| match a {
            Action::Insert(c) => format!("insert {}", c),
            Action::Start(c) => format!("start {}", c),
            Action::Show(s) => format!("show {}", s),
            Action::Finish(s) => format!("finish {}", s),
            Action::FinishQuietly(s) => format!("quietly {}", s),
        })
        .collect()
}

/// Types a letter as the system would: start the composition first.
fn type_letter(c: &mut TextServiceInner, l: char) -> Vec<String> {
    assert!(c.can_handle(Input::Letter(l)));
    let (eaten, actions) = c.handle_input(Input::Letter(l));
    assert!(eaten);
    if let [Action::Start(_)] = actions.as_slice() {
        c.started();
        assert!(c.can_push(l));
        return texts(&c.push(l));
    }
    texts(&actions)
}

fn type_word(c: &mut TextServiceInner, w: &str) {
    for l in w.chars() {
        type_letter(c, l);
    }
}

#[test]
fn special_keys() {
    assert!(special_input(0x08) == Some(Input::Backspace));
    assert!(special_input(0x09) == Some(Input::Tab));
    assert!(special_input(0x0D) == Some(Input::Enter));
    assert!(special_input(0x20) == Some(Input::Space));
    assert!(special_input(0x28) == Some(Input::Down));
    assert!(special_input(0x41) == None);
}

#[test]
fn typed_characters() {
    assert!(parse_input(0x41, Some(0x61)) == Input::Letter('a'));
    assert!(parse_input(0x41, Some(0x41)) == Input::Letter('A'));
    assert!(parse_input(0x33, Some(0x33)) == Input::Number(3));
    assert!(parse_input(0xBE, Some(0x2E)) == Input::Punct('.'));
    assert!(parse_input(0xBE, Some(0xE9)) == Input::Punct('\u{E9}'));
    assert!(parse_input(0x99, None) == Input::Unknown(0x99));
    assert!(parse_input(0x99, Some(0xD800)) == Input::Unknown(0x99));
    assert!(parse_input(0x20, Some(0x61)) == Input::Space);
}

#[test]
fn shortcuts() {
    assert!(Shortcut::try_from(true, false, true, 0x4E) == Some(Shortcut::NextSchema));
    assert!(Shortcut::try_from(true, false, false, 0x4E) == Some(Shortcut::Undefine));
    assert!(Shortcut::try_from(false, true, false, 0x41) == Some(Shortcut::Undefine));
    assert!(Shortcut::try_from(false, false, true, 0x4E) == None);
}

#[test]
fn a_letter_starts_a_composition() {
    let mut c = composer();
    assert!(!c.composing());
    let (eaten, actions) = c.handle_input(Input::Letter('k'));
    assert!(eaten);
    assert_eq!(texts(&actions), vec!["start k"]);
    assert!(!c.composing());
    c.started();
    assert!(c.composing());
    assert_eq!(texts(&c.push('k')), vec![format!("show k")]);
    assert_eq!(c.spelling(), "k");
}

#[test]
fn preedit_shows_the_groups() {
    let mut c = composer();
    type_word(&mut c, "lilo");
    // the sentence "li lon" cuts the spelling in two groups
    let shown = type_letter(&mut c, 'n');
    assert_eq!(shown, vec!["show li'lon".to_string()]);
    assert_eq!(c.suggestions()[0].output, "\u{F1927}\u{F192C}");
}

#[test]
fn space_commits_the_first_suggestion() {
    let mut c = composer();
    type_word(&mut c, "kala");
    let (eaten, actions) = c.handle_input(Input::Space);
    assert!(eaten);
    assert_eq!(texts(&actions), vec![format!("finish {}", KALA)]);
    c.end_composition();
    assert!(!c.composing());
    assert_eq!(c.spelling(), "");
    assert!(c.suggestions().is_empty());
}

#[test]
fn enter_releases_the_raw_text() {
    let mut c = composer();
    type_word(&mut c, "kala");
    let (eaten, actions) = c.handle_input(Input::Enter);
    assert!(eaten);
    assert_eq!(texts(&actions), vec!["finish kala".to_string()]);
}

#[test]
fn numbers_pick_a_suggestion() {
    let mut c = composer();
    type_word(&mut c, "ka");
    assert_eq!(c.suggestions().len(), 3);
    let (_, actions) = c.handle_input(Input::Number(3));
    assert_eq!(texts(&actions), vec![format!("finish {}", KAMA)]);
    let mut c = composer();
    type_word(&mut c, "ka");
    let (eaten, actions) = c.handle_input(Input::Number(0));
    assert!(eaten && actions.is_empty());
    let (eaten, actions) = c.handle_input(Input::Number(9));
    assert!(eaten && actions.is_empty());
}

#[test]
fn picking_part_of_the_spelling_goes_on() {
    let mut c = composer();
    type_word(&mut c, "kalax");
    // kala reads 4 letters; picking it leaves "x"
    let first = c.suggestions()[0].output.clone();
    assert_eq!(first, KALA);
    let (_, actions) = c.handle_input(Input::Number(1));
    assert_eq!(texts(&actions), vec![format!("show {}x", KALA)]);
    assert!(c.composing());
    assert_eq!(c.spelling(), "x");
    let (_, actions) = c.handle_input(Input::Enter);
    assert_eq!(texts(&actions), vec![format!("finish {} x", KALA)]);
}

#[test]
fn backspace_removes_a_letter_then_aborts() {
    let mut c = composer();
    type_word(&mut c, "ka");
    let (_, actions) = c.handle_input(Input::Backspace);
    assert_eq!(texts(&actions), vec!["show k".to_string()]);
    let (_, actions) = c.handle_input(Input::Backspace);
    assert_eq!(texts(&actions), vec!["quietly ".to_string()]);
}

#[test]
fn punctuators_commit_or_join() {
    let mut c = composer();
    type_word(&mut c, "kala");
    assert!(c.can_handle(Input::Punct('-')));
    let (_, actions) = c.handle_input(Input::Punct('-'));
    assert_eq!(texts(&actions), vec!["show kala-".to_string()]);
    assert_eq!(c.spelling(), "kala-");
    assert_eq!(c.suggestions()[0].output, format!("{}\u{200D}", KALA));
    let mut c = composer();
    type_word(&mut c, "kala");
    let (_, actions) = c.handle_input(Input::Punct('.'));
    assert_eq!(texts(&actions), vec![format!("finish {}\u{F199C}", KALA)]);
}

#[test]
fn punctuators_outside_a_composition_are_inserted() {
    let mut c = composer();
    let (eaten, actions) = c.handle_input(Input::Punct('\''));
    assert!(eaten);
    assert_eq!(texts(&actions), vec!["insert \u{300C}".to_string()]);
    let (_, actions) = c.handle_input(Input::Punct('\''));
    assert_eq!(texts(&actions), vec!["insert \u{300D}".to_string()]);
    let (eaten, actions) = c.handle_input(Input::Space);
    assert!(eaten);
    assert_eq!(texts(&actions), vec!["insert  ".to_string()]);
    let (eaten, actions) = c.handle_input(Input::Enter);
    assert!(!eaten && actions.is_empty());
}

#[test]
fn tab_releases_with_a_space() {
    let mut c = composer();
    type_word(&mut c, "kala");
    let (_, actions) = c.handle_input(Input::Tab);
    assert_eq!(texts(&actions), vec!["show kala' ".to_string(), "finish kala ".to_string()]);
}

#[test]
fn unknown_keys_are_not_eaten() {
    let mut c = composer();
    type_word(&mut c, "ka");
    assert!(!c.test_input(Input::Unknown(0x99)));
    assert!(c.test_input(Input::Left));
    let (eaten, _) = c.handle_input(Input::Unknown(0x99));
    assert!(!eaten);
    let c = composer();
    assert!(!c.test_input(Input::Enter));
    assert!(c.test_input(Input::Letter('a')));
    assert!(c.test_input(Input::Space));
}

#[test]
fn abort_writes_out_what_was_chosen() {
    let mut c = composer();
    type_word(&mut c, "kalax");
    c.handle_input(Input::Number(1));
    let actions = c.abort();
    assert_eq!(texts(&actions), vec![format!("finish {} x", KALA)]);
}

#[test]
fn shortcut_switches_schema_when_idle() {
    let mut c = composer();
    assert!(c.test_shortcut(Shortcut::NextSchema));
    assert!(!c.test_shortcut(Shortcut::Undefine));
    assert!(c.handle_shortcut(Shortcut::NextSchema));
    type_word(&mut c, "k");
    assert!(!c.test_shortcut(Shortcut::NextSchema));
    assert!(!c.handle_shortcut(Shortcut::NextSchema));
}

#[test]
fn space_without_suggestion_releases_with_a_space() {
    let mut c = composer();
    type_word(&mut c, "xyz");
    assert!(c.suggestions().is_empty());
    let (_, actions) = c.handle_input(Input::Space);
    assert_eq!(texts(&actions), vec!["finish xyz ".to_string()]);
}
