use ajemi::conf::{Behavior, Toggle};
use ajemi::engine::schema::Schema;
use ajemi::engine::Engine;
use ajemi::engine::dicts::is_dict_file;
use ajemi::engine::long_glyph::{insert_long_glyph, long_glyph_stuck, ALA, START_OF_LONG_GLYPH};

/// The words of the Sitelen Pona block, one `spelling U+XXXX` line each.
const WORDS: &str = "a U+F1900\nakesi U+F1901\nala U+F1902\nalasa U+F1903\nale U+F1904\nanpa U+F1905\nante U+F1906\nanu U+F1907\nawen U+F1908\ne U+F1909\nen U+F190A\nesun U+F190B\nijo U+F190C\nike U+F190D\nilo U+F190E\ninsa U+F190F\njaki U+F1910\njan U+F1911\njelo U+F1912\njo U+F1913\nkala U+F1914\nkalama U+F1915\nkama U+F1916\nkasi U+F1917\nken U+F1918\nkepeken U+F1919\nkili U+F191A\nkiwen U+F191B\nko U+F191C\nkon U+F191D\nkule U+F191E\nkulupu U+F191F\nkute U+F1920\nla U+F1921\nlape U+F1922\nlaso U+F1923\nlawa U+F1924\nlen U+F1925\nlete U+F1926\nli U+F1927\nlili U+F1928\nlinja U+F1929\nlipu U+F192A\nloje U+F192B\nlon U+F192C\nluka U+F192D\nlukin U+F192E\nlupa U+F192F\nma U+F1930\nmama U+F1931\nmani U+F1932\nmeli U+F1933\nmi U+F1934\nmije U+F1935\nmoku U+F1936\nmoli U+F1937\nmonsi U+F1938\nmu U+F1939\nmun U+F193A\nmusi U+F193B\nmute U+F193C\nnanpa U+F193D\nnasa U+F193E\nnasin U+F193F\nnena U+F1940\nni U+F1941\nnimi U+F1942\nnoka U+F1943\no U+F1944\nolin U+F1945\nona U+F1946\nopen U+F1947\npakala U+F1948\npali U+F1949\npalisa U+F194A\npan U+F194B\npana U+F194C\npi U+F194D\npilin U+F194E\npimeja U+F194F\npini U+F1950\npipi U+F1951\npoka U+F1952\npoki U+F1953\npona U+F1954\npu U+F1955\nsama U+F1956\nseli U+F1957\nselo U+F1958\nseme U+F1959\nsewi U+F195A\nsijelo U+F195B\nsike U+F195C\nsin U+F195D\nsina U+F195E\nsinpin U+F195F\nsitelen U+F1960\nsona U+F1961\nsoweli U+F1962\nsuli U+F1963\nsuno U+F1964\nsupa U+F1965\nsuwi U+F1966\ntan U+F1967\ntaso U+F1968\ntawa U+F1969\ntelo U+F196A\ntenpo U+F196B\ntoki U+F196C\ntomo U+F196D\ntu U+F196E\nunpa U+F196F\nuta U+F1970\nutala U+F1971\nwalo U+F1972\nwan U+F1973\nwaso U+F1974\nwawa U+F1975\nweka U+F1976\nwile U+F1977\nnamako U+F1978\nkin U+F1979\noko U+F197A\nkipisi U+F197B\nleko U+F197C\nmonsuta U+F197D\ntonsi U+F197E\njasima U+F197F\nkijetesantakalu U+F1980\nsoko U+F1981\nmeso U+F1982\nepiku U+F1983\nkokosila U+F1984\nlanpan U+F1985\nn U+F1986\nmisikeke U+F1987\nku U+F1988\npake U+F19A0\napeja U+F19A1\nmajuna U+F19A2\npowe U+F19A3\n";

fn behavior(long_pi: bool, long_glyph: bool, cjk_space: bool) -> Behavior {
    Behavior { long_pi, long_glyph, cjk_space, toggle: Toggle::Eisu }
}

fn engine_with(extra: &str, b: Behavior) -> Engine {
    let text = format!("{}{}", WORDS, extra);
    assert!(Schema::accepts(&text));
    Engine::new(vec![Schema::from(&text)], b)
}

fn engine() -> Engine {
    engine_with("", behavior(false, false, false))
}

#[test]
fn sentence_test() {
    let engine = engine();
    let assert_sent = |spelling: &str, expected: &str| {
        let sent = engine.suggest_sentence(spelling).unwrap().output;
        let mut buf = String::new();
        for word in expected.split(' ') {
            buf.push_str(&engine.suggest(word)[0].output)
        }
        assert_eq!(sent, buf)
    };
    assert_sent("lilonsewi", "li lon sewi");
    assert_sent("pimaka", "pi ma");
    assert_sent("pimkule", "pimeja kule");
}

const SOWELI: &str = "\u{F1962}";
const KALA: &str = "\u{F1914}";
const KALAMA: &str = "\u{F1915}";
const KAMA: &str = "\u{F1916}";
const PI: &str = "\u{F194D}";

#[test]
fn exact_spelling_comes_first_among_words() {
    let e = engine();
    let s = e.suggest("soweli");
    assert!(!s.is_empty() && s.len() <= 5);
    assert_eq!(s[0].output, SOWELI);
    assert_eq!(s[0].groupping, vec![6]);
}

#[test]
fn prefixes_offer_their_words_longest_first() {
    let e = engine();
    let s = e.suggest("kal");
    assert_eq!(s.len(), 5);
    assert_eq!(s[0].output, KALA);
    assert_eq!(s[0].groupping, vec![3]);
    assert_eq!(s[1].output, KALAMA);
    assert_eq!(s[2].output, KAMA);
    assert_eq!(s[2].groupping, vec![2]);
}

#[test]
fn trailing_joiners_join_the_word() {
    let e = engine_with("- U+200D\n", behavior(false, false, false));
    let s = e.suggest("kala-");
    assert_eq!(s[0].output, format!("{}\u{200D}", KALA));
    assert_eq!(s[0].groupping, vec![5]);
    assert_eq!(s[1].output, format!("{}\u{200D}", KALAMA));
    assert_eq!(s[2].output, KAMA);
    assert_eq!(s[2].groupping, vec![2]);
}

#[test]
fn spelling_that_is_not_ascii_gets_nothing() {
    let e = engine();
    assert!(e.can_suggest("kalé"));
    assert!(e.suggest("kalé").is_empty());
}

#[test]
fn at_most_five_suggestions() {
    let e = engine();
    for sp in ["k", "s", "lilonsewi", "pimaka", "a"] {
        assert!(e.suggest(sp).len() <= 5);
    }
}

#[test]
fn alternatives_follow_their_word() {
    let dict = "kala U+F1914 fish\nkalama U+F1915\n";
    assert!(Schema::accepts(dict));
    let e = Engine::new(vec![Schema::from(dict)], behavior(false, false, false));
    let s = e.suggest("kala");
    assert_eq!(s[0].output, KALA);
    assert_eq!(s[1].output, "fish");
    assert_eq!(s[2].output, KALAMA);
}

#[test]
fn comments_and_blank_lines_are_skipped() {
    let dict = "# kala U+F1914\n\r\nkama U+F1916\r\n";
    let e = Engine::new(vec![Schema::from(dict)], behavior(false, false, false));
    assert!(e.suggest("kala").iter().all(|s| s.output != KALA));
    assert_eq!(e.suggest("kala")[0].output, KAMA);
    assert_eq!(e.suggest("kala")[0].groupping, vec![2]);
    assert_eq!(e.suggest("kama")[0].output, KAMA);
}

#[test]
fn spelling_that_is_not_ascii_is_refused() {
    assert!(!Schema::accepts("kalé U+F1914\n"));
    assert!(Schema::parse("kalé U+F1914\n").is_none());
    assert!(Schema::parse("kala U+F1914\n").is_some());
    assert!(Schema::accepts("# kalé U+F1914\n"));
}

#[test]
fn quotes_alternate() {
    let mut e = engine_with("' U+300C U+300D\n\" U+300E U+300F\n", behavior(false, false, false));
    assert_eq!(e.remap_punct('\''), '\u{300C}');
    assert_eq!(e.remap_punct('"'), '\u{300E}');
    assert_eq!(e.remap_punct('\''), '\u{300D}');
    assert_eq!(e.remap_punct('\''), '\u{300C}');
    assert_eq!(e.remap_punct('"'), '\u{300F}');
}

#[test]
fn dumb_quotes_stay_dumb() {
    let mut e = engine();
    assert_eq!(e.remap_punct('\''), '\'');
    assert_eq!(e.remap_punct('\''), '\'');
    assert_eq!(e.remap_punct('"'), '"');
}

#[test]
fn punctuators_are_remapped() {
    let mut e = engine_with(". U+F199C\n: U+F199D\n", behavior(false, false, false));
    assert_eq!(e.remap_punct('.'), '\u{F199C}');
    assert_eq!(e.remap_punct(':'), '\u{F199D}');
    assert_eq!(e.remap_punct(','), ',');
    assert_eq!(e.peek_remap('.'), '\u{F199C}');
}

#[test]
fn ideographic_space_follows_the_switch() {
    // off by default: the space stays a space
    let mut e = engine_with("U+20 U+3000\n", behavior(false, false, false));
    assert_eq!(e.remap_punct(' '), ' ');
    assert_eq!(e.peek_remap(' '), ' ');
    let mut e = engine_with("U+20 U+3000\n", behavior(false, false, true));
    assert_eq!(e.remap_punct(' '), '\u{3000}');
    assert_eq!(e.peek_remap(' '), '\u{3000}');
}

#[test]
fn next_schema_cycles() {
    let a = Schema::from("kala U+F1914\n. U+F199C\n");
    let b = Schema::from("kala X\n. ;\n");
    let mut e = Engine::new(vec![a, b], behavior(false, false, false));
    assert_eq!(e.remap_punct('.'), '\u{F199C}');
    e.next_schema();
    assert_eq!(e.remap_punct('.'), ';');
    assert_eq!(e.suggest("kala")[0].output, "X");
    e.next_schema();
    assert_eq!(e.remap_punct('.'), '\u{F199C}');
    assert_eq!(e.suggest("kala")[0].output, KALA);
}

#[test]
fn next_schema_closes_quotes() {
    let a = Schema::from("' U+300C U+300D\n");
    let mut e = Engine::new(vec![a], behavior(false, false, false));
    assert_eq!(e.remap_punct('\''), '\u{300C}');
    e.next_schema();
    assert_eq!(e.remap_punct('\''), '\u{300C}');
}

#[test]
fn long_pi_extends_over_the_words_after() {
    let e = engine_with("", behavior(true, false, false));
    let s = e.suggest_sentence("pikala").unwrap();
    assert_eq!(s.output, format!("{}\u{F1997}{}\u{F1998}", PI, KALA));
    assert_eq!(s.groupping, vec![2, 6]);
}

#[test]
fn without_long_glyphs_the_sentence_is_plain() {
    let e = engine();
    let s = e.suggest_sentence("pikala").unwrap();
    assert_eq!(s.output, format!("{}{}", PI, KALA));
}

#[test]
fn single_words_make_no_sentence() {
    let e = engine();
    assert!(e.suggest_sentence("kala").is_none());
}

#[test]
fn long_glyph_insertion_sticks_on_start_then_ala() {
    assert!(long_glyph_stuck(&vec![START_OF_LONG_GLYPH, ALA], &behavior(false, true, false)));
    assert!(!long_glyph_stuck(&vec![START_OF_LONG_GLYPH, ALA], &behavior(false, false, false)));
    assert!(!long_glyph_stuck(&vec![ALA, START_OF_LONG_GLYPH], &behavior(false, true, false)));
}

#[test]
fn insert_long_glyph_leaves_plain_text() {
    let mut t = format!("{}{}", PI, KALA);
    insert_long_glyph(&mut t, &behavior(false, false, false));
    assert_eq!(t, format!("{}{}", PI, KALA));
}

#[test]
fn ala_questions_the_glyph_before() {
    // "ken ala ken": ala extends the ken before it backwards, and the ken
    // that answers the question is a long glyph of its own.
    let ken = '\u{F1918}';
    let ala = '\u{F1902}';
    let mut t: String = [ken, ala, ken].iter().collect();
    insert_long_glyph(&mut t, &behavior(false, true, false));
    let expected: String = ['\u{F199A}', ken, '\u{F199B}', ala, '\u{F1997}', ken, '\u{F1998}'].iter().collect();
    assert_eq!(t, expected);
}

#[test]
fn dictionaries_order_default_first() {
    assert!(is_dict_file("sitelen.dict", false));
    assert!(!is_dict_file("sitelen.dict", true));
    assert!(!is_dict_file("notes.txt", false));
    assert!(!is_dict_file(".dic", false));
    let emoji = Schema::from("kala fish\n");
    let sitelen = Schema::from("kala U+F1914\n");
    let e = Engine::from_dicts(
        vec![("emoji.dict".to_string(), emoji), ("sitelen.dict".to_string(), sitelen)],
        behavior(false, false, false),
    )
    .unwrap();
    assert_eq!(e.suggest("kala")[0].output, KALA);
    assert!(Engine::from_dicts(vec![], behavior(false, false, false)).is_none());
}

#[test]
fn build_falls_back_to_the_default() {
    let default = Engine::new(vec![Schema::from("kala X\n")], behavior(false, false, false));
    let e = Engine::build_or_default(None, behavior(false, false, false), default);
    assert_eq!(e.suggest("kala")[0].output, "X");
    let default = Engine::new(vec![Schema::from("kala X\n")], behavior(false, false, false));
    let e = Engine::build_or_default(Some(vec![]), behavior(false, false, false), default);
    assert_eq!(e.suggest("kala")[0].output, "X");
    let default = Engine::new(vec![Schema::from("kala X\n")], behavior(false, false, false));
    let found = vec![("mine.dict".to_string(), Schema::from("kala Y\n"))];
    let e = Engine::build_or_default(Some(found), behavior(false, false, false), default);
    assert_eq!(e.suggest("kala")[0].output, "Y");
}

#[test]
fn schema_test() {
    // a dictionary of words and one of punctuators
    for text in [WORDS, "# punctuators\n. U+F199C\n: U+F199D\n"] {
        assert!(Schema::accepts(text));
        assert!(Schema::parse(text).is_some());
    }
}

#[test]
fn exact_spelling_keeps_longer_words_read_before_it() {
    let b = behavior(false, false, false);
    for text in ["lili U+F1928\nli U+F1927\n", "li U+F1927\nlili U+F1928\n"] {
        let e = Engine::new(vec![Schema::from(text)], b);
        let s = e.suggest("li");
        let outputs: Vec<&str> = s.iter().map(|x| x.output.as_str()).collect();
        assert_eq!(outputs, vec!["\u{F1927}", "\u{F1928}"]);
    }
}

#[test]
fn long_spellings_are_read() {
    let e = engine();
    let spelling = "kala".repeat(100);
    assert!(e.can_suggest(&spelling));
    let s = e.suggest(&spelling);
    assert_eq!(s[0].output, KALA.repeat(100));
    assert_eq!(*s[0].groupping.last().unwrap(), 400);
    assert_eq!(s[0].groupping.len(), 100);
}

#[test]
fn default_engine_reads_the_glyphs_first() {
    let b = behavior(false, false, false);
    let mut e = Engine::with_defaults(Schema::from("kala X\n"), Schema::from("kala Y\n"), b);
    assert_eq!(e.suggest("kala")[0].output, "X");
    e.next_schema();
    assert_eq!(e.suggest("kala")[0].output, "Y");
}

#[test]
fn long_glyphs_keep_the_text() {
    let strip = |s: &str| -> String {
        s.chars().filter(|c| !('\u{F1997}'..='\u{F199B}').contains(c) || *c == '\u{F1999}').collect()
    };
    for (text, b) in [
        (format!("{}{}{}", PI, KALA, KALAMA), behavior(true, false, false)),
        (format!("{}{}{}", KALA, ALA, KALA), behavior(false, true, false)),
        (format!("{}{}\u{F1921}", SOWELI, KALA), behavior(false, true, false)),
    ] {
        let mut out = text.clone();
        insert_long_glyph(&mut out, &b);
        assert_ne!(out, text);
        assert_eq!(strip(&out), strip(&text));
    }
}

#[test]
fn ascii_punctuator_lines_map_punctuators() {
    let mut e = Engine::new(vec![Schema::from("[ U+1F58C\n- U+200D\nkala X\n")], behavior(false, false, false));
    assert_eq!(e.remap_punct('['), '\u{1F58C}');
    assert_eq!(e.remap_punct('-'), '\u{200D}');
    assert_eq!(e.remap_punct('k'), 'k');
}
