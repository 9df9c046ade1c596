use wasm_portfolio::scores::{
    high_scores_text, load_high_scores, push_decimal, record_score, score_qualifies, ScoreEntry,
    HS_MAX,
};

fn chars(s: &str) -> Vec<char> {
    s.chars().collect()
}

fn entry(name: &str, score: u32) -> ScoreEntry {
    ScoreEntry { name: chars(name), score }
}

fn pairs(t: &[ScoreEntry]) -> Vec<(String, u32)> {
    t.iter().map(|e| (e.name.iter().collect(), e.score)).collect()
}

fn text(t: &Vec<ScoreEntry>) -> String {
    high_scores_text(t).iter().collect()
}

#[test]
fn load_skips_bad_lines_sorts_and_keeps_five() {
    let raw = chars("BOB 300\nAL 900\nbad line\nCAT 100\n  ZED   50\nX 1\nY 2");
    let t = load_high_scores(&raw);
    assert_eq!(
        pairs(&t),
        vec![
            ("AL".to_string(), 900),
            ("BOB".to_string(), 300),
            ("CAT".to_string(), 100),
            ("ZED".to_string(), 50),
            ("Y".to_string(), 2),
        ]
    );
    assert_eq!(t.len(), HS_MAX);
}

#[test]
fn load_of_nothing_is_empty() {
    assert!(load_high_scores(&Vec::new()).is_empty());
    assert!(load_high_scores(&chars("\n\n")).is_empty());
    assert!(load_high_scores(&chars("NOSCORE")).is_empty());
}

#[test]
fn load_takes_the_last_space_and_parses_like_u32() {
    let t = load_high_scores(&chars("A B 7\r\nPLUS +12\nNEG -3\nBIG 4294967296\nMAX 4294967295"));
    assert_eq!(
        pairs(&t),
        vec![("MAX".to_string(), 4294967295), ("PLUS".to_string(), 12), ("A B".to_string(), 7)]
    );
}

#[test]
fn load_keeps_equal_scores_in_stored_order() {
    let t = load_high_scores(&chars("FIRST 10\nSECOND 10\nTHIRD 20"));
    assert_eq!(
        pairs(&t),
        vec![("THIRD".to_string(), 20), ("FIRST".to_string(), 10), ("SECOND".to_string(), 10)]
    );
}

#[test]
fn save_writes_one_line_per_entry() {
    let t = vec![entry("AL", 900), entry("BOB", 30), entry("YOU", 0)];
    assert_eq!(text(&t), "AL 900\nBOB 30\nYOU 0");
    assert_eq!(text(&Vec::new()), "");
}

#[test]
fn save_then_load_gives_the_table_back() {
    let t = vec![entry("AAA", 5000), entry("B", 400), entry("CC", 400), entry("YOU", 12)];
    let stored = high_scores_text(&t);
    let back = load_high_scores(&stored);
    assert_eq!(pairs(&back), pairs(&t));
}

#[test]
fn decimal_digits() {
    let mut out = chars("x=");
    push_decimal(&mut out, 0);
    push_decimal(&mut out, 7);
    out.push(',');
    push_decimal(&mut out, 4294967295);
    assert_eq!(out.iter().collect::<String>(), "x=07,4294967295");
}

#[test]
fn qualifying_scores() {
    let mut t = Vec::new();
    assert!(!score_qualifies(&t, 0));
    assert!(score_qualifies(&t, 1));
    for (n, s) in [("A", 500), ("B", 400), ("C", 300), ("D", 200), ("E", 100)] {
        t.push(entry(n, s));
    }
    assert!(!score_qualifies(&t, 100));
    assert!(score_qualifies(&t, 101));
    assert!(!score_qualifies(&t, 0));
}

#[test]
fn record_inserts_in_place_and_cuts_to_five() {
    let mut t = Vec::new();
    for (n, s) in [("A", 500), ("B", 400), ("C", 300), ("D", 200), ("E", 100)] {
        t.push(entry(n, s));
    }
    let r = record_score(t, chars("NEW"), 350);
    assert_eq!(
        pairs(&r),
        vec![
            ("A".to_string(), 500),
            ("B".to_string(), 400),
            ("NEW".to_string(), 350),
            ("C".to_string(), 300),
            ("D".to_string(), 200),
        ]
    );
    // A tie goes after the entries already there.
    let r2 = record_score(r, chars("TIE"), 400);
    assert_eq!(pairs(&r2)[1], ("B".to_string(), 400));
    assert_eq!(pairs(&r2)[2], ("TIE".to_string(), 400));
    assert_eq!(r2.len(), 5);
}
