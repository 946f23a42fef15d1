use flow_state::spell::{
    add_personal_words, capped_suggestions, check_text, dictionary_candidates_in,
    dictionary_from_texts, is_candidate, issue_near, missing_dictionary_message, next_issue,
    personal_dictionary_file, personal_dictionary_path, personal_word_append, personal_words,
    spelling_suggestions, SpellIssue,
};
use spellbook::Dictionary;

fn dictionary() -> Dictionary {
    Dictionary::new(
        "SET UTF-8\n",
        "8\nhello\nworld\nand\ncafé\nemail\nNASA\npath\nexample\n",
    )
    .unwrap()
}

#[test]
fn reports_byte_accurate_unicode_spans_and_ignores_non_prose() {
    let issues = check_text(
        &dictionary(),
        "hello wurld café\nNASA https://bad.example/path me@example.com",
    );
    assert_eq!(
        issues,
        vec![SpellIssue {
            start: (0, 6),
            end: (0, 11),
            word: "wurld".to_string(),
        }]
    );
}

#[test]
fn finds_issue_at_or_next_to_the_caret() {
    let issues = check_text(&dictionary(), "hello wurld");
    assert_eq!(issue_near(&issues, (0, 8)).unwrap().word, "wurld");
    assert_eq!(issue_near(&issues, (0, 11)).unwrap().word, "wurld");
    assert!(issue_near(&issues, (0, 2)).is_none());
}

#[test]
fn next_issue_advances_and_wraps() {
    let issues = check_text(&dictionary(), "wurld hello\nhello wurld");
    assert_eq!(next_issue(&issues, (0, 2)).unwrap().start, (1, 6));
    assert_eq!(next_issue(&issues, (1, 9)).unwrap().start, (0, 0));
    assert!(next_issue(&[], (0, 0)).is_none());
}

#[test]
fn personal_dictionary_locale_cannot_escape_the_config_directory() {
    assert!(personal_dictionary_path("../other").is_err());
    assert!(personal_dictionary_path("").is_err());
}

#[test]
fn personal_dictionary_file_sits_in_the_config_directory() {
    assert_eq!(
        personal_dictionary_file("/home/me/.config/flow-state", "en_US"),
        "/home/me/.config/flow-state/dictionaries/en_US.personal"
    );
}

#[test]
fn candidates_need_a_letter_and_skip_acronyms_and_numbers() {
    assert!(is_candidate("wurld"));
    assert!(!is_candidate("NASA"));
    assert!(!is_candidate("42"));
}

#[test]
fn accepted_words_come_from_the_dictionary() {
    // "world" is in the word list, so only the unknown word is flagged:
    // the dictionary wrapper's answer reaches the result.
    let issues = check_text(&dictionary(), "world wurld");
    assert_eq!(issues.len(), 1);
    assert_eq!(issues[0].word, "wurld");
    assert_eq!(issues[0].start, (0, 6));
}

#[test]
fn personal_words_are_appended_once_on_their_own_line() {
    assert_eq!(personal_word_append("", " Flowstate "), Ok(Some("Flowstate\n".to_string())));
    assert_eq!(personal_word_append("Flowstate\n", "Flowstate"), Ok(None));
    assert_eq!(personal_word_append("other", "Flowstate"), Ok(Some("\nFlowstate\n".to_string())));
    assert_eq!(
        personal_word_append("", "a"),
        Err("personal dictionary words must contain at least two letters".to_string())
    );
}

#[test]
fn personal_word_list_is_read_line_by_line() {
    assert_eq!(
        personal_words("Flowstate\n\n  halloy \r\n"),
        vec![(1, "Flowstate".to_string()), (3, "halloy".to_string())]
    );
}

#[test]
fn missing_dictionary_lists_what_was_tried() {
    let tried = vec!["/a/en_US.aff".to_string(), "/b/en_US.aff".to_string()];
    assert_eq!(
        missing_dictionary_message("en_US", "", &tried),
        "no en_US Hunspell dictionary found (tried /a/en_US.aff, /b/en_US.aff)"
    );
    assert_eq!(
        missing_dictionary_message("en_US", " /x ", &tried[..1].to_vec()),
        "no configured Hunspell dictionary found (tried /a/en_US.aff)"
    );
}

#[test]
fn dictionary_candidates_follow_the_configuration() {
    assert_eq!(
        dictionary_candidates_in("en_US", " /d/custom.dic ", false, None),
        vec![("/d/custom.aff".to_string(), "/d/custom.dic".to_string())]
    );
    assert_eq!(
        dictionary_candidates_in("en_US", "/d", true, None),
        vec![("/d/en_US.aff".to_string(), "/d/en_US.dic".to_string())]
    );
    let searched = dictionary_candidates_in("de_DE", "", false, Some("/c/flow-state"));
    assert_eq!(searched.len(), 4);
    assert_eq!(searched[0].0, "/c/flow-state/dictionaries/de_DE.aff");
    assert_eq!(searched[3].1, "/usr/share/myspell/dicts/de_DE.dic");
}

#[test]
fn a_personal_word_updates_the_live_dictionary() {
    let mut dictionary = dictionary();
    assert!(!dictionary.check("Flowstate"));
    add_personal_words(&mut dictionary, "test.personal", "Flowstate\n").unwrap();
    assert!(dictionary.check("Flowstate"));
}

#[test]
fn a_dictionary_loads_from_its_texts_with_the_personal_words() {
    let d = dictionary_from_texts("test_US.aff", "SET UTF-8\n", "2\nhello\nworld\n", None).unwrap();
    assert!(d.check("hello"));
    assert!(!d.check("wurld"));

    let d = dictionary_from_texts(
        "test_US.aff",
        "SET UTF-8\n",
        "2\nhello\nworld\n",
        Some(("my.personal", "\n  Flowstate \n\nwurld\n")),
    )
    .unwrap();
    assert!(d.check("Flowstate"));
    assert!(d.check("wurld"));
}

#[test]
fn an_unparsable_dictionary_names_its_file() {
    let e = dictionary_from_texts("bad.aff", "FLAG nonsense\n", "1\nhello\n", None).unwrap_err();
    assert!(e.starts_with("could not parse bad.aff: "), "{e}");
}

#[test]
fn a_refused_personal_entry_names_its_line() {
    let mut d = dictionary_from_texts("x.aff", "SET UTF-8\nFLAG num\n", "1\nhello\n", None).unwrap();
    let e = add_personal_words(&mut d, "my.personal", "fine\n\nbad/x\n").unwrap_err();
    assert!(e.starts_with("invalid personal dictionary entry at my.personal:3: "), "{e}");
    assert!(d.check("fine"));
}

#[test]
fn suggestions_are_capped_at_eight() {
    let all: Vec<String> = (0..12).map(|i| format!("s{i}")).collect();
    assert_eq!(capped_suggestions(all.clone()), all[..8].to_vec());
    assert_eq!(capped_suggestions(all[..3].to_vec()), all[..3].to_vec());
    let d = dictionary();
    assert!(spelling_suggestions(&d, "").is_empty());
    let s = spelling_suggestions(&d, "wurld");
    assert!(s.len() <= 8);
    assert!(s.contains(&"world".to_string()), "{s:?}");
}
