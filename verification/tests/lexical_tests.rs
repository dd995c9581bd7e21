use leptless::lexical::filter_text;

fn dictionary_of(words: &[&str]) -> zspell::Dictionary {
    let mut dic = format!("{}\n", words.len());
    for w in words {
        dic.push_str(w);
        dic.push('\n');
    }
    zspell::builder()
        .config_str("SET UTF-8\n")
        .dict_str(&dic)
        .build()
        .expect("the test dictionary builds")
}

#[test]
fn misspellings_drop_numbers_and_stripped_words_stay() {
    let dict = dictionary_of(&["the", "quick", "fox"]);
    let (cleaned, count) = filter_text("Thee qick 42 fox--", &dict);
    assert_eq!(cleaned, "42 fox");
    assert_eq!(count, 2);
}

#[test]
fn empty_input_yields_empty_output() {
    let dict = dictionary_of(&["the"]);
    let (cleaned, count) = filter_text("", &dict);
    assert_eq!(cleaned, "");
    assert_eq!(count, 0);
}

#[test]
fn whitespace_only_input_yields_empty_output() {
    let dict = dictionary_of(&["the"]);
    let (cleaned, count) = filter_text("  \t \n  ", &dict);
    assert_eq!(cleaned, "");
    assert_eq!(count, 0);
}

#[test]
fn tokens_that_strip_to_nothing_are_discarded() {
    let dict = dictionary_of(&["the"]);
    let (cleaned, count) = filter_text("-- the ;;; !!", &dict);
    assert_eq!(cleaned, "the");
    assert_eq!(count, 1);
}

#[test]
fn digit_heuristic_keeps_codes_and_dates() {
    let dict = dictionary_of(&["the"]);
    let (cleaned, count) = filter_text("a1b!! (2021-03) zzz", &dict);
    assert_eq!(cleaned, "a1b 2021-03");
    assert_eq!(count, 2);
}

#[test]
fn punctuation_is_stripped_before_the_dictionary_check() {
    let dict = dictionary_of(&["word", "number"]);
    let (cleaned, count) = filter_text("(word) number, wrong;", &dict);
    assert_eq!(cleaned, "word number");
    assert_eq!(count, 2);
}

#[test]
fn kept_tokens_never_outnumber_the_whitespace_split() {
    let dict = dictionary_of(&["the"]);
    let raw = "x y z the 7seven ---";
    let (_, count) = filter_text(raw, &dict);
    let split_count = raw.split_whitespace().count();
    assert!(count <= split_count);
    assert_eq!(count, 2);
}

#[test]
fn kept_tokens_stay_in_original_order() {
    let dict = dictionary_of(&["the", "fox"]);
    let (cleaned, count) = filter_text("the 42 fox", &dict);
    assert_eq!(cleaned, "the 42 fox");
    assert_eq!(count, 3);
}

#[test]
fn dictionary_match_is_case_tolerant_but_output_keeps_the_form() {
    let dict = dictionary_of(&["the"]);
    let (cleaned, count) = filter_text("The", &dict);
    assert_eq!(cleaned, "The");
    assert_eq!(count, 1);
}
