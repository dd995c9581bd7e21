use leptless::cascade::finish;
use leptless::cascade::initial_state;
use leptless::cascade::next_attempt;
use leptless::cascade::record_attempt;
use leptless::cascade::threshold_ladder;
use leptless::cascade::CascadeConfig;
use leptless::cascade::CascadeState;
use leptless::outcome::PageText;

fn dictionary_of(words: &[&str]) -> zspell::Dictionary {
    let mut dic = format!("{}\n", words.len());
    for w in words {
        dic.push_str(w);
        dic.push('\n');
    }
    zspell::builder()
        .config_str("SET UTF-8\n")
        .dict_str(&dic)
        .build()
        .expect("the test dictionary builds")
}

/// Drive the cascade with a scripted recognizer: `responses[k]` is what
/// the recognizer returns on its k-th invocation (`None` is an engine
/// fault). Returns the attempts actually requested and the outcome.
fn drive(
    responses: &[Option<&str>],
    dict: &zspell::Dictionary,
    cfg: &CascadeConfig,
) -> (Vec<(bool, u8)>, PageText) {
    let mut state = initial_state();
    let mut plans: Vec<(bool, u8)> = Vec::new();
    while let Some(plan) = next_attempt(&state) {
        assert!(
            plans.len() < responses.len(),
            "the machine asked for more attempts than scripted"
        );
        let raw = responses[plans.len()].map(str::to_string);
        plans.push(plan);
        state = record_attempt(state, raw, dict, cfg);
    }
    (plans, finish(state))
}

#[test]
fn short_circuits_at_the_third_threshold() {
    let dict = dictionary_of(&["fox"]);
    let cfg = CascadeConfig { min_valid_words: 1 };
    let responses = [Some("--"), Some("##"), Some("fox"), Some("fox"), Some("fox")];
    let (plans, outcome) = drive(&responses, &dict, &cfg);
    // exactly three invocations: thresholds 180, 150, 128, all unenhanced;
    // the 4th and 5th thresholds and the enhanced phase are never tried
    assert_eq!(plans, vec![(false, 180), (false, 150), (false, 128)]);
    match outcome {
        PageText::Recognized { text } => assert_eq!(text, "fox"),
        _ => panic!("the cascade should have accepted the third attempt"),
    }
}

#[test]
fn first_attempt_meeting_the_bar_wins() {
    let dict = dictionary_of(&["fox"]);
    let cfg = CascadeConfig { min_valid_words: 1 };
    let responses = [Some("fox"); 1];
    let (plans, outcome) = drive(&responses, &dict, &cfg);
    assert_eq!(plans, vec![(false, 180)]);
    match outcome {
        PageText::Recognized { text } => assert_eq!(text, "fox"),
        _ => panic!("the first attempt met the bar"),
    }
}

#[test]
fn exhaustion_runs_both_ladders_and_reports_the_sentinel() {
    let dict = dictionary_of(&["fox"]);
    let cfg = CascadeConfig { min_valid_words: 1 };
    let responses = [Some("zz"); 10];
    let (plans, outcome) = drive(&responses, &dict, &cfg);
    // exactly 2 x |ladder| invocations: the plain ladder, then the
    // enhanced ladder, in ladder order
    let ladder = threshold_ladder();
    assert_eq!(plans.len(), 2 * ladder.len());
    for (k, plan) in plans.iter().enumerate() {
        assert_eq!(plan.0, k >= ladder.len());
        assert_eq!(plan.1, ladder[k % ladder.len()]);
    }
    assert!(matches!(outcome, PageText::QualityFailure));
    assert_eq!(
        outcome.display_text(),
        "[OCR failed: insufficient valid words after all attempts]"
    );
}

#[test]
fn all_faults_report_an_engine_failure() {
    let dict = dictionary_of(&["fox"]);
    let cfg = CascadeConfig { min_valid_words: 1 };
    let responses = [None; 10];
    let (plans, outcome) = drive(&responses, &dict, &cfg);
    assert_eq!(plans.len(), 10);
    assert!(matches!(outcome, PageText::EngineFailure));
    assert_eq!(
        outcome.display_text(),
        "[OCR failed: recognizer error on every attempt]"
    );
}

#[test]
fn a_single_fault_among_text_attempts_is_a_quality_failure() {
    let dict = dictionary_of(&["fox"]);
    let cfg = CascadeConfig { min_valid_words: 1 };
    let responses = [
        None,
        Some("zz"),
        None,
        None,
        None,
        None,
        None,
        None,
        None,
        None,
    ];
    let (plans, outcome) = drive(&responses, &dict, &cfg);
    assert_eq!(plans.len(), 10);
    assert!(matches!(outcome, PageText::QualityFailure));
}

#[test]
fn faulted_attempts_do_not_stop_the_cascade() {
    let dict = dictionary_of(&["fox"]);
    let cfg = CascadeConfig { min_valid_words: 1 };
    let responses = [None, None, Some("fox fox")];
    let (plans, outcome) = drive(&responses, &dict, &cfg);
    assert_eq!(plans.len(), 3);
    match outcome {
        PageText::Recognized { text } => assert_eq!(text, "fox fox"),
        _ => panic!("the third attempt met the bar"),
    }
}

#[test]
fn the_acceptance_bar_is_configurable() {
    let dict = dictionary_of(&["fox"]);
    let strict = CascadeConfig { min_valid_words: 3 };
    let responses = [Some("fox fox"); 10];
    let (plans, outcome) = drive(&responses, &dict, &strict);
    assert_eq!(plans.len(), 10);
    assert!(matches!(outcome, PageText::QualityFailure));

    let lenient = CascadeConfig { min_valid_words: 2 };
    let (plans, outcome) = drive(&responses, &dict, &lenient);
    assert_eq!(plans.len(), 1);
    match outcome {
        PageText::Recognized { text } => assert_eq!(text, "fox fox"),
        _ => panic!("two valid words meet a bar of two"),
    }
}

#[test]
fn enhanced_phase_can_accept() {
    let dict = dictionary_of(&["fox"]);
    let cfg = CascadeConfig { min_valid_words: 1 };
    let responses = [
        Some("zz"),
        Some("zz"),
        Some("zz"),
        Some("zz"),
        Some("zz"),
        Some("zz"),
        Some("fox!"),
    ];
    let (plans, outcome) = drive(&responses, &dict, &cfg);
    assert_eq!(plans.len(), 7);
    assert_eq!(plans[6], (true, 150));
    match outcome {
        PageText::Recognized { text } => assert_eq!(text, "fox"),
        _ => panic!("the seventh attempt met the bar"),
    }
}

#[test]
fn terminal_state_requests_no_attempt() {
    let state = CascadeState::Exhausted;
    assert!(next_attempt(&state).is_none());
}
