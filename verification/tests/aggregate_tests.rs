use leptless::aggregate::PageResultAggregator;
use leptless::outcome::PageText;

#[test]
fn reversed_completion_order_still_yields_ascending_pages() {
    let mut agg = PageResultAggregator::new(3);
    assert!(!agg.is_complete());
    // page 2 finishes first, page 0 last
    agg.record(
        2,
        PageText::Recognized {
            text: "third".to_string(),
        },
    );
    agg.record(
        1,
        PageText::Recognized {
            text: "second".to_string(),
        },
    );
    assert!(!agg.is_complete());
    agg.record(
        0,
        PageText::Recognized {
            text: "first".to_string(),
        },
    );
    assert!(agg.is_complete());
    let ordered = agg.into_ordered();
    assert_eq!(ordered.len(), 3);
    let texts: Vec<String> = ordered
        .iter()
        .map(|o| o.text.display_text())
        .collect();
    assert_eq!(texts, vec!["first", "second", "third"]);
    for (i, o) in ordered.iter().enumerate() {
        assert_eq!(o.index, i);
    }
}

#[test]
fn one_failed_page_does_not_disturb_the_others() {
    let mut agg = PageResultAggregator::new(3);
    agg.record(
        0,
        PageText::Recognized {
            text: "ok".to_string(),
        },
    );
    agg.record(1, PageText::RenderFailure);
    agg.record(2, PageText::EngineFailure);
    assert!(agg.is_complete());
    let ordered = agg.into_ordered();
    assert_eq!(ordered[0].text.display_text(), "ok");
    assert_eq!(ordered[1].text.display_text(), "[page failed to render]");
    assert_eq!(
        ordered[2].text.display_text(),
        "[OCR failed: recognizer error on every attempt]"
    );
}

#[test]
fn empty_document_aggregates_to_nothing() {
    let agg = PageResultAggregator::new(0);
    assert!(agg.is_complete());
    let ordered = agg.into_ordered();
    assert!(ordered.is_empty());
}
