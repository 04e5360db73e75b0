use fantasy_hockey::domain::prediction::series_projection::{classify, games_remaining, SeriesStateCode};

#[test]
fn test_classify() {
    assert_eq!(classify(4, 0), SeriesStateCode::Advanced);
    assert_eq!(classify(0, 4), SeriesStateCode::Eliminated);
    assert_eq!(classify(3, 0), SeriesStateCode::AboutToAdvance);
    assert_eq!(classify(3, 1), SeriesStateCode::AboutToAdvance);
    assert_eq!(classify(0, 3), SeriesStateCode::FacingElim);
    assert_eq!(classify(1, 3), SeriesStateCode::FacingElim);
    assert_eq!(classify(2, 2), SeriesStateCode::Tied);
    assert_eq!(classify(0, 0), SeriesStateCode::Tied);
    assert_eq!(classify(2, 1), SeriesStateCode::Leading);
    assert_eq!(classify(1, 2), SeriesStateCode::Trailing);
}

#[test]
fn test_games_remaining() {
    assert_eq!(games_remaining(0, 0), 7);
    assert_eq!(games_remaining(2, 2), 3);
    assert_eq!(games_remaining(3, 1), 3);
    assert_eq!(games_remaining(3, 3), 1);
    assert_eq!(games_remaining(4, 0), 0);
}

#[test]
fn classify_is_mirrored_between_the_two_sides() {
    for w in 0..4u32 {
        for o in 0..5u32 {
            let a = classify(w, o);
            let b = classify(o, w);
            let expected = match a {
                SeriesStateCode::Eliminated => SeriesStateCode::Advanced,
                SeriesStateCode::FacingElim => SeriesStateCode::AboutToAdvance,
                SeriesStateCode::Trailing => SeriesStateCode::Leading,
                SeriesStateCode::Tied => SeriesStateCode::Tied,
                SeriesStateCode::Leading => SeriesStateCode::Trailing,
                SeriesStateCode::AboutToAdvance => SeriesStateCode::FacingElim,
                SeriesStateCode::Advanced => SeriesStateCode::Eliminated,
            };
            assert_eq!(b, expected);
            assert_eq!(games_remaining(w, o), games_remaining(o, w));
        }
    }
}

#[test]
fn labels_render_the_score_and_state() {
    assert_eq!(SeriesStateCode::Leading.label(2, 1), "2-1, leading");
    assert_eq!(SeriesStateCode::FacingElim.label(1, 3), "1-3, facing elim");
    assert_eq!(SeriesStateCode::AboutToAdvance.label(3, 0), "3-0, closing in");
    assert_eq!(SeriesStateCode::Advanced.label(4, 2), "4-2, advanced");
    assert_eq!(SeriesStateCode::Eliminated.label(10, 12), "10-12, eliminated");
    assert_eq!(SeriesStateCode::Trailing.label(0, 1), "0-1, trailing");
    assert_eq!(SeriesStateCode::Tied.label(3, 3), "3-3, tied");
}

#[test]
fn three_two_leads_and_two_three_trails() {
    assert_eq!(classify(3, 2), SeriesStateCode::Leading);
    assert_eq!(classify(2, 3), SeriesStateCode::Trailing);
    assert_eq!(classify(3, 3), SeriesStateCode::Tied);
}
