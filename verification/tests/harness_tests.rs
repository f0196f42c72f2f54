use loom::heddle;

#[test]
fn test_harness_new() {
    let h = heddle::Harness::new();
    assert!(h.is_empty());
    assert_eq!(h.heddle_count(), 0);
}

#[test]
fn test_harness_add_heddle() {
    let mut h = heddle::Harness::new();
    h.add_heddle(heddle::Heddle::plain());
    h.add_heddle(heddle::Heddle::twill());
    assert_eq!(h.heddle_count(), 2);
}

#[test]
fn test_harness_current() {
    let mut h = heddle::Harness::new();
    h.add_heddle(heddle::Heddle::plain());
    assert!(h.current().is_some());
}

#[test]
fn test_harness_combined_pattern() {
    let mut h = heddle::Harness::new();
    h.add_heddle(heddle::Heddle::new(vec![true, false]));
    let pattern = h.combined_pattern(4);
    assert_eq!(pattern.len(), 4);
}

#[test]
fn test_harness_advance() {
    let mut h = heddle::Harness::new();
    h.add_heddle(heddle::Heddle::new(vec![true, false]));
    h.advance();
    // Should have advanced the heddle
    assert!(true);
}

#[test]
fn harness_empty_advance_and_pattern() {
    let mut h = heddle::Harness::default();
    assert!(h.advance());
    assert_eq!(h.combined_pattern(3), vec![false, false, false]);
    assert!(h.current().is_none());
    assert!(h.current_mut().is_none());
}

#[test]
fn harness_single_heddle_pattern_is_its_state() {
    let mut h = heddle::Harness::new();
    h.add_heddle(heddle::Heddle::twill());
    assert_eq!(h.combined_pattern(6), heddle::Heddle::twill().current_state(6));
}

#[test]
fn harness_combined_pattern_is_union() {
    let mut h = heddle::Harness::new();
    h.add_heddle(heddle::Heddle::new(vec![true, false, false]));
    h.add_heddle(heddle::Heddle::new(vec![false, true, false, false]));
    assert_eq!(h.combined_pattern(6), vec![true, true, false, true, false, true]);
}

#[test]
fn harness_advance_moves_to_next_heddle_on_wrap() {
    let mut h = heddle::Harness::new();
    h.add_heddle(heddle::Heddle::new(vec![true, false]));
    h.add_heddle(heddle::Heddle::new(vec![true]));
    assert!(!h.advance());
    assert_eq!(h.current_heddle, 0);
    assert_eq!(h.heddles[0].row, 1);
    assert!(!h.advance());
    assert_eq!(h.current_heddle, 1);
    assert_eq!(h.heddles[0].row, 0);
    assert!(h.advance());
    assert_eq!(h.current_heddle, 0);
}

#[test]
fn harness_current_mut_edits_current_heddle() {
    let mut h = heddle::Harness::new();
    h.add_heddle(heddle::Heddle::new(vec![true, false]));
    if let Some(c) = h.current_mut() {
        c.invert();
    }
    assert_eq!(h.heddles[0].pattern, vec![false, true]);
}

#[test]
fn harness_out_of_range_current_advances_nothing() {
    let mut h = heddle::Harness::new();
    h.add_heddle(heddle::Heddle::new(vec![true, false]));
    h.current_heddle = 3;
    assert!(h.advance());
    assert_eq!(h.heddles[0].row, 0);
    assert_eq!(h.current_heddle, 3);
}
