use loom::heddle;
use loom::shed;

#[test]
fn test_heddle_new() {
    let h = heddle::Heddle::new(vec![true, false]);
    assert_eq!(h.len(), 2);
    assert!(!h.is_empty());
}

#[test]
fn test_heddle_get() {
    let h = heddle::Heddle::new(vec![true, false, true]);
    assert!(h.get(0));
    assert!(!h.get(1));
    assert!(h.get(2));
    assert!(h.get(3)); // wraps to index 0
}

#[test]
fn test_heddle_set() {
    let mut h = heddle::Heddle::new(vec![true, false]);
    h.set(1, true);
    assert!(h.get(1));
}

#[test]
fn test_heddle_advance() {
    let mut h = heddle::Heddle::new(vec![true, false]);
    assert_eq!(h.row, 0);
    h.advance();
    assert_eq!(h.row, 1);
}

#[test]
fn test_heddle_current_state() {
    let h = heddle::Heddle::new(vec![true, false]);
    let state = h.current_state(4);
    assert_eq!(state, vec![true, false, true, false]);
}

#[test]
fn test_heddle_plain() {
    let h = heddle::Heddle::plain();
    assert_eq!(h.pattern, vec![true, false]);
}

#[test]
fn test_heddle_twill() {
    let h = heddle::Heddle::twill();
    assert_eq!(h.pattern, vec![true, true, false, false]);
}

#[test]
fn test_heddle_satin() {
    let h = heddle::Heddle::satin();
    assert_eq!(h.pattern, vec![true, false, false, false, false]);
}

#[test]
fn test_heddle_invert() {
    let mut h = heddle::Heddle::new(vec![true, false]);
    h.invert();
    assert_eq!(h.pattern, vec![false, true]);
}

#[test]
fn test_heddle_raised_count() {
    let h = heddle::Heddle::new(vec![true, false, true, true]);
    assert_eq!(h.raised_count(), 3);
}

#[test]
fn test_heddle_create_shed() {
    let h = heddle::Heddle::plain();
    let shed = h.create_shed(4);
    assert_eq!(shed.thread_count(), 4);
}

#[test]
fn heddle_get_wraps_every_length() {
    let h = heddle::Heddle::new(vec![true, false, false]);
    for i in 0..10 {
        assert_eq!(h.get(i), h.get(i + 3));
    }
    assert!(h.get(6));
    assert!(!h.get(7));
}

#[test]
fn heddle_set_past_end_does_nothing() {
    let mut h = heddle::Heddle::new(vec![true, false]);
    h.set(2, true);
    assert_eq!(h.pattern, vec![true, false]);
}

#[test]
fn heddle_with_repeat_at_least_one() {
    let h = heddle::Heddle::new(vec![true]).with_repeat(0);
    assert_eq!(h.repeat, 1);
    let h = heddle::Heddle::new(vec![true]).with_repeat(3);
    assert_eq!(h.repeat, 3);
}

#[test]
fn heddle_advance_cycles_through_repeats() {
    let mut h = heddle::Heddle::new(vec![true, false]).with_repeat(2);
    assert!(!h.advance());
    assert!(!h.advance());
    assert!(!h.advance());
    assert_eq!(h.row, 3);
    assert!(h.advance());
    assert_eq!(h.row, 0);
}

#[test]
fn heddle_current_state_follows_row() {
    let mut h = heddle::Heddle::new(vec![true, false, false]);
    h.advance();
    assert_eq!(h.current_state(5), vec![false, false, true, false, false]);
    assert!(h.current_state(0).is_empty());
}

#[test]
fn heddle_invert_twice_and_counts() {
    let mut h = heddle::Heddle::twill();
    let raised = h.raised_count();
    h.invert();
    assert_eq!(h.raised_count() + raised, h.len());
    h.invert();
    assert_eq!(h.pattern, vec![true, true, false, false]);
}

#[test]
fn heddle_plain_shed_is_plain_shed() {
    for n in 0..9 {
        let a = heddle::Heddle::plain().create_shed(n);
        let b = shed::Shed::plain(n);
        assert_eq!(a.upper, b.upper);
        assert_eq!(a.lower, b.lower);
    }
}

#[test]
fn heddle_create_shed_follows_state() {
    let mut h = heddle::Heddle::twill();
    h.advance();
    let shed = h.create_shed(6);
    assert_eq!(shed.upper, vec![0, 3, 4]);
    assert_eq!(shed.lower, vec![1, 2, 5]);
}
