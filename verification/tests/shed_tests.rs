use loom::shed;

#[test]
fn test_shed_new() {
    let shed = shed::Shed::new(6);
    assert_eq!(shed.upper.len(), 3);
    assert_eq!(shed.lower.len(), 3);
    assert_eq!(shed.thread_count(), 6);
}

#[test]
fn test_shed_is_thread_upper() {
    let shed = shed::Shed::new(4);
    assert!(shed.is_thread_upper(0));
    assert!(!shed.is_thread_upper(1));
}

#[test]
fn test_shed_swap() {
    let mut shed = shed::Shed::new(4);
    let upper_before = shed.upper.clone();
    shed.swap();
    assert_eq!(shed.lower, upper_before);
}

#[test]
fn test_shed_plain() {
    let shed = shed::Shed::plain(4);
    assert_eq!(shed.upper, vec![0, 2]);
    assert_eq!(shed.lower, vec![1, 3]);
}

#[test]
fn test_shed_twill() {
    let shed = shed::Shed::twill(8, 0);
    assert_eq!(shed.thread_count(), 8);
}

#[test]
fn test_shed_satin() {
    let shed = shed::Shed::satin(10, 5);
    assert_eq!(shed.thread_count(), 10);
    assert!(shed.upper.len() < shed.lower.len());
}

#[test]
fn test_shed_with_pattern() {
    let shed = shed::Shed::with_pattern(4, &[true, false, false, true]);
    assert!(shed.is_thread_upper(0));
    assert!(!shed.is_thread_upper(1));
    assert!(shed.is_thread_upper(3));
}

#[test]
fn test_shed_all_upper() {
    let shed = shed::Shed::with_pattern(3, &[true, true, true]);
    assert_eq!(shed.lower.len(), 0);
}

#[test]
fn shed_new_odd_count() {
    let shed = shed::Shed::new(5);
    assert_eq!(shed.upper, vec![0, 2, 4]);
    assert_eq!(shed.lower, vec![1, 3]);
    let empty = shed::Shed::new(0);
    assert!(empty.upper.is_empty() && empty.lower.is_empty());
}

#[test]
fn shed_pattern_shorter_than_threads_falls_back_to_parity() {
    let shed = shed::Shed::with_pattern(6, &[false, true]);
    assert_eq!(shed.upper, vec![1, 2, 4]);
    assert_eq!(shed.lower, vec![0, 3, 5]);
    assert!(shed.is_thread_lower(0));
    assert!(!shed.is_thread_lower(7));
    assert!(!shed.is_thread_upper(7));
}

#[test]
fn shed_empty_pattern_is_plain() {
    let a = shed::Shed::with_pattern(7, &[]);
    let b = shed::Shed::plain(7);
    assert_eq!(a.upper, b.upper);
    assert_eq!(a.lower, b.lower);
}

#[test]
fn shed_every_thread_on_exactly_one_side() {
    let shed = shed::Shed::with_pattern(9, &[true, true, false, true, false]);
    for i in 0..9 {
        assert!(shed.is_thread_upper(i) != shed.is_thread_lower(i));
    }
    assert_eq!(shed.thread_count(), 9);
}

#[test]
fn shed_twill_groups() {
    let shed = shed::Shed::twill(8, 0);
    assert_eq!(shed.upper, vec![0, 1, 4, 5]);
    assert_eq!(shed.lower, vec![2, 3, 6, 7]);
    let shifted = shed::Shed::twill(6, 1);
    assert_eq!(shifted.upper, vec![0, 3, 4]);
    assert_eq!(shifted.lower, vec![1, 2, 5]);
    let big_shift = shed::Shed::twill(4, usize::MAX);
    assert_eq!(big_shift.upper, vec![1, 2]);
}

#[test]
fn shed_satin_groups() {
    let shed = shed::Shed::satin(10, 5);
    assert_eq!(shed.upper, vec![0, 5]);
    assert_eq!(shed.lower, vec![1, 2, 3, 4, 6, 7, 8, 9]);
    let none = shed::Shed::satin(0, 0);
    assert_eq!(none.thread_count(), 0);
}

#[test]
fn shed_swap_twice_restores() {
    let mut shed = shed::Shed::new(5);
    shed.swap();
    assert_eq!(shed.upper, vec![1, 3]);
    shed.swap();
    assert_eq!(shed.upper, vec![0, 2, 4]);
    assert_eq!(shed.lower, vec![1, 3]);
}

#[test]
fn shed_same_raised_threads_same_shed() {
    let a = shed::Shed::with_pattern(4, &[true, false, true, false]);
    let b = shed::Shed::with_pattern(4, &[]);
    let c = shed::Shed::with_pattern(4, &[true, false, true, false, false, true]);
    assert_eq!(a.upper, b.upper);
    assert_eq!(a.lower, b.lower);
    assert_eq!(a.upper, c.upper);
    assert_eq!(a.lower, c.lower);
}
