use loom::weft;

#[test]
fn test_weft_thread_new() {
    let wt = weft::WeftThread::new(1, vec![10, 20]);
    assert_eq!(wt.id, 1);
    assert_eq!(wt.length(), 2);
    assert_eq!(wt.color, "default");
}

#[test]
fn test_weft_thread_with_color() {
    let wt = weft::WeftThread::new(1, vec![1]).with_color("blue");
    assert_eq!(wt.color, "blue");
}

#[test]
fn test_weft_thread_push() {
    let mut wt = weft::WeftThread::new(1, vec![1]);
    wt.push(2);
    assert_eq!(wt.length(), 2);
}

#[test]
fn test_weft_thread_insert() {
    let mut wt = weft::WeftThread::new(1, vec![1, 3]);
    wt.insert(1, 2);
    assert_eq!(wt.values, vec![1, 2, 3]);
}

#[test]
fn test_weft_thread_remove() {
    let mut wt = weft::WeftThread::new(1, vec![1, 2, 3]);
    let removed = wt.remove(1);
    assert_eq!(removed, Some(2));
    assert_eq!(wt.length(), 2);
}

#[test]
fn test_weft_thread_reverse() {
    let mut wt = weft::WeftThread::new(1, vec![1, 2, 3]);
    wt.reverse();
    assert_eq!(wt.values, vec![3, 2, 1]);
}

#[test]
fn test_weft_thread_append() {
    let mut wt1 = weft::WeftThread::new(1, vec![1, 2]);
    let wt2 = weft::WeftThread::new(2, vec![3, 4]);
    wt1.append(&wt2);
    assert_eq!(wt1.values, vec![1, 2, 3, 4]);
}

#[test]
fn test_weft_thread_splice() {
    let wt = weft::WeftThread::new(1, vec![1, 2, 3, 4, 5]);
    let spliced = wt.splice(1, 4);
    assert_eq!(spliced.values, vec![2, 3, 4]);
}

#[test]
fn test_weft_thread_map() {
    let wt = weft::WeftThread::new(1, vec![1, 2, 3]);
    let mapped = wt.map(|v| v + 10);
    assert_eq!(mapped.values, vec![11, 12, 13]);
}

#[test]
fn test_weft_thread_zip_with() {
    let a = weft::WeftThread::new(1, vec![1, 2, 3]);
    let b = weft::WeftThread::new(2, vec![10, 20, 30]);
    let zipped = a.zip_with(&b, |x, y| x + y);
    assert_eq!(zipped.values, vec![11, 22, 33]);
}

#[test]
fn test_weft_new() {
    let w: weft::Weft<i32> = weft::Weft::new();
    assert!(w.is_empty());
}

#[test]
fn test_weft_colors() {
    let mut w = weft::Weft::new();
    w.add_thread(weft::WeftThread::new(1, vec![1]).with_color("red"));
    w.add_thread(weft::WeftThread::new(2, vec![1]).with_color("blue"));
    assert_eq!(w.colors(), vec!["red", "blue"]);
}

#[test]
fn test_weft_find_by_color() {
    let mut w = weft::Weft::new();
    w.add_thread(weft::WeftThread::new(1, vec![1]).with_color("red"));
    w.add_thread(weft::WeftThread::new(2, vec![1]).with_color("blue"));
    w.add_thread(weft::WeftThread::new(3, vec![1]).with_color("red"));
    assert_eq!(w.find_by_color("red").len(), 2);
}

#[test]
fn test_weft_uniform_length() {
    let mut w = weft::Weft::new();
    w.add_thread(weft::WeftThread::new(1, vec![1, 2]));
    w.add_thread(weft::WeftThread::new(2, vec![3, 4]));
    assert!(w.uniform_length());
}

#[test]
fn weft_thread_insert_past_end_does_nothing() {
    let mut wt = weft::WeftThread::new(1, vec![1, 2]);
    wt.insert(3, 9);
    assert_eq!(wt.values, vec![1, 2]);
    wt.insert(2, 9);
    assert_eq!(wt.values, vec![1, 2, 9]);
}

#[test]
fn weft_thread_remove_out_of_range_is_none() {
    let mut wt = weft::WeftThread::new(1, vec![1, 2]);
    assert_eq!(wt.remove(2), None);
    assert_eq!(wt.values, vec![1, 2]);
}

#[test]
fn weft_thread_insert_then_remove_restores() {
    let mut wt = weft::WeftThread::new(1, vec![5, 6, 7]);
    wt.insert(1, 42);
    assert_eq!(wt.remove(1), Some(42));
    assert_eq!(wt.values, vec![5, 6, 7]);
}

#[test]
fn weft_thread_reverse_twice_restores() {
    let mut wt = weft::WeftThread::new(1, vec![1, 2, 3, 4]);
    wt.reverse();
    wt.reverse();
    assert_eq!(wt.values, vec![1, 2, 3, 4]);
    let mut empty: weft::WeftThread<u8> = weft::WeftThread::new(0, vec![]);
    empty.reverse();
    assert!(empty.is_empty());
}

#[test]
fn weft_thread_splice_edges() {
    let wt = weft::WeftThread::new(3, vec![1, 2, 3]).with_color("green");
    let s = wt.splice(2, 1);
    assert!(s.values.is_empty());
    assert_eq!(s.color, "green");
    assert_eq!(s.id, 3);
    assert!(wt.splice(5, 9).values.is_empty());
    assert_eq!(wt.splice(1, 100).values, vec![2, 3]);
    assert_eq!(wt.splice(0, 3).values, vec![1, 2, 3]);
}

#[test]
fn weft_thread_zip_with_shorter_other() {
    let a = weft::WeftThread::new(1, vec![1, 2, 3]).with_color("red");
    let b = weft::WeftThread::new(2, vec![10]);
    let z = a.zip_with(&b, |x, y| x * y);
    assert_eq!(z.values, vec![10]);
    assert_eq!(z.id, 1);
    assert_eq!(z.color, "red");
}

#[test]
fn weft_thread_map_keeps_color() {
    let wt = weft::WeftThread::new(2, vec![1, 2]).with_color("teal");
    let m = wt.map(|v| *v > 1);
    assert_eq!(m.values, vec![false, true]);
    assert_eq!(m.color, "teal");
    assert_eq!(m.id, 2);
}

#[test]
fn weft_totals_and_lookup() {
    let mut w = weft::Weft::default();
    w.add_thread(weft::WeftThread::new(1, vec![1, 2, 3]).with_color("red"));
    w.add_thread(weft::WeftThread::new(2, vec![4]).with_color("blue"));
    assert_eq!(w.total_length(), 4);
    assert_eq!(w.thread_count(), 2);
    assert_eq!(w.thread(1).unwrap().id, 2);
    assert!(w.thread(2).is_none());
    assert!(!w.uniform_length());
    let found = w.find_by_color("blue");
    assert_eq!(found.len(), 1);
    assert_eq!(found[0].id, 2);
    assert!(w.find_by_color("black").is_empty());
}

#[test]
fn weft_empty_is_uniform() {
    let w: weft::Weft<i32> = weft::Weft::new();
    assert!(w.uniform_length());
    assert_eq!(w.total_length(), 0);
    assert!(w.colors().is_empty());
}
