use loom::warp;

#[test]
fn test_warp_thread_get_set() {
    let mut wt = warp::WarpThread::new(1, vec![10, 20, 30]);
    assert_eq!(wt.get(1), Some(&20));
    wt.set(1, 25);
    assert_eq!(wt.get(1), Some(&25));
    assert!(!wt.set(10, 0));
}

#[test]
fn test_warp_thread_push() {
    let mut wt = warp::WarpThread::new(1, vec![1]);
    wt.push(2);
    assert_eq!(wt.length(), 2);
}

#[test]
fn test_warp_thread_metadata() {
    let mut wt = warp::WarpThread::new(1, vec![1]);
    wt.set_metadata("color", "red");
    assert_eq!(wt.get_metadata("color"), Some("red"));
    assert_eq!(wt.get_metadata("weight"), None);
}

#[test]
fn test_warp_thread_map() {
    let wt = warp::WarpThread::new(1, vec![1, 2, 3]);
    let mapped = wt.map(|v| v * 2);
    assert_eq!(mapped.values, vec![2, 4, 6]);
}

#[test]
fn test_warp_thread_truncate() {
    let mut wt = warp::WarpThread::new(1, vec![1, 2, 3, 4, 5]);
    wt.truncate(3);
    assert_eq!(wt.length(), 3);
}

#[test]
fn test_warp_new() {
    let w: warp::Warp<i32> = warp::Warp::new();
    assert!(w.is_empty());
    assert_eq!(w.thread_count(), 0);
}

#[test]
fn test_warp_add_thread() {
    let mut w = warp::Warp::new();
    w.add_thread(warp::WarpThread::new(0, vec![1, 2, 3]));
    w.add_thread(warp::WarpThread::new(1, vec![4, 5]));
    assert_eq!(w.thread_count(), 2);
    assert_eq!(w.max_length(), 3);
    assert_eq!(w.min_length(), 2);
}

#[test]
fn test_warp_column() {
    let mut w = warp::Warp::new();
    w.add_thread(warp::WarpThread::new(0, vec![1, 2]));
    w.add_thread(warp::WarpThread::new(1, vec![3, 4]));
    let col = w.column(0);
    assert_eq!(col.len(), 2);
}

#[test]
fn test_warp_from_grid() {
    let grid = vec![vec![1, 2], vec![3, 4], vec![5, 6]];
    let w = warp::Warp::from_grid(&grid);
    assert_eq!(w.thread_count(), 3);
    assert!(w.uniform_length());
}

#[test]
fn test_warp_total_elements() {
    let mut w = warp::Warp::new();
    w.add_thread(warp::WarpThread::new(0, vec![1, 2, 3]));
    w.add_thread(warp::WarpThread::new(1, vec![4, 5]));
    assert_eq!(w.total_elements(), 5);
}

#[test]
fn warp_thread_new_fields() {
    let wt = warp::WarpThread::new(7, vec![10, 20, 30]);
    assert_eq!(wt.id, 7);
    assert_eq!(wt.values, vec![10, 20, 30]);
    assert!(!wt.is_empty());
    assert_eq!(wt.get(3), None);
    assert_eq!(wt.get_metadata("anything"), None);
}

#[test]
fn warp_thread_metadata_overwrite_keeps_other_keys() {
    let mut wt = warp::WarpThread::new(1, vec![1]);
    wt.set_metadata("color", "red");
    wt.set_metadata("weight", "light");
    wt.set_metadata("color", "blue");
    assert_eq!(wt.get_metadata("color"), Some("blue"));
    assert_eq!(wt.get_metadata("weight"), Some("light"));
}

#[test]
fn warp_thread_map_keeps_id_and_metadata() {
    let mut wt = warp::WarpThread::new(4, vec![1, 2]);
    wt.set_metadata("k", "v");
    let mapped = wt.map(|v| format!("#{}", v));
    assert_eq!(mapped.id, 4);
    assert_eq!(mapped.values, vec!["#1".to_string(), "#2".to_string()]);
    assert_eq!(mapped.get_metadata("k"), Some("v"));
}

#[test]
fn warp_thread_truncate_longer_keeps_all() {
    let mut wt = warp::WarpThread::new(1, vec![1, 2, 3]);
    wt.truncate(10);
    assert_eq!(wt.values, vec![1, 2, 3]);
    wt.truncate(0);
    assert!(wt.is_empty());
}

#[test]
fn warp_empty_lengths_are_zero() {
    let w: warp::Warp<u8> = warp::Warp::default();
    assert_eq!(w.max_length(), 0);
    assert_eq!(w.min_length(), 0);
    assert_eq!(w.total_elements(), 0);
    assert!(w.uniform_length());
    assert!(w.thread(0).is_none());
}

#[test]
fn warp_column_short_threads_give_none() {
    let mut w = warp::Warp::new();
    w.add_thread(warp::WarpThread::new(0, vec![1, 2, 3]));
    w.add_thread(warp::WarpThread::new(1, vec![4]));
    assert_eq!(w.column(2), vec![Some(&3), None]);
    assert!(!w.uniform_length());
}

#[test]
fn warp_from_grid_ids_and_rows() {
    let grid = vec![vec![1, 2, 3], vec![4]];
    let w = warp::Warp::from_grid(&grid);
    assert_eq!(w.threads[0].id, 0);
    assert_eq!(w.threads[1].id, 1);
    assert_eq!(w.threads[0].values, vec![1, 2, 3]);
    assert_eq!(w.threads[1].values, vec![4]);
    assert_eq!(w.max_length(), 3);
    assert_eq!(w.min_length(), 1);
}

#[test]
fn warp_thread_mut_changes_thread() {
    let mut w = warp::Warp::new();
    w.add_thread(warp::WarpThread::new(0, vec![1]));
    if let Some(t) = w.thread_mut(0) {
        t.push(2);
    }
    assert!(w.thread_mut(5).is_none());
    assert_eq!(w.thread(0).unwrap().values, vec![1, 2]);
}

#[test]
fn warp_length_bounds() {
    let mut w = warp::Warp::new();
    w.add_thread(warp::WarpThread::new(0, vec![1, 2, 3, 4]));
    w.add_thread(warp::WarpThread::new(1, vec![5]));
    w.add_thread(warp::WarpThread::new(2, vec![6, 7]));
    assert!(w.min_length() <= w.max_length());
    assert!(w.max_length() <= w.total_elements());
    assert_eq!((w.min_length(), w.max_length(), w.total_elements()), (1, 4, 7));
}
