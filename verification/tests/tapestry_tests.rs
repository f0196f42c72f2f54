use loom::heddle;
use loom::tapestry;
use loom::warp;
use loom::weft;

#[test]
fn test_tapestry_new() {
    let t: tapestry::Tapestry<i32> = tapestry::Tapestry::new(3, 3);
    assert_eq!(t.width, 3);
    assert_eq!(t.height, 3);
    assert!(t.is_empty());
}

#[test]
fn test_tapestry_set_get() {
    let mut t = tapestry::Tapestry::new(2, 2);
    t.set(0, 0, tapestry::Cell::Warp(1));
    t.set(0, 1, tapestry::Cell::Weft(2));
    assert!(t.get(0, 0).unwrap().is_warp());
    assert!(t.get(0, 1).unwrap().is_weft());
    assert!(t.get(1, 0).unwrap().is_empty());
}

#[test]
fn test_tapestry_counts() {
    let mut t = tapestry::Tapestry::new(2, 2);
    t.set(0, 0, tapestry::Cell::Warp(1));
    t.set(0, 1, tapestry::Cell::Weft(2));
    t.set(1, 0, tapestry::Cell::Warp(3));
    assert_eq!(t.warp_count(), 2);
    assert_eq!(t.weft_count(), 1);
}

#[test]
fn test_tapestry_cell_value() {
    let cell = tapestry::Cell::Warp(42);
    assert_eq!(cell.value(), Some(&42));
    let empty: tapestry::Cell<i32> = tapestry::Cell::Empty;
    assert_eq!(empty.value(), None);
}

#[test]
fn test_tapestry_row() {
    let mut t = tapestry::Tapestry::new(2, 2);
    t.set(0, 0, tapestry::Cell::Warp(1));
    let row = t.row(0);
    assert!(row.is_some());
    assert_eq!(row.unwrap().len(), 2);
}

#[test]
fn test_tapestry_column() {
    let mut t = tapestry::Tapestry::new(2, 2);
    t.set(0, 0, tapestry::Cell::Warp(1));
    t.set(1, 0, tapestry::Cell::Weft(2));
    let col = t.column(0);
    assert_eq!(col.len(), 2);
}

#[test]
fn test_checkerboard() {
    let t = tapestry::checkerboard(4, "A", "B");
    assert_eq!(t.width, 4);
    assert_eq!(t.height, 4);
    assert!(t.warp_count() > 0);
    assert!(t.weft_count() > 0);
}

#[test]
fn test_stripes() {
    let t = tapestry::stripes(6, 4, 2, "X", "Y");
    assert_eq!(t.width, 6);
    assert_eq!(t.height, 4);
}

#[test]
fn test_weave() {
    let mut warp = warp::Warp::new();
    warp.add_thread(warp::WarpThread::new(0, vec![1, 2, 3]));
    warp.add_thread(warp::WarpThread::new(1, vec![4, 5, 6]));

    let mut weft = weft::Weft::new();
    weft.add_thread(weft::WeftThread::new(0, vec![10, 20, 30]));
    weft.add_thread(weft::WeftThread::new(1, vec![40, 50, 60]));

    let heddle = heddle::Heddle::plain();
    let tapestry = tapestry::weave(&warp, &weft, &heddle);
    assert_eq!(tapestry.width, 3);
    assert_eq!(tapestry.height, 2);
}

#[test]
fn test_tapestry_count_where() {
    let mut t = tapestry::Tapestry::new(2, 2);
    t.set(0, 0, tapestry::Cell::Warp(1));
    t.set(0, 1, tapestry::Cell::Weft(2));
    let warp_count = t.count_where(|c| c.is_warp());
    assert_eq!(warp_count, 1);
}

fn cell_value<T: Clone + Copy>(c: &tapestry::Cell<T>) -> Option<T> {
    c.value().copied()
}

#[test]
fn tapestry_set_outside_does_nothing() {
    let mut t = tapestry::Tapestry::new(2, 1);
    t.set(1, 0, tapestry::Cell::Warp(1));
    t.set(0, 2, tapestry::Cell::Warp(1));
    assert!(t.is_empty());
    assert!(t.get(1, 0).is_none());
    assert!(t.get(0, 2).is_none());
    assert!(t.row(1).is_none());
}

#[test]
fn tapestry_column_skips_short_rows() {
    let mut t = tapestry::Tapestry::new(2, 3);
    t.grid[1].truncate(1);
    t.set(0, 1, tapestry::Cell::Warp(7));
    t.set(2, 1, tapestry::Cell::Weft(8));
    let col = t.column(1);
    assert_eq!(col.len(), 2);
    assert_eq!(cell_value(col[0]), Some(7));
    assert_eq!(cell_value(col[1]), Some(8));
    assert!(t.column(2).is_empty());
}

#[test]
fn tapestry_cell_kinds() {
    let w = tapestry::Cell::Weft('x');
    assert!(w.is_weft() && !w.is_warp() && !w.is_empty());
    assert_eq!(w.value(), Some(&'x'));
    let e: tapestry::Cell<char> = tapestry::Cell::Empty;
    assert!(e.is_empty());
}

#[test]
fn checkerboard_cells_alternate() {
    let t = tapestry::checkerboard(3, 1, 2);
    for r in 0..3 {
        for c in 0..3 {
            let cell = t.get(r, c).unwrap();
            if (r + c) % 2 == 0 {
                assert!(cell.is_warp());
                assert_eq!(cell_value(cell), Some(1));
            } else {
                assert!(cell.is_weft());
                assert_eq!(cell_value(cell), Some(2));
            }
        }
    }
    assert_eq!(t.warp_count(), 5);
    assert_eq!(t.weft_count(), 4);
    assert_eq!(t.warp_count() + t.weft_count(), t.width * t.height);
}

#[test]
fn stripes_cells() {
    let t = tapestry::stripes(6, 2, 2, 'a', 'b');
    let row: Vec<Option<char>> = t.row(1).unwrap().iter().map(cell_value).collect();
    assert_eq!(row, vec![Some('a'), Some('a'), Some('b'), Some('b'), Some('a'), Some('a')]);
    let narrow = tapestry::stripes(3, 1, 0, 'a', 'b');
    let row: Vec<Option<char>> = narrow.row(0).unwrap().iter().map(cell_value).collect();
    assert_eq!(row, vec![Some('a'), Some('b'), Some('a')]);
    assert_eq!(t.warp_count() + t.weft_count(), 12);
}

#[test]
fn weave_cells() {
    let mut warp = warp::Warp::new();
    warp.add_thread(warp::WarpThread::new(0, vec![1, 2, 3]));
    warp.add_thread(warp::WarpThread::new(1, vec![4]));
    let mut weft = weft::Weft::new();
    weft.add_thread(weft::WeftThread::new(0, vec![10, 20]));
    weft.add_thread(weft::WeftThread::new(1, vec![40, 50, 60, 70]));
    weft.add_thread(weft::WeftThread::new(2, vec![80]));
    let heddle = heddle::Heddle::plain();
    let t = tapestry::weave(&warp, &weft, &heddle);
    assert_eq!(t.width, 3);
    assert_eq!(t.height, 3);
    let values: Vec<Vec<Option<i32>>> = t
        .grid
        .iter()
        .map(|row| row.iter().map(cell_value).collect())
        .collect();
    assert_eq!(
        values,
        vec![
            vec![Some(1), Some(20), Some(3)],
            vec![Some(4), Some(50), None],
            vec![None, None, None],
        ]
    );
    assert!(t.get(0, 1).unwrap().is_weft());
    assert!(t.get(0, 0).unwrap().is_warp());
    assert!(t.get(2, 0).unwrap().is_empty());
}
#[test]
fn weave_width_from_first_weft() {
    let warp: warp::Warp<i32> = warp::Warp::new();
    let mut weft = weft::Weft::new();
    weft.add_thread(weft::WeftThread::new(0, vec![1, 2, 3, 4]));
    let heddle = heddle::Heddle::new(vec![false]);
    let t = tapestry::weave(&warp, &weft, &heddle);
    assert_eq!(t.width, 4);
    assert_eq!(t.height, 1);
    assert_eq!(t.weft_count(), 4);
    let empty = tapestry::weave(&warp::Warp::<i32>::new(), &weft::Weft::new(), &heddle);
    assert_eq!(empty.width, 0);
    assert_eq!(empty.height, 0);
    assert!(empty.is_empty());
}

#[test]
fn tapestry_counts_at_most_cells() {
    let mut t = tapestry::Tapestry::new(3, 2);
    t.set(0, 0, tapestry::Cell::Warp(1));
    t.set(1, 2, tapestry::Cell::Weft(2));
    assert_eq!(t.warp_count() + t.weft_count(), 2);
    assert!(t.warp_count() + t.weft_count() <= t.width * t.height);
    assert_eq!(t.count_where(|c| c.is_empty()), 4);
    assert!(!t.is_empty());
}
