use technobabble::grid::{Grid, Rectangle};

#[test]
fn intersects() {
    let mut grid: Grid<i32> = Grid::new();

    let mut i = 0..;
    for x in -10..10 {
        for y in -10..10 {
            grid.insert(
                Rectangle {
                    x: x * 2,
                    y: y * 2,
                    width: 2,
                    height: 2,
                },
                i.next().unwrap(),
            );
        }
    }

    for x in -10..10 {
        for y in -10..10 {
            assert!(grid
                .intersects(Rectangle {
                    x: x * 2,
                    y: y * 2,
                    width: 2,
                    height: 2
                })
                .next()
                .is_some());
        }
    }
}

fn cells_of(rec: Rectangle) -> Vec<(i32, i32)> {
    let mut it = rec.iter();
    let mut out: Vec<(i32, i32)> = Vec::new();
    while let Some(c) = it.next() {
        out.push(c);
    }
    out
}

#[test]
fn cells_come_row_by_row() {
    let rec = Rectangle { x: 0, y: 0, width: 16, height: 8 };
    assert_eq!(
        cells_of(rec),
        vec![(0, 0), (1, 0), (2, 0), (0, 1), (1, 1), (2, 1)]
    );
}

#[test]
fn cells_round_toward_zero() {
    let rec = Rectangle { x: -7, y: -9, width: 14, height: 2 };
    assert_eq!(cells_of(rec), vec![(0, -1), (0, 0)]);
    let rec = Rectangle { x: -16, y: 3, width: 8, height: 0 };
    assert_eq!(cells_of(rec), vec![(-2, 0), (-1, 0)]);
}

#[test]
fn cells_of_a_negative_extent_are_none() {
    let rec = Rectangle { x: 9, y: 0, width: -2, height: 1 };
    assert_eq!(cells_of(rec), Vec::<(i32, i32)>::new());
}

#[test]
fn far_corner() {
    let rec = Rectangle { x: -3, y: 4, width: 10, height: 1 };
    assert_eq!(rec.max(), (7, 5));
}

#[test]
fn touching_rectangles_do_not_intersect() {
    let a = Rectangle { x: 0, y: 0, width: 2, height: 2 };
    let b = Rectangle { x: 2, y: 0, width: 2, height: 2 };
    let c = Rectangle { x: 1, y: 1, width: 2, height: 2 };
    assert!(!a.intersects(b));
    assert!(!b.intersects(a));
    assert!(a.intersects(c));
    assert!(c.intersects(b));
    assert!(a.intersects(a));
}

#[test]
fn empty_grid_finds_nothing() {
    let grid: Grid<u64> = Grid::new();
    let mut it = grid.intersects(Rectangle { x: -100, y: -100, width: 200, height: 200 });
    assert_eq!(it.next(), None);
    assert_eq!(it.next(), None);
}

#[test]
fn search_finds_exactly_the_intersecting_ids() {
    let mut grid: Grid<u32> = Grid::new();
    let mut stored: Vec<(u32, Rectangle)> = Vec::new();
    let mut id: u32 = 0;
    for x in -6..6 {
        for y in -6..6 {
            let rec = Rectangle { x: x * 5, y: y * 7, width: 4, height: 6 };
            grid.insert(rec, id);
            stored.push((id, rec));
            id += 1;
        }
    }
    let query = Rectangle { x: -11, y: -3, width: 23, height: 19 };
    let mut found: Vec<u32> = Vec::new();
    let mut it = grid.intersects(query);
    while let Some(e) = it.next() {
        found.push(e);
    }
    for (e, rec) in stored.iter() {
        assert_eq!(found.contains(e), rec.intersects(query));
    }
}

#[test]
fn an_id_stored_again_is_found_at_its_new_place() {
    let mut grid: Grid<u8> = Grid::new();
    grid.insert(Rectangle { x: 0, y: 0, width: 4, height: 4 }, 7);
    grid.insert(Rectangle { x: 100, y: 100, width: 4, height: 4 }, 7);
    let mut it = grid.intersects(Rectangle { x: 0, y: 0, width: 4, height: 4 });
    assert_eq!(it.next(), None);
    let mut it = grid.intersects(Rectangle { x: 99, y: 99, width: 4, height: 4 });
    assert_eq!(it.next(), Some(7));
}
