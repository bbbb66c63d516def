use technobabble::rtree::{MortonPoint, MortonRectangle, Point, RTree, Rectangle};

#[test]
fn point() {
    let pt = Point::new(0, 0);
    assert_eq!(MortonPoint(0xC000_0000), MortonPoint::from(pt));

    let pt = Point::new(i16::MIN, i16::MIN);
    assert_eq!(MortonPoint(0x0000_0000), MortonPoint::from(pt));

    let pt = Point::new(i16::MAX, i16::MAX);
    assert_eq!(MortonPoint(0xFFFF_FFFF), MortonPoint::from(pt));

    let pt = Point::new(i16::MAX, i16::MIN);
    assert_eq!(MortonPoint(0x5555_5555), MortonPoint::from(pt));

    let pt = Point::new(i16::MIN, i16::MAX);
    assert_eq!(MortonPoint(0xAAAA_AAAA), MortonPoint::from(pt));
}

#[test]
fn encode() {
    for i in i16::MIN..i16::MAX {
        let src = Point::new(i, 0);
        let out = Point::from(MortonPoint::from(src));
        assert_eq!(src, out);
    }

    for i in i16::MIN..i16::MAX {
        let src = Point::new(0, i);
        let out = Point::from(MortonPoint::from(src));
        assert_eq!(src, out);
    }
}

#[test]
fn insert() {
    let mut keys: Vec<(Rectangle, (i16, i16))> = Vec::new();

    for x in -10i16..10 {
        for y in -10i16..10 {
            let rect = Rectangle {
                min: Point::new(x * 10, y * 10),
                max: Point::new(x * 10 + 5, y * 10 + 5),
            };
            keys.push((rect, (x, y)));
        }
    }

    let tree: RTree<(i16, i16)> = RTree::from_iter(keys);

    assert_eq!(
        400,
        tree.query(Rectangle {
            max: Point { x: 100, y: 100 },
            min: Point { x: -100, y: -100 },
        })
        .count()
    );

    for x in -10i16..10 {
        for y in -10i16..10 {
            assert_eq!(
                1,
                tree.query(Rectangle {
                    min: Point::new(x * 10, y * 10),
                    max: Point::new(x * 10 + 5, y * 10 + 5),
                })
                .count()
            );
        }
    }

    for x in -5i16..5 {
        for y in -5i16..5 {
            assert_eq!(
                4,
                tree.query(Rectangle {
                    min: Point::new(x * 20, y * 20),
                    max: Point::new(x * 20 + 15, y * 20 + 15),
                })
                .count()
            );
        }
    }

    for x in -2i16..2 {
        for y in -2i16..2 {
            assert_eq!(
                25,
                tree.query(Rectangle {
                    min: Point::new(x * 50, y * 50),
                    max: Point::new(x * 50 + 45, y * 50 + 45),
                })
                .count()
            );
        }
    }

    for x in -1i16..1 {
        for y in -1i16..1 {
            assert_eq!(
                100,
                tree.query(Rectangle {
                    min: Point::new(x * 100, y * 100),
                    max: Point::new(x * 100 + 95, y * 100 + 95),
                })
                .count()
            );
        }
    }
}

#[test]
fn insert_close() {
    let mut keys: Vec<(Rectangle, (i16, i16))> = Vec::new();

    for x in -100i16..100 {
        for y in -100i16..100 {
            let rect = Rectangle {
                min: Point::new(x, y),
                max: Point::new(x, y),
            };
            keys.push((rect, (x, y)));
        }
    }

    let tree: RTree<(i16, i16)> = RTree::from_iter(keys);

    let all = Rectangle {
        min: Point::new(-100, -100),
        max: Point::new(100, 100),
    };

    assert_eq!(tree.query(all).count(), 40_000);
}

fn rect(x0: i16, y0: i16, x1: i16, y1: i16) -> Rectangle {
    Rectangle {
        min: Point::new(x0, y0),
        max: Point::new(x1, y1),
    }
}

fn key_of(r: Rectangle) -> u32 {
    MortonRectangle::from(r).center()
}

fn collect<T: Copy>(tree: &RTree<T>, query: Rectangle) -> Vec<(Rectangle, T)> {
    let mut it = tree.query(query);
    let mut out: Vec<(Rectangle, T)> = Vec::new();
    while let Some((r, h)) = it.next() {
        out.push((*r, *h));
    }
    out
}

fn next_random(state: &mut u64) -> i16 {
    *state = state
        .wrapping_mul(6364136223846793005)
        .wrapping_add(1442695040888963407);
    ((*state >> 40) % 400) as i16 - 200
}

fn random_rect(state: &mut u64) -> Rectangle {
    let x: i16 = next_random(state);
    let y: i16 = next_random(state);
    let w: i16 = (next_random(state) + 200) % 40;
    let h: i16 = (next_random(state) + 200) % 40;
    rect(x, y, x + w, y + h)
}

#[test]
fn keys_interleave_the_biased_axes() {
    assert_eq!(MortonPoint::from(Point::new(i16::MIN + 1, i16::MIN)), MortonPoint(1));
    assert_eq!(MortonPoint::from(Point::new(i16::MIN, i16::MIN + 1)), MortonPoint(2));
    assert_eq!(MortonPoint::from(Point::new(i16::MIN + 3, i16::MIN + 2)), MortonPoint(0b1101));
    assert_eq!(MortonPoint::from(Point::new(-1, -1)), MortonPoint(0x3FFF_FFFF));
    assert_eq!(MortonPoint::from(Point::new(0, i16::MIN)), MortonPoint(0x4000_0000));
    assert_eq!(MortonPoint::from(Point::new(i16::MIN, 0)), MortonPoint(0x8000_0000));
}

#[test]
fn decoding_undoes_encoding_off_the_axes() {
    let mut state: u64 = 17;
    for _ in 0..2000 {
        let p = Point::new(
            (next_random(&mut state) as i32 * 163) as i16,
            (next_random(&mut state) as i32 * 163) as i16,
        );
        assert_eq!(Point::from(MortonPoint::from(p)), p);
    }
    let corner = Point::new(i16::MAX, i16::MAX);
    assert_eq!(Point::from(MortonPoint::from(corner)), corner);
}

#[test]
fn encoding_undoes_decoding() {
    for key in [0u32, 1, 2, 3, 0x5555_5555, 0xAAAA_AAAA, 0xDEAD_BEEF, 0xFFFF_FFFF] {
        assert_eq!(MortonPoint::from(Point::from(MortonPoint(key))), MortonPoint(key));
    }
    assert_eq!(Point::from(MortonPoint(0xC000_0000)), Point::new(0, 0));
    assert_eq!(Point::from(MortonPoint(0)), Point::new(i16::MIN, i16::MIN));
}

#[test]
fn morton_rectangle_round_trip_and_center() {
    let r = rect(-3, 4, 10, 20);
    let m = MortonRectangle::from(r);
    assert_eq!(m.min, MortonPoint::from(r.min));
    assert_eq!(m.max, MortonPoint::from(r.max));
    assert_eq!(Rectangle::from(m), r);
    assert_eq!(m.center(), (m.min.0 >> 1) + (m.max.0 >> 1));
    let all = MortonRectangle {
        min: MortonPoint(0xFFFF_FFFF),
        max: MortonPoint(0xFFFF_FFFF),
    };
    assert_eq!(all.center(), 0xFFFF_FFFE);
    let origin = rect(0, 0, 0, 0);
    assert_eq!(key_of(origin), 0xC000_0000);
    assert_eq!(technobabble::rtree::rectangle::center_key(&origin), 0xC000_0000);
}

#[test]
fn shared_edge_intersects_but_does_not_overlap() {
    let a = rect(0, 0, 5, 5);
    let b = rect(5, 0, 10, 5);
    let c = rect(5, 5, 10, 10);
    let d = rect(6, 0, 10, 5);
    let e = rect(4, 4, 6, 6);
    assert!(a.intersects(b));
    assert!(b.intersects(a));
    assert!(!a.overlaps(b));
    assert!(a.intersects(c));
    assert!(!a.overlaps(c));
    assert!(!a.intersects(d));
    assert!(!a.overlaps(d));
    assert!(a.intersects(e));
    assert!(a.overlaps(e));
    assert!(e.overlaps(a));
    let point = rect(3, 3, 3, 3);
    assert!(point.intersects(point));
    assert!(!point.overlaps(point));
    assert!(a.overlaps(a));
}

#[test]
fn extend_is_the_smallest_cover() {
    let a = rect(0, 0, 5, 5);
    let b = rect(-3, 2, 1, 9);
    assert_eq!(a.extend(b), rect(-3, 0, 5, 9));
    assert_eq!(b.extend(a), rect(-3, 0, 5, 9));
    assert_eq!(a.extend(a), a);
    let inner = rect(1, 1, 2, 2);
    assert_eq!(a.extend(inner), a);
}

#[test]
fn empty_index_finds_nothing() {
    let tree: RTree<u32> = RTree::new();
    assert_eq!(tree.query(rect(i16::MIN, i16::MIN, i16::MAX, i16::MAX)).count(), 0);
    assert_eq!(tree.query(rect(0, 0, 0, 0)).count(), 0);
    let mut it = tree.query(rect(-5, -5, 5, 5));
    assert!(it.next().is_none());
    assert!(it.next().is_none());
}

#[test]
fn cleared_index_finds_nothing() {
    let mut tree: RTree<u32> = RTree::new();
    let mut batch: Vec<(Rectangle, u32)> = Vec::new();
    for i in 0..100u32 {
        batch.push((rect(i as i16, 0, i as i16 + 1, 1), i));
    }
    tree.extend(batch);
    let all = rect(i16::MIN, i16::MIN, i16::MAX, i16::MAX);
    assert_eq!(tree.query(all).count(), 100);
    tree.clear();
    assert_eq!(tree.query(all).count(), 0);
    tree.extend(vec![(rect(0, 0, 1, 1), 5)]);
    assert_eq!(collect(&tree, all), vec![(rect(0, 0, 1, 1), 5)]);
}

#[test]
fn empty_batch_changes_nothing() {
    let mut state: u64 = 99;
    let mut batch: Vec<(Rectangle, usize)> = Vec::new();
    for i in 0..300 {
        batch.push((random_rect(&mut state), i));
    }
    let mut tree: RTree<usize> = RTree::from_iter(batch);
    let all = rect(i16::MIN, i16::MIN, i16::MAX, i16::MAX);
    let some = rect(-50, -50, 30, 80);
    let before_all = collect(&tree, all);
    let before_some = collect(&tree, some);
    tree.extend(Vec::new());
    assert_eq!(collect(&tree, all), before_all);
    assert_eq!(collect(&tree, some), before_some);
    assert_eq!(before_all.len(), 300);
}

#[test]
fn query_agrees_with_linear_scan() {
    let mut state: u64 = 2024;
    for round in 0..6usize {
        let size: usize = [0usize, 1, 7, 8, 65, 513][round];
        let mut stored: Vec<(Rectangle, usize)> = Vec::new();
        for i in 0..size {
            stored.push((random_rect(&mut state), i));
        }
        let tree: RTree<usize> = RTree::from_iter(stored.clone());
        for _ in 0..50 {
            let query = random_rect(&mut state);
            let mut found: Vec<usize> = Vec::new();
            for (r, h) in collect(&tree, query) {
                assert!(r.intersects(query));
                found.push(h);
            }
            let mut expected: Vec<usize> = Vec::new();
            for (r, h) in stored.iter() {
                if r.intersects(query) {
                    expected.push(*h);
                }
            }
            assert_eq!(found.len(), expected.len());
            found.sort();
            assert_eq!(found, expected);
            assert_eq!(tree.query(query).count(), expected.len());
        }
    }
}

#[test]
fn matches_come_in_order_of_their_keys() {
    let mut batch: Vec<(Rectangle, i16)> = Vec::new();
    for i in (0..64i16).rev() {
        batch.push((rect(i * 3, -i, i * 3 + 2, -i + 2), i));
    }
    let tree: RTree<i16> = RTree::from_iter(batch.clone());
    let got = collect(&tree, rect(i16::MIN, i16::MIN, i16::MAX, i16::MAX));
    assert_eq!(got.len(), 64);
    for pair in got.windows(2) {
        assert!(key_of(pair[0].0) <= key_of(pair[1].0));
    }
    let mut expected = batch;
    expected.sort_by_key(|v| key_of(v.0));
    assert_eq!(got, expected);
    assert_ne!(got[0].1, 63);
}

#[test]
fn equal_keys_keep_their_order() {
    let r = rect(1, 1, 4, 4);
    let mut tree: RTree<u8> = RTree::new();
    tree.extend(vec![(r, 1), (r, 2), (r, 3)]);
    tree.extend(vec![(r, 4), (rect(i16::MIN, i16::MIN, i16::MIN, i16::MIN), 0)]);
    let got = collect(&tree, rect(i16::MIN, i16::MIN, i16::MAX, i16::MAX));
    let handles: Vec<u8> = got.iter().map(|v| v.1).collect();
    assert_eq!(handles, vec![0, 1, 2, 3, 4]);
}

#[test]
fn second_batch_is_merged_with_the_first() {
    let mut tree: RTree<u32> = RTree::new();
    let mut first: Vec<(Rectangle, u32)> = Vec::new();
    let mut second: Vec<(Rectangle, u32)> = Vec::new();
    for i in 0..40u32 {
        first.push((rect(i as i16 * 2, 0, i as i16 * 2 + 1, 1), i));
        second.push((rect(i as i16 * 2, 10, i as i16 * 2 + 1, 11), 100 + i));
    }
    tree.extend(first);
    tree.extend(second);
    assert_eq!(tree.query(rect(0, 0, 100, 1)).count(), 40);
    assert_eq!(tree.query(rect(0, 10, 100, 11)).count(), 40);
    assert_eq!(tree.query(rect(0, 0, 100, 11)).count(), 80);
    assert_eq!(tree.query(rect(0, 2, 100, 9)).count(), 0);
    assert_eq!(tree.query(rect(4, 1, 4, 10)).count(), 2);
}

#[test]
fn a_search_yields_each_match_once_and_then_stops() {
    let tree: RTree<char> = RTree::from_iter(vec![
        (rect(0, 0, 1, 1), 'a'),
        (rect(5, 5, 6, 6), 'b'),
        (rect(1, 1, 5, 5), 'c'),
    ]);
    let mut it = tree.query(rect(1, 1, 2, 2));
    let mut seen: Vec<char> = Vec::new();
    while let Some((r, h)) = it.next() {
        assert!(r.intersects(rect(1, 1, 2, 2)));
        seen.push(*h);
    }
    seen.sort();
    assert_eq!(seen, vec!['a', 'c']);
    assert!(it.next().is_none());
}
