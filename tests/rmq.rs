use idx::interval::{safe_i, Cases2, Cases3, Idx};
use idx::rmq::{
    adjusted_index, log2_down, log2_up, log_table_size, min, min3, power_of_two, round_down,
    round_up, smallest_in_range, BlockIdx, Point, Pow, PowerRMQImpl, TwoD,
};

#[test]
fn test_power_of_two() {
    assert!(power_of_two(0));
    assert!(power_of_two(1));
    assert!(power_of_two(2));
    assert!(!power_of_two(3));
    assert!(power_of_two(4));
    assert!(!power_of_two(5));
    assert!(!power_of_two(6));
    assert!(!power_of_two(7));
    assert!(power_of_two(8));
    assert!(!power_of_two(9));
}

#[test]
fn test_log2_down() {
    assert_eq!(Pow(0), log2_down(1));
    assert_eq!(Pow(1), log2_down(2));
    assert_eq!(Pow(1), log2_down(3));
    assert_eq!(Pow(2), log2_down(4));
    assert_eq!(Pow(2), log2_down(5));
    assert_eq!(Pow(2), log2_down(6));
    assert_eq!(Pow(2), log2_down(7));
    assert_eq!(Pow(3), log2_down(8));
    assert_eq!(Pow(3), log2_down(9));
    for i in 1..100 {
        let k = log2_down(i);
        assert!(k.value() <= i);
        if power_of_two(i) {
            assert_eq!(i, k.value());
        }
    }
}

#[test]
fn test_log2_up() {
    assert_eq!(Pow(0), log2_up(1));
    assert_eq!(Pow(1), log2_up(2));
    assert_eq!(Pow(2), log2_up(3));
    assert_eq!(Pow(2), log2_up(4));
    assert_eq!(Pow(3), log2_up(5));
    assert_eq!(Pow(3), log2_up(6));
    assert_eq!(Pow(3), log2_up(7));
    assert_eq!(Pow(3), log2_up(8));
    assert_eq!(Pow(4), log2_up(9));
    for i in 1..100 {
        let k = log2_up(i);
        assert!(i <= k.value());
        if i > 1 && power_of_two(i) {
            assert_eq!(i, k.value());
        }
    }
    for k in 2..10 {
        let i = 1 << k;
        assert_eq!(log2_up(i), Pow(k));
        assert_eq!(log2_down(i), Pow(k));
    }
}

#[test]
fn test_log_table_size() {
    assert_eq!(Pow(1), log_table_size(1));
    assert_eq!(Pow(2), log_table_size(2));
    assert_eq!(Pow(2), log_table_size(3));
    assert_eq!(Pow(3), log_table_size(4));
    assert_eq!(Pow(3), log_table_size(5));
    assert_eq!(Pow(3), log_table_size(6));
    assert_eq!(Pow(3), log_table_size(7));
    assert_eq!(Pow(4), log_table_size(8));
    assert_eq!(Pow(4), log_table_size(9));
}

#[test]
fn test_round() {
    let bs = 4;
    assert_eq!((BlockIdx(0), 0), round_down(0, bs));
    assert_eq!((BlockIdx(0), 0), round_up(0, bs));
    assert_eq!((BlockIdx(0), 0), round_down(1, bs));
    assert_eq!((BlockIdx(1), 4), round_up(1, bs));

    assert_eq!((BlockIdx(0), 0), round_down(2, bs));
    assert_eq!((BlockIdx(1), 4), round_up(2, bs));

    assert_eq!((BlockIdx(0), 0), round_down(3, bs));
    assert_eq!((BlockIdx(1), 4), round_up(3, bs));

    assert_eq!((BlockIdx(1), 4), round_down(4, bs));
    assert_eq!((BlockIdx(1), 4), round_up(4, bs));

    assert_eq!((BlockIdx(1), 4), round_down(5, bs));
    assert_eq!((BlockIdx(2), 8), round_up(5, bs));

    assert_eq!((BlockIdx(1), 4), round_down(6, bs));
    assert_eq!((BlockIdx(2), 8), round_up(6, bs));
}

#[test]
fn test_adjusted_index() {
    let (Pow(k), ii) = adjusted_index(0, 1);
    assert_eq!(k, 0);
    assert_eq!(ii, 0);

    let (Pow(k), ii) = adjusted_index(0, 2);
    assert_eq!(k, 1);
    assert_eq!(ii, 0);

    let (Pow(k), ii) = adjusted_index(0, 3);
    assert_eq!(k, 1);
    assert_eq!(ii, 1);

    let (Pow(k), ii) = adjusted_index(0, 4);
    assert_eq!(k, 2);
    assert_eq!(ii, 0);

    let (Pow(k), ii) = adjusted_index(0, 5);
    assert_eq!(k, 2);
    assert_eq!(ii, 1);

    let (Pow(k), ii) = adjusted_index(0, 6);
    assert_eq!(k, 2);
    assert_eq!(ii, 2);

    let (Pow(k), ii) = adjusted_index(0, 7);
    assert_eq!(k, 2);
    assert_eq!(ii, 3);

    let (Pow(k), ii) = adjusted_index(0, 8);
    assert_eq!(k, 3);
    assert_eq!(ii, 0);

    let (Pow(k), ii) = adjusted_index(1, 8);
    assert_eq!(k, 2);
    assert_eq!(ii, 4);

    let (Pow(k), ii) = adjusted_index(1, 9);
    assert_eq!(k, 3);
    assert_eq!(ii, 1);
}

#[test]
fn test_2d() {
    let n = 5;
    let mut tbl = TwoD::new(n);

    for i in 0..n {
        for j in i + 1..n + 1 {
            let (k, _) = adjusted_index(i, j);
            assert_eq!(0, tbl.get(i, k));
        }
    }

    for i in 0..n {
        for j in i + 1..n + 1 {
            // Keeps the largest matching j in the entry those j go to.
            let (k, _) = adjusted_index(i, j);
            tbl.set(i, k, j);
        }
    }
    for i in 0..n {
        for j in i + 1..n + 1 {
            let (k, _) = adjusted_index(i, j);
            assert!(j <= tbl.get(i, k));
        }
    }
}

fn check_min_in_interval(lcp: &[u32], i: usize, j: usize) {
    let Point(Idx(k), _) = smallest_in_range(lcp, idx::interval::i(Idx(i), Idx(j))).unwrap();
    assert!(i <= k);
    assert!(k < j);
    let v = lcp[k];
    for l in i..k {
        assert!(lcp[l] > v);
    }
    for l in k + 1..j {
        assert!(lcp[l] >= v)
    }
}

#[test]
fn test_rmq_power() {
    let v = vec![2, 1, 2, 5, 3, 6, 1, 3, 7, 4, 1, 2, 4, 5, 6, 7];
    let rmqa = PowerRMQImpl::new(v.clone());
    assert_eq!(rmqa.len(), 16);

    // The diagonal.
    for i in 0..v.len() {
        assert_eq!(Idx(i), rmqa.rmq(i, i + 1).idx());
    }

    // Ranges whose length is a power of two.
    for i in 0..v.len() {
        for k in [0, 1, 2, 3] {
            let j = i + (1 << k);
            if j > v.len() {
                continue;
            }
            let i1 = smallest_in_range(&v, idx::interval::i(Idx(i), Idx(j))).unwrap().idx();
            let i2 = rmqa.rmq(i, j).idx();
            assert_eq!(i1, i2);
        }
    }
}

#[test]
fn rmq_matches_scan_on_every_range() {
    let vs: Vec<Vec<u32>> = vec![
        vec![2, 1, 2, 5, 3, 6, 1, 3, 7, 4],
        vec![2, 1, 2, 5, 3, 6, 1, 3, 7, 4, 2, 6, 3, 4, 7, 9],
        vec![2, 1, 2, 0, 2, 1, 3, 7, 4],
        vec![2, 1, 2, 5, 3, 6, 1, 3],
    ];
    for v in vs {
        let rmqa = PowerRMQImpl::new(v.clone());
        for i in 0..v.len() {
            for j in i + 1..v.len() + 1 {
                check_min_in_interval(&v, i, j);
                let p = rmqa.rmq(i, j);
                let q = smallest_in_range(&v, idx::interval::i(Idx(i), Idx(j))).unwrap();
                assert_eq!(p, q);
            }
        }
    }
}

#[test]
fn rmq_prefers_the_leftmost_minimum() {
    let v = vec![3, 1, 1, 1];
    let rmqa = PowerRMQImpl::new(v.clone());
    assert_eq!(rmqa.rmq(0, 4), Point(Idx(1), 1));
    assert_eq!(rmqa.rmq(2, 4), Point(Idx(2), 1));
}

#[test]
fn smallest_in_empty_interval_is_none() {
    let v = vec![5u32, 4, 3];
    assert!(smallest_in_range(&v, idx::interval::i(Idx(2), Idx(2))).is_none());
}

#[test]
fn point_min_breaks_ties_by_index() {
    let a = Point(Idx(3), 7);
    let b = Point(Idx(1), 7);
    let c = Point(Idx(2), 5);
    assert_eq!(min(a, b), b);
    assert_eq!(min(b, a), b);
    assert_eq!(min3(a, b, c), c);
    assert_eq!(min(Some(a), None), Some(a));
    assert_eq!(min(None, Some(c)), Some(c));
    assert_eq!(min::<Option<Point>>(None, None), None);
    assert_eq!(Point::new(Idx(1), &[4, 9, 2]), Point(Idx(1), 9));
}

#[test]
fn pow_value_is_power_of_two() {
    assert_eq!(Pow(0).value(), 1);
    assert_eq!(Pow(5).value(), 32);
    assert_eq!(Pow(10).value(), 1024);
}

#[test]
fn round_up_exact_values() {
    assert_eq!(round_up(9, 3), (BlockIdx(3), 9));
    assert_eq!(round_up(10, 3), (BlockIdx(4), 12));
    assert_eq!(round_down(10, 3), (BlockIdx(3), 9));
}

#[test]
fn interval_cases_and_walk() {
    assert!(safe_i(Idx(3), Idx(2)).is_none());
    let iv = safe_i(Idx(2), Idx(5)).unwrap();
    assert!(!iv.is_empty());
    assert_eq!(iv.indices(), (Idx(2), Idx(5)));
    assert!(iv.contains(Idx(2)));
    assert!(iv.contains(Idx(4)));
    assert!(!iv.contains(Idx(5)));
    assert_eq!(iv.cases2(), Cases2::Range(Idx(2), Idx(5)));
    assert_eq!(iv.cases3(), Cases3::Range(Idx(2), Idx(5)));
    let mut it = iv.iter();
    assert_eq!(it.next(), Some(Idx(2)));
    assert_eq!(it.next(), Some(Idx(3)));
    assert_eq!(it.next(), Some(Idx(4)));
    assert_eq!(it.next(), None);

    let one = idx::interval::i(Idx(7), Idx(8));
    assert_eq!(one.cases3(), Cases3::Singleton(Idx(7)));
    let empty = idx::interval::i(Idx(7), Idx(7));
    assert!(empty.is_empty());
    assert_eq!(empty.cases2(), Cases2::Empty);
    assert_eq!(empty.cases3(), Cases3::Empty);
}

#[test]
fn exponents_and_blocks_are_ordered() {
    assert!(Pow(1) < Pow(2));
    assert!(Pow(3) >= Pow(3));
    assert!(BlockIdx(4) > BlockIdx(2));
    assert_eq!(BlockIdx(4).partial_cmp(&BlockIdx(4)), Some(std::cmp::Ordering::Equal));
}

#[test]
fn written_forms() {
    assert_eq!(idx::interval::i(Idx(3), Idx(3)).to_string(), "[]");
    assert_eq!(idx::interval::i(Idx(3), Idx(4)).to_string(), "[3]");
    assert_eq!(idx::interval::i(Idx(3), Idx(12)).to_string(), "[3,12)");
    assert_eq!(Pow(5).to_string(), "2^5");
    assert_eq!(BlockIdx(17).to_string(), "[17]");
    assert_eq!(Point(Idx(2), 40).to_string(), "Point(2,40)");
}

#[test]
fn table_written_out() {
    let mut tbl = TwoD::new(3);
    tbl.set(1, Pow(1), 7);
    assert_eq!(tbl.to_string(), "0 0 \n0 7 \n0 0 \n");
}
