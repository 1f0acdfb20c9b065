use bitmagic::BVector;

#[test]
fn it_works() {
    const N: usize = 50;
    let mut fb = BVector::with_capacity(N);

    for i in 0..(N + 10) {
        assert!(!fb.contains(i));
    }

    fb.insert(10);
    fb.set(11, false);
    fb.set(12, false);
    fb.set(12, true);
    fb.set(N - 1, true);

    assert!(fb.contains(10));
    assert!(!fb.contains(11));
    assert!(fb.contains(12));
    assert!(fb.contains(N - 1));
    for i in 0..N {
        let contain = i == 10 || i == 12 || i == N - 1;
        assert_eq!(contain, *fb.index(i));
    }

    fb.clear();
}

#[test]
fn grow() {
    let mut fb = BVector::with_capacity(48);
    for i in 0..fb.len() {
        fb.set(i, true);
    }

    let old_len = fb.len();
    fb.grow(72);
    for j in 0..fb.len() {
        assert_eq!(fb.contains(j), j < old_len);
    }
    fb.set(64, true);
    assert!(fb.contains(64));
}

#[test]
fn test_toggle() {
    let mut fb = BVector::with_capacity(16);
    fb.toggle(1);
    fb.put(2);
    fb.toggle(2);
    fb.put(3);
    assert!(fb.contains(1));
    assert!(!fb.contains(2));
    assert!(fb.contains(3));
}

#[test]
fn copy_bit() {
    let mut fb = BVector::with_capacity(48);
    for i in 0..fb.len() {
        fb.set(i, true);
    }
    fb.set(42, false);
    fb.copy_bit(42, 2);
    assert!(!fb.contains(42));
    assert!(!fb.contains(2));
    assert!(fb.contains(1));
    fb.copy_bit(1, 42);
    assert!(fb.contains(42));
    fb.copy_bit(1024, 42);
    assert!(!*fb.index(42));
}

#[test]
fn count_ones() {
    let mut fb = BVector::with_capacity(100);
    fb.set(11, true);
    fb.set(12, true);
    fb.set(7, true);
    fb.set(35, true);
    fb.set(40, true);
    fb.set(77, true);
    fb.set(95, true);
    fb.set(50, true);
    fb.set(99, true);
    assert_eq!(fb.count_ones(..7), 0);
    assert_eq!(fb.count_ones(..8), 1);
    assert_eq!(fb.count_ones(..11), 1);
    assert_eq!(fb.count_ones(..12), 2);
    assert_eq!(fb.count_ones(..13), 3);
    assert_eq!(fb.count_ones(..35), 3);
    assert_eq!(fb.count_ones(..36), 4);
    assert_eq!(fb.count_ones(..40), 4);
    assert_eq!(fb.count_ones(..41), 5);
    assert_eq!(fb.count_ones(50..), 4);
    assert_eq!(fb.count_ones(70..95), 1);
    assert_eq!(fb.count_ones(70..96), 2);
    assert_eq!(fb.count_ones(70..99), 2);
    assert_eq!(fb.count_ones(..), 9);
    assert_eq!(fb.count_ones(0..100), 9);
    assert_eq!(fb.count_ones(0..0), 0);
    assert_eq!(fb.count_ones(100..100), 0);
    assert_eq!(fb.count_ones(7..), 9);
    assert_eq!(fb.count_ones(8..), 8);
}

#[test]
fn ones() {
    let mut fb = BVector::with_capacity(100);
    fb.set(11, true);
    fb.set(12, true);
    fb.set(7, true);
    fb.set(35, true);
    fb.set(40, true);
    fb.set(77, true);
    fb.set(95, true);
    fb.set(50, true);
    fb.set(99, true);

    let ones: Vec<usize> = fb.ones().collect();

    assert_eq!(vec![7, 11, 12, 35, 40, 50, 77, 95, 99], ones);
}

#[test]
fn iter_ones_range() {
    fn test_range(from: usize, to: usize, capa: usize) {
        assert!(to <= capa);
        let mut fb = BVector::with_capacity(capa);
        for i in from..to {
            fb.insert(i);
        }
        let ones: Vec<usize> = fb.ones().collect();
        let expected: Vec<usize> = (from..to).collect();
        assert_eq!(expected, ones);
    }

    for i in 0..100 {
        test_range(i, 100, 100);
        test_range(0, i, 100);
    }
}

#[test]
fn count_ones_panic() {
    for i in 1..128 {
        let fb = BVector::with_capacity(i);
        for j in 0..fb.len() + 1 {
            for k in j..fb.len() + 1 {
                assert_eq!(fb.count_ones(j..k), 0);
            }
        }
    }
}

#[test]
fn default() {
    let fb = BVector::default();
    assert_eq!(fb.len(), 0);
}

#[test]
fn insert_range() {
    let mut fb = BVector::with_capacity(97);
    fb.insert_range(..3);
    fb.insert_range(9..32);
    fb.insert_range(37..81);
    fb.insert_range(90..);
    for i in 0..97 {
        assert_eq!(
            fb.contains(i),
            i < 3 || (9..32).contains(&i) || (37..81).contains(&i) || 90 <= i
        );
    }
    assert!(!fb.contains(97));
    assert!(!fb.contains(127));
    assert!(!fb.contains(128));
}

#[test]
fn set_range() {
    let mut fb = BVector::with_capacity(48);
    fb.insert_range(..);

    fb.set_range(..32, false);
    fb.set_range(37.., false);
    fb.set_range(5..9, true);
    fb.set_range(40..40, true);

    for i in 0..48 {
        assert_eq!(fb.contains(i), (5..9).contains(&i) || (32..37).contains(&i));
    }
    assert!(!fb.contains(48));
    assert!(!fb.contains(64));
}

#[test]
fn toggle_range() {
    let mut fb = BVector::with_capacity(40);
    fb.insert_range(..10);
    fb.insert_range(34..38);

    fb.toggle_range(5..12);
    fb.toggle_range(30..);

    for i in 0..40 {
        assert_eq!(
            fb.contains(i),
            i < 5 || (10..12).contains(&i) || (30..34).contains(&i) || 38 <= i
        );
    }
    assert!(!fb.contains(40));
    assert!(!fb.contains(64));
}

#[test]
fn bitand_equal_lengths() {
    let len = 109;
    let a_end = 59;
    let b_start = 23;
    let mut a = BVector::with_capacity(len);
    let mut b = BVector::with_capacity(len);
    a.set_range(..a_end, true);
    b.set_range(b_start.., true);
    let ab = a.bitand(&b);
    for i in 0..b_start {
        assert!(!ab.contains(i));
    }
    for i in b_start..a_end {
        assert!(ab.contains(i));
    }
    for i in a_end..len {
        assert!(!ab.contains(i));
    }
    assert_eq!(a.len(), ab.len());
}

#[test]
fn bitand_first_smaller() {
    let a_len = 113;
    let b_len = 137;
    let len = std::cmp::min(a_len, b_len);
    let a_end = 97;
    let b_start = 89;
    let mut a = BVector::with_capacity(a_len);
    let mut b = BVector::with_capacity(b_len);
    a.set_range(..a_end, true);
    b.set_range(b_start.., true);
    let ab = a.bitand(&b);
    for i in 0..b_start {
        assert!(!ab.contains(i));
    }
    for i in b_start..a_end {
        assert!(ab.contains(i));
    }
    for i in a_end..len {
        assert!(!ab.contains(i));
    }
    assert_eq!(a.len(), ab.len());
}

#[test]
fn bitand_first_larger() {
    let a_len = 173;
    let b_len = 137;
    let len = std::cmp::min(a_len, b_len);
    let a_end = 107;
    let b_start = 43;
    let mut a = BVector::with_capacity(a_len);
    let mut b = BVector::with_capacity(b_len);
    a.set_range(..a_end, true);
    b.set_range(b_start.., true);
    let ab = a.bitand(&b);
    for i in 0..b_start {
        assert!(!ab.contains(i));
    }
    for i in b_start..a_end {
        assert!(ab.contains(i));
    }
    for i in a_end..len {
        assert!(!ab.contains(i));
    }
    assert_eq!(b.len(), ab.len());
}

#[test]
fn intersection() {
    let len = 109;
    let a_end = 59;
    let b_start = 23;
    let mut a = BVector::with_capacity(len);
    let mut b = BVector::with_capacity(len);
    a.set_range(..a_end, true);
    b.set_range(b_start.., true);

    let mut ab = BVector::from_iter(&a.intersection(&b).collect());

    for i in 0..b_start {
        assert!(!ab.contains(i));
    }
    for i in b_start..a_end {
        assert!(ab.contains(i));
    }
    for i in a_end..len {
        assert!(!ab.contains(i));
    }

    a.intersect_with(&b);
    // intersection + collect produces the same results but with a shorter length.
    ab.grow(a.len());
    assert_eq!(
        ab, a,
        "intersection and intersect_with produce the same results"
    );
}

#[test]
fn union() {
    let a_len = 173;
    let b_len = 137;
    let a_start = 139;
    let b_end = 107;
    let mut a = BVector::with_capacity(a_len);
    let mut b = BVector::with_capacity(b_len);
    a.set_range(a_start.., true);
    b.set_range(..b_end, true);
    let ab = BVector::from_iter(&a.union(&b).collect());
    for i in a_start..a_len {
        assert!(ab.contains(i));
    }
    for i in 0..b_end {
        assert!(ab.contains(i));
    }
    for i in b_end..a_start {
        assert!(!ab.contains(i));
    }

    a.union_with(&b);
    assert_eq!(ab, a, "union and union_with produce the same results");
}

#[test]
fn difference() {
    let a_len = 83;
    let b_len = 151;
    let a_start = 0;
    let a_end = 79;
    let b_start = 53;
    let mut a = BVector::with_capacity(a_len);
    let mut b = BVector::with_capacity(b_len);
    a.set_range(a_start..a_end, true);
    b.set_range(b_start..b_len, true);
    let mut a_diff_b = BVector::from_iter(&a.difference(&b).collect());
    for i in a_start..b_start {
        assert!(a_diff_b.contains(i));
    }
    for i in b_start..b_len {
        assert!(!a_diff_b.contains(i));
    }

    a.difference_with(&b);
    // difference + collect produces the same results but with a shorter length.
    a_diff_b.grow(a.len());
    assert_eq!(
        a_diff_b, a,
        "difference and difference_with produce the same results"
    );
}

#[test]
fn symmetric_difference() {
    let a_len = 83;
    let b_len = 151;
    let a_start = 47;
    let a_end = 79;
    let b_start = 53;
    let mut a = BVector::with_capacity(a_len);
    let mut b = BVector::with_capacity(b_len);
    a.set_range(a_start..a_end, true);
    b.set_range(b_start..b_len, true);
    let a_sym_diff_b = BVector::from_iter(&a.symmetric_difference(&b).collect());
    for i in 0..a_start {
        assert!(!a_sym_diff_b.contains(i));
    }
    for i in a_start..b_start {
        assert!(a_sym_diff_b.contains(i));
    }
    for i in b_start..a_end {
        assert!(!a_sym_diff_b.contains(i));
    }
    for i in a_end..b_len {
        assert!(a_sym_diff_b.contains(i));
    }

    a.symmetric_difference_with(&b);
    assert_eq!(
        a_sym_diff_b, a,
        "symmetric_difference and _with produce the same results"
    );
}

#[test]
fn bitor_equal_lengths() {
    let len = 109;
    let a_start = 17;
    let a_end = 23;
    let b_start = 19;
    let b_end = 59;
    let mut a = BVector::with_capacity(len);
    let mut b = BVector::with_capacity(len);
    a.set_range(a_start..a_end, true);
    b.set_range(b_start..b_end, true);
    let ab = a.bitor(&b);
    for i in 0..a_start {
        assert!(!ab.contains(i));
    }
    for i in a_start..b_end {
        assert!(ab.contains(i));
    }
    for i in b_end..len {
        assert!(!ab.contains(i));
    }
    assert_eq!(ab.len(), len);
}

#[test]
fn bitor_first_smaller() {
    let a_len = 113;
    let b_len = 137;
    let a_end = 89;
    let b_start = 97;
    let mut a = BVector::with_capacity(a_len);
    let mut b = BVector::with_capacity(b_len);
    a.set_range(..a_end, true);
    b.set_range(b_start.., true);
    let ab = a.bitor(&b);
    for i in 0..a_end {
        assert!(ab.contains(i));
    }
    for i in a_end..b_start {
        assert!(!ab.contains(i));
    }
    for i in b_start..b_len {
        assert!(ab.contains(i));
    }
    assert_eq!(b_len, ab.len());
}

#[test]
fn bitor_first_larger() {
    let a_len = 173;
    let b_len = 137;
    let a_start = 139;
    let b_end = 107;
    let mut a = BVector::with_capacity(a_len);
    let mut b = BVector::with_capacity(b_len);
    a.set_range(a_start.., true);
    b.set_range(..b_end, true);
    let ab = a.bitor(&b);
    for i in a_start..a_len {
        assert!(ab.contains(i));
    }
    for i in 0..b_end {
        assert!(ab.contains(i));
    }
    for i in b_end..a_start {
        assert!(!ab.contains(i));
    }
    assert_eq!(a_len, ab.len());
}

#[test]
fn bitxor_equal_lengths() {
    let len = 109;
    let a_end = 59;
    let b_start = 23;
    let mut a = BVector::with_capacity(len);
    let mut b = BVector::with_capacity(len);
    a.set_range(..a_end, true);
    b.set_range(b_start.., true);
    let ab = a.bitxor(&b);
    for i in 0..b_start {
        assert!(ab.contains(i));
    }
    for i in b_start..a_end {
        assert!(!ab.contains(i));
    }
    for i in a_end..len {
        assert!(ab.contains(i));
    }
    assert_eq!(a.len(), ab.len());
}

#[test]
fn bitxor_first_smaller() {
    let a_len = 113;
    let b_len = 137;
    let len = std::cmp::max(a_len, b_len);
    let a_end = 97;
    let b_start = 89;
    let mut a = BVector::with_capacity(a_len);
    let mut b = BVector::with_capacity(b_len);
    a.set_range(..a_end, true);
    b.set_range(b_start.., true);
    let ab = a.bitxor(&b);
    for i in 0..b_start {
        assert!(ab.contains(i));
    }
    for i in b_start..a_end {
        assert!(!ab.contains(i));
    }
    for i in a_end..len {
        assert!(ab.contains(i));
    }
    assert_eq!(b.len(), ab.len());
}

#[test]
fn bitxor_first_larger() {
    let a_len = 173;
    let b_len = 137;
    let len = std::cmp::max(a_len, b_len);
    let a_end = 107;
    let b_start = 43;
    let mut a = BVector::with_capacity(a_len);
    let mut b = BVector::with_capacity(b_len);
    a.set_range(..a_end, true);
    b.set_range(b_start.., true);
    let ab = a.bitxor(&b);
    for i in 0..b_start {
        assert!(ab.contains(i));
    }
    for i in b_start..a_end {
        assert!(!ab.contains(i));
    }
    for i in a_end..b_len {
        assert!(ab.contains(i));
    }
    for i in b_len..len {
        assert!(!ab.contains(i));
    }
    assert_eq!(a.len(), ab.len());
}

#[test]
fn bitand_assign_shorter() {
    let a_ones: Vec<usize> = vec![2, 3, 7, 19, 31, 32, 37, 41, 43, 47, 71, 73, 101];
    let b_ones: Vec<usize> = vec![2, 7, 8, 11, 23, 31, 32];
    let a_and_b: Vec<usize> = vec![2, 7, 31, 32];
    let mut a = BVector::from_iter(&a_ones);
    let b = BVector::from_iter(&b_ones);
    a.bitand_assign(&b);
    let res = a.ones().collect();

    assert!(res == a_and_b);
}

#[test]
fn bitand_assign_longer() {
    let a_ones: Vec<usize> = vec![2, 7, 8, 11, 23, 31, 32];
    let b_ones: Vec<usize> = vec![2, 3, 7, 19, 31, 32, 37, 41, 43, 47, 71, 73, 101];
    let a_and_b: Vec<usize> = vec![2, 7, 31, 32];
    let mut a = BVector::from_iter(&a_ones);
    let b = BVector::from_iter(&b_ones);
    a.bitand_assign(&b);
    let res = a.ones().collect();
    assert!(res == a_and_b, "{:?}", res);
}

#[test]
fn bitor_assign_shorter() {
    let a_ones: Vec<usize> = vec![2, 3, 7, 19, 31, 32, 37, 41, 43, 47, 71, 73, 101];
    let b_ones: Vec<usize> = vec![2, 7, 8, 11, 23, 31, 32];
    let a_or_b: Vec<usize> = vec![2, 3, 7, 8, 11, 19, 23, 31, 32, 37, 41, 43, 47, 71, 73, 101];
    let mut a = BVector::from_iter(&a_ones);
    let b = BVector::from_iter(&b_ones);
    a.bitor_assign(&b);
    let res = a.ones().collect();
    assert!(res == a_or_b);
}

#[test]
fn bitor_assign_longer() {
    let a_ones: Vec<usize> = vec![2, 7, 8, 11, 23, 31, 32];
    let b_ones: Vec<usize> = vec![2, 3, 7, 19, 31, 32, 37, 41, 43, 47, 71, 73, 101];
    let a_or_b: Vec<usize> = vec![2, 3, 7, 8, 11, 19, 23, 31, 32, 37, 41, 43, 47, 71, 73, 101];
    let mut a = BVector::from_iter(&a_ones);
    let b = BVector::from_iter(&b_ones);
    a.bitor_assign(&b);
    let res = a.ones().collect();
    assert!(res == a_or_b);
}

#[test]
fn bitxor_assign_shorter() {
    let a_ones: Vec<usize> = vec![2, 3, 7, 19, 31, 32, 37, 41, 43, 47, 71, 73, 101];
    let b_ones: Vec<usize> = vec![2, 7, 8, 11, 23, 31, 32];
    let a_xor_b: Vec<usize> = vec![3, 8, 11, 19, 23, 37, 41, 43, 47, 71, 73, 101];
    let mut a = BVector::from_iter(&a_ones);
    let b = BVector::from_iter(&b_ones);
    a.bitxor_assign(&b);
    let res = a.ones().collect();
    assert!(res == a_xor_b);
}

#[test]
fn bitxor_assign_longer() {
    let a_ones: Vec<usize> = vec![2, 7, 8, 11, 23, 31, 32];
    let b_ones: Vec<usize> = vec![2, 3, 7, 19, 31, 32, 37, 41, 43, 47, 71, 73, 101];
    let a_xor_b: Vec<usize> = vec![3, 8, 11, 19, 23, 37, 41, 43, 47, 71, 73, 101];
    let mut a = BVector::from_iter(&a_ones);
    let b = BVector::from_iter(&b_ones);
    a.bitxor_assign(&b);
    let res = a.ones().collect();
    assert!(res == a_xor_b);
}

#[test]
fn op_assign_ref() {
    let mut a = BVector::with_capacity(8);
    let b = BVector::with_capacity(8);

    //check that all assign type operators work on references
    a.bitand_assign(&b);
    a.bitor_assign(&b);
    a.bitxor_assign(&b);
}

#[test]
fn subset_superset_shorter() {
    let a_ones: Vec<usize> = vec![7, 31, 32, 63];
    let b_ones: Vec<usize> = vec![2, 7, 19, 31, 32, 37, 41, 43, 47, 63, 73, 101];
    let mut a = BVector::from_iter(&a_ones);
    let b = BVector::from_iter(&b_ones);
    assert!(a.is_subset(&b) && b.is_superset(&a));
    a.insert(14);
    assert!(!a.is_subset(&b) && !b.is_superset(&a));
}

#[test]
fn subset_superset_longer() {
    let a_len = 153;
    let b_len = 75;
    let a_ones: Vec<usize> = vec![7, 31, 32, 63];
    let b_ones: Vec<usize> = vec![2, 7, 19, 31, 32, 37, 41, 43, 47, 63, 73];
    let mut a = BVector::with_capacity(a_len);
    let mut b = BVector::with_capacity(b_len);
    a.extend(&a_ones);
    b.extend(&b_ones);
    assert!(a.is_subset(&b) && b.is_superset(&a));
    a.insert(100);
    assert!(!a.is_subset(&b) && !b.is_superset(&a));
}

#[test]
fn is_disjoint_first_shorter() {
    let a_len = 75;
    let b_len = 153;
    let a_ones: Vec<usize> = vec![2, 19, 32, 37, 41, 43, 47, 73];
    let b_ones: Vec<usize> = vec![7, 23, 31, 63, 124];
    let mut a = BVector::with_capacity(a_len);
    let mut b = BVector::with_capacity(b_len);
    a.extend(&a_ones);
    b.extend(&b_ones);
    assert!(a.is_disjoint(&b));
    a.insert(63);
    assert!(!a.is_disjoint(&b));
}

#[test]
fn is_disjoint_first_longer() {
    let a_ones: Vec<usize> = vec![2, 19, 32, 37, 41, 43, 47, 73, 101];
    let b_ones: Vec<usize> = vec![7, 23, 31, 63];
    let a = BVector::from_iter(&a_ones);
    let mut b = BVector::from_iter(&b_ones);
    assert!(a.is_disjoint(&b));
    b.insert(2);
    assert!(!a.is_disjoint(&b));
}

#[test]
fn extend_on_empty() {
    let items: Vec<usize> = vec![2, 3, 5, 7, 11, 13, 17, 19, 23, 27, 29, 31, 37, 167];
    let mut fbs = BVector::with_capacity(0);
    fbs.extend(&items);
    let ones = fbs.ones().collect();
    assert!(ones == items);
}

#[test]
fn extend() {
    let items: Vec<usize> = vec![2, 3, 5, 7, 11, 13, 17, 19, 23, 27, 29, 31, 37, 167];
    let mut fbs = BVector::with_capacity(168);
    let new: Vec<usize> = vec![7, 37, 67, 137];
    for i in &new {
        fbs.put(*i);
    }

    fbs.extend(&items);

    let ones = fbs.ones().collect();
    let expected = {
        let mut tmp = items.clone();
        tmp.extend(new);
        tmp.sort_unstable();
        tmp.dedup();
        tmp
    };

    assert!(ones == expected);
}

#[test]
fn from_iterator() {
    let items: Vec<usize> = vec![0, 2, 4, 6, 8];
    let fb = BVector::from_iter(&items);
    for i in items {
        assert!(fb.contains(i));
    }
    for i in &[1usize, 3, 5, 7] {
        assert!(!fb.contains(*i));
    }
    assert_eq!(fb.len(), 9);
}

#[test]
fn from_iterator_ones() {
    let len = 257;
    let mut fb = BVector::with_capacity(len);
    for i in (0..len).filter(|i| i % 7 == 0) {
        fb.put(i);
    }
    fb.put(len - 1);
    let dup = BVector::from_iter(&fb.ones().collect());

    assert_eq!(fb.len(), dup.len());
    assert_eq!(
        fb.ones().collect(),
        dup.ones().collect()
    );
}

#[test]
fn binary_trait() {
    let items: Vec<usize> = vec![1, 5, 7, 10, 14, 15];
    let fb = BVector::from_iter(&items);

    assert_eq!(fb.fmt(false), "0100010100100011");
    assert_eq!(fb.fmt(true), "0b0100010100100011");
}

#[test]
fn display_trait() {
    let len = 8;
    let mut fb = BVector::with_capacity(len);

    fb.put(4);
    fb.put(2);

    assert_eq!(fb.fmt(false), "00101000");
    assert_eq!(fb.fmt(true), "0b00101000");
}

#[test]
fn new_is_empty() {
    let fb = BVector::new();
    assert_eq!(fb.len(), 0);
    assert!(fb.is_empty());
    assert!(!fb.contains(0));
    assert_eq!(fb.count_ones(..), 0);
    assert_eq!(fb.ones().collect(), Vec::<usize>::new());
}

#[test]
fn is_empty_is_about_the_length() {
    let fb = BVector::with_capacity(3);
    assert!(!fb.is_empty());
    assert_eq!(fb.count_ones(..), 0);
}

#[test]
fn reserved_capacity_reads_as_length_zero() {
    let mut fb = BVector::with_capacity(4294967295);
    assert_eq!(fb.len(), 0);
    assert!(fb.is_empty());
    assert!(!fb.contains(0));
    fb.grow(10);
    assert_eq!(fb.len(), 10);
    fb.grow(4294967295);
    assert_eq!(fb.len(), 0);
}

#[test]
fn put_returns_the_previous_value() {
    let mut fb = BVector::with_capacity(8);
    assert!(!fb.put(3));
    assert!(fb.put(3));
    assert!(fb.contains(3));
}

#[test]
fn clear_keeps_the_length() {
    let mut fb = BVector::with_capacity(8);
    fb.insert_range(..);
    assert_eq!(fb.count_ones(..), 8);
    fb.clear();
    assert_eq!(fb.len(), 8);
    assert_eq!(fb.count_ones(..), 0);
}

#[test]
fn contains_agrees_with_ones() {
    let fb = BVector::from_iter(&[0, 3, 4, 9, 63, 64]);
    let ones = fb.ones().collect();
    for p in 0..fb.len() {
        assert_eq!(fb.contains(p), ones.contains(&p));
    }
}

#[test]
fn grow_keeps_old_bits_and_clears_new_ones() {
    let mut fb = BVector::with_capacity(10);
    fb.insert_range(..);
    fb.grow(4);
    assert_eq!(fb.len(), 4);
    fb.grow(12);
    assert_eq!(fb.len(), 12);
    for p in 0..12 {
        assert_eq!(fb.contains(p), p < 4);
    }
}

#[test]
fn ones_of_a_bit_at_zero() {
    let fb = BVector::from_iter(&[0]);
    assert_eq!(fb.ones().collect(), vec![0]);
    let fb = BVector::from_iter(&[0, 1, 5]);
    assert_eq!(fb.ones().collect(), vec![0, 1, 5]);
    let mut iter = fb.ones();
    assert_eq!(iter.next(), Some(0));
    assert_eq!(iter.next(), Some(1));
    assert_eq!(iter.next(), Some(5));
    assert_eq!(iter.next(), None);
    assert_eq!(iter.next(), None);
}

#[test]
fn count_ones_scenario() {
    let fb = BVector::from_iter(&[7, 11, 12, 35, 40, 50, 77, 95, 99]);
    assert_eq!(fb.len(), 100);
    assert_eq!(fb.ones().collect(), vec![7, 11, 12, 35, 40, 50, 77, 95, 99]);
    assert_eq!(fb.count_ones(..36), 4);
    assert_eq!(fb.count_ones(70..96), 2);
    assert_eq!(fb.count_ones(..), fb.ones().collect().len());
}

#[test]
fn count_ones_of_zero_width_with_bit_zero_set() {
    let fb = BVector::from_iter(&[0, 1, 2]);
    assert_eq!(fb.count_ones(0..0), 0);
    assert_eq!(fb.count_ones(1..1), 0);
    assert_eq!(fb.count_ones(3..3), 0);
    assert_eq!(fb.count_ones(3..), 0);
    assert_eq!(fb.count_ones(..0), 0);
    assert_eq!(fb.count_ones(0..1), 1);
}

#[test]
fn parse_range_gives_inclusive_bounds() {
    let fb = BVector::with_capacity(10);
    assert_eq!(fb.parse_range(..), Some((0, 9)));
    assert_eq!(fb.parse_range(2..), Some((2, 9)));
    assert_eq!(fb.parse_range(..7), Some((0, 6)));
    assert_eq!(fb.parse_range(3..4), Some((3, 3)));
    assert_eq!(fb.parse_range(3..3), None);
    assert_eq!(fb.parse_range(10..), None);
    assert_eq!(BVector::new().parse_range(..), None);
}

#[test]
fn and_xor_of_two_sets() {
    let a = BVector::from_iter(&[2, 3, 7, 19, 31, 32, 37, 41, 43, 47, 71, 73, 101]);
    let b = BVector::from_iter(&[2, 7, 8, 11, 23, 31, 32]);
    assert_eq!(a.bitand(&b).ones().collect(), vec![2, 7, 31, 32]);
    assert_eq!(
        a.bitxor(&b).ones().collect(),
        vec![3, 8, 11, 19, 23, 37, 41, 43, 47, 71, 73, 101]
    );
    assert_eq!(a.bitand(&b).len(), 33);
    assert_eq!(b.bitand(&a).len(), 33);
    assert_eq!(a.bitor(&b).len(), 102);
    assert_eq!(a.bitxor(&b).len(), 102);
    assert_eq!(b.bitxor(&a).len(), 102);
}

#[test]
fn in_place_combinators_stretch_the_length() {
    let long = BVector::from_iter(&[1, 40]);
    let mut short = BVector::from_iter(&[1, 2]);
    short.intersect_with(&long);
    assert_eq!(short.len(), 41);
    assert_eq!(short.ones().collect(), vec![1]);

    let mut short = BVector::from_iter(&[1, 2]);
    short.difference_with(&long);
    assert_eq!(short.len(), 41);
    assert_eq!(short.ones().collect(), vec![2]);

    let mut short = BVector::from_iter(&[1, 2]);
    short.union_with(&long);
    assert_eq!(short.len(), 41);
    assert_eq!(short.ones().collect(), vec![1, 2, 40]);

    let mut short = BVector::from_iter(&[1, 2]);
    short.symmetric_difference_with(&long);
    assert_eq!(short.len(), 41);
    assert_eq!(short.ones().collect(), vec![2, 40]);

    let mut keep = BVector::from_iter(&[1, 40]);
    keep.intersect_with(&BVector::from_iter(&[1, 2]));
    assert_eq!(keep.len(), 41);
    assert_eq!(keep.ones().collect(), vec![1]);
}

#[test]
fn combination_counts() {
    let a = BVector::from_iter(&[2, 3, 7, 19]);
    let b = BVector::from_iter(&[2, 7, 8]);
    assert_eq!(a.intersection_count(&b), 2);
    assert_eq!(a.union_count(&b), 5);
    assert_eq!(a.difference_count(&b), 2);
    assert_eq!(b.difference_count(&a), 1);
    assert_eq!(a.symmetric_difference_count(&b), 3);
}

#[test]
fn lazy_sequences_come_in_their_order() {
    let a = BVector::from_iter(&[5, 6, 30]);
    let b = BVector::from_iter(&[1, 6, 9]);
    assert_eq!(a.union(&b).collect(), vec![5, 6, 30, 1, 9]);
    assert_eq!(a.symmetric_difference(&b).collect(), vec![5, 30, 1, 9]);
    assert_eq!(a.difference(&b).collect(), vec![5, 30]);
    assert_eq!(a.intersection(&b).collect(), vec![6]);
}

#[test]
fn collected_sequences_match_the_combinators() {
    let a = BVector::from_iter(&[5, 6, 30]);
    let b = BVector::from_iter(&[1, 6, 9, 70]);

    let mut want = a.clone();
    want.union_with(&b);
    let mut got = BVector::from_iter(&a.union(&b).collect());
    got.grow(want.len());
    assert_eq!(got.len(), want.len());
    assert_eq!(got.ones().collect(), want.ones().collect());

    let mut want = a.clone();
    want.intersect_with(&b);
    let mut got = BVector::from_iter(&a.intersection(&b).collect());
    got.grow(want.len());
    assert_eq!(got.len(), want.len());
    assert_eq!(got.ones().collect(), want.ones().collect());

    let mut want = a.clone();
    want.difference_with(&b);
    let mut got = BVector::from_iter(&a.difference(&b).collect());
    got.grow(want.len());
    assert_eq!(got.len(), want.len());
    assert_eq!(got.ones().collect(), want.ones().collect());

    let mut want = a.clone();
    want.symmetric_difference_with(&b);
    let mut got = BVector::from_iter(&a.symmetric_difference(&b).collect());
    got.grow(want.len());
    assert_eq!(got.len(), want.len());
    assert_eq!(got.ones().collect(), want.ones().collect());
}

#[test]
fn subset_is_superset_the_other_way() {
    let sets: Vec<Vec<usize>> = vec![vec![], vec![1], vec![1, 5], vec![5, 9], vec![1, 5, 9, 100]];
    for x in &sets {
        for y in &sets {
            let a = BVector::from_iter(x);
            let b = BVector::from_iter(y);
            assert_eq!(a.is_subset(&b), b.is_superset(&a));
            assert_eq!(a.is_subset(&b), x.iter().all(|p| y.contains(p)));
        }
    }
}

#[test]
fn clone_is_independent() {
    let mut a = BVector::from_iter(&[1, 4]);
    let b = a.clone();
    a.set(4, false);
    a.grow(2);
    assert_eq!(b.len(), 5);
    assert_eq!(b.ones().collect(), vec![1, 4]);
    assert_eq!(a.ones().collect(), vec![1]);
}

#[test]
fn equality_and_order_go_by_the_bits() {
    let a = BVector::from_iter(&[1, 4]);
    let mut b = BVector::from_iter(&[1, 4]);
    b.grow(50);
    assert!(a == b);
    assert_eq!(a.partial_cmp(&b), Some(std::cmp::Ordering::Equal));
    b.insert(40);
    assert!(a != b);
    assert!(a < b);
    assert_eq!(b.partial_cmp(&a), Some(std::cmp::Ordering::Greater));
    let c = BVector::from_iter(&[0]);
    assert!(c > b);
    assert_eq!(b.partial_cmp(&c), Some(std::cmp::Ordering::Less));
}

#[test]
fn extend_grows_only_where_needed() {
    let mut fb = BVector::with_capacity(10);
    fb.extend(&[3, 3, 1]);
    assert_eq!(fb.len(), 10);
    fb.extend(&[10]);
    assert_eq!(fb.len(), 11);
    assert_eq!(fb.ones().collect(), vec![1, 3, 10]);
    let empty = BVector::from_iter(&[]);
    assert_eq!(empty.len(), 0);
}

#[test]
fn text_of_an_empty_container() {
    assert_eq!(BVector::new().fmt(false), "");
    assert_eq!(BVector::new().fmt(true), "0b");
}

#[should_panic]
#[test]
fn count_ones_oob() {
    let fb = BVector::with_capacity(100);
    fb.count_ones(90..101);
}

#[should_panic]
#[test]
fn count_ones_negative_range() {
    let fb = BVector::with_capacity(100);
    fb.count_ones(90..80);
}
