use diagweave::bitset::{BitSet, SymbolTable};

fn next(seed: &mut u64) -> u64 {
    *seed = seed.wrapping_mul(6364136223846793005).wrapping_add(1);
    *seed
}

#[test]
fn subset_union_basics() {
    let mut a = BitSet::with_capacity(128);
    let mut b = BitSet::with_capacity(128);
    a.insert(1);
    a.insert(65);
    b.insert(1);
    b.insert(2);
    b.insert(65);

    assert!(a.is_subset_of(&b));
    assert!(!b.is_subset_of(&a));

    let mut c = a.clone();
    c.union_with(&b);
    assert!(c.contains(1));
    assert!(c.contains(2));
    assert!(c.contains(65));
}

#[test]
fn repeated_randomized_consistency() {
    for round in 0..200 {
        let mut seed = round as u64 + 1;
        let mut left = BitSet::with_capacity(512);
        let mut right = BitSet::with_capacity(512);
        let mut left_ref = [false; 512];
        let mut right_ref = [false; 512];

        for _ in 0..600 {
            let li = (next(&mut seed) as usize) % 512;
            let ri = (next(&mut seed) as usize) % 512;
            left.insert(li);
            right.insert(ri);
            left_ref[li] = true;
            right_ref[ri] = true;
        }

        let left_subset_right = left_ref
            .iter()
            .zip(right_ref.iter())
            .all(|(l, r)| !*l || *r);
        let right_subset_left = right_ref
            .iter()
            .zip(left_ref.iter())
            .all(|(r, l)| !*r || *l);

        assert_eq!(left.is_subset_of(&right), left_subset_right);
        assert_eq!(right.is_subset_of(&left), right_subset_left);

        let mut union = left.clone();
        union.union_with(&right);
        for (idx, expected) in left_ref
            .iter()
            .zip(right_ref.iter())
            .map(|(l, r)| *l || *r)
            .enumerate()
        {
            assert_eq!(union.contains(idx), expected, "index={idx}, round={round}");
        }
    }
}

#[test]
fn insert_reports_whether_the_bit_was_new() {
    let mut s = BitSet::with_capacity(0);
    assert!(s.insert(200));
    assert!(!s.insert(200));
    assert!(s.contains(200));
    assert!(!s.contains(199));
    assert!(!s.contains(100_000));
}

#[test]
fn empty_set_is_subset_of_everything() {
    let empty = BitSet::with_capacity(64);
    let mut other = BitSet::with_capacity(0);
    assert!(empty.is_subset_of(&other));
    other.insert(3);
    assert!(empty.is_subset_of(&other));
    assert!(!other.is_subset_of(&empty));
}

#[test]
fn symbol_table_interns_densely() {
    let mut t = SymbolTable::new();
    assert_eq!(t.len(), 0);
    assert_eq!(t.intern("A { x : u64 }".to_string()), 0);
    assert_eq!(t.intern("B".to_string()), 1);
    assert_eq!(t.intern("A { x : u64 }".to_string()), 0);
    assert_eq!(t.len(), 2);
}
