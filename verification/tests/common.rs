use tilings::common::{calc_hash, rev_iter};

#[test]
fn test_rev_iter() {
    let mut iter = rev_iter((0..10).collect::<Vec<usize>>(), false).into_iter();
    assert_eq!(0_usize, iter.next().unwrap());
    let mut iter = rev_iter((0..10).collect::<Vec<usize>>(), true).into_iter();
    assert_eq!(9_usize, iter.next().unwrap());
}

#[test]
fn rev_iter_reverses_whole_list() {
    assert_eq!(vec![3, 2, 1], rev_iter(vec![1, 2, 3], true));
    assert_eq!(vec![1, 2, 3], rev_iter(vec![1, 2, 3], false));
    assert_eq!(Vec::<u8>::new(), rev_iter(Vec::<u8>::new(), true));
}

#[test]
fn calc_hash_is_deterministic() {
    assert_eq!(calc_hash(&(1_i32, 2_i32)), calc_hash(&(1_i32, 2_i32)));
    assert_ne!(calc_hash(&(1_i32, 2_i32)), calc_hash(&(2_i32, 1_i32)));
}
