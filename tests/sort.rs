use deorr::kernel::{lane_rank, rank_sort, run_kernel};

#[test]
fn sorts_unsigned_example() {
    let input: Vec<u32> = vec![2, 5, 1, 7, 3, 3, 6, 8, 9, 4, 77, 33];
    assert_eq!(rank_sort(&input), vec![1, 2, 3, 3, 4, 5, 6, 7, 8, 9, 33, 77]);
}

#[test]
fn sorts_signed_with_negatives() {
    let input: Vec<i32> = vec![-5, 3, -5, 0];
    assert_eq!(rank_sort(&input), vec![-5, -5, 0, 3]);
}

#[test]
fn equal_values_keep_their_order() {
    let input: Vec<i32> = vec![-5, 3, -5, 0];
    assert_eq!(lane_rank(&input, 4, 0), Some(0));
    assert_eq!(lane_rank(&input, 4, 2), Some(1));
    assert_eq!(lane_rank(&input, 4, 3), Some(2));
    assert_eq!(lane_rank(&input, 4, 1), Some(3));
}

#[test]
fn tags_of_equal_values_stay_ascending() {
    let input: Vec<u32> = vec![4, 1, 4, 4, 0, 1, 4];
    let n = input.len() as u32;
    let mut tags = vec![usize::MAX; input.len()];
    for i in 0..input.len() {
        let p = lane_rank(&input, n, i as u64).unwrap();
        tags[p] = i;
    }
    for p in 1..tags.len() {
        let (a, b) = (tags[p - 1], tags[p]);
        if input[a] == input[b] {
            assert!(a < b);
        }
    }
}

#[test]
fn output_is_a_permutation() {
    let input: Vec<u32> = vec![9, 0, 9, 4, 4, 4, 1, 7, 0, 9, 3];
    let out = rank_sort(&input);
    assert_eq!(out.len(), input.len());
    for v in 0..10u32 {
        let a = input.iter().filter(|x| **x == v).count();
        let b = out.iter().filter(|x| **x == v).count();
        assert_eq!(a, b);
    }
}

#[test]
fn output_never_decreases() {
    let input: Vec<i32> = vec![100, -100, 0, 7, -3, 7, i32::MIN, i32::MAX, 1];
    let out = rank_sort(&input);
    for p in 1..out.len() {
        assert!(out[p - 1] <= out[p]);
    }
    assert_eq!(out[0], i32::MIN);
    assert_eq!(out[out.len() - 1], i32::MAX);
}

#[test]
fn sorting_twice_changes_nothing() {
    let input: Vec<u32> = vec![5, 3, 5, 1, u32::MAX, 0, 3];
    let once = rank_sort(&input);
    let twice = rank_sort(&once);
    assert_eq!(once, twice);
}

#[test]
fn empty_input_sorts_to_empty() {
    let input: Vec<u32> = vec![];
    assert!(rank_sort(&input).is_empty());
}

#[test]
fn single_element_stays() {
    let input: Vec<u32> = vec![42];
    assert_eq!(rank_sort(&input), vec![42]);
}

#[test]
fn lanes_past_the_length_do_nothing() {
    let input: Vec<u32> = vec![3, 1, 2, 0, 0];
    assert_eq!(lane_rank(&input, 3, 3), None);
    assert_eq!(lane_rank(&input, 3, 64), None);
    assert_eq!(lane_rank(&input, 3, 0), Some(2));
}

#[test]
fn kernel_leaves_padding_alone() {
    let input: Vec<u32> = vec![3, 1, 2, 0, 0];
    let out = run_kernel(&input, 3, 1);
    assert_eq!(out, vec![1, 2, 3, 0, 0]);
}

#[test]
fn kernel_over_many_groups() {
    let input: Vec<u32> = (0..130u32).rev().collect();
    let out = run_kernel(&input, 130, 3);
    let expected: Vec<u32> = (0..130u32).collect();
    assert_eq!(out, expected);
}
