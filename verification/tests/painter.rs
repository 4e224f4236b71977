use rust3d::painter::depth_order;

fn arranged(depths: &Vec<i64>, order: &Vec<usize>) -> Vec<i64> {
    order.iter().map(|&p| depths[p]).collect()
}

#[test]
fn depth_order_of_nothing_is_empty() {
    assert_eq!(depth_order(&vec![]), Vec::<usize>::new());
}

#[test]
fn depth_order_of_one_face() {
    assert_eq!(depth_order(&vec![-7]), vec![0]);
}

#[test]
fn depth_order_puts_the_deepest_face_first() {
    assert_eq!(depth_order(&vec![10, 30, 20]), vec![1, 2, 0]);
}

#[test]
fn depth_order_keeps_ties_in_the_given_order() {
    assert_eq!(depth_order(&vec![5, 9, 5, 9, 5]), vec![1, 3, 0, 2, 4]);
}

#[test]
fn depth_order_of_equal_depths_is_the_given_order() {
    assert_eq!(depth_order(&vec![4, 4, 4, 4]), vec![0, 1, 2, 3]);
}

#[test]
fn depth_order_handles_the_ends_of_the_range() {
    let depths = vec![i64::MIN, i64::MAX, 0, -1, 1];
    assert_eq!(depth_order(&depths), vec![1, 4, 2, 3, 0]);
}

#[test]
fn depth_order_of_a_rising_list_is_its_reverse() {
    let depths: Vec<i64> = (0..100).collect();
    let expected: Vec<usize> = (0..100).rev().collect();
    assert_eq!(depth_order(&depths), expected);
}

#[test]
fn depth_order_lists_every_position_once() {
    let depths: Vec<i64> = (0..257).map(|k: i64| (k * 37) % 11).collect();
    let mut order = depth_order(&depths);
    for pair in order.windows(2) {
        let (a, b) = (pair[0], pair[1]);
        assert!(depths[a] > depths[b] || (depths[a] == depths[b] && a < b));
    }
    order.sort();
    let all: Vec<usize> = (0..257).collect();
    assert_eq!(order, all);
}

#[test]
fn depth_order_does_not_depend_on_the_given_order() {
    let first = vec![3, -1, 8, 0, 5, 2];
    let shuffles: Vec<Vec<i64>> = vec![
        vec![8, 5, 3, 2, 0, -1],
        vec![-1, 0, 2, 3, 5, 8],
        vec![2, 8, -1, 5, 0, 3],
        vec![0, 3, 5, -1, 2, 8],
    ];
    let expected = vec![8, 5, 3, 2, 0, -1];
    assert_eq!(arranged(&first, &depth_order(&first)), expected);
    for shuffled in shuffles.iter() {
        assert_eq!(arranged(shuffled, &depth_order(shuffled)), expected);
    }
}

#[test]
fn depth_order_of_every_permutation_of_four_depths() {
    let depths: [i64; 4] = [40, 10, 30, 20];
    for a in 0..4 {
        for b in 0..4 {
            for c in 0..4 {
                for d in 0..4 {
                    let mut seen = [false; 4];
                    seen[a] = true;
                    seen[b] = true;
                    seen[c] = true;
                    seen[d] = true;
                    if seen.iter().all(|&s| s) {
                        let shuffled = vec![depths[a], depths[b], depths[c], depths[d]];
                        let order = depth_order(&shuffled);
                        assert_eq!(arranged(&shuffled, &order), vec![40, 30, 20, 10]);
                    }
                }
            }
        }
    }
}
