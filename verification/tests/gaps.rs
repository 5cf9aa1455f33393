use std::collections::HashMap;

use chronicle::gaps::{complete_milestone_in, insert_gap_in};

#[test]
fn completing_inside_a_gap_splits_it() {
    let mut gaps = HashMap::new();
    insert_gap_in(&mut gaps, 10, 20);
    complete_milestone_in(&mut gaps, 10, 20, 15);
    assert_eq!(gaps, HashMap::from([(10, 14), (16, 20)]));
}

#[test]
fn completing_the_ends_of_a_gap() {
    let mut gaps = HashMap::from([(10u32, 20u32)]);
    complete_milestone_in(&mut gaps, 10, 20, 10);
    assert_eq!(gaps, HashMap::from([(11, 20)]));
    complete_milestone_in(&mut gaps, 11, 20, 20);
    assert_eq!(gaps, HashMap::from([(11, 19)]));
}

#[test]
fn completing_a_single_milestone_gap() {
    let mut gaps = HashMap::from([(5u32, 5u32), (7, 9)]);
    complete_milestone_in(&mut gaps, 5, 5, 5);
    assert_eq!(gaps, HashMap::from([(7, 9)]));
}
