use std::ops::RangeInclusive;

use chronicle::sync::{collect_sync_data, SyncData};
use chronicle::types::MilestoneIndex;

fn ranges(v: &[(u32, u32)]) -> Vec<RangeInclusive<MilestoneIndex>> {
    v.iter()
        .map(|&(a, b)| MilestoneIndex(a)..=MilestoneIndex(b))
        .collect()
}

fn records(v: &[u32]) -> Vec<MilestoneIndex> {
    v.iter().map(|&i| MilestoneIndex(i)).collect()
}

#[test]
fn sync_data_with_gaps() {
    let data = collect_sync_data(MilestoneIndex(1), MilestoneIndex(10), &records(&[1, 2, 3, 5, 6, 9]));
    assert_eq!(data.completed, ranges(&[(1, 3), (5, 6), (9, 9)]));
    assert_eq!(data.gaps, ranges(&[(4, 4), (7, 8), (10, 10)]));
}

#[test]
fn sync_data_gap_at_start() {
    let data = collect_sync_data(MilestoneIndex(0), MilestoneIndex(5), &records(&[3, 4, 5]));
    assert_eq!(data.completed, ranges(&[(3, 5)]));
    assert_eq!(data.gaps, ranges(&[(0, 2)]));
}

#[test]
fn sync_data_without_records() {
    let data = collect_sync_data(MilestoneIndex(4), MilestoneIndex(8), &records(&[]));
    assert!(data.completed.is_empty());
    assert_eq!(data.gaps, ranges(&[(4, 8)]));
}

#[test]
fn sync_data_of_empty_range() {
    let data = collect_sync_data(MilestoneIndex(8), MilestoneIndex(4), &records(&[]));
    assert!(data.completed.is_empty());
    assert!(data.gaps.is_empty());
}

#[test]
fn sync_data_complete() {
    let data = collect_sync_data(MilestoneIndex(2), MilestoneIndex(4), &records(&[2, 3, 4]));
    assert_eq!(data.completed, ranges(&[(2, 4)]));
    assert!(data.gaps.is_empty());
}

#[test]
fn sync_data_up_to_the_last_index() {
    let data = collect_sync_data(MilestoneIndex(u32::MAX - 2), MilestoneIndex(u32::MAX), &records(&[u32::MAX]));
    assert_eq!(data.completed, ranges(&[(u32::MAX, u32::MAX)]));
    assert_eq!(data.gaps, ranges(&[(u32::MAX - 2, u32::MAX - 1)]));
}

#[test]
fn sync_data_default_is_empty() {
    let data = SyncData::default();
    assert!(data.completed.is_empty() && data.gaps.is_empty());
}
