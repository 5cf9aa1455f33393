use chronicle::milestone::{milestone_writes, MilestoneWrite};

#[test]
fn milestone_is_written_last() {
    let writes = milestone_writes(2500, 999, true);
    assert_eq!(
        writes,
        vec![
            MilestoneWrite::InsertUnspent { start: 0, end: 1000 },
            MilestoneWrite::InsertUnspent { start: 1000, end: 2000 },
            MilestoneWrite::InsertUnspent { start: 2000, end: 2500 },
            MilestoneWrite::UpdateSpent { start: 0, end: 999 },
            MilestoneWrite::ConeBlocks,
            MilestoneWrite::ProtocolParameters,
            MilestoneWrite::NodeConfiguration,
            MilestoneWrite::Analytics,
            MilestoneWrite::Milestone,
        ]
    );
}

#[test]
fn milestone_without_updates_or_analytics() {
    assert_eq!(
        milestone_writes(0, 1000, false),
        vec![
            MilestoneWrite::UpdateSpent { start: 0, end: 1000 },
            MilestoneWrite::ConeBlocks,
            MilestoneWrite::ProtocolParameters,
            MilestoneWrite::NodeConfiguration,
            MilestoneWrite::Milestone,
        ]
    );
}
