//! Metadata and compaction-control core of an LSM-tree storage engine:
//! the versioned description of which sorted-string tables make up the
//! store, the commit of new tables at an epoch, the choice of compaction
//! inputs, and the merge of range tombstones.

pub mod epoch;
pub mod epoch_set;
pub mod key;
pub mod sstable;
pub mod delete_range_iterator;
pub mod delete_range_aggregator;
pub mod tombstone_laws;
pub mod state_table_info;
pub mod levels;
pub mod group_delta;
pub mod group_apply;
pub mod change_log;
pub mod version;
pub mod table_stats;
pub mod sst_grouping;
pub mod sst_regroup;
pub mod regroup_laws;
pub mod commit_epoch;
pub mod commit_laws;
pub mod compact_laws;
pub mod compact_report;
pub mod level_handler;
pub mod compaction;
pub mod space_reclaim_picker;
pub mod space_reclaim_selector;
pub mod fs_reader;
pub mod test_utils;
