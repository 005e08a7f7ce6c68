use hummock_core::fs_reader::{
    ConnectorError, ConnectorProperties, FsSourceReader, Properties, SourceColumnDesc,
    SpecificParserConfig,
};
use hummock_core::levels::{CompactionConfig, KeyRange, SstableInfo};
use hummock_core::sst_grouping::ExtendedSstableInfo;
use hummock_core::test_utils::{
    decimal_digits, generate_test_sstables_with_table_id, generate_test_tables,
    get_sorted_committed_object_ids, get_sorted_object_ids, iterator_test_key_of_epoch,
    key_with_epoch, to_local_sstable_info,
};
use hummock_core::version::HummockVersion;
use hummock_core::group_delta::{DeltaType, GroupDelta, GroupDeltas, IntraLevelDelta};

fn column(name: &str, column_id: i32) -> SourceColumnDesc {
    SourceColumnDesc {
        name: name.to_string(),
        column_id,
        is_pk: false,
        is_hidden_addition_col: false,
    }
}

fn properties(entries: &[(&str, &str)]) -> Properties {
    let mut properties = Properties::new();
    for (key, value) in entries {
        properties.insert(key.to_string(), value.to_string());
    }
    properties
}

fn parser_config() -> SpecificParserConfig {
    SpecificParserConfig { encoding: "json".to_string(), protocol: "plain".to_string() }
}

#[test]
fn test_keys_are_spelled_out() {
    assert_eq!(decimal_digits(0), b"0".to_vec());
    assert_eq!(decimal_digits(907), b"907".to_vec());
    assert_eq!(decimal_digits(u64::MAX), b"18446744073709551615".to_vec());
    assert_eq!(
        key_with_epoch(b"k".to_vec(), 1),
        vec![b'k', 0xff, 0xff, 0xff, 0xff, 0xff, 0xff, 0xff, 0xfe]
    );
    assert_eq!(
        key_with_epoch(vec![], 0x0102_0304_0506_0708),
        vec![0xfe, 0xfd, 0xfc, 0xfb, 0xfa, 0xf9, 0xf8, 0xf7]
    );
    let mut expected = b"001\0\0_key_test_00002".to_vec();
    expected.extend_from_slice(&(u64::MAX - 9).to_be_bytes());
    assert_eq!(iterator_test_key_of_epoch(1, 2, 9), expected);
    let mut expected = b"12345\0\0_key_test_1234567".to_vec();
    expected.extend_from_slice(&(u64::MAX - 9).to_be_bytes());
    assert_eq!(iterator_test_key_of_epoch(12345, 1234567, 9), expected);
}

#[test]
fn test_tables_are_made_for_each_id() {
    let tables = generate_test_sstables_with_table_id(7, 1, vec![30, 31]);
    assert_eq!(tables.len(), 2);
    assert_eq!(
        tables[1],
        SstableInfo {
            object_id: 31,
            sst_id: 31,
            key_range: Some(KeyRange {
                left: iterator_test_key_of_epoch(1, 2, 7),
                right: iterator_test_key_of_epoch(1, 20, 7),
                right_exclusive: false,
            }),
            file_size: 2,
            table_ids: vec![1],
            uncompressed_file_size: 2,
            max_epoch: 7,
            ..Default::default()
        }
    );
    let tables = generate_test_tables(7, vec![30]);
    assert_eq!(tables[0].table_ids, vec![30, 300000]);
    assert_eq!(tables[0].key_range.as_ref().unwrap().left, iterator_test_key_of_epoch(30, 1, 7));
    assert_eq!(tables[0].key_range.as_ref().unwrap().right, iterator_test_key_of_epoch(30, 10, 7));
    assert_eq!(
        to_local_sstable_info(&tables),
        vec![ExtendedSstableInfo::with_compaction_group(2, tables[0].clone())]
    );
}

#[test]
fn object_ids_are_sorted() {
    let sstables: Vec<SstableInfo> = [5u64, 1, 9, 1, 3]
        .iter()
        .map(|id| SstableInfo { object_id: *id, sst_id: 100 + id, ..Default::default() })
        .collect();
    assert_eq!(get_sorted_object_ids(&sstables), vec![1, 1, 3, 5, 9]);
    assert_eq!(get_sorted_object_ids(&vec![]), Vec::<u64>::new());

    let config = CompactionConfig {
        max_level: 3,
        max_bytes_for_level_base: 512,
        max_bytes_for_level_multiplier: 5,
        max_space_reclaim_bytes: 1024,
        target_file_size_base: 32,
    };
    let mut version = HummockVersion::create_init_version(&config);
    assert_eq!(get_sorted_committed_object_ids(&version), Vec::<u64>::new());
    let file = |id: u64| SstableInfo { object_id: id, sst_id: id, ..Default::default() };
    let insert = |level_idx: u32, sub: u64, ssts: Vec<SstableInfo>| GroupDelta {
        delta_type: Some(DeltaType::IntraLevel(IntraLevelDelta {
            level_idx,
            l0_sub_level_id: sub,
            removed_table_ids: vec![],
            inserted_table_infos: ssts,
        })),
    };
    let mut delta = version.version_delta_after();
    delta.max_committed_epoch = 4;
    delta.group_deltas.insert(
        2,
        GroupDeltas {
            group_deltas: vec![insert(0, 4, vec![file(8), file(2)]), insert(3, 0, vec![file(5)])],
        },
    );
    delta.group_deltas.insert(3, GroupDeltas { group_deltas: vec![insert(0, 4, vec![file(1)])] });
    version.apply_version_delta(&delta);
    // the files of the default group only
    assert_eq!(get_sorted_committed_object_ids(&version), vec![2, 5, 8]);
    version.levels.remove(&2);
    assert_eq!(get_sorted_committed_object_ids(&version), Vec::<u64>::new());
}

#[test]
fn a_source_reader_needs_a_connector() {
    let reader = FsSourceReader::new(
        properties(&[("topic", "t"), ("connector", "s3"), ("region", "r")]),
        vec![column("a", 1)],
        parser_config(),
    )
    .unwrap();
    assert_eq!(reader.config.connector, "s3");
    assert_eq!(reader.config.properties, properties(&[("topic", "t"), ("region", "r")]));
    assert_eq!(
        reader.properties,
        properties(&[("topic", "t"), ("connector", "s3"), ("region", "r")])
    );
    assert_eq!(reader.columns, vec![column("a", 1)]);
    assert_eq!(
        FsSourceReader::new(properties(&[("topic", "t")]), vec![], parser_config()),
        Err(ConnectorError::MissingConnector)
    );
    assert_eq!(
        ConnectorProperties::extract(Properties::new()),
        Err(ConnectorError::MissingConnector)
    );
}

#[test]
fn properties_hold_each_name_once() {
    let mut properties = Properties::new();
    assert_eq!(properties.insert("a".to_string(), "1".to_string()), None);
    assert_eq!(properties.insert("b".to_string(), "2".to_string()), None);
    assert_eq!(properties.insert("a".to_string(), "3".to_string()), Some("1".to_string()));
    assert_eq!(properties.get(&"a".to_string()), Some(&"3".to_string()));
    assert_eq!(properties.get(&"c".to_string()), None);
    assert_eq!(properties.copy(), properties);
    assert_eq!(properties.remove(&"a".to_string()), Some("3".to_string()));
    assert_eq!(properties.remove(&"a".to_string()), None);
    assert_eq!(properties.get(&"b".to_string()), Some(&"2".to_string()));
}

#[test]
fn target_columns_come_in_the_order_of_the_ids() {
    let reader = FsSourceReader::new(
        properties(&[("connector", "s3")]),
        vec![column("a", 1), column("b", 2), column("c", 3), column("b2", 2)],
        parser_config(),
    )
    .unwrap();
    assert_eq!(
        reader.get_target_columns(vec![3, 2, 3]),
        Ok(vec![column("c", 3), column("b", 2), column("c", 3)])
    );
    assert_eq!(reader.get_target_columns(vec![]), Ok(vec![]));
    assert_eq!(
        reader.get_target_columns(vec![1, 7, 8]),
        Err(ConnectorError::ColumnNotFound(7))
    );
}
