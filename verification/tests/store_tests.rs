use broker::models::{Record, Setting, Source};
use broker::store::{
    add_data, add_source, bulk_add_data, delete_data, delete_sent_data, delete_source,
    get_all_setting, get_all_sources, get_data_by_src_id, get_last_data, get_setting_by_key,
    get_source_by_name, update_data, update_source, Store, StoreError,
};

fn store_with_source(src_id: &str, cfg: Option<&str>, active: bool) -> Store {
    let mut s = Store::new();
    let source = Source {
        src_id: src_id.to_string(),
        cfg: cfg.map(|c| c.to_string()),
        active,
    };
    add_source(&mut s, &source).unwrap();
    s
}

fn record(src_id: &str, data: Vec<u8>, sent: bool) -> Record {
    Record { id: 0, src_id: src_id.to_string(), data, sent }
}

#[test]
fn test_get_setting_by_key() {
    let mut s = Store::new();
    s.settings.push(Setting { key: "test_key".to_string(), value: "test_value".to_string() });
    let result = get_setting_by_key(&s, "test_key");
    assert_eq!(result, Some("test_value".to_string()));
    let result = get_setting_by_key(&s, "non_existent");
    assert_eq!(result, None);
}

#[test]
fn test_get_all_setting() {
    let mut s = Store::new();
    s.settings.push(Setting { key: "key1".to_string(), value: "val1".to_string() });
    s.settings.push(Setting { key: "key2".to_string(), value: "val2".to_string() });
    let result = get_all_setting(&s);
    assert_eq!(result.len(), 2 + 9);
}

#[test]
fn test_get_all_setting2() {
    let s = Store::new();
    let all = get_all_setting(&s);
    let description = all
        .iter()
        .find(|row| row.key == "description")
        .map(|row| row.value.clone());
    assert_eq!(description, Some("Embedded broker".to_string()));
}

#[test]
fn test_get_all_sources() {
    let mut s = Store::new();
    add_source(
        &mut s,
        &Source { src_id: "src1".to_string(), cfg: Some("cfg1".to_string()), active: true },
    )
    .unwrap();
    add_source(&mut s, &Source { src_id: "src2".to_string(), cfg: None, active: false }).unwrap();
    let result = get_all_sources(&s);
    let expected = vec![
        Source { src_id: "src1".to_string(), cfg: Some("cfg1".to_string()), active: true },
        Source { src_id: "src2".to_string(), cfg: None, active: false },
    ];
    assert_eq!(result, expected);
}

#[test]
fn test_get_source_by_name() {
    let s = store_with_source("src1", Some("cfg1"), true);
    let result = get_source_by_name(&s, "src1");
    let expected = Source { src_id: "src1".to_string(), cfg: Some("cfg1".to_string()), active: true };
    assert_eq!(result, Some(expected));
}

#[test]
fn test_add_source() {
    let mut s = Store::new();
    let source = Source { src_id: "src1".to_string(), cfg: Some("cfg1".to_string()), active: true };
    add_source(&mut s, &source).unwrap();
    let result = get_source_by_name(&s, "src1");
    assert_eq!(result, Some(source));
}

#[test]
fn test_add_source_duplicate() {
    let mut s = store_with_source("src1", None, true);
    let again = Source { src_id: "src1".to_string(), cfg: None, active: false };
    let result = add_source(&mut s, &again);
    match result {
        Err(e) => {
            assert!(matches!(e, StoreError::DuplicateSource(_)));
            assert_eq!(e.message(), "UNIQUE constraint failed: sources.src_id");
        }
        Ok(_) => panic!("duplicate source must be refused"),
    }
}

#[test]
fn test_update_source() {
    let mut s = store_with_source("src1", Some("old_cfg"), false);
    let updated_source = Source {
        src_id: "src1".to_string(),
        cfg: Some("new_cfg".to_string()),
        active: true,
    };
    update_source(&mut s, updated_source.clone()).unwrap();
    let result = get_source_by_name(&s, "src1");
    assert_eq!(result, Some(updated_source));
}

#[test]
fn test_delete_source() {
    let mut s = store_with_source("src1", Some("cfg1"), true);
    delete_source(&mut s, "src1").unwrap();
    let result = get_source_by_name(&s, "src1");
    assert!(result.is_none());
}

#[test]
fn test_delete_source_cascades() {
    let mut s = store_with_source("src1", None, true);
    add_data(&mut s, &vec![record("src1", vec![1, 2], false)]).unwrap();
    assert_eq!(s.records.len(), 1);
    delete_source(&mut s, "src1").unwrap();
    assert_eq!(s.records.len(), 0);
}

#[test]
fn test_get_last_data() {
    let mut s = store_with_source("src1", None, true);
    add_data(&mut s, &vec![record("src1", vec![1, 2], false)]).unwrap();
    let result = get_last_data(&s, 1);
    assert_eq!(result.len(), 1);
    assert_eq!(result[0].src_id, "src1");
}

#[test]
fn test_get_last_data_orders_descending() {
    let mut s = store_with_source("src1", None, true);
    add_data(
        &mut s,
        &vec![
            record("src1", vec![1], false),
            record("src1", vec![2], true),
            record("src1", vec![3], false),
        ],
    )
    .unwrap();
    let result = get_last_data(&s, 10);
    assert_eq!(result.len(), 2);
    assert_eq!(result[0].id, 3);
    assert_eq!(result[1].id, 1);
}

#[test]
fn test_get_data_by_src_id() {
    let mut s = store_with_source("src1", Some("cfg1"), true);
    add_data(
        &mut s,
        &vec![record("src1", vec![1, 2], false), record("src1", vec![3, 4], false)],
    )
    .unwrap();
    let result = get_data_by_src_id(&s, "src1", 2);
    let expected = vec![
        Record { id: 2, src_id: "src1".to_string(), data: vec![3, 4], sent: false },
        Record { id: 1, src_id: "src1".to_string(), data: vec![1, 2], sent: false },
    ];
    assert_eq!(result, expected);
}

#[test]
fn test_add_data() {
    let mut s = store_with_source("src1", Some("cfg1"), true);
    let records = vec![record("src1", vec![1, 2], false)];
    let ids = add_data(&mut s, &records).unwrap();
    assert_eq!(ids, vec![1]);
    let result = get_last_data(&s, 1);
    assert_eq!(result[0].src_id, "src1");
}

#[test]
fn test_add_data_unknown_source() {
    let mut s = Store::new();
    let result = add_data(&mut s, &vec![record("ghost", vec![1], false)]);
    match result {
        Err(e) => {
            assert!(matches!(e, StoreError::UnknownSource(_)));
            assert_eq!(e.message(), "FOREIGN KEY constraint failed");
        }
        Ok(_) => panic!("a record for an unregistered source must be refused"),
    }
    assert_eq!(s.records.len(), 0);
}

#[test]
fn test_bulk_add_data() {
    let mut s = Store::new();
    add_source(
        &mut s,
        &Source { src_id: "src1".to_string(), cfg: Some("cfg1".to_string()), active: true },
    )
    .unwrap();
    add_source(
        &mut s,
        &Source { src_id: "src2".to_string(), cfg: Some("cfg2".to_string()), active: false },
    )
    .unwrap();
    let records = vec![record("src1", vec![1, 2], false), record("src2", vec![3, 4], false)];
    let ids = bulk_add_data(&mut s, &records).unwrap();
    assert_eq!(ids.len(), 2);
    let result = get_last_data(&s, 2);
    assert_eq!(result.len(), 2);
}

#[test]
fn test_update_data() {
    let mut s = Store::new();
    add_source(
        &mut s,
        &Source { src_id: "src1".to_string(), cfg: Some("cfg1".to_string()), active: true },
    )
    .unwrap();
    add_source(
        &mut s,
        &Source { src_id: "src2".to_string(), cfg: Some("cfg2".to_string()), active: false },
    )
    .unwrap();
    add_data(&mut s, &vec![record("src1", vec![1, 2], false)]).unwrap();
    let records = vec![Record { id: 1, src_id: "src2".to_string(), data: vec![3, 4], sent: true }];
    update_data(&mut s, &records).unwrap();
    let updated = s.records.iter().find(|r| r.id == 1).unwrap();
    assert_eq!(updated.src_id, "src2");
}

#[test]
fn test_delete_data() {
    let mut s = store_with_source("src1", Some("cfg1"), true);
    add_data(&mut s, &vec![record("src1", vec![1, 2], false)]).unwrap();
    delete_data(&mut s, vec![1]).unwrap();
    let result = get_last_data(&s, 1);
    assert_eq!(result.len(), 0);
}

#[test]
fn test_get_last_data_truncates_to_count() {
    let mut s = store_with_source("src1", None, true);
    add_data(
        &mut s,
        &vec![
            record("src1", vec![1], false),
            record("src1", vec![2], false),
            record("src1", vec![3], false),
        ],
    )
    .unwrap();
    let result = get_last_data(&s, 2);
    assert_eq!(result.len(), 2);
    assert_eq!(result[0].id, 3);
    assert_eq!(result[1].id, 2);
}

#[test]
fn test_get_data_by_src_id_filters_other_sources() {
    let mut s = Store::new();
    add_source(&mut s, &Source { src_id: "src1".to_string(), cfg: None, active: true }).unwrap();
    add_source(&mut s, &Source { src_id: "src2".to_string(), cfg: None, active: true }).unwrap();
    add_data(
        &mut s,
        &vec![record("src1", vec![1], false), record("src2", vec![2], false)],
    )
    .unwrap();
    let result = get_data_by_src_id(&s, "src2", 10);
    assert_eq!(result.len(), 1);
    assert_eq!(result[0].id, 2);
}

#[test]
fn test_update_data_unknown_source_rolls_back() {
    let mut s = store_with_source("src1", None, true);
    add_data(&mut s, &vec![record("src1", vec![1, 2], false)]).unwrap();
    let bad = vec![Record { id: 1, src_id: "ghost".to_string(), data: vec![9], sent: true }];
    let result = update_data(&mut s, &bad);
    assert!(matches!(result, Err(StoreError::UnknownSource(_))));
    assert_eq!(s.records[0].src_id, "src1");
    assert_eq!(s.records[0].data, vec![1, 2]);
}

#[test]
fn test_update_source_unknown_id_changes_nothing() {
    let mut s = store_with_source("src1", Some("cfg1"), true);
    let stray = Source { src_id: "ghost".to_string(), cfg: None, active: false };
    update_source(&mut s, stray).unwrap();
    assert_eq!(s.sources.len(), 1);
    assert!(get_source_by_name(&s, "ghost").is_none());
}

#[test]
fn test_delete_source_unknown_id_changes_nothing() {
    let mut s = store_with_source("src1", None, true);
    delete_source(&mut s, "ghost").unwrap();
    assert_eq!(s.sources.len(), 1);
}

#[test]
fn test_delete_sent_data() {
    let mut s = Store::new();
    add_source(
        &mut s,
        &Source { src_id: "src1".to_string(), cfg: Some("cfg1".to_string()), active: true },
    )
    .unwrap();
    add_source(
        &mut s,
        &Source { src_id: "src2".to_string(), cfg: Some("cfg2".to_string()), active: false },
    )
    .unwrap();
    add_data(
        &mut s,
        &vec![record("src1", vec![1, 2], true), record("src2", vec![3, 4], false)],
    )
    .unwrap();
    delete_sent_data(&mut s).unwrap();
    let result = get_last_data(&s, 2);
    assert_eq!(result.len(), 1);
    assert_eq!(result[0].src_id, "src2");
}
