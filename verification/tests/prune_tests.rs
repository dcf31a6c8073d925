use std::collections::HashMap;
use std::sync::Arc;

use topn_pruner::block_meta::{BlockMeta, BlockMetaIndex, ColumnStatistics};
use topn_pruner::schema::{RemoteExpr, TableDataType, TableField, TableSchema};
use topn_pruner::topn_pruner::{PruneError, TopNPrunner};

fn one_column_schema(data_type: TableDataType) -> Arc<TableSchema> {
    Arc::new(TableSchema {
        fields: vec![TableField { name: "a".to_string(), data_type }],
    })
}

fn block(seg: usize, min: i64, max: i64, null_count: u64) -> (BlockMetaIndex, Arc<BlockMeta>) {
    let mut col_stats = HashMap::new();
    col_stats.insert(0usize, ColumnStatistics { min, max, null_count });
    (
        BlockMetaIndex { segment_idx: seg, block_idx: seg, range: None },
        Arc::new(BlockMeta { col_stats }),
    )
}

fn block_for_column(
    seg: usize,
    col: usize,
    min: i64,
    max: i64,
    null_count: u64,
) -> (BlockMetaIndex, Arc<BlockMeta>) {
    let mut col_stats = HashMap::new();
    col_stats.insert(col, ColumnStatistics { min, max, null_count });
    (
        BlockMetaIndex { segment_idx: seg, block_idx: seg, range: None },
        Arc::new(BlockMeta { col_stats }),
    )
}

fn sort_on_a(asc: bool, nulls_first: bool) -> Vec<(RemoteExpr, bool, bool)> {
    vec![(RemoteExpr::ColumnRef { id: "a".to_string() }, asc, nulls_first)]
}

fn segments(metas: &[(BlockMetaIndex, Arc<BlockMeta>)]) -> Vec<usize> {
    metas.iter().map(|(id, _)| id.segment_idx).collect()
}

fn five_ascending_blocks() -> Vec<(BlockMetaIndex, Arc<BlockMeta>)> {
    vec![
        block(1, 1, 10, 0),
        block(2, 11, 20, 0),
        block(3, 21, 30, 0),
        block(4, 31, 40, 0),
        block(5, 41, 50, 0),
    ]
}

#[test]
fn zero_sort_keys_pass_through() {
    let pruner = TopNPrunner::create(one_column_schema(TableDataType::Number), vec![], 1);
    let out = pruner.prune(five_ascending_blocks()).unwrap();
    assert_eq!(segments(&out), vec![1, 2, 3, 4, 5]);
}

#[test]
fn two_sort_keys_pass_through() {
    let sort = vec![
        (RemoteExpr::ColumnRef { id: "a".to_string() }, true, false),
        (RemoteExpr::ColumnRef { id: "a".to_string() }, false, false),
    ];
    let pruner = TopNPrunner::create(one_column_schema(TableDataType::Number), sort, 1);
    let out = pruner.prune(five_ascending_blocks()).unwrap();
    assert_eq!(segments(&out), vec![1, 2, 3, 4, 5]);
}

#[test]
fn limit_not_below_candidate_count_passes_through() {
    let schema = one_column_schema(TableDataType::Number);
    let pruner = TopNPrunner::create(schema.clone(), sort_on_a(true, false), 5);
    let out = pruner.prune(five_ascending_blocks()).unwrap();
    assert_eq!(segments(&out), vec![1, 2, 3, 4, 5]);

    let pruner = TopNPrunner::create(schema, sort_on_a(true, false), 100);
    let out = pruner.prune(five_ascending_blocks()).unwrap();
    assert_eq!(segments(&out), vec![1, 2, 3, 4, 5]);
}

#[test]
fn non_column_sort_key_passes_through() {
    let sort = vec![(RemoteExpr::Constant, true, false)];
    let pruner = TopNPrunner::create(one_column_schema(TableDataType::Number), sort, 2);
    let out = pruner.prune(five_ascending_blocks()).unwrap();
    assert_eq!(segments(&out), vec![1, 2, 3, 4, 5]);

    let sort = vec![(RemoteExpr::FunctionCall, true, false)];
    let pruner = TopNPrunner::create(one_column_schema(TableDataType::Number), sort, 2);
    let out = pruner.prune(five_ascending_blocks()).unwrap();
    assert_eq!(segments(&out), vec![1, 2, 3, 4, 5]);
}

#[test]
fn unresolved_column_passes_through() {
    let sort = vec![(RemoteExpr::ColumnRef { id: "missing".to_string() }, true, false)];
    let pruner = TopNPrunner::create(one_column_schema(TableDataType::Number), sort, 2);
    let out = pruner.prune(five_ascending_blocks()).unwrap();
    assert_eq!(segments(&out), vec![1, 2, 3, 4, 5]);
}

#[test]
fn string_typed_column_passes_through() {
    let pruner =
        TopNPrunner::create(one_column_schema(TableDataType::String), sort_on_a(true, false), 2);
    let out = pruner.prune(five_ascending_blocks()).unwrap();
    assert_eq!(segments(&out), vec![1, 2, 3, 4, 5]);
}

#[test]
fn end_to_end_ascending_keeps_lowest_min_blocks() {
    let pruner =
        TopNPrunner::create(one_column_schema(TableDataType::Number), sort_on_a(true, false), 2);
    let out = pruner.prune(five_ascending_blocks()).unwrap();
    assert_eq!(segments(&out), vec![1, 2]);
}

#[test]
fn ascending_ranks_by_min_regardless_of_input_order() {
    let metas = vec![block(1, 30, 35, 0), block(2, 10, 50, 0), block(3, 20, 25, 0)];
    let pruner =
        TopNPrunner::create(one_column_schema(TableDataType::Number), sort_on_a(true, false), 2);
    let out = pruner.prune(metas).unwrap();
    assert_eq!(segments(&out), vec![2, 3]);
}

#[test]
fn descending_ranks_by_max() {
    let metas = vec![block(1, 0, 15, 0), block(2, 0, 50, 0), block(3, 0, 30, 0)];
    let pruner =
        TopNPrunner::create(one_column_schema(TableDataType::Number), sort_on_a(false, false), 2);
    let out = pruner.prune(metas).unwrap();
    assert_eq!(segments(&out), vec![2, 3]);
}

#[test]
fn truncation_keeps_exactly_limit_blocks() {
    let pruner =
        TopNPrunner::create(one_column_schema(TableDataType::Number), sort_on_a(true, false), 3);
    let out = pruner.prune(five_ascending_blocks()).unwrap();
    assert_eq!(out.len(), 3);

    let pruner =
        TopNPrunner::create(one_column_schema(TableDataType::Number), sort_on_a(true, false), 0);
    let out = pruner.prune(five_ascending_blocks()).unwrap();
    assert_eq!(out.len(), 0);
}

#[test]
fn nulls_first_block_with_nulls_ranks_first() {
    // Block 2 has the worse min but a non-zero null count; with nulls_first
    // it must outrank block 1 whatever the min/max values say.
    let metas = vec![block(1, 1, 10, 0), block(2, 1000, 2000, 5)];
    let pruner =
        TopNPrunner::create(one_column_schema(TableDataType::Number), sort_on_a(true, true), 1);
    let out = pruner.prune(metas).unwrap();
    assert_eq!(segments(&out), vec![2]);
}

#[test]
fn nulls_first_more_nulls_rank_earlier() {
    let metas = vec![block(1, 1, 10, 2), block(2, 500, 600, 9), block(3, 5, 6, 0)];
    let pruner =
        TopNPrunner::create(one_column_schema(TableDataType::Number), sort_on_a(true, true), 2);
    let out = pruner.prune(metas).unwrap();
    assert_eq!(segments(&out), vec![2, 1]);
}

#[test]
fn nulls_ignored_when_nulls_first_is_unset() {
    // Same blocks as the nulls-first case, but with nulls_first = false the
    // null counts must not matter: ranking goes by min.
    let metas = vec![block(1, 1, 10, 2), block(2, 500, 600, 9), block(3, 5, 6, 0)];
    let pruner =
        TopNPrunner::create(one_column_schema(TableDataType::Number), sort_on_a(true, false), 2);
    let out = pruner.prune(metas).unwrap();
    assert_eq!(segments(&out), vec![1, 3]);
}

#[test]
fn ties_keep_input_order() {
    let metas = vec![block(7, 10, 99, 0), block(8, 10, 11, 0), block(9, 10, 50, 0)];
    let pruner =
        TopNPrunner::create(one_column_schema(TableDataType::Number), sort_on_a(true, false), 2);
    let out = pruner.prune(metas).unwrap();
    assert_eq!(segments(&out), vec![7, 8]);
}

#[test]
fn missing_statistics_fails_ascending() {
    let schema = Arc::new(TableSchema {
        fields: vec![
            TableField { name: "x".to_string(), data_type: TableDataType::Number },
            TableField { name: "a".to_string(), data_type: TableDataType::Number },
        ],
    });
    // Statistics are keyed under column 1 (`a`), except for the faulty block.
    let metas = vec![
        block_for_column(1, 1, 1, 10, 0),
        block_for_column(2, 0, 11, 20, 0),  // wrong column: no entry for `a`
        block_for_column(3, 1, 21, 30, 0),
    ];
    let pruner = TopNPrunner::create(schema, sort_on_a(true, false), 1);
    let err = pruner.prune(metas).unwrap_err();
    assert_eq!(err, PruneError::MissingStatistics { column_id: 1 });
}

#[test]
fn missing_statistics_fails_descending() {
    let metas = vec![block(1, 1, 10, 0), block_for_column(2, 3, 11, 20, 0)];
    let pruner =
        TopNPrunner::create(one_column_schema(TableDataType::Number), sort_on_a(false, true), 1);
    let err = pruner.prune(metas).unwrap_err();
    assert_eq!(err, PruneError::MissingStatistics { column_id: 0 });
}

#[test]
fn locator_metadata_pairing_is_kept() {
    let (_, best_meta) = block(2, 10, 15, 0);
    let best = (
        BlockMetaIndex { segment_idx: 2, block_idx: 7, range: Some(3..40) },
        best_meta,
    );
    let metas = vec![block(1, 40, 45, 0), best];
    let pruner =
        TopNPrunner::create(one_column_schema(TableDataType::Number), sort_on_a(true, false), 1);
    let out = pruner.prune(metas).unwrap();
    assert_eq!(out.len(), 1);
    assert_eq!(out[0].0.segment_idx, 2);
    assert_eq!(out[0].0.block_idx, 7);
    assert_eq!(out[0].0.range, Some(3..40));
    let stats = out[0].1.col_stats.get(&0).unwrap();
    assert_eq!(stats.min, 10);
    assert_eq!(stats.max, 15);
}

#[test]
fn schema_resolves_first_matching_field() {
    let schema = TableSchema {
        fields: vec![
            TableField { name: "a".to_string(), data_type: TableDataType::Number },
            TableField { name: "b".to_string(), data_type: TableDataType::String },
            TableField { name: "a".to_string(), data_type: TableDataType::Date },
        ],
    };
    assert_eq!(schema.index_of(&"a".to_string()), Some(0));
    assert_eq!(schema.index_of(&"b".to_string()), Some(1));
    assert_eq!(schema.index_of(&"c".to_string()), None);
}
