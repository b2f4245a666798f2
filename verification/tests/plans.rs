use explain_plan::decode::decode_document;
use explain_plan::error::DecodeError;
use explain_plan::json::Json;
use explain_plan::tree::{
    AttachedBlock, Explanation, GroupedRelationBlock, RelationBlock,
};

fn v2j(v: &serde_json::Value) -> Json {
    match v {
        serde_json::Value::Null => Json::Null,
        serde_json::Value::Bool(b) => Json::Bool(*b),
        serde_json::Value::Number(n) => Json::Num(n.as_u64().expect("integer expected")),
        serde_json::Value::String(s) => Json::Str(s.clone()),
        serde_json::Value::Array(items) => Json::Arr(items.iter().map(v2j).collect()),
        serde_json::Value::Object(m) => {
            Json::Obj(m.iter().map(|(k, v)| (k.clone(), v2j(v))).collect())
        }
    }
}

fn decode_text(text: &str) -> Result<Explanation, DecodeError> {
    let v: serde_json::Value = serde_json::from_str(text).expect("well-formed JSON");
    decode_document(&v2j(&v))
}

#[test]
fn parses_attached_condition() {
    let e = decode_text(
        r#"{"query_block":{"select_id":1,
            "table":{"table_name":"t","access_type":"ALL",
              "attached_condition":"(`db`.`t`.`a` = 1)"}}}"#,
    )
    .expect("valid document");
    match &*e.query_block.relation_block {
        RelationBlock::Table(t) => {
            assert_eq!(t.attached_condition.as_deref(), Some("(`db`.`t`.`a` = 1)"));
        }
        other => panic!("expected a table, got {:?}", other),
    }
}

#[test]
fn parses_filtering() {
    let e = decode_text(
        r#"{"query_block":{"select_id":1,
            "table":{"table_name":"t","access_type":"range",
              "rows_examined_per_scan":100,"rows_produced_per_join":33,"filtered":"33.33"}}}"#,
    )
    .expect("valid document");
    match &*e.query_block.relation_block {
        RelationBlock::Table(t) => {
            assert_eq!(t.rows_examined_per_scan, Some(100));
            assert_eq!(t.rows_produced_per_join, Some(33));
            assert_eq!(t.filtered.as_deref(), Some("33.33"));
        }
        other => panic!("expected a table, got {:?}", other),
    }
}

#[test]
fn parses_used_key_parts() {
    let e = decode_text(
        r#"{"query_block":{"select_id":1,
            "table":{"table_name":"t","access_type":"ref",
              "possible_keys":["PRIMARY"],"key":"PRIMARY","used_key_parts":["id","ts"],
              "key_length":"8","ref":["const","const"]}}}"#,
    )
    .expect("valid document");
    match &*e.query_block.relation_block {
        RelationBlock::Table(t) => {
            assert_eq!(t.key.as_deref(), Some("PRIMARY"));
            assert_eq!(
                t.used_key_parts.as_ref().unwrap(),
                &vec!["id".to_owned(), "ts".to_owned()]
            );
            assert_eq!(t.reference.as_ref().unwrap().len(), 2);
        }
        other => panic!("expected a table, got {:?}", other),
    }
}

#[test]
fn parses_subqueries() {
    let e = decode_text(
        r#"{"query_block":{"select_id":1,
            "table":{"table_name":"t","access_type":"ALL",
              "attached_subqueries":[
                {"dependent":false,"cacheable":true,
                 "query_block":{"select_id":2,"table":{"table_name":"s","access_type":"ALL"}}}]}}}"#,
    )
    .expect("valid document");
    match &*e.query_block.relation_block {
        RelationBlock::Table(t) => {
            let subs = t.attached_subqueries.as_ref().unwrap();
            assert_eq!(subs.len(), 1);
            assert_eq!(subs[0].dependent, Some(false));
            assert_eq!(subs[0].cacheable, Some(true));
            match &subs[0].attached_block {
                AttachedBlock::QueryBlock(q) => assert_eq!(q.select_id, Some(2)),
                other => panic!("expected a query block, got {:?}", other),
            }
        }
        other => panic!("expected a table, got {:?}", other),
    }
}

#[test]
fn parses_materialized_from_subquery() {
    let e = decode_text(
        r#"{"query_block":{"select_id":1,
            "table":{"table_name":"derived","access_type":"ALL",
              "materialized_from_subquery":{"using_temporary_table":true,"dependent":false,
                "cacheable":true,
                "query_block":{"select_id":2,"table":{"table_name":"base","access_type":"ALL"}}}}}}"#,
    )
    .expect("valid document");
    match &*e.query_block.relation_block {
        RelationBlock::Table(t) => {
            let m = t.materialized_from_subquery.as_ref().unwrap();
            assert!(m.using_temporary_table);
            assert_eq!(m.query_block.select_id, Some(2));
        }
        other => panic!("expected a table, got {:?}", other),
    }
}

#[test]
fn parses_subquery_sorting() {
    let e = decode_text(
        r#"{"query_block":{"select_id":1,
            "ordering_operation":{"using_filesort":true,
              "order_by_subqueries":[
                {"dependent":true,"cacheable":false,
                 "query_block":{"select_id":2,"message":"shared with optimized subquery"}}],
              "table":{"table_name":"t","access_type":"ALL"}}}}"#,
    )
    .expect("valid document");
    match &*e.query_block.relation_block {
        RelationBlock::OrderingOperation(o) => {
            assert!(o.using_filesort);
            let obs = o.order_by_subqueries.as_ref().unwrap();
            assert_eq!(obs.len(), 1);
            assert!(obs[0].dependent);
            assert_eq!(obs[0].query_block.select_id, 2);
            assert_eq!(obs[0].query_block.message, "shared with optimized subquery");
            assert!(o.relation_block.is_some());
        }
        other => panic!("expected an ordering operation, got {:?}", other),
    }
}

#[test]
fn parses_subquery_optimized_away() {
    let e = decode_text(
        r#"{"query_block":{"select_id":1,
            "ordering_operation":{"using_filesort":false,
              "optimized_away_subqueries":[
                {"dependent":false,"cacheable":true,
                 "query_block":{"select_id":2,"table":{"table_name":"s","access_type":"ALL"}}}],
              "table":{"table_name":"t","access_type":"ALL"}}}}"#,
    )
    .expect("valid document");
    match &*e.query_block.relation_block {
        RelationBlock::OrderingOperation(o) => {
            let subs = o.optimized_away_subqueries.as_ref().unwrap();
            assert_eq!(subs.len(), 1);
        }
        other => panic!("expected an ordering operation, got {:?}", other),
    }
}

#[test]
fn parses_grouping() {
    let e = decode_text(
        r#"{"query_block":{"select_id":1,
            "grouping_operation":{"using_temporary_table":true,"using_filesort":true,
              "cost_info":{"sort_cost":"3.00"},
              "nested_loop":[
                {"table":{"table_name":"a","access_type":"index"}},
                {"table":{"table_name":"b","access_type":"ref"}}]}}}"#,
    )
    .expect("valid document");
    match &*e.query_block.relation_block {
        RelationBlock::GroupingOperation(g) => {
            assert_eq!(g.using_temporary_table, Some(true));
            assert!(g.using_filesort);
            assert_eq!(g.cost_info.as_ref().unwrap().sort_cost, "3.00");
            match g.relation_block.as_ref().unwrap() {
                GroupedRelationBlock::NestedLoop(ts) => assert_eq!(ts.len(), 2),
                other => panic!("expected a nested loop, got {:?}", other),
            }
        }
        other => panic!("expected a grouping operation, got {:?}", other),
    }
}

#[test]
fn parses_grouping_duplicate_removal() {
    let e = decode_text(
        r#"{"query_block":{"select_id":1,
            "duplicates_removal":{"using_temporary_table":true,"using_filesort":false,
              "grouping_operation":{"using_filesort":false,
                "table":{"table_name":"g","access_type":"index"}}}}}"#,
    )
    .expect("valid document");
    match &*e.query_block.relation_block {
        RelationBlock::DuplicatesRemoval(d) => {
            assert!(d.using_temporary_table);
            assert!(!d.using_filesort);
            match &*d.relation_block {
                RelationBlock::GroupingOperation(g) => {
                    assert!(g.table.is_some());
                    assert!(g.relation_block.is_none());
                }
                other => panic!("expected a grouping operation, got {:?}", other),
            }
        }
        other => panic!("expected duplicates removal, got {:?}", other),
    }
}

#[test]
fn parses_order_by() {
    let e = decode_text(
        r#"{"query_block":{"select_id":1,
            "ordering_operation":{"using_temporary_table":true,"using_filesort":true,
              "table":{"table_name":"t","access_type":"ALL"}}}}"#,
    )
    .expect("valid document");
    match &*e.query_block.relation_block {
        RelationBlock::OrderingOperation(o) => {
            assert_eq!(o.using_temporary_table, Some(true));
            match o.relation_block.as_deref() {
                Some(RelationBlock::Table(t)) => assert_eq!(t.table_name, "t"),
                other => panic!("expected a table below, got {:?}", other),
            }
        }
        other => panic!("expected an ordering operation, got {:?}", other),
    }
}

#[test]
fn parses_having() {
    let e = decode_text(
        r#"{"query_block":{"select_id":1,
            "grouping_operation":{"using_filesort":false,
              "having_subqueries":[
                {"dependent":false,"cacheable":true,
                 "query_block":{"select_id":2,"table":{"table_name":"h","access_type":"ALL"}}}],
              "table":{"table_name":"g","access_type":"index"}}}}"#,
    )
    .expect("valid document");
    match &*e.query_block.relation_block {
        RelationBlock::GroupingOperation(g) => {
            assert_eq!(g.having_subqueries.as_ref().unwrap().len(), 1);
            assert!(g.table.is_some());
        }
        other => panic!("expected a grouping operation, got {:?}", other),
    }
}

#[test]
fn parses_unions() {
    let e = decode_text(
        r#"{"query_block":{
            "union_result":{"using_temporary_table":true,"table_name":"<union1,2>",
              "access_type":"ALL",
              "query_specifications":[
                {"dependent":false,"cacheable":true,
                 "query_block":{"select_id":1,"table":{"table_name":"a","access_type":"ALL"}}},
                {"dependent":false,"cacheable":true,
                 "query_block":{"select_id":2,"table":{"table_name":"b","access_type":"ALL"}}}]}}}"#,
    )
    .expect("valid document");
    match &*e.query_block.relation_block {
        RelationBlock::UnionResult(u) => {
            assert_eq!(u.table_name, "<union1,2>");
            assert_eq!(u.query_specifications.len(), 2);
            assert_eq!(u.query_specifications[0].query_block.select_id, Some(1));
            assert_eq!(u.query_specifications[1].query_block.select_id, Some(2));
        }
        other => panic!("expected a union result, got {:?}", other),
    }
}

#[test]
fn parses_buffering() {
    let e = decode_text(
        r#"{"query_block":{"select_id":1,
            "grouping_operation":{"using_filesort":false,
              "buffer_result":{"using_temporary_table":true,
                "table":{"table_name":"t","access_type":"ALL"}}}}}"#,
    )
    .expect("valid document");
    match &*e.query_block.relation_block {
        RelationBlock::GroupingOperation(g) => match g.relation_block.as_ref().unwrap() {
            GroupedRelationBlock::BufferResult(b) => {
                assert!(b.using_temporary_table);
                assert_eq!(b.table.table_name, "t");
            }
            other => panic!("expected a buffer result, got {:?}", other),
        },
        other => panic!("expected a grouping operation, got {:?}", other),
    }
}

#[test]
fn parses_indexing() {
    let e = decode_text(
        r#"{"query_block":{"select_id":1,
            "table":{"table_name":"t","access_type":"index",
              "key":"idx_ab","used_key_parts":["a","b"],"key_length":"10",
              "using_index":true,"using_index_for_group_by":false,
              "index_condition":"(`db`.`t`.`a` <=> 1)"}}}"#,
    )
    .expect("valid document");
    match &*e.query_block.relation_block {
        RelationBlock::Table(t) => {
            assert_eq!(t.using_index, Some(true));
            assert_eq!(t.using_index_for_group_by, Some(false));
            assert_eq!(t.key.as_deref(), Some("idx_ab"));
        }
        other => panic!("expected a table, got {:?}", other),
    }
}

#[test]
fn parses_nested_loops() {
    let e = decode_text(
        r#"{"query_block":{"select_id":1,"cost_info":{"query_cost":"12.00"},
            "nested_loop":[
              {"table":{"table_name":"a","access_type":"ALL"}},
              {"table":{"table_name":"b","access_type":"ref","ref":["db.a.id"]}},
              {"table":{"table_name":"c","access_type":"eq_ref",
                "cost_info":{"read_cost":"1.00","eval_cost":"0.20","prefix_cost":"9.00",
                  "data_read_per_join":"16"}}}]}}"#,
    )
    .expect("valid document");
    assert_eq!(e.query_block.cost_info.as_ref().unwrap().query_cost, "12.00");
    match &*e.query_block.relation_block {
        RelationBlock::NestedLoop(ts) => {
            assert_eq!(ts.len(), 3);
            assert_eq!(ts[2].table.cost_info.as_ref().unwrap().prefix_cost, "9.00");
        }
        other => panic!("expected a nested loop, got {:?}", other),
    }
}
