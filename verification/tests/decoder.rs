use explain_plan::decode::{decode_document, MAX_DEPTH};
use explain_plan::error::{DecodeError, ErrorKind, PathSeg};
use explain_plan::json::Json;
use explain_plan::encode::explanation_is_encodable;
use explain_plan::tree::{
    Explanation, GroupedRelationBlock, GroupingOperation, QueryBlock, RelationBlock, Table,
};

fn v2j(v: &serde_json::Value) -> Json {
    match v {
        serde_json::Value::Null => Json::Null,
        serde_json::Value::Bool(b) => Json::Bool(*b),
        serde_json::Value::Number(n) => Json::Num(n.as_u64().expect("integer expected")),
        serde_json::Value::String(s) => Json::Str(s.clone()),
        serde_json::Value::Array(items) => Json::Arr(items.iter().map(v2j).collect()),
        serde_json::Value::Object(m) => {
            Json::Obj(m.iter().map(|(k, v)| (k.clone(), v2j(v))).collect())
        }
    }
}

fn parse(text: &str) -> Json {
    let v: serde_json::Value = serde_json::from_str(text).expect("well-formed JSON");
    v2j(&v)
}

fn decode_text(text: &str) -> Result<Explanation, DecodeError> {
    decode_document(&parse(text))
}

/// Order-insensitive comparison of objects, order-sensitive for arrays.
fn sem_eq(a: &Json, b: &Json) -> bool {
    match (a, b) {
        (Json::Null, Json::Null) => true,
        (Json::Bool(x), Json::Bool(y)) => x == y,
        (Json::Num(x), Json::Num(y)) => x == y,
        (Json::Str(x), Json::Str(y)) => x == y,
        (Json::Arr(x), Json::Arr(y)) => {
            x.len() == y.len() && x.iter().zip(y.iter()).all(|(p, q)| sem_eq(p, q))
        }
        (Json::Obj(x), Json::Obj(y)) => {
            x.len() == y.len()
                && x.iter().all(|(k, v)| {
                    y.iter().any(|(k2, v2)| k == k2 && sem_eq(v, v2))
                })
        }
        _ => false,
    }
}

fn empty_table(name: &str, access: &str) -> Table {
    Table {
        table_name: name.to_owned(),
        access_type: access.to_owned(),
        possible_keys: None,
        key: None,
        used_key_parts: None,
        key_length: None,
        reference: None,
        cost_info: None,
        rows_examined_per_scan: None,
        rows_produced_per_join: None,
        filtered: None,
        first_match: None,
        using_index_for_group_by: None,
        index_condition: None,
        using_index: None,
        used_columns: None,
        attached_condition: None,
        attached_subqueries: None,
        materialized_from_subquery: None,
    }
}

#[test]
fn new() {
    let result = explain_plan::add(2, 2);
    assert_eq!(result, 4);
}

#[test]
fn decodes_simple_table_scan() {
    let e = decode_text(r#"{"query_block":{"select_id":1,"table":{"table_name":"t1","access_type":"ALL"}}}"#)
        .expect("valid document");
    assert_eq!(e.query_block.select_id, Some(1));
    assert!(e.query_block.cost_info.is_none());
    match &*e.query_block.relation_block {
        RelationBlock::Table(t) => {
            assert_eq!(*t, empty_table("t1", "ALL"));
        }
        other => panic!("expected a table, got {:?}", other),
    }
}

#[test]
fn decodes_nested_loop_in_order() {
    let e = decode_text(
        r#"{"query_block":{"nested_loop":[
            {"table":{"table_name":"a","access_type":"ref"}},
            {"table":{"table_name":"b","access_type":"eq_ref"}}]}}"#,
    )
    .expect("valid document");
    match &*e.query_block.relation_block {
        RelationBlock::NestedLoop(ts) => {
            assert_eq!(ts.len(), 2);
            assert_eq!(ts[0].table.table_name, "a");
            assert_eq!(ts[0].table.access_type, "ref");
            assert_eq!(ts[1].table.table_name, "b");
            assert_eq!(ts[1].table.access_type, "eq_ref");
        }
        other => panic!("expected a nested loop, got {:?}", other),
    }
}

#[test]
fn unknown_key_in_query_block_fails() {
    let err = decode_text(r#"{"query_block":{"select_id":1,"foo":1,"table":{"table_name":"t","access_type":"ALL"}}}"#)
        .expect_err("unknown key must be rejected");
    match &err.kind {
        ErrorKind::UnknownField(k) => assert_eq!(k, "foo"),
        other => panic!("expected UnknownField, got {:?}", other),
    }
    assert_eq!(err.path.len(), 1);
    assert!(matches!(&err.path[0], PathSeg::Field(f) if f == "query_block"));
}

#[test]
fn unknown_key_deep_in_tree_fails() {
    let err = decode_text(
        r#"{"query_block":{"nested_loop":[
            {"table":{"table_name":"a","access_type":"ref"}},
            {"table":{"table_name":"b","access_type":"ref","bogus":true}}]}}"#,
    )
    .expect_err("unknown key must be rejected at any depth");
    match &err.kind {
        ErrorKind::UnknownField(k) => assert_eq!(k, "bogus"),
        other => panic!("expected UnknownField, got {:?}", other),
    }
    assert!(matches!(&err.path[0], PathSeg::Field(f) if f == "query_block"));
    assert!(matches!(&err.path[1], PathSeg::Field(f) if f == "nested_loop"));
    assert!(matches!(&err.path[2], PathSeg::Index(1)));
    assert!(matches!(&err.path[3], PathSeg::Field(f) if f == "table"));
}

#[test]
fn zero_discriminators_fails() {
    let err = decode_text(r#"{"query_block":{"select_id":3}}"#)
        .expect_err("no relation shape present");
    assert!(matches!(err.kind, ErrorKind::NoMatchingVariant));
}

#[test]
fn two_discriminators_fails() {
    let err = decode_text(
        r#"{"query_block":{
            "table":{"table_name":"t","access_type":"ALL"},
            "nested_loop":[]}}"#,
    )
    .expect_err("two relation shapes present");
    match &err.kind {
        ErrorKind::AmbiguousVariant(keys) => {
            assert_eq!(keys.len(), 2);
            assert!(keys.contains(&"table".to_owned()));
            assert!(keys.contains(&"nested_loop".to_owned()));
        }
        other => panic!("expected AmbiguousVariant, got {:?}", other),
    }
}

#[test]
fn missing_required_field_fails() {
    let err = decode_text(r#"{"query_block":{"table":{"access_type":"ALL"}}}"#)
        .expect_err("table_name is required");
    match &err.kind {
        ErrorKind::MissingRequiredField(k) => assert_eq!(k, "table_name"),
        other => panic!("expected MissingRequiredField, got {:?}", other),
    }
}

#[test]
fn type_mismatch_fails() {
    let err = decode_text(r#"{"query_block":{"table":{"table_name":7,"access_type":"ALL"}}}"#)
        .expect_err("table_name must be a string");
    assert!(matches!(err.kind, ErrorKind::TypeMismatch(_, _)));
}

#[test]
fn select_id_out_of_range_fails() {
    let err = decode_text(
        r#"{"query_block":{"select_id":5000000000,"table":{"table_name":"t","access_type":"ALL"}}}"#,
    )
    .expect_err("select_id must fit an unsigned 32-bit integer");
    assert!(matches!(err.kind, ErrorKind::TypeMismatch(_, _)));
}

#[test]
fn depth_guard_trips() {
    let mut inner = Json::Obj(vec![
        ("table_name".to_owned(), Json::Str("t".to_owned())),
        ("access_type".to_owned(), Json::Str("ALL".to_owned())),
    ]);
    for _ in 0..MAX_DEPTH {
        inner = Json::Obj(vec![
            ("table_name".to_owned(), Json::Str("t".to_owned())),
            ("access_type".to_owned(), Json::Str("ALL".to_owned())),
            (
                "materialized_from_subquery".to_owned(),
                Json::Obj(vec![
                    ("using_temporary_table".to_owned(), Json::Bool(false)),
                    (
                        "query_block".to_owned(),
                        Json::Obj(vec![("table".to_owned(), inner)]),
                    ),
                ]),
            ),
        ]);
    }
    let doc = Json::Obj(vec![(
        "query_block".to_owned(),
        Json::Obj(vec![("table".to_owned(), inner)]),
    )]);
    let err = decode_document(&doc).expect_err("the depth guard must trip");
    assert!(matches!(err.kind, ErrorKind::DepthExceeded));
}

#[test]
fn duplicate_keys_are_malformed() {
    let doc = Json::Obj(vec![
        ("query_block".to_owned(), Json::Obj(vec![])),
        ("query_block".to_owned(), Json::Obj(vec![])),
    ]);
    let err = decode_document(&doc).expect_err("duplicate keys are malformed");
    assert!(matches!(err.kind, ErrorKind::MalformedInput));
}

#[test]
fn materialized_subquery_three_levels() {
    let e = decode_text(
        r#"{"query_block":{"select_id":1,"table":{"table_name":"o1","access_type":"ALL",
            "materialized_from_subquery":{"using_temporary_table":true,"dependent":false,"cacheable":true,
              "query_block":{"select_id":2,"table":{"table_name":"o2","access_type":"ALL",
                "materialized_from_subquery":{"using_temporary_table":true,
                  "query_block":{"select_id":3,"table":{"table_name":"o3","access_type":"ALL",
                    "materialized_from_subquery":{"using_temporary_table":false,
                      "query_block":{"select_id":4,"table":{"table_name":"leaf","access_type":"system"}}}}}}}}}}}}"#,
    )
    .expect("three nested materialized subqueries decode");
    let t1 = match &*e.query_block.relation_block {
        RelationBlock::Table(t) => t,
        other => panic!("expected a table, got {:?}", other),
    };
    let q2 = &t1.materialized_from_subquery.as_ref().unwrap().query_block;
    assert_eq!(q2.select_id, Some(2));
    let t2 = match &*q2.relation_block {
        RelationBlock::Table(t) => t,
        other => panic!("expected a table, got {:?}", other),
    };
    let q3 = &t2.materialized_from_subquery.as_ref().unwrap().query_block;
    let t3 = match &*q3.relation_block {
        RelationBlock::Table(t) => t,
        other => panic!("expected a table, got {:?}", other),
    };
    let q4 = &t3.materialized_from_subquery.as_ref().unwrap().query_block;
    assert_eq!(q4.select_id, Some(4));
    let leaf = match &*q4.relation_block {
        RelationBlock::Table(t) => t,
        other => panic!("expected a table, got {:?}", other),
    };
    assert_eq!(leaf.table_name, "leaf");
    assert_eq!(leaf.access_type, "system");
}

#[test]
fn round_trip_reproduces_document() {
    let texts = [
        r#"{"query_block":{"select_id":1,"cost_info":{"query_cost":"8.25"},
            "table":{"table_name":"t1","access_type":"range","possible_keys":["PRIMARY","idx_a"],
            "key":"idx_a","used_key_parts":["a"],"key_length":"5","ref":["const"],
            "cost_info":{"read_cost":"1.00","eval_cost":"0.40","prefix_cost":"1.40","data_read_per_join":"32"},
            "rows_examined_per_scan":4,"rows_produced_per_join":2,"filtered":"50.00",
            "index_condition":"(`db`.`t1`.`a` > 3)","using_index":true,
            "used_columns":["a","b"],"attached_condition":"(`db`.`t1`.`b` < 9)"}}}"#,
        r#"{"query_block":{"nested_loop":[
            {"table":{"table_name":"a","access_type":"ref"}},
            {"table":{"table_name":"b","access_type":"eq_ref","first_match":"a"}}]}}"#,
        r#"{"query_block":{"select_id":1,"ordering_operation":{"using_filesort":true,
            "grouping_operation":{"using_temporary_table":true,"using_filesort":false,
              "table":{"table_name":"g","access_type":"index"}}}}}"#,
    ];
    for text in texts {
        let doc = parse(text);
        let e = decode_document(&doc).expect("valid document");
        let out = explain_plan::encode::encode(&e);
        assert!(sem_eq(&doc, &out), "round trip changed the document: {:?}", out);
        let e2 = decode_document(&out).expect("re-encoded document decodes");
        assert_eq!(e, e2);
    }
}

#[test]
fn two_discriminators_under_duplicates_removal_fails() {
    let err = decode_text(
        r#"{"query_block":{"duplicates_removal":{
            "using_temporary_table":true,"using_filesort":false,
            "table":{"table_name":"t","access_type":"ALL"},
            "nested_loop":[]}}}"#,
    )
    .expect_err("two relation shapes under duplicates removal");
    assert!(matches!(err.kind, ErrorKind::AmbiguousVariant(_)));
}

#[test]
fn attached_subquery_without_block_fails() {
    let err = decode_text(
        r#"{"query_block":{"table":{"table_name":"t","access_type":"ALL",
            "attached_subqueries":[{"dependent":false,"cacheable":true}]}}}"#,
    )
    .expect_err("an attached subquery must carry a block");
    assert!(matches!(err.kind, ErrorKind::NoMatchingVariant));
}

#[test]
fn encodability_check_guards_encode() {
    // A grouped relation holding a bare table cannot be written back: the
    // `table` key inside a grouping operation belongs to its own field.
    let bad = Explanation {
        query_block: QueryBlock {
            select_id: None,
            cost_info: None,
            relation_block: Box::new(RelationBlock::GroupingOperation(GroupingOperation {
                using_temporary_table: None,
                using_filesort: false,
                cost_info: None,
                relation_block: Some(GroupedRelationBlock::Table(empty_table("t", "ALL"))),
                table: None,
                having_subqueries: None,
            })),
        },
    };
    assert!(!explanation_is_encodable(&bad));
    let good = decode_text(r#"{"query_block":{"table":{"table_name":"t","access_type":"ALL"}}}"#)
        .expect("valid document");
    assert!(explanation_is_encodable(&good));
}
