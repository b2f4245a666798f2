//! The structural inverse of decoding: each encoder emits exactly the
//! fields its tree node carries (absent optional fields are omitted, never
//! emitted as null), re-merges flattened children into the parent object,
//! and preserves sequence order. The produced document conforms to the
//! encoded tree, so by functionality of the conformance relation it is
//! semantically equal to any document the tree was decoded from.

use vstd::prelude::*;
use crate::grammar::{
    ab_encodable, asq_list_encodable, explanation_encodable, grb_encodable, grouping_encodable,
    nl_encodable, ordering_encodable, query_block_encodable, rb_encodable, table_encodable,
    union_result_encodable,
    ab_disc_of, ab_payload_conforms, asq_conforms, asq_own_key, asq_list_conforms, block_ref_conforms,
    block_ref_key, buffer_result_conforms, buffer_result_key, dr_conforms, dr_own_key,
    explanation_conforms, explanation_key, field_bool, field_str, field_u32, grb_disc_key,
    grb_disc_of, grb_payload_conforms, grouping_conforms, grouping_own_key, mfs_conforms, mfs_key,
    nl_conforms, obs_conforms, obs_key, obs_list_conforms, opt_field_bool, opt_field_str,
    opt_field_str_arr, opt_field_u32, ordering_conforms, ordering_own_key, qb_own_key,
    query_block_conforms, query_cost_conforms, query_cost_key, rb_disc_of, rb_payload_conforms,
    rel_costs_conforms, rel_costs_key, sort_cost_conforms, sort_cost_key, str_arr,
    table_block_conforms, table_block_key, table_conforms, table_key, ub_list_conforms,
    union_block_conforms, union_block_key, union_result_conforms, union_result_key,
};
use crate::json::{has_key, keys_unique, lemma_lookup_unique, lookup, Json};
use crate::tree::{
    AttachedBlock, AttachedSubquery, BlockReference, BufferResult, DuplicatesRemoval, Explanation,
    GroupedRelationBlock, GroupingOperation, MaterializedFromSubquery, OrderBySubqueries,
    OrderingOperation, QueryBlock, QueryCost, RelationBlock, RelationalCosts, SortCost, Table,
    TableBlock, UnionBlock, UnionResult,
};

verus! {

/// Every value stored in the entry list is well-formed.
pub open spec fn vals_wf(es: Seq<(String, Json)>) -> bool {
    forall|i: int| 0 <= i < es.len() ==> (#[trigger] es[i]).1.wf()
}

/// Append one field to an object under construction, keeping keys unique
/// and recording exactly how presence and bindings change.
fn push_field(es: &mut Vec<(String, Json)>, name: &str, v: Json)
    requires
        keys_unique(old(es)@),
        vals_wf(old(es)@),
        !has_key(old(es)@, name@),
        v.wf(),
    ensures
        keys_unique(final(es)@),
        vals_wf(final(es)@),
        forall|k: Seq<char>| #[trigger]
            has_key(final(es)@, k) <==> (has_key(old(es)@, k) || k == name@),
        lookup(final(es)@, name@) == v,
        forall|k: Seq<char>|
            has_key(old(es)@, k) ==> #[trigger] lookup(final(es)@, k) == lookup(old(es)@, k),
{
    let key: String = name.to_owned();
    proof {
        let oes = es@;
        let n = oes.len() as int;
        assert forall|i: int| 0 <= i < n implies oes[i].0@ != name@ by {
            if oes[i].0@ == name@ {
                assert(has_key(oes, name@));
            }
        }
    }
    let ghost oes = es@;
    let ghost n = es@.len() as int;
    es.push((key, v));
    proof {
        assert forall|i: int| 0 <= i < n implies oes[i].0@ != name@ by {
            if oes[i].0@ == name@ {
                assert(has_key(oes, name@));
            }
        }
        assert(keys_unique(es@));
        assert forall|k: Seq<char>| #[trigger]
            has_key(es@, k) <==> (has_key(oes, k) || k == name@) by {
            if has_key(es@, k) {
                let c = choose|c: int| 0 <= c < es@.len() && (#[trigger] es@[c]).0@ == k;
                if c < n {
                    assert(oes[c].0@ == k);
                    assert(has_key(oes, k));
                }
            }
            if has_key(oes, k) {
                let c = choose|c: int| 0 <= c < oes.len() && (#[trigger] oes[c]).0@ == k;
                assert(es@[c].0@ == k);
                assert(has_key(es@, k));
            }
            if k == name@ {
                assert(es@[n].0@ == k);
                assert(has_key(es@, k));
            }
        }
        lemma_lookup_unique(es@, name@, n);
        assert forall|k: Seq<char>|
            has_key(oes, k) implies #[trigger] lookup(es@, k) == lookup(oes, k) by {
            let c = choose|c: int| 0 <= c < oes.len() && (#[trigger] oes[c]).0@ == k;
            lemma_lookup_unique(oes, k, c);
            lemma_lookup_unique(es@, k, c);
        }
    }
}

/// The discriminator key a relation-block variant is written under.
fn rb_disc_name(rb: &RelationBlock) -> (r: &'static str)
    ensures
        r@ == rb_disc_of(*rb),
{
    match rb {
        RelationBlock::DuplicatesRemoval(_) => "duplicates_removal",
        RelationBlock::GroupingOperation(_) => "grouping_operation",
        RelationBlock::NestedLoop(_) => "nested_loop",
        RelationBlock::OrderingOperation(_) => "ordering_operation",
        RelationBlock::Table(_) => "table",
        RelationBlock::UnionResult(_) => "union_result",
    }
}

fn grb_disc_name(g: &GroupedRelationBlock) -> (r: &'static str)
    ensures
        r@ == grb_disc_of(*g),
{
    match g {
        GroupedRelationBlock::BufferResult(_) => "buffer_result",
        GroupedRelationBlock::NestedLoop(_) => "nested_loop",
        GroupedRelationBlock::Table(_) => "table",
    }
}

fn ab_disc_name(ab: &AttachedBlock) -> (r: &'static str)
    ensures
        r@ == ab_disc_of(*ab),
{
    match ab {
        AttachedBlock::QueryBlock(_) => "query_block",
        AttachedBlock::Table(_) => "table",
    }
}

#[verifier::loop_isolation(false)]
fn encode_str_arr(xs: &Vec<String>) -> (r: Json)
    ensures
        str_arr(r, xs@),
        r.wf(),
{
    let mut items: Vec<Json> = Vec::new();
    let mut i: usize = 0;
    while i < xs.len()
        invariant
            i <= xs@.len(),
            items@.len() == i,
            forall|q: int|
                0 <= q < i ==> ((#[trigger] items@[q]) matches Json::Str(s) && s@ == xs@[q]@),
            forall|q: int| 0 <= q < i ==> (#[trigger] items@[q]).wf(),
        decreases xs@.len() - i,
    {
        let v = Json::Str(xs[i].clone());
        assert(v.wf());
        items.push(v);
        i += 1;
    }
    let r = Json::Arr(items);
    assert(r.wf());
    r
}

fn encode_query_cost(t: &QueryCost) -> (r: Json)
    ensures
        query_cost_conforms(*t, r),
        r.wf(),
{
    let mut es: Vec<(String, Json)> = Vec::new();
    push_field(&mut es, "query_cost", Json::Str(t.query_cost.clone()));
    proof {
        assert forall|i: int| 0 <= i < es@.len() implies query_cost_key(
            (#[trigger] es@[i]).0@,
        ) by {
            assert(has_key(es@, es@[i].0@));
        }
    }
    let r = Json::Obj(es);
    assert(r.wf());
    r
}

fn encode_sort_cost(t: &SortCost) -> (r: Json)
    ensures
        sort_cost_conforms(*t, r),
        r.wf(),
{
    let mut es: Vec<(String, Json)> = Vec::new();
    push_field(&mut es, "sort_cost", Json::Str(t.sort_cost.clone()));
    proof {
        assert forall|i: int| 0 <= i < es@.len() implies sort_cost_key(
            (#[trigger] es@[i]).0@,
        ) by {
            assert(has_key(es@, es@[i].0@));
        }
    }
    let r = Json::Obj(es);
    assert(r.wf());
    r
}

fn encode_rel_costs(t: &RelationalCosts) -> (r: Json)
    ensures
        rel_costs_conforms(*t, r),
        r.wf(),
{
    proof {
        reveal_strlit("read_cost");
        reveal_strlit("eval_cost");
        reveal_strlit("prefix_cost");
        reveal_strlit("data_read_per_join");
        assert("read_cost"@.len() == 9);
        assert("eval_cost"@.len() == 9);
        assert("prefix_cost"@.len() == 11);
        assert("data_read_per_join"@.len() == 18);
        assert("read_cost"@[0] == 'r' && "eval_cost"@[0] == 'e');
    }
    let mut es: Vec<(String, Json)> = Vec::new();
    push_field(&mut es, "read_cost", Json::Str(t.read_cost.clone()));
    push_field(&mut es, "eval_cost", Json::Str(t.eval_cost.clone()));
    push_field(&mut es, "prefix_cost", Json::Str(t.prefix_cost.clone()));
    push_field(&mut es, "data_read_per_join", Json::Str(t.data_read_per_join.clone()));
    proof {
        assert forall|i: int| 0 <= i < es@.len() implies rel_costs_key(
            (#[trigger] es@[i]).0@,
        ) by {
            assert(has_key(es@, es@[i].0@));
        }
    }
    let r = Json::Obj(es);
    assert(r.wf());
    r
}

fn encode_block_ref(t: &BlockReference) -> (r: Json)
    ensures
        block_ref_conforms(*t, r),
        r.wf(),
{
    proof {
        reveal_strlit("select_id");
        reveal_strlit("message");
        assert("select_id"@.len() == 9);
        assert("message"@.len() == 7);
    }
    let mut es: Vec<(String, Json)> = Vec::new();
    push_field(&mut es, "select_id", Json::Num(t.select_id as u64));
    push_field(&mut es, "message", Json::Str(t.message.clone()));
    proof {
        assert forall|i: int| 0 <= i < es@.len() implies block_ref_key(
            (#[trigger] es@[i]).0@,
        ) by {
            assert(has_key(es@, es@[i].0@));
        }
    }
    let r = Json::Obj(es);
    assert(r.wf());
    r
}

fn encode_obs(t: &OrderBySubqueries) -> (r: Json)
    ensures
        obs_conforms(*t, r),
        r.wf(),
{
    proof {
        reveal_strlit("dependent");
        reveal_strlit("cacheable");
        reveal_strlit("query_block");
        assert("dependent"@.len() == 9);
        assert("cacheable"@.len() == 9);
        assert("query_block"@.len() == 11);
        assert("dependent"@[0] == 'd' && "cacheable"@[0] == 'c');
    }
    let mut es: Vec<(String, Json)> = Vec::new();
    push_field(&mut es, "dependent", Json::Bool(t.dependent));
    push_field(&mut es, "cacheable", Json::Bool(t.cacheable));
    push_field(&mut es, "query_block", encode_block_ref(&t.query_block));
    proof {
        assert forall|i: int| 0 <= i < es@.len() implies obs_key((#[trigger] es@[i]).0@) by {
            assert(has_key(es@, es@[i].0@));
        }
    }
    let r = Json::Obj(es);
    assert(r.wf());
    r
}

#[verifier::loop_isolation(false)]
fn encode_obs_list(ts: &Vec<OrderBySubqueries>) -> (r: Json)
    ensures
        obs_list_conforms(ts@, r),
        r.wf(),
{
    let mut items: Vec<Json> = Vec::new();
    let mut i: usize = 0;
    while i < ts.len()
        invariant
            i <= ts@.len(),
            items@.len() == i,
            forall|q: int| 0 <= q < i ==> obs_conforms(ts@[q], #[trigger] items@[q]),
            forall|q: int| 0 <= q < i ==> (#[trigger] items@[q]).wf(),
        decreases ts@.len() - i,
    {
        items.push(encode_obs(&ts[i]));
        i += 1;
    }
    let r = Json::Arr(items);
    assert(r.wf());
    r
}


// --- Recursive entity encoders -------------------------------------------

#[verifier::loop_isolation(false)]
fn encode_nl(ts: &Vec<TableBlock>) -> (r: Json)
    requires
        nl_encodable(ts@),
    ensures
        nl_conforms(ts@, r),
        r.wf(),
    decreases ts@,
{
    let mut items: Vec<Json> = Vec::new();
    let mut i: usize = 0;
    while i < ts.len()
        invariant
            i <= ts@.len(),
            items@.len() == i,
            forall|q: int| 0 <= q < i ==> table_block_conforms(ts@[q], #[trigger] items@[q]),
            forall|q: int| 0 <= q < i ==> (#[trigger] items@[q]).wf(),
        decreases ts@.len() - i,
    {
        items.push(encode_table_block(&ts[i]));
        i += 1;
    }
    let r = Json::Arr(items);
    assert(r.wf());
    r
}

fn encode_table_block(t: &TableBlock) -> (r: Json)
    requires
        table_encodable(t.table),
    ensures
        table_block_conforms(*t, r),
        r.wf(),
    decreases *t,
{
    let mut es: Vec<(String, Json)> = Vec::new();
    push_field(&mut es, "table", encode_table(&t.table));
    proof {
        assert forall|i: int| 0 <= i < es@.len() implies table_block_key(
            (#[trigger] es@[i]).0@,
        ) by {
            assert(has_key(es@, es@[i].0@));
        }
    }
    let r = Json::Obj(es);
    assert(r.wf());
    r
}

#[verifier::loop_isolation(false)]
fn encode_asq_list(ts: &Vec<AttachedSubquery>) -> (r: Json)
    requires
        asq_list_encodable(ts@),
    ensures
        asq_list_conforms(ts@, r),
        r.wf(),
    decreases ts@,
{
    let mut items: Vec<Json> = Vec::new();
    let mut i: usize = 0;
    while i < ts.len()
        invariant
            i <= ts@.len(),
            items@.len() == i,
            forall|q: int| 0 <= q < i ==> asq_conforms(ts@[q], #[trigger] items@[q]),
            forall|q: int| 0 <= q < i ==> (#[trigger] items@[q]).wf(),
        decreases ts@.len() - i,
    {
        items.push(encode_asq(&ts[i]));
        i += 1;
    }
    let r = Json::Arr(items);
    assert(r.wf());
    r
}

fn encode_asq(t: &AttachedSubquery) -> (r: Json)
    requires
        ab_encodable(t.attached_block),
    ensures
        asq_conforms(*t, r),
        r.wf(),
    decreases *t,
{
    proof {
        reveal_strlit("dependent");
        reveal_strlit("cacheable");
        reveal_strlit("query_block");
        reveal_strlit("table");
        assert("dependent"@.len() == 9);
        assert("cacheable"@.len() == 9);
        assert("query_block"@.len() == 11);
        assert("table"@.len() == 5);
        assert("dependent"@[0] == 'd' && "cacheable"@[0] == 'c');
    }
    let mut es: Vec<(String, Json)> = Vec::new();
    match &t.dependent {
        Some(b) => push_field(&mut es, "dependent", Json::Bool(*b)),
        None => {},
    }
    match &t.cacheable {
        Some(b) => push_field(&mut es, "cacheable", Json::Bool(*b)),
        None => {},
    }
    push_field(&mut es, ab_disc_name(&t.attached_block), encode_ab_payload(&t.attached_block));
    proof {
        assert forall|i: int|
            0 <= i < es@.len() implies asq_own_key((#[trigger] es@[i]).0@) || es@[i].0@
            == ab_disc_of(t.attached_block) by {
            assert(has_key(es@, es@[i].0@));
        }
    }
    let r = Json::Obj(es);
    assert(r.wf());
    r
}

fn encode_ab_payload(ab: &AttachedBlock) -> (r: Json)
    requires
        ab_encodable(*ab),
    ensures
        ab_payload_conforms(*ab, r),
        r.wf(),
    decreases *ab,
{
    match ab {
        AttachedBlock::QueryBlock(q) => encode_query_block(q),
        AttachedBlock::Table(t) => encode_table(t),
    }
}

fn encode_mfs(t: &MaterializedFromSubquery) -> (r: Json)
    requires
        query_block_encodable(t.query_block),
    ensures
        mfs_conforms(*t, r),
        r.wf(),
    decreases *t,
{
    proof {
        reveal_strlit("using_temporary_table");
        reveal_strlit("dependent");
        reveal_strlit("cacheable");
        reveal_strlit("query_block");
        assert("using_temporary_table"@.len() == 21);
        assert("dependent"@.len() == 9);
        assert("cacheable"@.len() == 9);
        assert("query_block"@.len() == 11);
        assert("dependent"@[0] == 'd' && "cacheable"@[0] == 'c');
    }
    let mut es: Vec<(String, Json)> = Vec::new();
    push_field(&mut es, "using_temporary_table", Json::Bool(t.using_temporary_table));
    match &t.dependent {
        Some(b) => push_field(&mut es, "dependent", Json::Bool(*b)),
        None => {},
    }
    match &t.cacheable {
        Some(b) => push_field(&mut es, "cacheable", Json::Bool(*b)),
        None => {},
    }
    push_field(&mut es, "query_block", encode_query_block(&t.query_block));
    proof {
        assert forall|i: int| 0 <= i < es@.len() implies mfs_key((#[trigger] es@[i]).0@) by {
            assert(has_key(es@, es@[i].0@));
        }
    }
    let r = Json::Obj(es);
    assert(r.wf());
    r
}

/// The table production's field names are pairwise distinct.
#[verifier::rlimit(100)]
proof fn lemma_table_names_distinct()
    ensures
        "table_name"@ != "access_type"@,
        "table_name"@ != "possible_keys"@,
        "table_name"@ != "key"@,
        "table_name"@ != "used_key_parts"@,
        "table_name"@ != "key_length"@,
        "table_name"@ != "ref"@,
        "table_name"@ != "cost_info"@,
        "table_name"@ != "rows_examined_per_scan"@,
        "table_name"@ != "rows_produced_per_join"@,
        "table_name"@ != "filtered"@,
        "table_name"@ != "first_match"@,
        "table_name"@ != "using_index_for_group_by"@,
        "table_name"@ != "index_condition"@,
        "table_name"@ != "using_index"@,
        "table_name"@ != "used_columns"@,
        "table_name"@ != "attached_condition"@,
        "table_name"@ != "attached_subqueries"@,
        "table_name"@ != "materialized_from_subquery"@,
        "access_type"@ != "possible_keys"@,
        "access_type"@ != "key"@,
        "access_type"@ != "used_key_parts"@,
        "access_type"@ != "key_length"@,
        "access_type"@ != "ref"@,
        "access_type"@ != "cost_info"@,
        "access_type"@ != "rows_examined_per_scan"@,
        "access_type"@ != "rows_produced_per_join"@,
        "access_type"@ != "filtered"@,
        "access_type"@ != "first_match"@,
        "access_type"@ != "using_index_for_group_by"@,
        "access_type"@ != "index_condition"@,
        "access_type"@ != "using_index"@,
        "access_type"@ != "used_columns"@,
        "access_type"@ != "attached_condition"@,
        "access_type"@ != "attached_subqueries"@,
        "access_type"@ != "materialized_from_subquery"@,
        "possible_keys"@ != "key"@,
        "possible_keys"@ != "used_key_parts"@,
        "possible_keys"@ != "key_length"@,
        "possible_keys"@ != "ref"@,
        "possible_keys"@ != "cost_info"@,
        "possible_keys"@ != "rows_examined_per_scan"@,
        "possible_keys"@ != "rows_produced_per_join"@,
        "possible_keys"@ != "filtered"@,
        "possible_keys"@ != "first_match"@,
        "possible_keys"@ != "using_index_for_group_by"@,
        "possible_keys"@ != "index_condition"@,
        "possible_keys"@ != "using_index"@,
        "possible_keys"@ != "used_columns"@,
        "possible_keys"@ != "attached_condition"@,
        "possible_keys"@ != "attached_subqueries"@,
        "possible_keys"@ != "materialized_from_subquery"@,
        "key"@ != "used_key_parts"@,
        "key"@ != "key_length"@,
        "key"@ != "ref"@,
        "key"@ != "cost_info"@,
        "key"@ != "rows_examined_per_scan"@,
        "key"@ != "rows_produced_per_join"@,
        "key"@ != "filtered"@,
        "key"@ != "first_match"@,
        "key"@ != "using_index_for_group_by"@,
        "key"@ != "index_condition"@,
        "key"@ != "using_index"@,
        "key"@ != "used_columns"@,
        "key"@ != "attached_condition"@,
        "key"@ != "attached_subqueries"@,
        "key"@ != "materialized_from_subquery"@,
        "used_key_parts"@ != "key_length"@,
        "used_key_parts"@ != "ref"@,
        "used_key_parts"@ != "cost_info"@,
        "used_key_parts"@ != "rows_examined_per_scan"@,
        "used_key_parts"@ != "rows_produced_per_join"@,
        "used_key_parts"@ != "filtered"@,
        "used_key_parts"@ != "first_match"@,
        "used_key_parts"@ != "using_index_for_group_by"@,
        "used_key_parts"@ != "index_condition"@,
        "used_key_parts"@ != "using_index"@,
        "used_key_parts"@ != "used_columns"@,
        "used_key_parts"@ != "attached_condition"@,
        "used_key_parts"@ != "attached_subqueries"@,
        "used_key_parts"@ != "materialized_from_subquery"@,
        "key_length"@ != "ref"@,
        "key_length"@ != "cost_info"@,
        "key_length"@ != "rows_examined_per_scan"@,
        "key_length"@ != "rows_produced_per_join"@,
        "key_length"@ != "filtered"@,
        "key_length"@ != "first_match"@,
        "key_length"@ != "using_index_for_group_by"@,
        "key_length"@ != "index_condition"@,
        "key_length"@ != "using_index"@,
        "key_length"@ != "used_columns"@,
        "key_length"@ != "attached_condition"@,
        "key_length"@ != "attached_subqueries"@,
        "key_length"@ != "materialized_from_subquery"@,
        "ref"@ != "cost_info"@,
        "ref"@ != "rows_examined_per_scan"@,
        "ref"@ != "rows_produced_per_join"@,
        "ref"@ != "filtered"@,
        "ref"@ != "first_match"@,
        "ref"@ != "using_index_for_group_by"@,
        "ref"@ != "index_condition"@,
        "ref"@ != "using_index"@,
        "ref"@ != "used_columns"@,
        "ref"@ != "attached_condition"@,
        "ref"@ != "attached_subqueries"@,
        "ref"@ != "materialized_from_subquery"@,
        "cost_info"@ != "rows_examined_per_scan"@,
        "cost_info"@ != "rows_produced_per_join"@,
        "cost_info"@ != "filtered"@,
        "cost_info"@ != "first_match"@,
        "cost_info"@ != "using_index_for_group_by"@,
        "cost_info"@ != "index_condition"@,
        "cost_info"@ != "using_index"@,
        "cost_info"@ != "used_columns"@,
        "cost_info"@ != "attached_condition"@,
        "cost_info"@ != "attached_subqueries"@,
        "cost_info"@ != "materialized_from_subquery"@,
        "rows_examined_per_scan"@ != "rows_produced_per_join"@,
        "rows_examined_per_scan"@ != "filtered"@,
        "rows_examined_per_scan"@ != "first_match"@,
        "rows_examined_per_scan"@ != "using_index_for_group_by"@,
        "rows_examined_per_scan"@ != "index_condition"@,
        "rows_examined_per_scan"@ != "using_index"@,
        "rows_examined_per_scan"@ != "used_columns"@,
        "rows_examined_per_scan"@ != "attached_condition"@,
        "rows_examined_per_scan"@ != "attached_subqueries"@,
        "rows_examined_per_scan"@ != "materialized_from_subquery"@,
        "rows_produced_per_join"@ != "filtered"@,
        "rows_produced_per_join"@ != "first_match"@,
        "rows_produced_per_join"@ != "using_index_for_group_by"@,
        "rows_produced_per_join"@ != "index_condition"@,
        "rows_produced_per_join"@ != "using_index"@,
        "rows_produced_per_join"@ != "used_columns"@,
        "rows_produced_per_join"@ != "attached_condition"@,
        "rows_produced_per_join"@ != "attached_subqueries"@,
        "rows_produced_per_join"@ != "materialized_from_subquery"@,
        "filtered"@ != "first_match"@,
        "filtered"@ != "using_index_for_group_by"@,
        "filtered"@ != "index_condition"@,
        "filtered"@ != "using_index"@,
        "filtered"@ != "used_columns"@,
        "filtered"@ != "attached_condition"@,
        "filtered"@ != "attached_subqueries"@,
        "filtered"@ != "materialized_from_subquery"@,
        "first_match"@ != "using_index_for_group_by"@,
        "first_match"@ != "index_condition"@,
        "first_match"@ != "using_index"@,
        "first_match"@ != "used_columns"@,
        "first_match"@ != "attached_condition"@,
        "first_match"@ != "attached_subqueries"@,
        "first_match"@ != "materialized_from_subquery"@,
        "using_index_for_group_by"@ != "index_condition"@,
        "using_index_for_group_by"@ != "using_index"@,
        "using_index_for_group_by"@ != "used_columns"@,
        "using_index_for_group_by"@ != "attached_condition"@,
        "using_index_for_group_by"@ != "attached_subqueries"@,
        "using_index_for_group_by"@ != "materialized_from_subquery"@,
        "index_condition"@ != "using_index"@,
        "index_condition"@ != "used_columns"@,
        "index_condition"@ != "attached_condition"@,
        "index_condition"@ != "attached_subqueries"@,
        "index_condition"@ != "materialized_from_subquery"@,
        "using_index"@ != "used_columns"@,
        "using_index"@ != "attached_condition"@,
        "using_index"@ != "attached_subqueries"@,
        "using_index"@ != "materialized_from_subquery"@,
        "used_columns"@ != "attached_condition"@,
        "used_columns"@ != "attached_subqueries"@,
        "used_columns"@ != "materialized_from_subquery"@,
        "attached_condition"@ != "attached_subqueries"@,
        "attached_condition"@ != "materialized_from_subquery"@,
        "attached_subqueries"@ != "materialized_from_subquery"@,
{
    reveal_strlit("table_name");
    reveal_strlit("access_type");
    reveal_strlit("possible_keys");
    reveal_strlit("key");
    reveal_strlit("used_key_parts");
    reveal_strlit("key_length");
    reveal_strlit("ref");
    reveal_strlit("cost_info");
    reveal_strlit("rows_examined_per_scan");
    reveal_strlit("rows_produced_per_join");
    reveal_strlit("filtered");
    reveal_strlit("first_match");
    reveal_strlit("using_index_for_group_by");
    reveal_strlit("index_condition");
    reveal_strlit("using_index");
    reveal_strlit("used_columns");
    reveal_strlit("attached_condition");
    reveal_strlit("attached_subqueries");
    reveal_strlit("materialized_from_subquery");
    assert("table_name"@.len() == 10);
    assert("access_type"@.len() == 11);
    assert("possible_keys"@.len() == 13);
    assert("key"@.len() == 3);
    assert("used_key_parts"@.len() == 14);
    assert("key_length"@.len() == 10);
    assert("ref"@.len() == 3);
    assert("cost_info"@.len() == 9);
    assert("rows_examined_per_scan"@.len() == 22);
    assert("rows_produced_per_join"@.len() == 22);
    assert("filtered"@.len() == 8);
    assert("first_match"@.len() == 11);
    assert("using_index_for_group_by"@.len() == 24);
    assert("index_condition"@.len() == 15);
    assert("using_index"@.len() == 11);
    assert("used_columns"@.len() == 12);
    assert("attached_condition"@.len() == 18);
    assert("attached_subqueries"@.len() == 19);
    assert("materialized_from_subquery"@.len() == 26);
    assert("table_name"@[0] == 't' && "key_length"@[0] == 'k');
    assert("access_type"@[0] == 'a' && "first_match"@[0] == 'f' && "using_index"@[0] == 'u');
    assert("key"@[0] == 'k' && "ref"@[0] == 'r');
    assert("rows_examined_per_scan"@[5] == 'e' && "rows_produced_per_join"@[5] == 'p');
}

/// Emit the table's first run of scalar fields (the key-selection block).
#[verifier::rlimit(100)]
fn encode_table_scalars_front(t: &Table) -> (es: Vec<(String, Json)>)
    ensures
        keys_unique(es@),
        vals_wf(es@),
        forall|k: Seq<char>| #[trigger] has_key(es@, k) ==> table_key(k),
        field_str(es@, "table_name"@, t.table_name@),
        field_str(es@, "access_type"@, t.access_type@),
        opt_field_str_arr(es@, "possible_keys"@, t.possible_keys),
        opt_field_str(es@, "key"@, t.key),
        opt_field_str_arr(es@, "used_key_parts"@, t.used_key_parts),
        opt_field_str(es@, "key_length"@, t.key_length),
        opt_field_str_arr(es@, "ref"@, t.reference),
        !has_key(es@, "cost_info"@),
        !has_key(es@, "rows_examined_per_scan"@),
        !has_key(es@, "rows_produced_per_join"@),
        !has_key(es@, "filtered"@),
        !has_key(es@, "first_match"@),
        !has_key(es@, "using_index_for_group_by"@),
        !has_key(es@, "index_condition"@),
        !has_key(es@, "using_index"@),
        !has_key(es@, "used_columns"@),
        !has_key(es@, "attached_condition"@),
        !has_key(es@, "attached_subqueries"@),
        !has_key(es@, "materialized_from_subquery"@),
{
    proof {
        lemma_table_names_distinct();
    }
    let mut es: Vec<(String, Json)> = Vec::new();
    push_field(&mut es, "table_name", Json::Str(t.table_name.clone()));
    push_field(&mut es, "access_type", Json::Str(t.access_type.clone()));
    match &t.possible_keys {
        Some(xs) => push_field(&mut es, "possible_keys", encode_str_arr(xs)),
        None => {},
    }
    match &t.key {
        Some(x) => push_field(&mut es, "key", Json::Str(x.clone())),
        None => {},
    }
    match &t.used_key_parts {
        Some(xs) => push_field(&mut es, "used_key_parts", encode_str_arr(xs)),
        None => {},
    }
    match &t.key_length {
        Some(x) => push_field(&mut es, "key_length", Json::Str(x.clone())),
        None => {},
    }
    match &t.reference {
        Some(xs) => push_field(&mut es, "ref", encode_str_arr(xs)),
        None => {},
    }
    proof {
        assert forall|k: Seq<char>| #[trigger] has_key(es@, k) implies table_key(k) by {}
    }
    es
}

/// Emit the table's scalar-valued fields (everything but the two
/// recursive ones).
#[verifier::rlimit(100)]
fn encode_table_scalars(t: &Table) -> (es: Vec<(String, Json)>)
    ensures
        keys_unique(es@),
        vals_wf(es@),
        forall|k: Seq<char>| #[trigger] has_key(es@, k) ==> table_key(k),
        field_str(es@, "table_name"@, t.table_name@),
        field_str(es@, "access_type"@, t.access_type@),
        opt_field_str_arr(es@, "possible_keys"@, t.possible_keys),
        opt_field_str(es@, "key"@, t.key),
        opt_field_str_arr(es@, "used_key_parts"@, t.used_key_parts),
        opt_field_str(es@, "key_length"@, t.key_length),
        opt_field_str_arr(es@, "ref"@, t.reference),
        match t.cost_info {
            Some(c) => has_key(es@, "cost_info"@) && rel_costs_conforms(
                c,
                lookup(es@, "cost_info"@),
            ),
            None => !has_key(es@, "cost_info"@),
        },
        opt_field_u32(es@, "rows_examined_per_scan"@, t.rows_examined_per_scan),
        opt_field_u32(es@, "rows_produced_per_join"@, t.rows_produced_per_join),
        opt_field_str(es@, "filtered"@, t.filtered),
        opt_field_str(es@, "first_match"@, t.first_match),
        opt_field_bool(es@, "using_index_for_group_by"@, t.using_index_for_group_by),
        opt_field_str(es@, "index_condition"@, t.index_condition),
        opt_field_bool(es@, "using_index"@, t.using_index),
        opt_field_str_arr(es@, "used_columns"@, t.used_columns),
        opt_field_str(es@, "attached_condition"@, t.attached_condition),
        !has_key(es@, "attached_subqueries"@),
        !has_key(es@, "materialized_from_subquery"@),
{
    proof {
        lemma_table_names_distinct();
    }
    let mut es = encode_table_scalars_front(t);
    match &t.cost_info {
        Some(c) => push_field(&mut es, "cost_info", encode_rel_costs(c)),
        None => {},
    }
    match &t.rows_examined_per_scan {
        Some(n) => push_field(&mut es, "rows_examined_per_scan", Json::Num(*n as u64)),
        None => {},
    }
    match &t.rows_produced_per_join {
        Some(n) => push_field(&mut es, "rows_produced_per_join", Json::Num(*n as u64)),
        None => {},
    }
    match &t.filtered {
        Some(x) => push_field(&mut es, "filtered", Json::Str(x.clone())),
        None => {},
    }
    match &t.first_match {
        Some(x) => push_field(&mut es, "first_match", Json::Str(x.clone())),
        None => {},
    }
    match &t.using_index_for_group_by {
        Some(b) => push_field(&mut es, "using_index_for_group_by", Json::Bool(*b)),
        None => {},
    }
    match &t.index_condition {
        Some(x) => push_field(&mut es, "index_condition", Json::Str(x.clone())),
        None => {},
    }
    match &t.using_index {
        Some(b) => push_field(&mut es, "using_index", Json::Bool(*b)),
        None => {},
    }
    match &t.used_columns {
        Some(xs) => push_field(&mut es, "used_columns", encode_str_arr(xs)),
        None => {},
    }
    match &t.attached_condition {
        Some(x) => push_field(&mut es, "attached_condition", Json::Str(x.clone())),
        None => {},
    }
    proof {
        assert forall|k: Seq<char>| #[trigger] has_key(es@, k) implies table_key(k) by {}
    }
    es
}

#[verifier::rlimit(100)]
fn encode_table(t: &Table) -> (r: Json)
    requires
        table_encodable(*t),
    ensures
        table_conforms(*t, r),
        r.wf(),
    decreases *t,
{
    proof {
        lemma_table_names_distinct();
    }
    let mut es = encode_table_scalars(t);
    match &t.attached_subqueries {
        Some(subs) => push_field(&mut es, "attached_subqueries", encode_asq_list(subs)),
        None => {},
    }
    match &t.materialized_from_subquery {
        Some(m) => push_field(&mut es, "materialized_from_subquery", encode_mfs(m)),
        None => {},
    }
    proof {
        assert forall|i: int| 0 <= i < es@.len() implies table_key((#[trigger] es@[i]).0@) by {
            assert(has_key(es@, es@[i].0@));
        }
    }
    let r = Json::Obj(es);
    assert(r.wf());
    r
}

fn encode_buffer_result(t: &BufferResult) -> (r: Json)
    requires
        table_encodable(t.table),
    ensures
        buffer_result_conforms(*t, r),
        r.wf(),
    decreases *t,
{
    proof {
        reveal_strlit("using_temporary_table");
        reveal_strlit("table");
        assert("using_temporary_table"@.len() == 21);
        assert("table"@.len() == 5);
    }
    let mut es: Vec<(String, Json)> = Vec::new();
    push_field(&mut es, "using_temporary_table", Json::Bool(t.using_temporary_table));
    push_field(&mut es, "table", encode_table(&t.table));
    proof {
        assert forall|i: int| 0 <= i < es@.len() implies buffer_result_key(
            (#[trigger] es@[i]).0@,
        ) by {
            assert(has_key(es@, es@[i].0@));
        }
    }
    let r = Json::Obj(es);
    assert(r.wf());
    r
}

fn encode_union_block(t: &UnionBlock) -> (r: Json)
    requires
        query_block_encodable(t.query_block),
    ensures
        union_block_conforms(*t, r),
        r.wf(),
    decreases *t,
{
    proof {
        reveal_strlit("dependent");
        reveal_strlit("cacheable");
        reveal_strlit("query_block");
        assert("dependent"@.len() == 9);
        assert("cacheable"@.len() == 9);
        assert("query_block"@.len() == 11);
        assert("dependent"@[0] == 'd' && "cacheable"@[0] == 'c');
    }
    let mut es: Vec<(String, Json)> = Vec::new();
    push_field(&mut es, "dependent", Json::Bool(t.dependent));
    push_field(&mut es, "cacheable", Json::Bool(t.cacheable));
    push_field(&mut es, "query_block", encode_query_block(&t.query_block));
    proof {
        assert forall|i: int| 0 <= i < es@.len() implies union_block_key(
            (#[trigger] es@[i]).0@,
        ) by {
            assert(has_key(es@, es@[i].0@));
        }
    }
    let r = Json::Obj(es);
    assert(r.wf());
    r
}

#[verifier::loop_isolation(false)]
fn encode_union_result(t: &UnionResult) -> (r: Json)
    requires
        union_result_encodable(*t),
    ensures
        union_result_conforms(*t, r),
        r.wf(),
    decreases *t,
{
    proof {
        reveal_strlit("using_temporary_table");
        reveal_strlit("table_name");
        reveal_strlit("access_type");
        reveal_strlit("query_specifications");
        assert("using_temporary_table"@.len() == 21);
        assert("table_name"@.len() == 10);
        assert("access_type"@.len() == 11);
        assert("query_specifications"@.len() == 20);
    }
    let mut es: Vec<(String, Json)> = Vec::new();
    match &t.using_temporary_table {
        Some(b) => push_field(&mut es, "using_temporary_table", Json::Bool(*b)),
        None => {},
    }
    push_field(&mut es, "table_name", Json::Str(t.table_name.clone()));
    push_field(&mut es, "access_type", Json::Str(t.access_type.clone()));
    let mut items: Vec<Json> = Vec::new();
    let mut i: usize = 0;
    while i < t.query_specifications.len()
        invariant
            i <= t.query_specifications@.len(),
            items@.len() == i,
            union_result_encodable(*t),
            forall|q: int|
                0 <= q < i ==> union_block_conforms(
                    t.query_specifications@[q],
                    #[trigger] items@[q],
                ),
            forall|q: int| 0 <= q < i ==> (#[trigger] items@[q]).wf(),
        decreases t.query_specifications@.len() - i,
    {
        items.push(encode_union_block(&t.query_specifications[i]));
        i += 1;
    }
    let specs = Json::Arr(items);
    assert(specs.wf());
    assert(ub_list_conforms(t.query_specifications@, specs));
    push_field(&mut es, "query_specifications", specs);
    proof {
        assert forall|i: int| 0 <= i < es@.len() implies union_result_key(
            (#[trigger] es@[i]).0@,
        ) by {
            assert(has_key(es@, es@[i].0@));
        }
    }
    let r = Json::Obj(es);
    assert(r.wf());
    r
}

fn encode_dr(t: &DuplicatesRemoval) -> (r: Json)
    requires
        rb_encodable(*t.relation_block),
    ensures
        dr_conforms(*t, r),
        r.wf(),
    decreases *t,
{
    proof {
        reveal_strlit("using_temporary_table");
        reveal_strlit("using_filesort");
        reveal_strlit("duplicates_removal");
        reveal_strlit("grouping_operation");
        reveal_strlit("nested_loop");
        reveal_strlit("ordering_operation");
        reveal_strlit("table");
        reveal_strlit("union_result");
        assert("using_temporary_table"@.len() == 21);
        assert("using_filesort"@.len() == 14);
        assert("duplicates_removal"@.len() == 18);
        assert("grouping_operation"@.len() == 18);
        assert("nested_loop"@.len() == 11);
        assert("ordering_operation"@.len() == 18);
        assert("table"@.len() == 5);
        assert("union_result"@.len() == 12);
    }
    let mut es: Vec<(String, Json)> = Vec::new();
    push_field(&mut es, "using_temporary_table", Json::Bool(t.using_temporary_table));
    push_field(&mut es, "using_filesort", Json::Bool(t.using_filesort));
    push_field(&mut es, rb_disc_name(&t.relation_block), encode_rb_payload(&t.relation_block));
    proof {
        assert forall|i: int|
            0 <= i < es@.len() implies dr_own_key((#[trigger] es@[i]).0@) || es@[i].0@
            == rb_disc_of(*t.relation_block) by {
            assert(has_key(es@, es@[i].0@));
        }
    }
    let r = Json::Obj(es);
    assert(r.wf());
    r
}

fn encode_grouping(t: &GroupingOperation) -> (r: Json)
    requires
        grouping_encodable(*t),
    ensures
        grouping_conforms(*t, r),
        r.wf(),
    decreases *t,
{
    proof {
        reveal_strlit("using_temporary_table");
        reveal_strlit("using_filesort");
        reveal_strlit("cost_info");
        reveal_strlit("table");
        reveal_strlit("having_subqueries");
        reveal_strlit("buffer_result");
        reveal_strlit("nested_loop");
        assert("using_temporary_table"@.len() == 21);
        assert("using_filesort"@.len() == 14);
        assert("cost_info"@.len() == 9);
        assert("table"@.len() == 5);
        assert("having_subqueries"@.len() == 17);
        assert("buffer_result"@.len() == 13);
        assert("nested_loop"@.len() == 11);
    }
    let mut es: Vec<(String, Json)> = Vec::new();
    match &t.using_temporary_table {
        Some(b) => push_field(&mut es, "using_temporary_table", Json::Bool(*b)),
        None => {},
    }
    push_field(&mut es, "using_filesort", Json::Bool(t.using_filesort));
    match &t.cost_info {
        Some(c) => push_field(&mut es, "cost_info", encode_sort_cost(c)),
        None => {},
    }
    match &t.table {
        Some(tb) => push_field(&mut es, "table", encode_table(tb)),
        None => {},
    }
    match &t.having_subqueries {
        Some(subs) => push_field(&mut es, "having_subqueries", encode_asq_list(subs)),
        None => {},
    }
    match &t.relation_block {
        Some(g) => push_field(&mut es, grb_disc_name(g), encode_grb_payload(g)),
        None => {},
    }
    proof {
        assert forall|i: int|
            0 <= i < es@.len() implies grouping_own_key((#[trigger] es@[i]).0@) || (
            t.relation_block matches Some(g) && es@[i].0@ == grb_disc_of(g)) by {
            assert(has_key(es@, es@[i].0@));
        }
    }
    let r = Json::Obj(es);
    assert(r.wf());
    r
}

fn encode_grb_payload(g: &GroupedRelationBlock) -> (r: Json)
    requires
        grb_encodable(*g),
    ensures
        grb_payload_conforms(*g, r),
        r.wf(),
    decreases *g,
{
    match g {
        GroupedRelationBlock::BufferResult(b) => encode_buffer_result(b),
        GroupedRelationBlock::NestedLoop(ts) => encode_nl(ts),
        GroupedRelationBlock::Table(t) => {
            proof {
                assert(false);
            }
            encode_table(t)
        },
    }
}

fn encode_ordering(t: &OrderingOperation) -> (r: Json)
    requires
        ordering_encodable(*t),
    ensures
        ordering_conforms(*t, r),
        r.wf(),
    decreases *t,
{
    proof {
        reveal_strlit("using_temporary_table");
        reveal_strlit("using_filesort");
        reveal_strlit("optimized_away_subqueries");
        reveal_strlit("order_by_subqueries");
        reveal_strlit("duplicates_removal");
        reveal_strlit("grouping_operation");
        reveal_strlit("nested_loop");
        reveal_strlit("ordering_operation");
        reveal_strlit("table");
        reveal_strlit("union_result");
        assert("using_temporary_table"@.len() == 21);
        assert("using_filesort"@.len() == 14);
        assert("optimized_away_subqueries"@.len() == 25);
        assert("order_by_subqueries"@.len() == 19);
        assert("duplicates_removal"@.len() == 18);
        assert("grouping_operation"@.len() == 18);
        assert("nested_loop"@.len() == 11);
        assert("ordering_operation"@.len() == 18);
        assert("table"@.len() == 5);
        assert("union_result"@.len() == 12);
    }
    let mut es: Vec<(String, Json)> = Vec::new();
    match &t.using_temporary_table {
        Some(b) => push_field(&mut es, "using_temporary_table", Json::Bool(*b)),
        None => {},
    }
    push_field(&mut es, "using_filesort", Json::Bool(t.using_filesort));
    match &t.optimized_away_subqueries {
        Some(subs) => push_field(&mut es, "optimized_away_subqueries", encode_asq_list(subs)),
        None => {},
    }
    match &t.order_by_subqueries {
        Some(subs) => push_field(&mut es, "order_by_subqueries", encode_obs_list(subs)),
        None => {},
    }
    match &t.relation_block {
        Some(rb) => push_field(&mut es, rb_disc_name(rb), encode_rb_payload(rb)),
        None => {},
    }
    proof {
        assert forall|i: int|
            0 <= i < es@.len() implies ordering_own_key((#[trigger] es@[i]).0@) || (
            t.relation_block matches Some(rb) && es@[i].0@ == rb_disc_of(*rb)) by {
            assert(has_key(es@, es@[i].0@));
        }
    }
    let r = Json::Obj(es);
    assert(r.wf());
    r
}

fn encode_rb_payload(rb: &RelationBlock) -> (r: Json)
    requires
        rb_encodable(*rb),
    ensures
        rb_payload_conforms(*rb, r),
        r.wf(),
    decreases *rb,
{
    match rb {
        RelationBlock::DuplicatesRemoval(d) => encode_dr(d),
        RelationBlock::GroupingOperation(g) => encode_grouping(g),
        RelationBlock::NestedLoop(ts) => encode_nl(ts),
        RelationBlock::OrderingOperation(o) => encode_ordering(o),
        RelationBlock::Table(t) => encode_table(t),
        RelationBlock::UnionResult(u) => encode_union_result(u),
    }
}

pub fn encode_query_block(t: &QueryBlock) -> (r: Json)
    requires
        query_block_encodable(*t),
    ensures
        query_block_conforms(*t, r),
        r.wf(),
    decreases *t,
{
    proof {
        reveal_strlit("select_id");
        reveal_strlit("cost_info");
        reveal_strlit("duplicates_removal");
        reveal_strlit("grouping_operation");
        reveal_strlit("nested_loop");
        reveal_strlit("ordering_operation");
        reveal_strlit("table");
        reveal_strlit("union_result");
        assert("select_id"@.len() == 9);
        assert("cost_info"@.len() == 9);
        assert("duplicates_removal"@.len() == 18);
        assert("grouping_operation"@.len() == 18);
        assert("nested_loop"@.len() == 11);
        assert("ordering_operation"@.len() == 18);
        assert("table"@.len() == 5);
        assert("union_result"@.len() == 12);
        assert("select_id"@[0] == 's' && "cost_info"@[0] == 'c');
    }
    let mut es: Vec<(String, Json)> = Vec::new();
    match &t.select_id {
        Some(n) => push_field(&mut es, "select_id", Json::Num(*n as u64)),
        None => {},
    }
    match &t.cost_info {
        Some(c) => push_field(&mut es, "cost_info", encode_query_cost(c)),
        None => {},
    }
    push_field(&mut es, rb_disc_name(&t.relation_block), encode_rb_payload(&t.relation_block));
    proof {
        assert forall|i: int|
            0 <= i < es@.len() implies qb_own_key((#[trigger] es@[i]).0@) || es@[i].0@
            == rb_disc_of(*t.relation_block) by {
            assert(has_key(es@, es@[i].0@));
        }
    }
    let r = Json::Obj(es);
    assert(r.wf());
    r
}

/// Re-encode a decoded tree; the structural inverse of `decode`.
pub fn encode(t: &Explanation) -> (r: Json)
    requires
        explanation_encodable(*t),
    ensures
        explanation_conforms(*t, r),
        r.wf(),
{
    proof {
        reveal_strlit("query_block");
        assert("query_block"@.len() == 11);
    }
    let mut es: Vec<(String, Json)> = Vec::new();
    push_field(&mut es, "query_block", encode_query_block(&t.query_block));
    proof {
        assert forall|i: int| 0 <= i < es@.len() implies explanation_key(
            (#[trigger] es@[i]).0@,
        ) by {
            assert(has_key(es@, es@[i].0@));
        }
    }
    let r = Json::Obj(es);
    assert(r.wf());
    r
}


// --- Executable encodability check ---------------------------------------
//
// `encode` requires an encodable tree (decoders always return one). This
// mirror of the predicate lets unverified callers test the requirement at
// run time before encoding a tree of unknown provenance.

/// Decide whether a tree can be written back to the wire format.
pub fn explanation_is_encodable(t: &Explanation) -> (r: bool)
    ensures
        r == explanation_encodable(*t),
    decreases *t,
{
    query_block_is_encodable(&t.query_block)
}

fn query_block_is_encodable(t: &QueryBlock) -> (r: bool)
    ensures
        r == query_block_encodable(*t),
    decreases *t,
{
    rb_is_encodable(&t.relation_block)
}

fn rb_is_encodable(rb: &RelationBlock) -> (r: bool)
    ensures
        r == rb_encodable(*rb),
    decreases *rb,
{
    match rb {
        RelationBlock::DuplicatesRemoval(d) => rb_is_encodable(&d.relation_block),
        RelationBlock::GroupingOperation(g) => grouping_is_encodable(g),
        RelationBlock::NestedLoop(ts) => nl_is_encodable(ts),
        RelationBlock::OrderingOperation(o) => ordering_is_encodable(o),
        RelationBlock::Table(t) => table_is_encodable(t),
        RelationBlock::UnionResult(u) => union_result_is_encodable(u),
    }
}

fn grouping_is_encodable(t: &GroupingOperation) -> (r: bool)
    ensures
        r == grouping_encodable(*t),
    decreases *t,
{
    let rel_ok = match &t.relation_block {
        Some(GroupedRelationBlock::BufferResult(b)) => table_is_encodable(&b.table),
        Some(GroupedRelationBlock::NestedLoop(ts)) => nl_is_encodable(ts),
        Some(GroupedRelationBlock::Table(_)) => false,
        None => true,
    };
    let table_ok = match &t.table {
        Some(tb) => table_is_encodable(tb),
        None => true,
    };
    let having_ok = match &t.having_subqueries {
        Some(subs) => asq_list_is_encodable(subs),
        None => true,
    };
    rel_ok && table_ok && having_ok
}

fn ordering_is_encodable(t: &OrderingOperation) -> (r: bool)
    ensures
        r == ordering_encodable(*t),
    decreases *t,
{
    let rel_ok = match &t.relation_block {
        Some(rb) => rb_is_encodable(rb),
        None => true,
    };
    let subs_ok = match &t.optimized_away_subqueries {
        Some(subs) => asq_list_is_encodable(subs),
        None => true,
    };
    rel_ok && subs_ok
}

#[verifier::loop_isolation(false)]
fn nl_is_encodable(ts: &Vec<TableBlock>) -> (r: bool)
    ensures
        r == nl_encodable(ts@),
    decreases ts@,
{
    let mut i: usize = 0;
    while i < ts.len()
        invariant
            i <= ts@.len(),
            forall|q: int| 0 <= q < i ==> table_encodable((#[trigger] ts@[q]).table),
        decreases ts@.len() - i,
    {
        if !table_is_encodable(&ts[i].table) {
            return false;
        }
        i += 1;
    }
    true
}

fn table_is_encodable(t: &Table) -> (r: bool)
    ensures
        r == table_encodable(*t),
    decreases *t,
{
    let subs_ok = match &t.attached_subqueries {
        Some(subs) => asq_list_is_encodable(subs),
        None => true,
    };
    let mfs_ok = match &t.materialized_from_subquery {
        Some(m) => query_block_is_encodable(&m.query_block),
        None => true,
    };
    subs_ok && mfs_ok
}

#[verifier::loop_isolation(false)]
fn asq_list_is_encodable(ts: &Vec<AttachedSubquery>) -> (r: bool)
    ensures
        r == asq_list_encodable(ts@),
    decreases ts@,
{
    let mut i: usize = 0;
    while i < ts.len()
        invariant
            i <= ts@.len(),
            forall|q: int| 0 <= q < i ==> ab_encodable((#[trigger] ts@[q]).attached_block),
        decreases ts@.len() - i,
    {
        let ok = match &ts[i].attached_block {
            AttachedBlock::QueryBlock(q) => query_block_is_encodable(q),
            AttachedBlock::Table(t) => table_is_encodable(t),
        };
        if !ok {
            return false;
        }
        i += 1;
    }
    true
}

#[verifier::loop_isolation(false)]
fn union_result_is_encodable(t: &UnionResult) -> (r: bool)
    ensures
        r == union_result_encodable(*t),
    decreases *t,
{
    let mut i: usize = 0;
    while i < t.query_specifications.len()
        invariant
            i <= t.query_specifications@.len(),
            forall|q: int|
                0 <= q < i ==> query_block_encodable(
                    (#[trigger] t.query_specifications@[q]).query_block,
                ),
        decreases t.query_specifications@.len() - i,
    {
        if !query_block_is_encodable(&t.query_specifications[i].query_block) {
            return false;
        }
        i += 1;
    }
    true
}

} // verus!
