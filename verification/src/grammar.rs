//! The plan grammar as a conformance relation: `x_conforms(t, j)` says that
//! the JSON value `j` is exactly an encoding of the tree node `t` — every
//! key of every object is declared by its grammar position, required fields
//! are present, optional fields are present exactly when the tree carries
//! them, and each present field's value conforms to the child node.
//!
//! Decoders promise that a returned tree conforms to the input document;
//! encoders promise the produced document conforms to the given tree.

use vstd::prelude::*;
use crate::json::{Json, has_key, lookup};
use crate::tree::{
    AttachedBlock, AttachedSubquery, BlockReference, BufferResult, DuplicatesRemoval, Explanation,
    GroupedRelationBlock, GroupingOperation, MaterializedFromSubquery, OrderBySubqueries,
    OrderingOperation, QueryBlock, QueryCost, RelationBlock, RelationalCosts, SortCost, Table,
    TableBlock, UnionBlock, UnionResult,
};

verus! {

// --- Field-shape helpers -------------------------------------------------

/// Required string field with value `v`.
pub open spec fn field_str(es: Seq<(String, Json)>, name: Seq<char>, v: Seq<char>) -> bool {
    &&& has_key(es, name)
    &&& lookup(es, name) matches Json::Str(s) && s@ == v
}

/// Required boolean field with value `v`.
pub open spec fn field_bool(es: Seq<(String, Json)>, name: Seq<char>, v: bool) -> bool {
    has_key(es, name) && lookup(es, name) == Json::Bool(v)
}

/// Required unsigned integer field with value `v`.
pub open spec fn field_u32(es: Seq<(String, Json)>, name: Seq<char>, v: u32) -> bool {
    has_key(es, name) && lookup(es, name) == Json::Num(v as u64)
}

pub open spec fn opt_field_str(es: Seq<(String, Json)>, name: Seq<char>, v: Option<String>) -> bool {
    match v {
        Some(s) => field_str(es, name, s@),
        None => !has_key(es, name),
    }
}

pub open spec fn opt_field_bool(es: Seq<(String, Json)>, name: Seq<char>, v: Option<bool>) -> bool {
    match v {
        Some(b) => field_bool(es, name, b),
        None => !has_key(es, name),
    }
}

pub open spec fn opt_field_u32(es: Seq<(String, Json)>, name: Seq<char>, v: Option<u32>) -> bool {
    match v {
        Some(n) => field_u32(es, name, n),
        None => !has_key(es, name),
    }
}

/// `j` is an array of strings equal, element for element, to `v`.
pub open spec fn str_arr(j: Json, v: Seq<String>) -> bool {
    j matches Json::Arr(items) && items@.len() == v.len() && forall|i: int|
        0 <= i < v.len() ==> ((#[trigger] items@[i]) matches Json::Str(s) && s@ == v[i]@)
}

pub open spec fn opt_field_str_arr(
    es: Seq<(String, Json)>,
    name: Seq<char>,
    v: Option<Vec<String>>,
) -> bool {
    match v {
        Some(xs) => has_key(es, name) && str_arr(lookup(es, name), xs@),
        None => !has_key(es, name),
    }
}

// --- Key vocabularies ----------------------------------------------------

pub open spec fn explanation_key(k: Seq<char>) -> bool {
    k == "query_block"@
}

pub open spec fn qb_own_key(k: Seq<char>) -> bool {
    k == "select_id"@ || k == "cost_info"@
}

/// The discriminator keys of the full relation-block variant set.
pub open spec fn rb_disc_key(k: Seq<char>) -> bool {
    ||| k == "duplicates_removal"@
    ||| k == "grouping_operation"@
    ||| k == "nested_loop"@
    ||| k == "ordering_operation"@
    ||| k == "table"@
    ||| k == "union_result"@
}

/// The discriminator key a relation-block variant is tagged with.
pub open spec fn rb_disc_of(rb: RelationBlock) -> Seq<char> {
    match rb {
        RelationBlock::DuplicatesRemoval(_) => "duplicates_removal"@,
        RelationBlock::GroupingOperation(_) => "grouping_operation"@,
        RelationBlock::NestedLoop(_) => "nested_loop"@,
        RelationBlock::OrderingOperation(_) => "ordering_operation"@,
        RelationBlock::Table(_) => "table"@,
        RelationBlock::UnionResult(_) => "union_result"@,
    }
}

/// Discriminators of the grouped variant set that a grouping operation can
/// still see; a bare `table` key is consumed by the operation's own field.
pub open spec fn grb_disc_key(k: Seq<char>) -> bool {
    k == "buffer_result"@ || k == "nested_loop"@
}

pub open spec fn grb_disc_of(g: GroupedRelationBlock) -> Seq<char> {
    match g {
        GroupedRelationBlock::BufferResult(_) => "buffer_result"@,
        GroupedRelationBlock::NestedLoop(_) => "nested_loop"@,
        GroupedRelationBlock::Table(_) => "table"@,
    }
}

pub open spec fn ab_disc_key(k: Seq<char>) -> bool {
    k == "query_block"@ || k == "table"@
}

pub open spec fn ab_disc_of(ab: AttachedBlock) -> Seq<char> {
    match ab {
        AttachedBlock::QueryBlock(_) => "query_block"@,
        AttachedBlock::Table(_) => "table"@,
    }
}

pub open spec fn dr_own_key(k: Seq<char>) -> bool {
    k == "using_temporary_table"@ || k == "using_filesort"@
}

pub open spec fn grouping_own_key(k: Seq<char>) -> bool {
    ||| k == "using_temporary_table"@
    ||| k == "using_filesort"@
    ||| k == "cost_info"@
    ||| k == "table"@
    ||| k == "having_subqueries"@
}

pub open spec fn ordering_own_key(k: Seq<char>) -> bool {
    ||| k == "using_temporary_table"@
    ||| k == "using_filesort"@
    ||| k == "optimized_away_subqueries"@
    ||| k == "order_by_subqueries"@
}

pub open spec fn asq_own_key(k: Seq<char>) -> bool {
    k == "dependent"@ || k == "cacheable"@
}

pub open spec fn union_result_key(k: Seq<char>) -> bool {
    ||| k == "using_temporary_table"@
    ||| k == "table_name"@
    ||| k == "access_type"@
    ||| k == "query_specifications"@
}

pub open spec fn union_block_key(k: Seq<char>) -> bool {
    k == "dependent"@ || k == "cacheable"@ || k == "query_block"@
}

pub open spec fn buffer_result_key(k: Seq<char>) -> bool {
    k == "using_temporary_table"@ || k == "table"@
}

pub open spec fn table_block_key(k: Seq<char>) -> bool {
    k == "table"@
}

pub open spec fn mfs_key(k: Seq<char>) -> bool {
    ||| k == "using_temporary_table"@
    ||| k == "dependent"@
    ||| k == "cacheable"@
    ||| k == "query_block"@
}

pub open spec fn obs_key(k: Seq<char>) -> bool {
    k == "dependent"@ || k == "cacheable"@ || k == "query_block"@
}

pub open spec fn block_ref_key(k: Seq<char>) -> bool {
    k == "select_id"@ || k == "message"@
}

pub open spec fn query_cost_key(k: Seq<char>) -> bool {
    k == "query_cost"@
}

pub open spec fn sort_cost_key(k: Seq<char>) -> bool {
    k == "sort_cost"@
}

pub open spec fn rel_costs_key(k: Seq<char>) -> bool {
    ||| k == "read_cost"@
    ||| k == "eval_cost"@
    ||| k == "prefix_cost"@
    ||| k == "data_read_per_join"@
}

pub open spec fn table_key(k: Seq<char>) -> bool {
    ||| k == "table_name"@
    ||| k == "access_type"@
    ||| k == "possible_keys"@
    ||| k == "key"@
    ||| k == "used_key_parts"@
    ||| k == "key_length"@
    ||| k == "ref"@
    ||| k == "cost_info"@
    ||| k == "rows_examined_per_scan"@
    ||| k == "rows_produced_per_join"@
    ||| k == "filtered"@
    ||| k == "first_match"@
    ||| k == "using_index_for_group_by"@
    ||| k == "index_condition"@
    ||| k == "using_index"@
    ||| k == "used_columns"@
    ||| k == "attached_condition"@
    ||| k == "attached_subqueries"@
    ||| k == "materialized_from_subquery"@
}

// --- Leaf records --------------------------------------------------------

pub open spec fn query_cost_conforms(t: QueryCost, j: Json) -> bool {
    &&& j matches Json::Obj(es)
    &&& forall|i: int| 0 <= i < es@.len() ==> query_cost_key((#[trigger] es@[i]).0@)
    &&& field_str(es@, "query_cost"@, t.query_cost@)
}

pub open spec fn sort_cost_conforms(t: SortCost, j: Json) -> bool {
    &&& j matches Json::Obj(es)
    &&& forall|i: int| 0 <= i < es@.len() ==> sort_cost_key((#[trigger] es@[i]).0@)
    &&& field_str(es@, "sort_cost"@, t.sort_cost@)
}

pub open spec fn rel_costs_conforms(t: RelationalCosts, j: Json) -> bool {
    &&& j matches Json::Obj(es)
    &&& forall|i: int| 0 <= i < es@.len() ==> rel_costs_key((#[trigger] es@[i]).0@)
    &&& field_str(es@, "read_cost"@, t.read_cost@)
    &&& field_str(es@, "eval_cost"@, t.eval_cost@)
    &&& field_str(es@, "prefix_cost"@, t.prefix_cost@)
    &&& field_str(es@, "data_read_per_join"@, t.data_read_per_join@)
}

pub open spec fn block_ref_conforms(t: BlockReference, j: Json) -> bool {
    &&& j matches Json::Obj(es)
    &&& forall|i: int| 0 <= i < es@.len() ==> block_ref_key((#[trigger] es@[i]).0@)
    &&& field_u32(es@, "select_id"@, t.select_id)
    &&& field_str(es@, "message"@, t.message@)
}

pub open spec fn obs_conforms(t: OrderBySubqueries, j: Json) -> bool {
    &&& j matches Json::Obj(es)
    &&& forall|i: int| 0 <= i < es@.len() ==> obs_key((#[trigger] es@[i]).0@)
    &&& field_bool(es@, "dependent"@, t.dependent)
    &&& field_bool(es@, "cacheable"@, t.cacheable)
    &&& has_key(es@, "query_block"@)
    &&& block_ref_conforms(t.query_block, lookup(es@, "query_block"@))
}

pub open spec fn obs_list_conforms(ts: Seq<OrderBySubqueries>, j: Json) -> bool {
    &&& j matches Json::Arr(items)
    &&& items@.len() == ts.len()
    &&& forall|i: int| 0 <= i < ts.len() ==> obs_conforms(#[trigger] ts[i], items@[i])
}

// --- Recursive entities --------------------------------------------------

pub open spec fn explanation_conforms(t: Explanation, j: Json) -> bool
    decreases t,
{
    &&& j matches Json::Obj(es)
    &&& forall|i: int| 0 <= i < es@.len() ==> explanation_key((#[trigger] es@[i]).0@)
    &&& has_key(es@, "query_block"@)
    &&& query_block_conforms(t.query_block, lookup(es@, "query_block"@))
}

pub open spec fn query_block_conforms(t: QueryBlock, j: Json) -> bool
    decreases t,
{
    &&& j matches Json::Obj(es)
    &&& forall|i: int|
        0 <= i < es@.len() ==> qb_own_key((#[trigger] es@[i]).0@) || es@[i].0@ == rb_disc_of(
            *t.relation_block,
        )
    &&& opt_field_u32(es@, "select_id"@, t.select_id)
    &&& match t.cost_info {
        Some(c) => has_key(es@, "cost_info"@) && query_cost_conforms(
            c,
            lookup(es@, "cost_info"@),
        ),
        None => !has_key(es@, "cost_info"@),
    }
    &&& has_key(es@, rb_disc_of(*t.relation_block))
    &&& rb_payload_conforms(*t.relation_block, lookup(es@, rb_disc_of(*t.relation_block)))
}

/// The value under a relation block's discriminator key conforms to the
/// chosen variant.
pub open spec fn rb_payload_conforms(rb: RelationBlock, v: Json) -> bool
    decreases rb,
{
    match rb {
        RelationBlock::DuplicatesRemoval(d) => dr_conforms(d, v),
        RelationBlock::GroupingOperation(g) => grouping_conforms(g, v),
        RelationBlock::NestedLoop(ts) => nl_conforms(ts@, v),
        RelationBlock::OrderingOperation(o) => ordering_conforms(o, v),
        RelationBlock::Table(t) => table_conforms(t, v),
        RelationBlock::UnionResult(u) => union_result_conforms(u, v),
    }
}

pub open spec fn nl_conforms(ts: Seq<TableBlock>, v: Json) -> bool
    decreases ts,
{
    &&& v matches Json::Arr(items)
    &&& items@.len() == ts.len()
    &&& forall|i: int| 0 <= i < ts.len() ==> table_block_conforms(#[trigger] ts[i], items@[i])
}

pub open spec fn table_block_conforms(t: TableBlock, j: Json) -> bool
    decreases t,
{
    &&& j matches Json::Obj(es)
    &&& forall|i: int| 0 <= i < es@.len() ==> table_block_key((#[trigger] es@[i]).0@)
    &&& has_key(es@, "table"@)
    &&& table_conforms(t.table, lookup(es@, "table"@))
}

pub open spec fn dr_conforms(t: DuplicatesRemoval, j: Json) -> bool
    decreases t,
{
    &&& j matches Json::Obj(es)
    &&& forall|i: int|
        0 <= i < es@.len() ==> dr_own_key((#[trigger] es@[i]).0@) || es@[i].0@ == rb_disc_of(
            *t.relation_block,
        )
    &&& field_bool(es@, "using_temporary_table"@, t.using_temporary_table)
    &&& field_bool(es@, "using_filesort"@, t.using_filesort)
    &&& has_key(es@, rb_disc_of(*t.relation_block))
    &&& rb_payload_conforms(*t.relation_block, lookup(es@, rb_disc_of(*t.relation_block)))
}

pub open spec fn grouping_conforms(t: GroupingOperation, j: Json) -> bool
    decreases t,
{
    &&& j matches Json::Obj(es)
    &&& forall|i: int|
        0 <= i < es@.len() ==> grouping_own_key((#[trigger] es@[i]).0@) || (t.relation_block
            matches Some(g) && es@[i].0@ == grb_disc_of(g))
    &&& opt_field_bool(es@, "using_temporary_table"@, t.using_temporary_table)
    &&& field_bool(es@, "using_filesort"@, t.using_filesort)
    &&& match t.cost_info {
        Some(c) => has_key(es@, "cost_info"@) && sort_cost_conforms(c, lookup(es@, "cost_info"@)),
        None => !has_key(es@, "cost_info"@),
    }
    &&& match t.table {
        Some(tb) => has_key(es@, "table"@) && table_conforms(tb, lookup(es@, "table"@)),
        None => !has_key(es@, "table"@),
    }
    &&& match t.having_subqueries {
        Some(subs) => has_key(es@, "having_subqueries"@) && asq_list_conforms(
            subs@,
            lookup(es@, "having_subqueries"@),
        ),
        None => !has_key(es@, "having_subqueries"@),
    }
    &&& match t.relation_block {
        Some(g) => {
            &&& grb_disc_key(grb_disc_of(g))
            &&& has_key(es@, grb_disc_of(g))
            &&& grb_payload_conforms(g, lookup(es@, grb_disc_of(g)))
        },
        None => true,
    }
}

pub open spec fn grb_payload_conforms(g: GroupedRelationBlock, v: Json) -> bool
    decreases g,
{
    match g {
        GroupedRelationBlock::BufferResult(b) => buffer_result_conforms(b, v),
        GroupedRelationBlock::NestedLoop(ts) => nl_conforms(ts@, v),
        GroupedRelationBlock::Table(t) => table_conforms(t, v),
    }
}

pub open spec fn ordering_conforms(t: OrderingOperation, j: Json) -> bool
    decreases t,
{
    &&& j matches Json::Obj(es)
    &&& forall|i: int|
        0 <= i < es@.len() ==> ordering_own_key((#[trigger] es@[i]).0@) || (t.relation_block
            matches Some(rb) && es@[i].0@ == rb_disc_of(*rb))
    &&& opt_field_bool(es@, "using_temporary_table"@, t.using_temporary_table)
    &&& field_bool(es@, "using_filesort"@, t.using_filesort)
    &&& match t.optimized_away_subqueries {
        Some(subs) => has_key(es@, "optimized_away_subqueries"@) && asq_list_conforms(
            subs@,
            lookup(es@, "optimized_away_subqueries"@),
        ),
        None => !has_key(es@, "optimized_away_subqueries"@),
    }
    &&& match t.order_by_subqueries {
        Some(subs) => has_key(es@, "order_by_subqueries"@) && obs_list_conforms(
            subs@,
            lookup(es@, "order_by_subqueries"@),
        ),
        None => !has_key(es@, "order_by_subqueries"@),
    }
    &&& match t.relation_block {
        Some(rb) => {
            &&& has_key(es@, rb_disc_of(*rb))
            &&& rb_payload_conforms(*rb, lookup(es@, rb_disc_of(*rb)))
        },
        None => true,
    }
}

pub open spec fn union_result_conforms(t: UnionResult, j: Json) -> bool
    decreases t,
{
    &&& j matches Json::Obj(es)
    &&& forall|i: int| 0 <= i < es@.len() ==> union_result_key((#[trigger] es@[i]).0@)
    &&& opt_field_bool(es@, "using_temporary_table"@, t.using_temporary_table)
    &&& field_str(es@, "table_name"@, t.table_name@)
    &&& field_str(es@, "access_type"@, t.access_type@)
    &&& has_key(es@, "query_specifications"@)
    &&& ub_list_conforms(t.query_specifications@, lookup(es@, "query_specifications"@))
}

pub open spec fn ub_list_conforms(ts: Seq<UnionBlock>, j: Json) -> bool
    decreases ts,
{
    &&& j matches Json::Arr(items)
    &&& items@.len() == ts.len()
    &&& forall|i: int| 0 <= i < ts.len() ==> union_block_conforms(#[trigger] ts[i], items@[i])
}

pub open spec fn union_block_conforms(t: UnionBlock, j: Json) -> bool
    decreases t,
{
    &&& j matches Json::Obj(es)
    &&& forall|i: int| 0 <= i < es@.len() ==> union_block_key((#[trigger] es@[i]).0@)
    &&& field_bool(es@, "dependent"@, t.dependent)
    &&& field_bool(es@, "cacheable"@, t.cacheable)
    &&& has_key(es@, "query_block"@)
    &&& query_block_conforms(t.query_block, lookup(es@, "query_block"@))
}

pub open spec fn buffer_result_conforms(t: BufferResult, j: Json) -> bool
    decreases t,
{
    &&& j matches Json::Obj(es)
    &&& forall|i: int| 0 <= i < es@.len() ==> buffer_result_key((#[trigger] es@[i]).0@)
    &&& field_bool(es@, "using_temporary_table"@, t.using_temporary_table)
    &&& has_key(es@, "table"@)
    &&& table_conforms(t.table, lookup(es@, "table"@))
}

pub open spec fn table_conforms(t: Table, j: Json) -> bool
    decreases t,
{
    &&& j matches Json::Obj(es)
    &&& forall|i: int| 0 <= i < es@.len() ==> table_key((#[trigger] es@[i]).0@)
    &&& field_str(es@, "table_name"@, t.table_name@)
    &&& field_str(es@, "access_type"@, t.access_type@)
    &&& opt_field_str_arr(es@, "possible_keys"@, t.possible_keys)
    &&& opt_field_str(es@, "key"@, t.key)
    &&& opt_field_str_arr(es@, "used_key_parts"@, t.used_key_parts)
    &&& opt_field_str(es@, "key_length"@, t.key_length)
    &&& opt_field_str_arr(es@, "ref"@, t.reference)
    &&& match t.cost_info {
        Some(c) => has_key(es@, "cost_info"@) && rel_costs_conforms(c, lookup(es@, "cost_info"@)),
        None => !has_key(es@, "cost_info"@),
    }
    &&& opt_field_u32(es@, "rows_examined_per_scan"@, t.rows_examined_per_scan)
    &&& opt_field_u32(es@, "rows_produced_per_join"@, t.rows_produced_per_join)
    &&& opt_field_str(es@, "filtered"@, t.filtered)
    &&& opt_field_str(es@, "first_match"@, t.first_match)
    &&& opt_field_bool(es@, "using_index_for_group_by"@, t.using_index_for_group_by)
    &&& opt_field_str(es@, "index_condition"@, t.index_condition)
    &&& opt_field_bool(es@, "using_index"@, t.using_index)
    &&& opt_field_str_arr(es@, "used_columns"@, t.used_columns)
    &&& opt_field_str(es@, "attached_condition"@, t.attached_condition)
    &&& match t.attached_subqueries {
        Some(subs) => has_key(es@, "attached_subqueries"@) && asq_list_conforms(
            subs@,
            lookup(es@, "attached_subqueries"@),
        ),
        None => !has_key(es@, "attached_subqueries"@),
    }
    &&& match t.materialized_from_subquery {
        Some(m) => has_key(es@, "materialized_from_subquery"@) && mfs_conforms(
            m,
            lookup(es@, "materialized_from_subquery"@),
        ),
        None => !has_key(es@, "materialized_from_subquery"@),
    }
}

pub open spec fn mfs_conforms(t: MaterializedFromSubquery, j: Json) -> bool
    decreases t,
{
    &&& j matches Json::Obj(es)
    &&& forall|i: int| 0 <= i < es@.len() ==> mfs_key((#[trigger] es@[i]).0@)
    &&& field_bool(es@, "using_temporary_table"@, t.using_temporary_table)
    &&& opt_field_bool(es@, "dependent"@, t.dependent)
    &&& opt_field_bool(es@, "cacheable"@, t.cacheable)
    &&& has_key(es@, "query_block"@)
    &&& query_block_conforms(t.query_block, lookup(es@, "query_block"@))
}

pub open spec fn asq_list_conforms(ts: Seq<AttachedSubquery>, j: Json) -> bool
    decreases ts,
{
    &&& j matches Json::Arr(items)
    &&& items@.len() == ts.len()
    &&& forall|i: int| 0 <= i < ts.len() ==> asq_conforms(#[trigger] ts[i], items@[i])
}

pub open spec fn asq_conforms(t: AttachedSubquery, j: Json) -> bool
    decreases t,
{
    &&& j matches Json::Obj(es)
    &&& forall|i: int|
        0 <= i < es@.len() ==> asq_own_key((#[trigger] es@[i]).0@) || es@[i].0@ == ab_disc_of(
            t.attached_block,
        )
    &&& opt_field_bool(es@, "dependent"@, t.dependent)
    &&& opt_field_bool(es@, "cacheable"@, t.cacheable)
    &&& has_key(es@, ab_disc_of(t.attached_block))
    &&& ab_payload_conforms(t.attached_block, lookup(es@, ab_disc_of(t.attached_block)))
}

pub open spec fn ab_payload_conforms(ab: AttachedBlock, v: Json) -> bool
    decreases ab,
{
    match ab {
        AttachedBlock::QueryBlock(q) => query_block_conforms(q, v),
        AttachedBlock::Table(t) => table_conforms(t, v),
    }
}


// --- Encodability --------------------------------------------------------
//
// Trees the wire format can express. The one pattern it cannot carry is a
// grouped relation block holding a bare `Table`: inside a grouping
// operation the `table` key is the operation's own field, so that variant
// never appears under a discriminator of its own.

pub open spec fn explanation_encodable(t: Explanation) -> bool
    decreases t,
{
    query_block_encodable(t.query_block)
}

pub open spec fn query_block_encodable(t: QueryBlock) -> bool
    decreases t,
{
    rb_encodable(*t.relation_block)
}

pub open spec fn rb_encodable(rb: RelationBlock) -> bool
    decreases rb,
{
    match rb {
        RelationBlock::DuplicatesRemoval(d) => rb_encodable(*d.relation_block),
        RelationBlock::GroupingOperation(g) => grouping_encodable(g),
        RelationBlock::NestedLoop(ts) => nl_encodable(ts@),
        RelationBlock::OrderingOperation(o) => ordering_encodable(o),
        RelationBlock::Table(t) => table_encodable(t),
        RelationBlock::UnionResult(u) => union_result_encodable(u),
    }
}

pub open spec fn grouping_encodable(t: GroupingOperation) -> bool
    decreases t,
{
    &&& match t.relation_block {
        Some(g) => grb_encodable(g),
        None => true,
    }
    &&& match t.table {
        Some(tb) => table_encodable(tb),
        None => true,
    }
    &&& match t.having_subqueries {
        Some(subs) => asq_list_encodable(subs@),
        None => true,
    }
}

pub open spec fn grb_encodable(g: GroupedRelationBlock) -> bool
    decreases g,
{
    match g {
        GroupedRelationBlock::BufferResult(b) => table_encodable(b.table),
        GroupedRelationBlock::NestedLoop(ts) => nl_encodable(ts@),
        GroupedRelationBlock::Table(_) => false,
    }
}

pub open spec fn ordering_encodable(t: OrderingOperation) -> bool
    decreases t,
{
    &&& match t.relation_block {
        Some(rb) => rb_encodable(*rb),
        None => true,
    }
    &&& match t.optimized_away_subqueries {
        Some(subs) => asq_list_encodable(subs@),
        None => true,
    }
}

pub open spec fn nl_encodable(ts: Seq<TableBlock>) -> bool
    decreases ts,
{
    forall|i: int| 0 <= i < ts.len() ==> table_encodable((#[trigger] ts[i]).table)
}

pub open spec fn table_encodable(t: Table) -> bool
    decreases t,
{
    &&& match t.attached_subqueries {
        Some(subs) => asq_list_encodable(subs@),
        None => true,
    }
    &&& match t.materialized_from_subquery {
        Some(m) => query_block_encodable(m.query_block),
        None => true,
    }
}

pub open spec fn asq_list_encodable(ts: Seq<AttachedSubquery>) -> bool
    decreases ts,
{
    forall|i: int| 0 <= i < ts.len() ==> ab_encodable((#[trigger] ts[i]).attached_block)
}

pub open spec fn ab_encodable(ab: AttachedBlock) -> bool
    decreases ab,
{
    match ab {
        AttachedBlock::QueryBlock(q) => query_block_encodable(q),
        AttachedBlock::Table(t) => table_encodable(t),
    }
}

pub open spec fn union_result_encodable(t: UnionResult) -> bool
    decreases t,
{
    forall|i: int|
        0 <= i < t.query_specifications@.len() ==> query_block_encodable(
            (#[trigger] t.query_specifications@[i]).query_block,
        )
}

} // verus!
