//! The strict decoder: a recursive descent over the JSON value tree that
//! validates each object against its grammar position (rejecting unknown
//! keys), resolves implicitly tagged variants by discriminator-key
//! presence, and builds the typed plan tree.
//!
//! The contracts are two-sided. Soundness: a returned tree conforms to the
//! input document. Completeness: a document some tree conforms to, within
//! the fuel budget, is decoded successfully. Error clauses pin the variant
//! resolver's outcomes (zero or several discriminators) and the rejection
//! of undeclared keys, naming the offending key.
//!
//! Recursion is native with an explicit depth guard: the guard trips with
//! `DepthExceeded` rather than exhausting the call stack. The guard counts
//! decoder calls, not document nesting levels; the per-tree cost is the
//! `*_fuel` measure that the completeness clauses name.

use vstd::prelude::*;
use crate::error::{DecodeError, ErrorKind, JsonKind};
use crate::grammar::{
    ab_disc_key, ab_disc_of, ab_payload_conforms, asq_conforms, asq_list_conforms, asq_own_key, block_ref_conforms,
    block_ref_key, buffer_result_conforms, buffer_result_key, dr_conforms, dr_own_key,
    explanation_conforms, explanation_key, field_bool, field_str, field_u32, grb_disc_key,
    grb_disc_of, grb_payload_conforms, grouping_conforms, grouping_own_key, mfs_conforms, mfs_key,
    nl_conforms, obs_conforms, obs_key, obs_list_conforms, opt_field_bool, opt_field_str,
    opt_field_str_arr, opt_field_u32, ordering_conforms, ordering_own_key, qb_own_key,
    query_block_conforms, query_cost_conforms, query_cost_key, rb_disc_key, rb_disc_of,
    rb_payload_conforms, rel_costs_conforms, rel_costs_key, sort_cost_conforms, sort_cost_key,
    str_arr, table_block_conforms, table_block_key, table_conforms, table_key, ub_list_conforms,
    ab_encodable, asq_list_encodable, explanation_encodable, grb_encodable, grouping_encodable,
    nl_encodable, ordering_encodable, query_block_encodable, rb_encodable, table_encodable,
    union_result_encodable,
    union_block_conforms, union_block_key, union_result_conforms, union_result_key,
};
use crate::json::{has_key, keys_unique, lemma_lookup_unique, lemma_lookup_wf, lookup, obj_get, str_eq, Json};
use crate::tree::{
    AttachedBlock, AttachedSubquery, BlockReference, BufferResult, DuplicatesRemoval, Explanation,
    GroupedRelationBlock, GroupingOperation, MaterializedFromSubquery, OrderBySubqueries,
    OrderingOperation, QueryBlock, QueryCost, RelationBlock, RelationalCosts, SortCost, Table,
    TableBlock, UnionBlock, UnionResult,
};

verus! {

/// Ceiling on decode recursion; a genuine plan never comes close, and the
/// guard keeps arbitrarily deep documents from exhausting the call stack.
pub const MAX_DEPTH: u32 = 200;

fn kind_of(j: &Json) -> JsonKind {
    match j {
        Json::Null => JsonKind::Null,
        Json::Bool(_) => JsonKind::Bool,
        Json::Num(_) => JsonKind::Num,
        Json::Str(_) => JsonKind::Str,
        Json::Arr(_) => JsonKind::Arr,
        Json::Obj(_) => JsonKind::Obj,
    }
}

// --- Exec mirrors of the key vocabularies --------------------------------

fn is_explanation_key(k: &String) -> (r: bool)
    ensures
        r == explanation_key(k@),
{
    str_eq(k, "query_block")
}

fn is_qb_own_key(k: &String) -> (r: bool)
    ensures
        r == qb_own_key(k@),
{
    str_eq(k, "select_id") || str_eq(k, "cost_info")
}

fn is_rb_disc_key(k: &String) -> (r: bool)
    ensures
        r == rb_disc_key(k@),
{
    str_eq(k, "duplicates_removal") || str_eq(k, "grouping_operation") || str_eq(k, "nested_loop")
        || str_eq(k, "ordering_operation") || str_eq(k, "table") || str_eq(k, "union_result")
}

fn is_grb_disc_key(k: &String) -> (r: bool)
    ensures
        r == grb_disc_key(k@),
{
    str_eq(k, "buffer_result") || str_eq(k, "nested_loop")
}

fn is_ab_disc_key(k: &String) -> (r: bool)
    ensures
        r == ab_disc_key(k@),
{
    str_eq(k, "query_block") || str_eq(k, "table")
}

fn is_dr_own_key(k: &String) -> (r: bool)
    ensures
        r == dr_own_key(k@),
{
    str_eq(k, "using_temporary_table") || str_eq(k, "using_filesort")
}

fn is_grouping_own_key(k: &String) -> (r: bool)
    ensures
        r == grouping_own_key(k@),
{
    str_eq(k, "using_temporary_table") || str_eq(k, "using_filesort") || str_eq(k, "cost_info")
        || str_eq(k, "table") || str_eq(k, "having_subqueries")
}

fn is_ordering_own_key(k: &String) -> (r: bool)
    ensures
        r == ordering_own_key(k@),
{
    str_eq(k, "using_temporary_table") || str_eq(k, "using_filesort") || str_eq(
        k,
        "optimized_away_subqueries",
    ) || str_eq(k, "order_by_subqueries")
}

fn is_asq_own_key(k: &String) -> (r: bool)
    ensures
        r == asq_own_key(k@),
{
    str_eq(k, "dependent") || str_eq(k, "cacheable")
}

fn is_union_result_key(k: &String) -> (r: bool)
    ensures
        r == union_result_key(k@),
{
    str_eq(k, "using_temporary_table") || str_eq(k, "table_name") || str_eq(k, "access_type")
        || str_eq(k, "query_specifications")
}

fn is_union_block_key(k: &String) -> (r: bool)
    ensures
        r == union_block_key(k@),
{
    str_eq(k, "dependent") || str_eq(k, "cacheable") || str_eq(k, "query_block")
}

fn is_buffer_result_key(k: &String) -> (r: bool)
    ensures
        r == buffer_result_key(k@),
{
    str_eq(k, "using_temporary_table") || str_eq(k, "table")
}

fn is_table_block_key(k: &String) -> (r: bool)
    ensures
        r == table_block_key(k@),
{
    str_eq(k, "table")
}

fn is_mfs_key(k: &String) -> (r: bool)
    ensures
        r == mfs_key(k@),
{
    str_eq(k, "using_temporary_table") || str_eq(k, "dependent") || str_eq(k, "cacheable")
        || str_eq(k, "query_block")
}

fn is_obs_key(k: &String) -> (r: bool)
    ensures
        r == obs_key(k@),
{
    str_eq(k, "dependent") || str_eq(k, "cacheable") || str_eq(k, "query_block")
}

fn is_block_ref_key(k: &String) -> (r: bool)
    ensures
        r == block_ref_key(k@),
{
    str_eq(k, "select_id") || str_eq(k, "message")
}

fn is_query_cost_key(k: &String) -> (r: bool)
    ensures
        r == query_cost_key(k@),
{
    str_eq(k, "query_cost")
}

fn is_sort_cost_key(k: &String) -> (r: bool)
    ensures
        r == sort_cost_key(k@),
{
    str_eq(k, "sort_cost")
}

fn is_rel_costs_key(k: &String) -> (r: bool)
    ensures
        r == rel_costs_key(k@),
{
    str_eq(k, "read_cost") || str_eq(k, "eval_cost") || str_eq(k, "prefix_cost") || str_eq(
        k,
        "data_read_per_join",
    )
}

fn is_table_key(k: &String) -> (r: bool)
    ensures
        r == table_key(k@),
{
    str_eq(k, "table_name") || str_eq(k, "access_type") || str_eq(k, "possible_keys") || str_eq(
        k,
        "key",
    ) || str_eq(k, "used_key_parts") || str_eq(k, "key_length") || str_eq(k, "ref") || str_eq(
        k,
        "cost_info",
    ) || str_eq(k, "rows_examined_per_scan") || str_eq(k, "rows_produced_per_join") || str_eq(
        k,
        "filtered",
    ) || str_eq(k, "first_match") || str_eq(k, "using_index_for_group_by") || str_eq(
        k,
        "index_condition",
    ) || str_eq(k, "using_index") || str_eq(k, "used_columns") || str_eq(k, "attached_condition")
        || str_eq(k, "attached_subqueries") || str_eq(k, "materialized_from_subquery")
}

// --- Scalar field extraction ---------------------------------------------

fn get_req_str(es: &Vec<(String, Json)>, name: &str) -> (r: Result<String, DecodeError>)
    requires
        keys_unique(es@),
    ensures
        r matches Ok(s) ==> field_str(es@, name@, s@),
        (has_key(es@, name@) && lookup(es@, name@) is Str) ==> r is Ok,
{
    match obj_get(es, name) {
        None => Err(DecodeError::missing_field(name)),
        Some(v) => match v {
            Json::Str(s) => Ok(s.clone()),
            other => Err(
                DecodeError::type_mismatch(JsonKind::Str, kind_of(other)).in_field(name),
            ),
        },
    }
}

fn get_opt_str(es: &Vec<(String, Json)>, name: &str) -> (r: Result<
    Option<String>,
    DecodeError,
>)
    requires
        keys_unique(es@),
    ensures
        r matches Ok(o) ==> opt_field_str(es@, name@, o),
        (has_key(es@, name@) ==> lookup(es@, name@) is Str) ==> r is Ok,
{
    match obj_get(es, name) {
        None => Ok(None),
        Some(v) => match v {
            Json::Str(s) => Ok(Some(s.clone())),
            other => Err(
                DecodeError::type_mismatch(JsonKind::Str, kind_of(other)).in_field(name),
            ),
        },
    }
}

fn get_req_bool(es: &Vec<(String, Json)>, name: &str) -> (r: Result<bool, DecodeError>)
    requires
        keys_unique(es@),
    ensures
        r matches Ok(b) ==> field_bool(es@, name@, b),
        (has_key(es@, name@) && lookup(es@, name@) is Bool) ==> r is Ok,
{
    match obj_get(es, name) {
        None => Err(DecodeError::missing_field(name)),
        Some(v) => match v {
            Json::Bool(b) => Ok(*b),
            other => Err(
                DecodeError::type_mismatch(JsonKind::Bool, kind_of(other)).in_field(name),
            ),
        },
    }
}

fn get_opt_bool(es: &Vec<(String, Json)>, name: &str) -> (r: Result<Option<bool>, DecodeError>)
    requires
        keys_unique(es@),
    ensures
        r matches Ok(o) ==> opt_field_bool(es@, name@, o),
        (has_key(es@, name@) ==> lookup(es@, name@) is Bool) ==> r is Ok,
{
    match obj_get(es, name) {
        None => Ok(None),
        Some(v) => match v {
            Json::Bool(b) => Ok(Some(*b)),
            other => Err(
                DecodeError::type_mismatch(JsonKind::Bool, kind_of(other)).in_field(name),
            ),
        },
    }
}

fn get_req_u32(es: &Vec<(String, Json)>, name: &str) -> (r: Result<u32, DecodeError>)
    requires
        keys_unique(es@),
    ensures
        r matches Ok(n) ==> field_u32(es@, name@, n),
        (has_key(es@, name@) && (lookup(es@, name@) matches Json::Num(n) && n <= u32::MAX))
            ==> r is Ok,
{
    match obj_get(es, name) {
        None => Err(DecodeError::missing_field(name)),
        Some(v) => match v {
            Json::Num(n) => {
                if *n <= u32::MAX as u64 {
                    Ok(*n as u32)
                } else {
                    Err(DecodeError::type_mismatch(JsonKind::Num, JsonKind::Num).in_field(name))
                }
            },
            other => Err(
                DecodeError::type_mismatch(JsonKind::Num, kind_of(other)).in_field(name),
            ),
        },
    }
}

fn get_opt_u32(es: &Vec<(String, Json)>, name: &str) -> (r: Result<Option<u32>, DecodeError>)
    requires
        keys_unique(es@),
    ensures
        r matches Ok(o) ==> opt_field_u32(es@, name@, o),
        (has_key(es@, name@) ==> (lookup(es@, name@) matches Json::Num(n) && n <= u32::MAX))
            ==> r is Ok,
{
    match obj_get(es, name) {
        None => Ok(None),
        Some(v) => match v {
            Json::Num(n) => {
                if *n <= u32::MAX as u64 {
                    Ok(Some(*n as u32))
                } else {
                    Err(DecodeError::type_mismatch(JsonKind::Num, JsonKind::Num).in_field(name))
                }
            },
            other => Err(
                DecodeError::type_mismatch(JsonKind::Num, kind_of(other)).in_field(name),
            ),
        },
    }
}

#[verifier::loop_isolation(false)]
fn get_opt_str_arr(es: &Vec<(String, Json)>, name: &str) -> (r: Result<
    Option<Vec<String>>,
    DecodeError,
>)
    requires
        keys_unique(es@),
    ensures
        r matches Ok(o) ==> opt_field_str_arr(es@, name@, o),
        (has_key(es@, name@) ==> (lookup(es@, name@) matches Json::Arr(items) && forall|q: int|
            0 <= q < items@.len() ==> (#[trigger] items@[q]) is Str)) ==> r is Ok,
{
    match obj_get(es, name) {
        None => Ok(None),
        Some(v) => match v {
            Json::Arr(items) => {
                let mut out: Vec<String> = Vec::new();
                let mut i: usize = 0;
                while i < items.len()
                    invariant
                        i <= items@.len(),
                        out@.len() == i,
                        forall|q: int|
                            0 <= q < i ==> ((#[trigger] items@[q]) matches Json::Str(s) && s@
                                == out@[q]@),
                    decreases items@.len() - i,
                {
                    match &items[i] {
                        Json::Str(s) => out.push(s.clone()),
                        other => {
                            return Err(
                                DecodeError::type_mismatch(JsonKind::Str, kind_of(other)).in_index(
                                    i,
                                ).in_field(name),
                            );
                        },
                    }
                    i += 1;
                }
                Ok(Some(out))
            },
            other => Err(
                DecodeError::type_mismatch(JsonKind::Arr, kind_of(other)).in_field(name),
            ),
        },
    }
}

// --- Leaf record decoders ------------------------------------------------

#[verifier::loop_isolation(false)]
fn decode_query_cost(j: &Json) -> (r: Result<QueryCost, DecodeError>)
    requires
        j.wf(),
    ensures
        r matches Ok(t) ==> query_cost_conforms(t, *j),
        (exists|t: QueryCost| query_cost_conforms(t, *j)) ==> r is Ok,
        *j matches Json::Obj(es) ==> ((exists|q: int|
            0 <= q < es@.len() && !query_cost_key((#[trigger] es@[q]).0@)) ==> (r matches Err(e)
            && unknown_field_err(e, es@) && (e.kind matches ErrorKind::UnknownField(k)
            && !query_cost_key(k@)))),
{
    let es = match j {
        Json::Obj(es) => es,
        other => { return Err(DecodeError::type_mismatch(JsonKind::Obj, kind_of(other))) },
    };
    let mut i: usize = 0;
    while i < es.len()
        invariant
            i <= es@.len(),
            forall|q: int| 0 <= q < i ==> query_cost_key((#[trigger] es@[q]).0@),
        decreases es@.len() - i,
    {
        if !is_query_cost_key(&es[i].0) {
            return Err(DecodeError::unknown_field(&es[i].0));
        }
        i += 1;
    }
    let query_cost = get_req_str(es, "query_cost")?;
    Ok(QueryCost { query_cost })
}

#[verifier::loop_isolation(false)]
fn decode_sort_cost(j: &Json) -> (r: Result<SortCost, DecodeError>)
    requires
        j.wf(),
    ensures
        r matches Ok(t) ==> sort_cost_conforms(t, *j),
        (exists|t: SortCost| sort_cost_conforms(t, *j)) ==> r is Ok,
        *j matches Json::Obj(es) ==> ((exists|q: int|
            0 <= q < es@.len() && !sort_cost_key((#[trigger] es@[q]).0@)) ==> (r matches Err(e)
            && unknown_field_err(e, es@) && (e.kind matches ErrorKind::UnknownField(k)
            && !sort_cost_key(k@)))),
{
    let es = match j {
        Json::Obj(es) => es,
        other => { return Err(DecodeError::type_mismatch(JsonKind::Obj, kind_of(other))) },
    };
    let mut i: usize = 0;
    while i < es.len()
        invariant
            i <= es@.len(),
            forall|q: int| 0 <= q < i ==> sort_cost_key((#[trigger] es@[q]).0@),
        decreases es@.len() - i,
    {
        if !is_sort_cost_key(&es[i].0) {
            return Err(DecodeError::unknown_field(&es[i].0));
        }
        i += 1;
    }
    let sort_cost = get_req_str(es, "sort_cost")?;
    Ok(SortCost { sort_cost })
}

#[verifier::loop_isolation(false)]
fn decode_rel_costs(j: &Json) -> (r: Result<RelationalCosts, DecodeError>)
    requires
        j.wf(),
    ensures
        r matches Ok(t) ==> rel_costs_conforms(t, *j),
        (exists|t: RelationalCosts| rel_costs_conforms(t, *j)) ==> r is Ok,
        *j matches Json::Obj(es) ==> ((exists|q: int|
            0 <= q < es@.len() && !rel_costs_key((#[trigger] es@[q]).0@)) ==> (r matches Err(e)
            && unknown_field_err(e, es@) && (e.kind matches ErrorKind::UnknownField(k)
            && !rel_costs_key(k@)))),
{
    let es = match j {
        Json::Obj(es) => es,
        other => { return Err(DecodeError::type_mismatch(JsonKind::Obj, kind_of(other))) },
    };
    let mut i: usize = 0;
    while i < es.len()
        invariant
            i <= es@.len(),
            forall|q: int| 0 <= q < i ==> rel_costs_key((#[trigger] es@[q]).0@),
        decreases es@.len() - i,
    {
        if !is_rel_costs_key(&es[i].0) {
            return Err(DecodeError::unknown_field(&es[i].0));
        }
        i += 1;
    }
    let read_cost = get_req_str(es, "read_cost")?;
    let eval_cost = get_req_str(es, "eval_cost")?;
    let prefix_cost = get_req_str(es, "prefix_cost")?;
    let data_read_per_join = get_req_str(es, "data_read_per_join")?;
    Ok(RelationalCosts { read_cost, eval_cost, prefix_cost, data_read_per_join })
}

#[verifier::loop_isolation(false)]
fn decode_block_ref(j: &Json) -> (r: Result<BlockReference, DecodeError>)
    requires
        j.wf(),
    ensures
        r matches Ok(t) ==> block_ref_conforms(t, *j),
        (exists|t: BlockReference| block_ref_conforms(t, *j)) ==> r is Ok,
        *j matches Json::Obj(es) ==> ((exists|q: int|
            0 <= q < es@.len() && !block_ref_key((#[trigger] es@[q]).0@)) ==> (r matches Err(e)
            && unknown_field_err(e, es@) && (e.kind matches ErrorKind::UnknownField(k)
            && !block_ref_key(k@)))),
{
    let es = match j {
        Json::Obj(es) => es,
        other => { return Err(DecodeError::type_mismatch(JsonKind::Obj, kind_of(other))) },
    };
    let mut i: usize = 0;
    while i < es.len()
        invariant
            i <= es@.len(),
            forall|q: int| 0 <= q < i ==> block_ref_key((#[trigger] es@[q]).0@),
        decreases es@.len() - i,
    {
        if !is_block_ref_key(&es[i].0) {
            return Err(DecodeError::unknown_field(&es[i].0));
        }
        i += 1;
    }
    let select_id = get_req_u32(es, "select_id")?;
    let message = get_req_str(es, "message")?;
    Ok(BlockReference { select_id, message })
}

#[verifier::loop_isolation(false)]
fn decode_obs(j: &Json) -> (r: Result<OrderBySubqueries, DecodeError>)
    requires
        j.wf(),
    ensures
        r matches Ok(t) ==> obs_conforms(t, *j),
        (exists|t: OrderBySubqueries| obs_conforms(t, *j)) ==> r is Ok,
        *j matches Json::Obj(es) ==> ((exists|q: int|
            0 <= q < es@.len() && !obs_key((#[trigger] es@[q]).0@)) ==> (r matches Err(e)
            && unknown_field_err(e, es@) && (e.kind matches ErrorKind::UnknownField(k)
            && !obs_key(k@)))),
{
    let es = match j {
        Json::Obj(es) => es,
        other => { return Err(DecodeError::type_mismatch(JsonKind::Obj, kind_of(other))) },
    };
    let mut i: usize = 0;
    while i < es.len()
        invariant
            i <= es@.len(),
            forall|q: int| 0 <= q < i ==> obs_key((#[trigger] es@[q]).0@),
        decreases es@.len() - i,
    {
        if !is_obs_key(&es[i].0) {
            return Err(DecodeError::unknown_field(&es[i].0));
        }
        i += 1;
    }
    let dependent = get_req_bool(es, "dependent")?;
    let cacheable = get_req_bool(es, "cacheable")?;
    let query_block = match obj_get(es, "query_block") {
        None => { return Err(DecodeError::missing_field("query_block")) },
        Some(v) => match decode_block_ref(v) {
            Ok(t) => t,
            Err(e) => { return Err(e.in_field("query_block")) },
        },
    };
    Ok(OrderBySubqueries { dependent, cacheable, query_block })
}

#[verifier::loop_isolation(false)]
fn decode_obs_list(j: &Json) -> (r: Result<Vec<OrderBySubqueries>, DecodeError>)
    requires
        j.wf(),
    ensures
        r matches Ok(ts) ==> obs_list_conforms(ts@, *j),
        (exists|ts: Seq<OrderBySubqueries>| obs_list_conforms(ts, *j)) ==> r is Ok,
{
    let items = match j {
        Json::Arr(items) => items,
        other => { return Err(DecodeError::type_mismatch(JsonKind::Arr, kind_of(other))) },
    };
    let mut out: Vec<OrderBySubqueries> = Vec::new();
    let mut i: usize = 0;
    while i < items.len()
        invariant
            i <= items@.len(),
            out@.len() == i,
            forall|q: int| 0 <= q < i ==> obs_conforms(#[trigger] out@[q], items@[q]),
        decreases items@.len() - i,
    {
        assert(items@[i as int].wf());
        match decode_obs(&items[i]) {
            Ok(t) => out.push(t),
            Err(e) => {
                proof {
                    if exists|ts: Seq<OrderBySubqueries>| obs_list_conforms(ts, *j) {
                        let ts = choose|ts: Seq<OrderBySubqueries>| obs_list_conforms(ts, *j);
                        assert(obs_conforms(ts[i as int], items@[i as int]));
                        assert(false);
                    }
                }
                return Err(e.in_index(i));
            },
        }
        i += 1;
    }
    Ok(out)
}

// --- Recursive entity decoders -------------------------------------------
//
// All of these recurse on a fuel counter `depth`; each passes `depth - 1`
// to every child decoder, and returns `DepthExceeded` when the fuel is
// gone.

/// Every key of the object is either one the query block owns or a
/// relation-block discriminator.
pub open spec fn qb_keys_known(es: Seq<(String, Json)>) -> bool {
    forall|i: int|
        0 <= i < es.len() ==> qb_own_key((#[trigger] es[i]).0@) || rb_disc_key(es[i].0@)
}

pub open spec fn no_rb_disc(es: Seq<(String, Json)>) -> bool {
    forall|i: int| 0 <= i < es.len() ==> !rb_disc_key((#[trigger] es[i]).0@)
}

pub open spec fn two_rb_discs(es: Seq<(String, Json)>) -> bool {
    exists|a: int, b: int|
        0 <= a < b < es.len() && rb_disc_key((#[trigger] es[a]).0@) && rb_disc_key(
            (#[trigger] es[b]).0@,
        )
}


// --- Fuel needed to decode a conforming document --------------------------
//
// Each decoder consumes one unit of `depth` and hands `depth - 1` to every
// child decoder, so the fuel a tree needs mirrors the call graph, not the
// document's nesting alone. Completeness clauses are stated against this
// measure: a conforming tree within the fuel budget forces `Ok`.

pub open spec fn fmax(a: nat, b: nat) -> nat {
    if a >= b {
        a
    } else {
        b
    }
}

pub open spec fn explanation_fuel(t: Explanation) -> nat
    decreases t, 0int,
{
    1 + query_block_fuel(t.query_block)
}

pub open spec fn query_block_fuel(t: QueryBlock) -> nat
    decreases t, 0int,
{
    2 + rb_payload_fuel(*t.relation_block)
}

pub open spec fn rb_payload_fuel(rb: RelationBlock) -> nat
    decreases rb, 0int,
{
    match rb {
        RelationBlock::DuplicatesRemoval(d) => dr_fuel(d),
        RelationBlock::GroupingOperation(g) => grouping_fuel(g),
        RelationBlock::NestedLoop(ts) => nl_fuel(ts@),
        RelationBlock::OrderingOperation(o) => ordering_fuel(o),
        RelationBlock::Table(t) => table_fuel(t),
        RelationBlock::UnionResult(u) => union_result_fuel(u),
    }
}

pub open spec fn dr_fuel(d: DuplicatesRemoval) -> nat
    decreases d, 0int,
{
    2 + rb_payload_fuel(*d.relation_block)
}

pub open spec fn grouping_fuel(g: GroupingOperation) -> nat
    decreases g, 0int,
{
    1 + fmax(
        match g.table {
            Some(tb) => table_fuel(tb),
            None => 0,
        },
        fmax(
            match g.having_subqueries {
                Some(subs) => asq_list_fuel(subs@),
                None => 0,
            },
            match g.relation_block {
                Some(x) => 1 + grb_payload_fuel(x),
                None => 0,
            },
        ),
    )
}

pub open spec fn grb_payload_fuel(x: GroupedRelationBlock) -> nat
    decreases x, 0int,
{
    match x {
        GroupedRelationBlock::BufferResult(b) => buffer_result_fuel(b),
        GroupedRelationBlock::NestedLoop(ts) => nl_fuel(ts@),
        GroupedRelationBlock::Table(t) => table_fuel(t),
    }
}

pub open spec fn ordering_fuel(o: OrderingOperation) -> nat
    decreases o, 0int,
{
    1 + fmax(
        match o.optimized_away_subqueries {
            Some(subs) => asq_list_fuel(subs@),
            None => 0,
        },
        match o.relation_block {
            Some(rb) => 1 + rb_payload_fuel(*rb),
            None => 0,
        },
    )
}

pub open spec fn nl_fuel(ts: Seq<TableBlock>) -> nat
    decreases ts, 1int,
{
    1 + tb_max_fuel(ts)
}

pub open spec fn tb_max_fuel(ts: Seq<TableBlock>) -> nat
    decreases ts, 0int,
{
    if ts.len() == 0 {
        0
    } else {
        fmax(table_block_fuel(ts.last()), tb_max_fuel(ts.drop_last()))
    }
}

pub open spec fn table_block_fuel(tb: TableBlock) -> nat
    decreases tb, 0int,
{
    1 + table_fuel(tb.table)
}

pub open spec fn table_fuel(t: Table) -> nat
    decreases t, 0int,
{
    1 + fmax(
        match t.attached_subqueries {
            Some(subs) => asq_list_fuel(subs@),
            None => 0,
        },
        match t.materialized_from_subquery {
            Some(m) => mfs_fuel(m),
            None => 0,
        },
    )
}

pub open spec fn mfs_fuel(m: MaterializedFromSubquery) -> nat
    decreases m, 0int,
{
    1 + query_block_fuel(m.query_block)
}

pub open spec fn asq_list_fuel(ts: Seq<AttachedSubquery>) -> nat
    decreases ts, 1int,
{
    1 + asq_max_fuel(ts)
}

pub open spec fn asq_max_fuel(ts: Seq<AttachedSubquery>) -> nat
    decreases ts, 0int,
{
    if ts.len() == 0 {
        0
    } else {
        fmax(asq_fuel(ts.last()), asq_max_fuel(ts.drop_last()))
    }
}

pub open spec fn asq_fuel(t: AttachedSubquery) -> nat
    decreases t, 0int,
{
    2 + ab_payload_fuel(t.attached_block)
}

pub open spec fn ab_payload_fuel(ab: AttachedBlock) -> nat
    decreases ab, 0int,
{
    match ab {
        AttachedBlock::QueryBlock(q) => query_block_fuel(q),
        AttachedBlock::Table(t) => table_fuel(t),
    }
}

pub open spec fn union_result_fuel(u: UnionResult) -> nat
    decreases u, 0int,
{
    1 + ub_list_fuel(u.query_specifications@)
}

pub open spec fn ub_list_fuel(ts: Seq<UnionBlock>) -> nat
    decreases ts, 1int,
{
    1 + ub_max_fuel(ts)
}

pub open spec fn ub_max_fuel(ts: Seq<UnionBlock>) -> nat
    decreases ts, 0int,
{
    if ts.len() == 0 {
        0
    } else {
        fmax(ub_fuel(ts.last()), ub_max_fuel(ts.drop_last()))
    }
}

pub open spec fn ub_fuel(u: UnionBlock) -> nat
    decreases u, 0int,
{
    1 + query_block_fuel(u.query_block)
}

pub open spec fn buffer_result_fuel(b: BufferResult) -> nat
    decreases b, 0int,
{
    1 + table_fuel(b.table)
}

proof fn lemma_tb_max_fuel_ge(ts: Seq<TableBlock>, i: int)
    requires
        0 <= i < ts.len(),
    ensures
        table_block_fuel(ts[i]) <= tb_max_fuel(ts),
    decreases ts,
{
    if i < ts.len() - 1 {
        lemma_tb_max_fuel_ge(ts.drop_last(), i);
    }
}

proof fn lemma_tb_max_fuel_ge_all()
    ensures
        forall|ts: Seq<TableBlock>, i: int|
            0 <= i < ts.len() ==> table_block_fuel(#[trigger] ts[i]) <= tb_max_fuel(ts),
{
    assert forall|ts: Seq<TableBlock>, i: int|
        0 <= i < ts.len() implies table_block_fuel(#[trigger] ts[i]) <= tb_max_fuel(ts) by {
        lemma_tb_max_fuel_ge(ts, i);
    }
}

proof fn lemma_asq_max_fuel_ge(ts: Seq<AttachedSubquery>, i: int)
    requires
        0 <= i < ts.len(),
    ensures
        asq_fuel(ts[i]) <= asq_max_fuel(ts),
    decreases ts,
{
    if i < ts.len() - 1 {
        lemma_asq_max_fuel_ge(ts.drop_last(), i);
    }
}

proof fn lemma_asq_max_fuel_ge_all()
    ensures
        forall|ts: Seq<AttachedSubquery>, i: int|
            0 <= i < ts.len() ==> asq_fuel(#[trigger] ts[i]) <= asq_max_fuel(ts),
{
    assert forall|ts: Seq<AttachedSubquery>, i: int|
        0 <= i < ts.len() implies asq_fuel(#[trigger] ts[i]) <= asq_max_fuel(ts) by {
        lemma_asq_max_fuel_ge(ts, i);
    }
}

proof fn lemma_ub_max_fuel_ge(ts: Seq<UnionBlock>, i: int)
    requires
        0 <= i < ts.len(),
    ensures
        ub_fuel(ts[i]) <= ub_max_fuel(ts),
    decreases ts,
{
    if i < ts.len() - 1 {
        lemma_ub_max_fuel_ge(ts.drop_last(), i);
    }
}

proof fn lemma_ub_max_fuel_ge_all()
    ensures
        forall|ts: Seq<UnionBlock>, i: int|
            0 <= i < ts.len() ==> ub_fuel(#[trigger] ts[i]) <= ub_max_fuel(ts),
{
    assert forall|ts: Seq<UnionBlock>, i: int|
        0 <= i < ts.len() implies ub_fuel(#[trigger] ts[i]) <= ub_max_fuel(ts) by {
        lemma_ub_max_fuel_ge(ts, i);
    }
}

/// Every variant-holding position keeps its own field names apart from its
/// discriminator keys, so a key cannot be both.
#[verifier::rlimit(100)]
proof fn lemma_own_disc_disjoint()
    ensures
        forall|k: Seq<char>| #[trigger] qb_own_key(k) ==> !rb_disc_key(k),
        forall|k: Seq<char>| #[trigger] dr_own_key(k) ==> !rb_disc_key(k),
        forall|k: Seq<char>| #[trigger] ordering_own_key(k) ==> !rb_disc_key(k),
        forall|k: Seq<char>| #[trigger] grouping_own_key(k) ==> !grb_disc_key(k),
        forall|k: Seq<char>| #[trigger] asq_own_key(k) ==> !ab_disc_key(k),
{
    reveal_strlit("select_id");
    reveal_strlit("cost_info");
    reveal_strlit("using_temporary_table");
    reveal_strlit("using_filesort");
    reveal_strlit("optimized_away_subqueries");
    reveal_strlit("order_by_subqueries");
    reveal_strlit("table");
    reveal_strlit("having_subqueries");
    reveal_strlit("dependent");
    reveal_strlit("cacheable");
    reveal_strlit("duplicates_removal");
    reveal_strlit("grouping_operation");
    reveal_strlit("nested_loop");
    reveal_strlit("ordering_operation");
    reveal_strlit("union_result");
    reveal_strlit("buffer_result");
    reveal_strlit("query_block");
    assert("select_id"@.len() == 9);
    assert("cost_info"@.len() == 9);
    assert("using_temporary_table"@.len() == 21);
    assert("using_filesort"@.len() == 14);
    assert("optimized_away_subqueries"@.len() == 25);
    assert("order_by_subqueries"@.len() == 19);
    assert("table"@.len() == 5);
    assert("having_subqueries"@.len() == 17);
    assert("dependent"@.len() == 9);
    assert("cacheable"@.len() == 9);
    assert("duplicates_removal"@.len() == 18);
    assert("grouping_operation"@.len() == 18);
    assert("nested_loop"@.len() == 11);
    assert("ordering_operation"@.len() == 18);
    assert("union_result"@.len() == 12);
    assert("buffer_result"@.len() == 13);
    assert("query_block"@.len() == 11);
}

/// The discriminator keys of each variant position are pairwise distinct.
#[verifier::rlimit(100)]
proof fn lemma_disc_names_distinct()
    ensures
        "duplicates_removal"@ != "grouping_operation"@,
        "duplicates_removal"@ != "nested_loop"@,
        "duplicates_removal"@ != "ordering_operation"@,
        "duplicates_removal"@ != "table"@,
        "duplicates_removal"@ != "union_result"@,
        "grouping_operation"@ != "nested_loop"@,
        "grouping_operation"@ != "ordering_operation"@,
        "grouping_operation"@ != "table"@,
        "grouping_operation"@ != "union_result"@,
        "nested_loop"@ != "ordering_operation"@,
        "nested_loop"@ != "table"@,
        "nested_loop"@ != "union_result"@,
        "ordering_operation"@ != "table"@,
        "ordering_operation"@ != "union_result"@,
        "table"@ != "union_result"@,
        "buffer_result"@ != "nested_loop"@,
        "buffer_result"@ != "table"@,
        "query_block"@ != "table"@,
{
    reveal_strlit("duplicates_removal");
    reveal_strlit("grouping_operation");
    reveal_strlit("nested_loop");
    reveal_strlit("ordering_operation");
    reveal_strlit("table");
    reveal_strlit("union_result");
    reveal_strlit("buffer_result");
    reveal_strlit("query_block");
    assert("duplicates_removal"@.len() == 18);
    assert("grouping_operation"@.len() == 18);
    assert("nested_loop"@.len() == 11);
    assert("ordering_operation"@.len() == 18);
    assert("table"@.len() == 5);
    assert("union_result"@.len() == 12);
    assert("buffer_result"@.len() == 13);
    assert("query_block"@.len() == 11);
    assert("duplicates_removal"@[0] == 'd' && "grouping_operation"@[0] == 'g'
        && "ordering_operation"@[0] == 'o');
    assert("nested_loop"@[0] == 'n' && "query_block"@[0] == 'q');
}

/// A relation-block variant's tag is one of the position's discriminators.
proof fn lemma_rb_disc_of_is_disc()
    ensures
        forall|rb: RelationBlock| #[trigger] rb_disc_key(rb_disc_of(rb)),
        forall|ab: AttachedBlock| #[trigger] ab_disc_key(ab_disc_of(ab)),
{
}

pub open spec fn dr_keys_known(es: Seq<(String, Json)>) -> bool {
    forall|i: int|
        0 <= i < es.len() ==> dr_own_key((#[trigger] es[i]).0@) || rb_disc_key(es[i].0@)
}

pub open spec fn asq_keys_known(es: Seq<(String, Json)>) -> bool {
    forall|i: int|
        0 <= i < es.len() ==> asq_own_key((#[trigger] es[i]).0@) || ab_disc_key(es[i].0@)
}

pub open spec fn grouping_keys_known(es: Seq<(String, Json)>) -> bool {
    forall|i: int|
        0 <= i < es.len() ==> grouping_own_key((#[trigger] es[i]).0@) || grb_disc_key(es[i].0@)
}

pub open spec fn two_grb_discs(es: Seq<(String, Json)>) -> bool {
    exists|a: int, b: int|
        0 <= a < b < es.len() && grb_disc_key((#[trigger] es[a]).0@) && grb_disc_key(
            (#[trigger] es[b]).0@,
        )
}

pub open spec fn ordering_keys_known(es: Seq<(String, Json)>) -> bool {
    forall|i: int|
        0 <= i < es.len() ==> ordering_own_key((#[trigger] es[i]).0@) || rb_disc_key(es[i].0@)
}

/// The decoder rejected key `k`, which the position does not declare.
pub open spec fn unknown_field_err(e: DecodeError, es: Seq<(String, Json)>) -> bool {
    e.kind matches ErrorKind::UnknownField(k) && has_key(es, k@)
}

pub open spec fn no_ab_disc(es: Seq<(String, Json)>) -> bool {
    forall|i: int| 0 <= i < es.len() ==> !ab_disc_key((#[trigger] es[i]).0@)
}

pub open spec fn two_ab_discs(es: Seq<(String, Json)>) -> bool {
    exists|a: int, b: int|
        0 <= a < b < es.len() && ab_disc_key((#[trigger] es[a]).0@) && ab_disc_key(
            (#[trigger] es[b]).0@,
        )
}

/// Decode one relation-block variant from the value under its
/// discriminator key.
fn decode_rb_variant(key: &String, val: &Json, depth: u32) -> (r: Result<
    RelationBlock,
    DecodeError,
>)
    requires
        val.wf(),
        rb_disc_key(key@),
    ensures
        r matches Ok(rb) ==> rb_disc_of(rb) == key@ && rb_payload_conforms(rb, *val)
            && rb_encodable(rb),
        (exists|rb: RelationBlock| rb_payload_conforms(rb, *val) && rb_disc_of(rb) == key@ && 1
            + rb_payload_fuel(rb) <= depth) ==> r is Ok,
    decreases depth,
{
    proof {
        lemma_disc_names_distinct();
    }
    if depth == 0 {
        return Err(DecodeError::depth_exceeded());
    }
    if str_eq(key, "duplicates_removal") {
        match decode_dr(val, depth - 1) {
            Ok(x) => Ok(RelationBlock::DuplicatesRemoval(x)),
            Err(e) => {
                proof {
                    if exists|w: RelationBlock| rb_payload_conforms(w, *val) && rb_disc_of(w) == key@ && 1 + rb_payload_fuel(w) <= depth {
                        let w = choose|w: RelationBlock| rb_payload_conforms(w, *val) && rb_disc_of(w) == key@ && 1 + rb_payload_fuel(w) <= depth;
                        match w {
                            RelationBlock::DuplicatesRemoval(d) => {
                                assert(dr_conforms(d, *val) && dr_fuel(d) + 1 <= depth);
                            },
                            _ => {},
                        }
                        assert(false);
                    }
                }
                Err(e)
            },
        }
    } else if str_eq(key, "grouping_operation") {
        match decode_grouping(val, depth - 1) {
            Ok(x) => Ok(RelationBlock::GroupingOperation(x)),
            Err(e) => {
                proof {
                    if exists|w: RelationBlock| rb_payload_conforms(w, *val) && rb_disc_of(w) == key@ && 1 + rb_payload_fuel(w) <= depth {
                        let w = choose|w: RelationBlock| rb_payload_conforms(w, *val) && rb_disc_of(w) == key@ && 1 + rb_payload_fuel(w) <= depth;
                        match w {
                            RelationBlock::GroupingOperation(g) => {
                                assert(grouping_conforms(g, *val) && grouping_fuel(g) + 1 <= depth);
                            },
                            _ => {},
                        }
                        assert(false);
                    }
                }
                Err(e)
            },
        }
    } else if str_eq(key, "nested_loop") {
        match decode_nl(val, depth - 1) {
            Ok(x) => Ok(RelationBlock::NestedLoop(x)),
            Err(e) => {
                proof {
                    if exists|w: RelationBlock| rb_payload_conforms(w, *val) && rb_disc_of(w) == key@ && 1 + rb_payload_fuel(w) <= depth {
                        let w = choose|w: RelationBlock| rb_payload_conforms(w, *val) && rb_disc_of(w) == key@ && 1 + rb_payload_fuel(w) <= depth;
                        match w {
                            RelationBlock::NestedLoop(ts) => {
                                assert(nl_conforms(ts@, *val) && nl_fuel(ts@) + 1 <= depth);
                            },
                            _ => {},
                        }
                        assert(false);
                    }
                }
                Err(e)
            },
        }
    } else if str_eq(key, "ordering_operation") {
        match decode_ordering(val, depth - 1) {
            Ok(x) => Ok(RelationBlock::OrderingOperation(x)),
            Err(e) => {
                proof {
                    if exists|w: RelationBlock| rb_payload_conforms(w, *val) && rb_disc_of(w) == key@ && 1 + rb_payload_fuel(w) <= depth {
                        let w = choose|w: RelationBlock| rb_payload_conforms(w, *val) && rb_disc_of(w) == key@ && 1 + rb_payload_fuel(w) <= depth;
                        match w {
                            RelationBlock::OrderingOperation(o) => {
                                assert(ordering_conforms(o, *val) && ordering_fuel(o) + 1 <= depth);
                            },
                            _ => {},
                        }
                        assert(false);
                    }
                }
                Err(e)
            },
        }
    } else if str_eq(key, "table") {
        match decode_table(val, depth - 1) {
            Ok(x) => Ok(RelationBlock::Table(x)),
            Err(e) => {
                proof {
                    if exists|w: RelationBlock| rb_payload_conforms(w, *val) && rb_disc_of(w) == key@ && 1 + rb_payload_fuel(w) <= depth {
                        let w = choose|w: RelationBlock| rb_payload_conforms(w, *val) && rb_disc_of(w) == key@ && 1 + rb_payload_fuel(w) <= depth;
                        match w {
                            RelationBlock::Table(t) => {
                                assert(table_conforms(t, *val) && table_fuel(t) + 1 <= depth);
                            },
                            _ => {},
                        }
                        assert(false);
                    }
                }
                Err(e)
            },
        }
    } else {
        match decode_union_result(val, depth - 1) {
            Ok(x) => Ok(RelationBlock::UnionResult(x)),
            Err(e) => {
                proof {
                    if exists|w: RelationBlock| rb_payload_conforms(w, *val) && rb_disc_of(w) == key@ && 1 + rb_payload_fuel(w) <= depth {
                        let w = choose|w: RelationBlock| rb_payload_conforms(w, *val) && rb_disc_of(w) == key@ && 1 + rb_payload_fuel(w) <= depth;
                        match w {
                            RelationBlock::UnionResult(u) => {
                                assert(union_result_conforms(u, *val) && union_result_fuel(u) + 1
                                    <= depth);
                            },
                            _ => {},
                        }
                        assert(false);
                    }
                }
                Err(e)
            },
        }
    }
}

fn decode_grb_variant(key: &String, val: &Json, depth: u32) -> (r: Result<
    GroupedRelationBlock,
    DecodeError,
>)
    requires
        val.wf(),
        grb_disc_key(key@),
    ensures
        r matches Ok(g) ==> grb_disc_of(g) == key@ && grb_payload_conforms(g, *val)
            && grb_encodable(g),
        (exists|g: GroupedRelationBlock| grb_payload_conforms(g, *val) && grb_disc_of(g) == key@
            && 1 + grb_payload_fuel(g) <= depth) ==> r is Ok,
    decreases depth,
{
    proof {
        lemma_disc_names_distinct();
    }
    if depth == 0 {
        return Err(DecodeError::depth_exceeded());
    }
    if str_eq(key, "buffer_result") {
        match decode_buffer_result(val, depth - 1) {
            Ok(x) => Ok(GroupedRelationBlock::BufferResult(x)),
            Err(e) => {
                proof {
                    if exists|w: GroupedRelationBlock| grb_payload_conforms(w, *val) && grb_disc_of(w) == key@ && 1 + grb_payload_fuel(w) <= depth {
                        let w = choose|w: GroupedRelationBlock| grb_payload_conforms(w, *val) && grb_disc_of(w) == key@ && 1 + grb_payload_fuel(w) <= depth;
                        match w {
                            GroupedRelationBlock::BufferResult(b) => {
                                assert(buffer_result_conforms(b, *val) && buffer_result_fuel(b) + 1 <= depth);
                            },
                            _ => {},
                        }
                        assert(false);
                    }
                }
                Err(e)
            },
        }
    } else {
        match decode_nl(val, depth - 1) {
            Ok(x) => Ok(GroupedRelationBlock::NestedLoop(x)),
            Err(e) => {
                proof {
                    if exists|w: GroupedRelationBlock| grb_payload_conforms(w, *val) && grb_disc_of(w) == key@ && 1 + grb_payload_fuel(w) <= depth {
                        let w = choose|w: GroupedRelationBlock| grb_payload_conforms(w, *val) && grb_disc_of(w) == key@ && 1 + grb_payload_fuel(w) <= depth;
                        match w {
                            GroupedRelationBlock::NestedLoop(ts) => {
                                assert(nl_conforms(ts@, *val) && nl_fuel(ts@) + 1 <= depth);
                            },
                            _ => {},
                        }
                        assert(false);
                    }
                }
                Err(e)
            },
        }
    }
}

fn decode_ab_variant(key: &String, val: &Json, depth: u32) -> (r: Result<
    AttachedBlock,
    DecodeError,
>)
    requires
        val.wf(),
        ab_disc_key(key@),
    ensures
        r matches Ok(ab) ==> ab_disc_of(ab) == key@ && ab_payload_conforms(ab, *val)
            && ab_encodable(ab),
        (exists|ab: AttachedBlock| ab_payload_conforms(ab, *val) && ab_disc_of(ab) == key@ && 1
            + ab_payload_fuel(ab) <= depth) ==> r is Ok,
    decreases depth,
{
    proof {
        lemma_disc_names_distinct();
    }
    if depth == 0 {
        return Err(DecodeError::depth_exceeded());
    }
    if str_eq(key, "query_block") {
        match decode_query_block(val, depth - 1) {
            Ok(x) => Ok(AttachedBlock::QueryBlock(x)),
            Err(e) => {
                proof {
                    if exists|w: AttachedBlock| ab_payload_conforms(w, *val) && ab_disc_of(w) == key@ && 1 + ab_payload_fuel(w) <= depth {
                        let w = choose|w: AttachedBlock| ab_payload_conforms(w, *val) && ab_disc_of(w) == key@ && 1 + ab_payload_fuel(w) <= depth;
                        match w {
                            AttachedBlock::QueryBlock(q) => {
                                assert(query_block_conforms(q, *val) && query_block_fuel(q) + 1 <= depth);
                            },
                            _ => {},
                        }
                        assert(false);
                    }
                }
                Err(e)
            },
        }
    } else {
        match decode_table(val, depth - 1) {
            Ok(x) => Ok(AttachedBlock::Table(x)),
            Err(e) => {
                proof {
                    if exists|w: AttachedBlock| ab_payload_conforms(w, *val) && ab_disc_of(w) == key@ && 1 + ab_payload_fuel(w) <= depth {
                        let w = choose|w: AttachedBlock| ab_payload_conforms(w, *val) && ab_disc_of(w) == key@ && 1 + ab_payload_fuel(w) <= depth;
                        match w {
                            AttachedBlock::Table(t) => {
                                assert(table_conforms(t, *val) && table_fuel(t) + 1 <= depth);
                            },
                            _ => {},
                        }
                        assert(false);
                    }
                }
                Err(e)
            },
        }
    }
}

#[verifier::loop_isolation(false)]
pub fn decode_query_block(j: &Json, depth: u32) -> (r: Result<QueryBlock, DecodeError>)
    requires
        j.wf(),
    ensures
        r matches Ok(t) ==> query_block_conforms(t, *j) && query_block_encodable(t),
        (exists|t: QueryBlock| query_block_conforms(t, *j) && query_block_fuel(t) <= depth) ==> r is Ok,
        depth > 0 ==> ((*j matches Json::Obj(es) ==> ((!two_rb_discs(es@) && (exists|q: int|
            0 <= q < es@.len() && !(qb_own_key((#[trigger] es@[q]).0@) || rb_disc_key(es@[q].0@))))
            ==> (r matches Err(e) && unknown_field_err(e, es@) && (e.kind matches
            ErrorKind::UnknownField(k) && !(qb_own_key(k@) || rb_disc_key(k@))))))),
        depth > 0 ==> ((*j matches Json::Obj(es) && qb_keys_known(es@) && no_rb_disc(es@)) ==> (
        r matches Err(e) && e.kind is NoMatchingVariant)),
        depth > 0 ==> ((*j matches Json::Obj(es) && qb_keys_known(es@) && two_rb_discs(es@)) ==> (
        r matches Err(e) && e.kind is AmbiguousVariant)),
    decreases depth,
{
    proof {
        lemma_own_disc_disjoint();
        lemma_rb_disc_of_is_disc();
    }
    if depth == 0 {
        return Err(DecodeError::depth_exceeded());
    }
    let es = match j {
        Json::Obj(es) => es,
        other => { return Err(DecodeError::type_mismatch(JsonKind::Obj, kind_of(other))) },
    };
    let mut disc: usize = 0;
    let mut found = false;
    let mut i: usize = 0;
    while i < es.len()
        invariant
            i <= es@.len(),
            found ==> disc < i && rb_disc_key(es@[disc as int].0@),
            forall|q: int|
                0 <= q < i && !(found && q == disc as int) ==> !rb_disc_key(
                    (#[trigger] es@[q]).0@,
                ) && qb_own_key(es@[q].0@),
        decreases es@.len() - i,
    {
        let k = &es[i].0;
        if is_rb_disc_key(k) {
            if found {
                return Err(DecodeError::ambiguous_variant(&es[disc].0, k));
            }
            disc = i;
            found = true;
        } else if !is_qb_own_key(k) {
            return Err(DecodeError::unknown_field(k));
        }
        i += 1;
    }
    if !found {
        return Err(DecodeError::no_matching_variant());
    }
    let select_id = get_opt_u32(es, "select_id")?;
    let cost_info = match obj_get(es, "cost_info") {
        None => None,
        Some(v) => {
            proof {
                lemma_lookup_wf(es@, "cost_info"@);
            }
            match decode_query_cost(v) {
                Ok(c) => Some(c),
                Err(e) => { return Err(e.in_field("cost_info")) },
            }
        },
    };
    let dkey = &es[disc].0;
    let dval = &es[disc].1;
    proof {
        lemma_lookup_unique(es@, dkey@, disc as int);
        lemma_lookup_wf(es@, dkey@);
    }
    let rb = match decode_rb_variant(dkey, dval, depth - 1) {
        Ok(rb) => rb,
        Err(e) => { return Err(e.in_field(dkey.as_str())) },
    };
    Ok(QueryBlock { select_id, cost_info, relation_block: Box::new(rb) })
}

#[verifier::loop_isolation(false)]
fn decode_dr(j: &Json, depth: u32) -> (r: Result<DuplicatesRemoval, DecodeError>)
    requires
        j.wf(),
    ensures
        r matches Ok(t) ==> dr_conforms(t, *j) && rb_encodable(*t.relation_block),
        (exists|t: DuplicatesRemoval| dr_conforms(t, *j) && dr_fuel(t) <= depth) ==> r is Ok,
        depth > 0 ==> ((*j matches Json::Obj(es) ==> ((!two_rb_discs(es@) && (exists|q: int|
            0 <= q < es@.len() && !(dr_own_key((#[trigger] es@[q]).0@) || rb_disc_key(es@[q].0@))))
            ==> (r matches Err(e) && unknown_field_err(e, es@) && (e.kind matches
            ErrorKind::UnknownField(k) && !(dr_own_key(k@) || rb_disc_key(k@))))))),
        depth > 0 ==> ((*j matches Json::Obj(es) && dr_keys_known(es@) && no_rb_disc(es@)) ==> (
        r matches Err(e) && e.kind is NoMatchingVariant)),
        depth > 0 ==> ((*j matches Json::Obj(es) && dr_keys_known(es@) && two_rb_discs(es@)) ==> (
        r matches Err(e) && e.kind is AmbiguousVariant)),
    decreases depth,
{
    proof {
        lemma_own_disc_disjoint();
        lemma_rb_disc_of_is_disc();
    }
    if depth == 0 {
        return Err(DecodeError::depth_exceeded());
    }
    let es = match j {
        Json::Obj(es) => es,
        other => { return Err(DecodeError::type_mismatch(JsonKind::Obj, kind_of(other))) },
    };
    let mut disc: usize = 0;
    let mut found = false;
    let mut i: usize = 0;
    while i < es.len()
        invariant
            i <= es@.len(),
            found ==> disc < i && rb_disc_key(es@[disc as int].0@),
            forall|q: int|
                0 <= q < i && !(found && q == disc as int) ==> !rb_disc_key(
                    (#[trigger] es@[q]).0@,
                ) && dr_own_key(es@[q].0@),
        decreases es@.len() - i,
    {
        let k = &es[i].0;
        if is_rb_disc_key(k) {
            if found {
                return Err(DecodeError::ambiguous_variant(&es[disc].0, k));
            }
            disc = i;
            found = true;
        } else if !is_dr_own_key(k) {
            return Err(DecodeError::unknown_field(k));
        }
        i += 1;
    }
    if !found {
        return Err(DecodeError::no_matching_variant());
    }
    let using_temporary_table = get_req_bool(es, "using_temporary_table")?;
    let using_filesort = get_req_bool(es, "using_filesort")?;
    let dkey = &es[disc].0;
    let dval = &es[disc].1;
    proof {
        lemma_lookup_unique(es@, dkey@, disc as int);
        lemma_lookup_wf(es@, dkey@);
    }
    let rb = match decode_rb_variant(dkey, dval, depth - 1) {
        Ok(rb) => rb,
        Err(e) => { return Err(e.in_field(dkey.as_str())) },
    };
    Ok(DuplicatesRemoval { using_temporary_table, using_filesort, relation_block: Box::new(rb) })
}

#[verifier::loop_isolation(false)]
fn decode_grouping(j: &Json, depth: u32) -> (r: Result<GroupingOperation, DecodeError>)
    requires
        j.wf(),
    ensures
        r matches Ok(t) ==> grouping_conforms(t, *j) && grouping_encodable(t),
        (exists|t: GroupingOperation| grouping_conforms(t, *j) && grouping_fuel(t) <= depth) ==> r is Ok,
        depth > 0 ==> ((*j matches Json::Obj(es) && grouping_keys_known(es@)
            && two_grb_discs(es@)) ==> (r matches Err(e) && e.kind is AmbiguousVariant)),
        depth > 0 ==> ((*j matches Json::Obj(es) ==> ((!two_grb_discs(es@) && (exists|q: int|
            0 <= q < es@.len() && !(grouping_own_key((#[trigger] es@[q]).0@) || grb_disc_key(es@[q].0@))))
            ==> (r matches Err(e) && unknown_field_err(e, es@) && (e.kind matches
            ErrorKind::UnknownField(k) && !(grouping_own_key(k@) || grb_disc_key(k@))))))),
    decreases depth,
{
    proof {
        lemma_own_disc_disjoint();
    }
    if depth == 0 {
        return Err(DecodeError::depth_exceeded());
    }
    let es = match j {
        Json::Obj(es) => es,
        other => { return Err(DecodeError::type_mismatch(JsonKind::Obj, kind_of(other))) },
    };
    let mut disc: usize = 0;
    let mut found = false;
    let mut i: usize = 0;
    while i < es.len()
        invariant
            i <= es@.len(),
            found ==> disc < i && grb_disc_key(es@[disc as int].0@),
            forall|q: int|
                0 <= q < i && !(found && q == disc as int) ==> !grb_disc_key(
                    (#[trigger] es@[q]).0@,
                ) && grouping_own_key(es@[q].0@),
        decreases es@.len() - i,
    {
        let k = &es[i].0;
        if is_grb_disc_key(k) {
            if found {
                return Err(DecodeError::ambiguous_variant(&es[disc].0, k));
            }
            disc = i;
            found = true;
        } else if !is_grouping_own_key(k) {
            return Err(DecodeError::unknown_field(k));
        }
        i += 1;
    }
    let using_temporary_table = get_opt_bool(es, "using_temporary_table")?;
    let using_filesort = get_req_bool(es, "using_filesort")?;
    let cost_info = match obj_get(es, "cost_info") {
        None => None,
        Some(v) => {
            proof {
                lemma_lookup_wf(es@, "cost_info"@);
            }
            match decode_sort_cost(v) {
                Ok(c) => Some(c),
                Err(e) => { return Err(e.in_field("cost_info")) },
            }
        },
    };
    let table = match obj_get(es, "table") {
        None => None,
        Some(v) => {
            proof {
                lemma_lookup_wf(es@, "table"@);
            }
            match decode_table(v, depth - 1) {
                Ok(t) => Some(t),
                Err(e) => {
                    proof {
                        if exists|t: GroupingOperation| grouping_conforms(t, *j) && grouping_fuel(t) <= depth {
                            let t = choose|t: GroupingOperation| grouping_conforms(t, *j) && grouping_fuel(t) <= depth;
                            match t.table {
                                Some(c) => {
                                    assert(table_conforms(c, *v) && table_fuel(c) + 1 <= depth);
                                },
                                None => {},
                            }
                            assert(false);
                        }
                    }
                    return Err(e.in_field("table"));
                },
            }
        },
    };
    let having_subqueries = match obj_get(es, "having_subqueries") {
        None => None,
        Some(v) => {
            proof {
                lemma_lookup_wf(es@, "having_subqueries"@);
            }
            match decode_asq_list(v, depth - 1) {
                Ok(ts) => Some(ts),
                Err(e) => {
                    proof {
                        if exists|t: GroupingOperation| grouping_conforms(t, *j) && grouping_fuel(t) <= depth {
                            let t = choose|t: GroupingOperation| grouping_conforms(t, *j) && grouping_fuel(t) <= depth;
                            match t.having_subqueries {
                                Some(c) => {
                                    assert(asq_list_conforms(c@, *v) && asq_list_fuel(c@) + 1 <= depth);
                                },
                                None => {},
                            }
                            assert(false);
                        }
                    }
                    return Err(e.in_field("having_subqueries"));
                },
            }
        },
    };
    let relation_block = if found {
        let dkey = &es[disc].0;
        let dval = &es[disc].1;
        proof {
            lemma_lookup_unique(es@, dkey@, disc as int);
            lemma_lookup_wf(es@, dkey@);
        }
        match decode_grb_variant(dkey, dval, depth - 1) {
            Ok(g) => Some(g),
            Err(e) => { return Err(e.in_field(dkey.as_str())) },
        }
    } else {
        None
    };
    Ok(
        GroupingOperation {
            using_temporary_table,
            using_filesort,
            cost_info,
            relation_block,
            table,
            having_subqueries,
        },
    )
}

#[verifier::loop_isolation(false)]
fn decode_ordering(j: &Json, depth: u32) -> (r: Result<OrderingOperation, DecodeError>)
    requires
        j.wf(),
    ensures
        r matches Ok(t) ==> ordering_conforms(t, *j) && ordering_encodable(t),
        (exists|t: OrderingOperation| ordering_conforms(t, *j) && ordering_fuel(t) <= depth) ==> r is Ok,
        depth > 0 ==> ((*j matches Json::Obj(es) && ordering_keys_known(es@)
            && two_rb_discs(es@)) ==> (r matches Err(e) && e.kind is AmbiguousVariant)),
        depth > 0 ==> ((*j matches Json::Obj(es) ==> ((!two_rb_discs(es@) && (exists|q: int|
            0 <= q < es@.len() && !(ordering_own_key((#[trigger] es@[q]).0@) || rb_disc_key(es@[q].0@))))
            ==> (r matches Err(e) && unknown_field_err(e, es@) && (e.kind matches
            ErrorKind::UnknownField(k) && !(ordering_own_key(k@) || rb_disc_key(k@))))))),
    decreases depth,
{
    proof {
        lemma_own_disc_disjoint();
        lemma_rb_disc_of_is_disc();
    }
    if depth == 0 {
        return Err(DecodeError::depth_exceeded());
    }
    let es = match j {
        Json::Obj(es) => es,
        other => { return Err(DecodeError::type_mismatch(JsonKind::Obj, kind_of(other))) },
    };
    let mut disc: usize = 0;
    let mut found = false;
    let mut i: usize = 0;
    while i < es.len()
        invariant
            i <= es@.len(),
            found ==> disc < i && rb_disc_key(es@[disc as int].0@),
            forall|q: int|
                0 <= q < i && !(found && q == disc as int) ==> !rb_disc_key(
                    (#[trigger] es@[q]).0@,
                ) && ordering_own_key(es@[q].0@),
        decreases es@.len() - i,
    {
        let k = &es[i].0;
        if is_rb_disc_key(k) {
            if found {
                return Err(DecodeError::ambiguous_variant(&es[disc].0, k));
            }
            disc = i;
            found = true;
        } else if !is_ordering_own_key(k) {
            return Err(DecodeError::unknown_field(k));
        }
        i += 1;
    }
    let using_temporary_table = get_opt_bool(es, "using_temporary_table")?;
    let using_filesort = get_req_bool(es, "using_filesort")?;
    let optimized_away_subqueries = match obj_get(es, "optimized_away_subqueries") {
        None => None,
        Some(v) => {
            proof {
                lemma_lookup_wf(es@, "optimized_away_subqueries"@);
            }
            match decode_asq_list(v, depth - 1) {
                Ok(ts) => Some(ts),
                Err(e) => {
                    proof {
                        if exists|t: OrderingOperation| ordering_conforms(t, *j) && ordering_fuel(t) <= depth {
                            let t = choose|t: OrderingOperation| ordering_conforms(t, *j) && ordering_fuel(t) <= depth;
                            match t.optimized_away_subqueries {
                                Some(c) => {
                                    assert(asq_list_conforms(c@, *v) && asq_list_fuel(c@) + 1 <= depth);
                                },
                                None => {},
                            }
                            assert(false);
                        }
                    }
                    return Err(e.in_field("optimized_away_subqueries"));
                },
            }
        },
    };
    let order_by_subqueries = match obj_get(es, "order_by_subqueries") {
        None => None,
        Some(v) => {
            proof {
                lemma_lookup_wf(es@, "order_by_subqueries"@);
            }
            match decode_obs_list(v) {
                Ok(ts) => Some(ts),
                Err(e) => { return Err(e.in_field("order_by_subqueries")) },
            }
        },
    };
    let relation_block = if found {
        let dkey = &es[disc].0;
        let dval = &es[disc].1;
        proof {
            lemma_lookup_unique(es@, dkey@, disc as int);
            lemma_lookup_wf(es@, dkey@);
        }
        match decode_rb_variant(dkey, dval, depth - 1) {
            Ok(rb) => Some(Box::new(rb)),
            Err(e) => { return Err(e.in_field(dkey.as_str())) },
        }
    } else {
        None
    };
    Ok(
        OrderingOperation {
            using_temporary_table,
            using_filesort,
            relation_block,
            optimized_away_subqueries,
            order_by_subqueries,
        },
    )
}

#[verifier::loop_isolation(false)]
fn decode_nl(j: &Json, depth: u32) -> (r: Result<Vec<TableBlock>, DecodeError>)
    requires
        j.wf(),
    ensures
        r matches Ok(ts) ==> nl_conforms(ts@, *j) && nl_encodable(ts@),
        (exists|ts: Seq<TableBlock>| nl_conforms(ts, *j) && nl_fuel(ts) <= depth) ==> r is Ok,
    decreases depth,
{
    proof {
        lemma_tb_max_fuel_ge_all();
    }
    if depth == 0 {
        return Err(DecodeError::depth_exceeded());
    }
    let items = match j {
        Json::Arr(items) => items,
        other => { return Err(DecodeError::type_mismatch(JsonKind::Arr, kind_of(other))) },
    };
    let mut out: Vec<TableBlock> = Vec::new();
    let mut i: usize = 0;
    while i < items.len()
        invariant
            i <= items@.len(),
            out@.len() == i,
            forall|q: int| 0 <= q < i ==> table_block_conforms(#[trigger] out@[q], items@[q]),
            forall|q: int| 0 <= q < i ==> table_encodable((#[trigger] out@[q]).table),
        decreases items@.len() - i,
    {
        assert(items@[i as int].wf());
        match decode_table_block(&items[i], depth - 1) {
            Ok(t) => out.push(t),
            Err(e) => {
                proof {
                    if exists|ts: Seq<TableBlock>| nl_conforms(ts, *j) && nl_fuel(ts) <= depth {
                        let ts = choose|ts: Seq<TableBlock>| nl_conforms(ts, *j) && nl_fuel(ts) <= depth;
                        assert(table_block_conforms(ts[i as int], items@[i as int]));
                        assert(false);
                    }
                }
                return Err(e.in_index(i));
            },
        }
        i += 1;
    }
    Ok(out)
}

#[verifier::loop_isolation(false)]
fn decode_table_block(j: &Json, depth: u32) -> (r: Result<TableBlock, DecodeError>)
    requires
        j.wf(),
    ensures
        r matches Ok(t) ==> table_block_conforms(t, *j) && table_encodable(t.table),
        depth > 0 ==> ((*j matches Json::Obj(es) ==> ((exists|q: int|
            0 <= q < es@.len() && !table_block_key((#[trigger] es@[q]).0@)) ==> (r matches Err(e)
            && unknown_field_err(e, es@) && (e.kind matches ErrorKind::UnknownField(k)
            && !table_block_key(k@)))))),
        (exists|t: TableBlock| table_block_conforms(t, *j) && table_block_fuel(t) <= depth) ==> r is Ok,
    decreases depth,
{
    if depth == 0 {
        return Err(DecodeError::depth_exceeded());
    }
    let es = match j {
        Json::Obj(es) => es,
        other => { return Err(DecodeError::type_mismatch(JsonKind::Obj, kind_of(other))) },
    };
    let mut i: usize = 0;
    while i < es.len()
        invariant
            i <= es@.len(),
            forall|q: int| 0 <= q < i ==> table_block_key((#[trigger] es@[q]).0@),
        decreases es@.len() - i,
    {
        if !is_table_block_key(&es[i].0) {
            return Err(DecodeError::unknown_field(&es[i].0));
        }
        i += 1;
    }
    let table = match obj_get(es, "table") {
        None => { return Err(DecodeError::missing_field("table")) },
        Some(v) => {
            proof {
                lemma_lookup_wf(es@, "table"@);
            }
            match decode_table(v, depth - 1) {
                Ok(t) => t,
                Err(e) => {
                    proof {
                        if exists|t: TableBlock| table_block_conforms(t, *j) && table_block_fuel(t) <= depth {
                            let t = choose|t: TableBlock| table_block_conforms(t, *j) && table_block_fuel(t) <= depth;
                            assert(table_conforms(t.table, *v) && table_fuel(t.table) + 1 <= depth);
                            assert(false);
                        }
                    }
                    return Err(e.in_field("table"));
                },
            }
        },
    };
    Ok(TableBlock { table })
}

#[verifier::loop_isolation(false)]
fn decode_union_result(j: &Json, depth: u32) -> (r: Result<UnionResult, DecodeError>)
    requires
        j.wf(),
    ensures
        r matches Ok(t) ==> union_result_conforms(t, *j) && union_result_encodable(t),
        depth > 0 ==> ((*j matches Json::Obj(es) ==> ((exists|q: int|
            0 <= q < es@.len() && !union_result_key((#[trigger] es@[q]).0@)) ==> (r matches Err(e)
            && unknown_field_err(e, es@) && (e.kind matches ErrorKind::UnknownField(k)
            && !union_result_key(k@)))))),
        (exists|t: UnionResult| union_result_conforms(t, *j) && union_result_fuel(t) <= depth) ==> r is Ok,
    decreases depth,
{
    if depth == 0 {
        return Err(DecodeError::depth_exceeded());
    }
    let es = match j {
        Json::Obj(es) => es,
        other => { return Err(DecodeError::type_mismatch(JsonKind::Obj, kind_of(other))) },
    };
    let mut i: usize = 0;
    while i < es.len()
        invariant
            i <= es@.len(),
            forall|q: int| 0 <= q < i ==> union_result_key((#[trigger] es@[q]).0@),
        decreases es@.len() - i,
    {
        if !is_union_result_key(&es[i].0) {
            return Err(DecodeError::unknown_field(&es[i].0));
        }
        i += 1;
    }
    let using_temporary_table = get_opt_bool(es, "using_temporary_table")?;
    let table_name = get_req_str(es, "table_name")?;
    let access_type = get_req_str(es, "access_type")?;
    let query_specifications = match obj_get(es, "query_specifications") {
        None => { return Err(DecodeError::missing_field("query_specifications")) },
        Some(v) => {
            proof {
                lemma_lookup_wf(es@, "query_specifications"@);
            }
            match decode_ub_list(v, depth - 1) {
                Ok(ts) => ts,
                Err(e) => {
                    proof {
                        if exists|t: UnionResult| union_result_conforms(t, *j) && union_result_fuel(t) <= depth {
                            let t = choose|t: UnionResult| union_result_conforms(t, *j) && union_result_fuel(t) <= depth;
                            assert(ub_list_conforms(t.query_specifications@, *v) && ub_list_fuel(t.query_specifications@) + 1 <= depth);
                            assert(false);
                        }
                    }
                    return Err(e.in_field("query_specifications"));
                },
            }
        },
    };
    Ok(UnionResult { using_temporary_table, table_name, access_type, query_specifications })
}

#[verifier::loop_isolation(false)]
fn decode_ub_list(j: &Json, depth: u32) -> (r: Result<Vec<UnionBlock>, DecodeError>)
    requires
        j.wf(),
    ensures
        r matches Ok(ts) ==> ub_list_conforms(ts@, *j) && (forall|q: int|
            0 <= q < ts@.len() ==> query_block_encodable((#[trigger] ts@[q]).query_block)),
        (exists|ts: Seq<UnionBlock>| ub_list_conforms(ts, *j) && ub_list_fuel(ts) <= depth) ==> r is Ok,
    decreases depth,
{
    proof {
        lemma_ub_max_fuel_ge_all();
    }
    if depth == 0 {
        return Err(DecodeError::depth_exceeded());
    }
    let items = match j {
        Json::Arr(items) => items,
        other => { return Err(DecodeError::type_mismatch(JsonKind::Arr, kind_of(other))) },
    };
    let mut out: Vec<UnionBlock> = Vec::new();
    let mut i: usize = 0;
    while i < items.len()
        invariant
            i <= items@.len(),
            out@.len() == i,
            forall|q: int| 0 <= q < i ==> union_block_conforms(#[trigger] out@[q], items@[q]),
            forall|q: int|
                0 <= q < i ==> query_block_encodable((#[trigger] out@[q]).query_block),
        decreases items@.len() - i,
    {
        assert(items@[i as int].wf());
        match decode_union_block(&items[i], depth - 1) {
            Ok(t) => out.push(t),
            Err(e) => {
                proof {
                    if exists|ts: Seq<UnionBlock>| ub_list_conforms(ts, *j) && ub_list_fuel(ts) <= depth {
                        let ts = choose|ts: Seq<UnionBlock>| ub_list_conforms(ts, *j) && ub_list_fuel(ts) <= depth;
                        assert(union_block_conforms(ts[i as int], items@[i as int]));
                        assert(false);
                    }
                }
                return Err(e.in_index(i));
            },
        }
        i += 1;
    }
    Ok(out)
}

#[verifier::loop_isolation(false)]
fn decode_union_block(j: &Json, depth: u32) -> (r: Result<UnionBlock, DecodeError>)
    requires
        j.wf(),
    ensures
        r matches Ok(t) ==> union_block_conforms(t, *j) && query_block_encodable(t.query_block),
        depth > 0 ==> ((*j matches Json::Obj(es) ==> ((exists|q: int|
            0 <= q < es@.len() && !union_block_key((#[trigger] es@[q]).0@)) ==> (r matches Err(e)
            && unknown_field_err(e, es@) && (e.kind matches ErrorKind::UnknownField(k)
            && !union_block_key(k@)))))),
        (exists|t: UnionBlock| union_block_conforms(t, *j) && ub_fuel(t) <= depth) ==> r is Ok,
    decreases depth,
{
    if depth == 0 {
        return Err(DecodeError::depth_exceeded());
    }
    let es = match j {
        Json::Obj(es) => es,
        other => { return Err(DecodeError::type_mismatch(JsonKind::Obj, kind_of(other))) },
    };
    let mut i: usize = 0;
    while i < es.len()
        invariant
            i <= es@.len(),
            forall|q: int| 0 <= q < i ==> union_block_key((#[trigger] es@[q]).0@),
        decreases es@.len() - i,
    {
        if !is_union_block_key(&es[i].0) {
            return Err(DecodeError::unknown_field(&es[i].0));
        }
        i += 1;
    }
    let dependent = get_req_bool(es, "dependent")?;
    let cacheable = get_req_bool(es, "cacheable")?;
    let query_block = match obj_get(es, "query_block") {
        None => { return Err(DecodeError::missing_field("query_block")) },
        Some(v) => {
            proof {
                lemma_lookup_wf(es@, "query_block"@);
            }
            match decode_query_block(v, depth - 1) {
                Ok(t) => t,
                Err(e) => {
                    proof {
                        if exists|t: UnionBlock| union_block_conforms(t, *j) && ub_fuel(t) <= depth {
                            let t = choose|t: UnionBlock| union_block_conforms(t, *j) && ub_fuel(t) <= depth;
                            assert(query_block_conforms(t.query_block, *v)
                                && query_block_fuel(t.query_block) + 1 <= depth);
                            assert(false);
                        }
                    }
                    return Err(e.in_field("query_block"));
                },
            }
        },
    };
    Ok(UnionBlock { dependent, cacheable, query_block })
}

#[verifier::loop_isolation(false)]
fn decode_buffer_result(j: &Json, depth: u32) -> (r: Result<BufferResult, DecodeError>)
    requires
        j.wf(),
    ensures
        r matches Ok(t) ==> buffer_result_conforms(t, *j) && table_encodable(t.table),
        depth > 0 ==> ((*j matches Json::Obj(es) ==> ((exists|q: int|
            0 <= q < es@.len() && !buffer_result_key((#[trigger] es@[q]).0@)) ==> (r matches Err(e)
            && unknown_field_err(e, es@) && (e.kind matches ErrorKind::UnknownField(k)
            && !buffer_result_key(k@)))))),
        (exists|t: BufferResult| buffer_result_conforms(t, *j) && buffer_result_fuel(t) <= depth) ==> r is Ok,
    decreases depth,
{
    if depth == 0 {
        return Err(DecodeError::depth_exceeded());
    }
    let es = match j {
        Json::Obj(es) => es,
        other => { return Err(DecodeError::type_mismatch(JsonKind::Obj, kind_of(other))) },
    };
    let mut i: usize = 0;
    while i < es.len()
        invariant
            i <= es@.len(),
            forall|q: int| 0 <= q < i ==> buffer_result_key((#[trigger] es@[q]).0@),
        decreases es@.len() - i,
    {
        if !is_buffer_result_key(&es[i].0) {
            return Err(DecodeError::unknown_field(&es[i].0));
        }
        i += 1;
    }
    let using_temporary_table = get_req_bool(es, "using_temporary_table")?;
    let table = match obj_get(es, "table") {
        None => { return Err(DecodeError::missing_field("table")) },
        Some(v) => {
            proof {
                lemma_lookup_wf(es@, "table"@);
            }
            match decode_table(v, depth - 1) {
                Ok(t) => t,
                Err(e) => {
                    proof {
                        if exists|t: BufferResult| buffer_result_conforms(t, *j) && buffer_result_fuel(t) <= depth {
                            let t = choose|t: BufferResult| buffer_result_conforms(t, *j) && buffer_result_fuel(t) <= depth;
                            assert(table_conforms(t.table, *v) && table_fuel(t.table) + 1 <= depth);
                            assert(false);
                        }
                    }
                    return Err(e.in_field("table"));
                },
            }
        },
    };
    Ok(BufferResult { using_temporary_table, table })
}

#[verifier::loop_isolation(false)]
pub fn decode_table(j: &Json, depth: u32) -> (r: Result<Table, DecodeError>)
    requires
        j.wf(),
    ensures
        r matches Ok(t) ==> table_conforms(t, *j) && table_encodable(t),
        depth > 0 ==> ((*j matches Json::Obj(es) ==> ((exists|q: int|
            0 <= q < es@.len() && !table_key((#[trigger] es@[q]).0@)) ==> (r matches Err(e)
            && unknown_field_err(e, es@) && (e.kind matches ErrorKind::UnknownField(k)
            && !table_key(k@)))))),
        (exists|t: Table| table_conforms(t, *j) && table_fuel(t) <= depth) ==> r is Ok,
    decreases depth,
{
    if depth == 0 {
        return Err(DecodeError::depth_exceeded());
    }
    let es = match j {
        Json::Obj(es) => es,
        other => { return Err(DecodeError::type_mismatch(JsonKind::Obj, kind_of(other))) },
    };
    let mut i: usize = 0;
    while i < es.len()
        invariant
            i <= es@.len(),
            forall|q: int| 0 <= q < i ==> table_key((#[trigger] es@[q]).0@),
        decreases es@.len() - i,
    {
        if !is_table_key(&es[i].0) {
            return Err(DecodeError::unknown_field(&es[i].0));
        }
        i += 1;
    }
    let table_name = get_req_str(es, "table_name")?;
    let access_type = get_req_str(es, "access_type")?;
    let possible_keys = get_opt_str_arr(es, "possible_keys")?;
    let key = get_opt_str(es, "key")?;
    let used_key_parts = get_opt_str_arr(es, "used_key_parts")?;
    let key_length = get_opt_str(es, "key_length")?;
    let reference = get_opt_str_arr(es, "ref")?;
    let cost_info = match obj_get(es, "cost_info") {
        None => None,
        Some(v) => {
            proof {
                lemma_lookup_wf(es@, "cost_info"@);
            }
            match decode_rel_costs(v) {
                Ok(c) => Some(c),
                Err(e) => { return Err(e.in_field("cost_info")) },
            }
        },
    };
    let rows_examined_per_scan = get_opt_u32(es, "rows_examined_per_scan")?;
    let rows_produced_per_join = get_opt_u32(es, "rows_produced_per_join")?;
    let filtered = get_opt_str(es, "filtered")?;
    let first_match = get_opt_str(es, "first_match")?;
    let using_index_for_group_by = get_opt_bool(es, "using_index_for_group_by")?;
    let index_condition = get_opt_str(es, "index_condition")?;
    let using_index = get_opt_bool(es, "using_index")?;
    let used_columns = get_opt_str_arr(es, "used_columns")?;
    let attached_condition = get_opt_str(es, "attached_condition")?;
    let attached_subqueries = match obj_get(es, "attached_subqueries") {
        None => None,
        Some(v) => {
            proof {
                lemma_lookup_wf(es@, "attached_subqueries"@);
            }
            match decode_asq_list(v, depth - 1) {
                Ok(ts) => Some(ts),
                Err(e) => {
                    proof {
                        if exists|t: Table| table_conforms(t, *j) && table_fuel(t) <= depth {
                            let t = choose|t: Table| table_conforms(t, *j) && table_fuel(t)
                                <= depth;
                            match t.attached_subqueries {
                                Some(subs) => {
                                    assert(asq_list_conforms(subs@, *v) && asq_list_fuel(subs@)
                                        + 1 <= depth);
                                },
                                None => {},
                            }
                            assert(false);
                        }
                    }
                    return Err(e.in_field("attached_subqueries"));
                },
            }
        },
    };
    let materialized_from_subquery = match obj_get(es, "materialized_from_subquery") {
        None => None,
        Some(v) => {
            proof {
                lemma_lookup_wf(es@, "materialized_from_subquery"@);
            }
            match decode_mfs(v, depth - 1) {
                Ok(m) => Some(m),
                Err(e) => {
                    proof {
                        if exists|t: Table| table_conforms(t, *j) && table_fuel(t) <= depth {
                            let t = choose|t: Table| table_conforms(t, *j) && table_fuel(t)
                                <= depth;
                            match t.materialized_from_subquery {
                                Some(m0) => {
                                    assert(mfs_conforms(m0, *v) && mfs_fuel(m0) + 1 <= depth);
                                },
                                None => {},
                            }
                            assert(false);
                        }
                    }
                    return Err(e.in_field("materialized_from_subquery"));
                },
            }
        },
    };
    Ok(
        Table {
            table_name,
            access_type,
            possible_keys,
            key,
            used_key_parts,
            key_length,
            reference,
            cost_info,
            rows_examined_per_scan,
            rows_produced_per_join,
            filtered,
            first_match,
            using_index_for_group_by,
            index_condition,
            using_index,
            used_columns,
            attached_condition,
            attached_subqueries,
            materialized_from_subquery,
        },
    )
}

#[verifier::loop_isolation(false)]
fn decode_mfs(j: &Json, depth: u32) -> (r: Result<MaterializedFromSubquery, DecodeError>)
    requires
        j.wf(),
    ensures
        r matches Ok(t) ==> mfs_conforms(t, *j) && query_block_encodable(t.query_block),
        depth > 0 ==> ((*j matches Json::Obj(es) ==> ((exists|q: int|
            0 <= q < es@.len() && !mfs_key((#[trigger] es@[q]).0@)) ==> (r matches Err(e)
            && unknown_field_err(e, es@) && (e.kind matches ErrorKind::UnknownField(k)
            && !mfs_key(k@)))))),
        (exists|t: MaterializedFromSubquery| mfs_conforms(t, *j) && mfs_fuel(t) <= depth) ==> r is Ok,
    decreases depth,
{
    if depth == 0 {
        return Err(DecodeError::depth_exceeded());
    }
    let es = match j {
        Json::Obj(es) => es,
        other => { return Err(DecodeError::type_mismatch(JsonKind::Obj, kind_of(other))) },
    };
    let mut i: usize = 0;
    while i < es.len()
        invariant
            i <= es@.len(),
            forall|q: int| 0 <= q < i ==> mfs_key((#[trigger] es@[q]).0@),
        decreases es@.len() - i,
    {
        if !is_mfs_key(&es[i].0) {
            return Err(DecodeError::unknown_field(&es[i].0));
        }
        i += 1;
    }
    let using_temporary_table = get_req_bool(es, "using_temporary_table")?;
    let dependent = get_opt_bool(es, "dependent")?;
    let cacheable = get_opt_bool(es, "cacheable")?;
    let query_block = match obj_get(es, "query_block") {
        None => { return Err(DecodeError::missing_field("query_block")) },
        Some(v) => {
            proof {
                lemma_lookup_wf(es@, "query_block"@);
            }
            match decode_query_block(v, depth - 1) {
                Ok(t) => t,
                Err(e) => {
                    proof {
                        if exists|t: MaterializedFromSubquery| mfs_conforms(t, *j) && mfs_fuel(t) <= depth {
                            let t = choose|t: MaterializedFromSubquery| mfs_conforms(t, *j) && mfs_fuel(t) <= depth;
                            assert(query_block_conforms(t.query_block, *v)
                                && query_block_fuel(t.query_block) + 1 <= depth);
                            assert(false);
                        }
                    }
                    return Err(e.in_field("query_block"));
                },
            }
        },
    };
    Ok(MaterializedFromSubquery { using_temporary_table, dependent, cacheable, query_block })
}

#[verifier::loop_isolation(false)]
fn decode_asq_list(j: &Json, depth: u32) -> (r: Result<Vec<AttachedSubquery>, DecodeError>)
    requires
        j.wf(),
    ensures
        r matches Ok(ts) ==> asq_list_conforms(ts@, *j) && asq_list_encodable(ts@),
        (exists|ts: Seq<AttachedSubquery>| asq_list_conforms(ts, *j) && asq_list_fuel(ts) <= depth) ==> r is Ok,
    decreases depth,
{
    proof {
        lemma_asq_max_fuel_ge_all();
    }
    if depth == 0 {
        return Err(DecodeError::depth_exceeded());
    }
    let items = match j {
        Json::Arr(items) => items,
        other => { return Err(DecodeError::type_mismatch(JsonKind::Arr, kind_of(other))) },
    };
    let mut out: Vec<AttachedSubquery> = Vec::new();
    let mut i: usize = 0;
    while i < items.len()
        invariant
            i <= items@.len(),
            out@.len() == i,
            forall|q: int| 0 <= q < i ==> asq_conforms(#[trigger] out@[q], items@[q]),
            forall|q: int| 0 <= q < i ==> ab_encodable((#[trigger] out@[q]).attached_block),
        decreases items@.len() - i,
    {
        assert(items@[i as int].wf());
        match decode_asq(&items[i], depth - 1) {
            Ok(t) => out.push(t),
            Err(e) => {
                proof {
                    if exists|ts: Seq<AttachedSubquery>| asq_list_conforms(ts, *j) && asq_list_fuel(ts) <= depth {
                        let ts = choose|ts: Seq<AttachedSubquery>| asq_list_conforms(ts, *j) && asq_list_fuel(ts) <= depth;
                        assert(asq_conforms(ts[i as int], items@[i as int]));
                        assert(false);
                    }
                }
                return Err(e.in_index(i));
            },
        }
        i += 1;
    }
    Ok(out)
}

#[verifier::loop_isolation(false)]
fn decode_asq(j: &Json, depth: u32) -> (r: Result<AttachedSubquery, DecodeError>)
    requires
        j.wf(),
    ensures
        r matches Ok(t) ==> asq_conforms(t, *j) && ab_encodable(t.attached_block),
        (exists|t: AttachedSubquery| asq_conforms(t, *j) && asq_fuel(t) <= depth) ==> r is Ok,
        depth > 0 ==> ((*j matches Json::Obj(es) ==> ((!two_ab_discs(es@) && (exists|q: int|
            0 <= q < es@.len() && !(asq_own_key((#[trigger] es@[q]).0@) || ab_disc_key(es@[q].0@))))
            ==> (r matches Err(e) && unknown_field_err(e, es@) && (e.kind matches
            ErrorKind::UnknownField(k) && !(asq_own_key(k@) || ab_disc_key(k@))))))),
        depth > 0 ==> ((*j matches Json::Obj(es) && asq_keys_known(es@) && no_ab_disc(es@)) ==> (
        r matches Err(e) && e.kind is NoMatchingVariant)),
        depth > 0 ==> ((*j matches Json::Obj(es) && asq_keys_known(es@) && two_ab_discs(es@)) ==> (
        r matches Err(e) && e.kind is AmbiguousVariant)),
    decreases depth,
{
    proof {
        lemma_own_disc_disjoint();
        lemma_rb_disc_of_is_disc();
    }
    if depth == 0 {
        return Err(DecodeError::depth_exceeded());
    }
    let es = match j {
        Json::Obj(es) => es,
        other => { return Err(DecodeError::type_mismatch(JsonKind::Obj, kind_of(other))) },
    };
    let mut disc: usize = 0;
    let mut found = false;
    let mut i: usize = 0;
    while i < es.len()
        invariant
            i <= es@.len(),
            found ==> disc < i && ab_disc_key(es@[disc as int].0@),
            forall|q: int|
                0 <= q < i && !(found && q == disc as int) ==> !ab_disc_key(
                    (#[trigger] es@[q]).0@,
                ) && asq_own_key(es@[q].0@),
        decreases es@.len() - i,
    {
        let k = &es[i].0;
        if is_ab_disc_key(k) {
            if found {
                return Err(DecodeError::ambiguous_variant(&es[disc].0, k));
            }
            disc = i;
            found = true;
        } else if !is_asq_own_key(k) {
            return Err(DecodeError::unknown_field(k));
        }
        i += 1;
    }
    if !found {
        return Err(DecodeError::no_matching_variant());
    }
    let dependent = get_opt_bool(es, "dependent")?;
    let cacheable = get_opt_bool(es, "cacheable")?;
    let dkey = &es[disc].0;
    let dval = &es[disc].1;
    proof {
        lemma_lookup_unique(es@, dkey@, disc as int);
        lemma_lookup_wf(es@, dkey@);
    }
    let attached_block = match decode_ab_variant(dkey, dval, depth - 1) {
        Ok(ab) => ab,
        Err(e) => { return Err(e.in_field(dkey.as_str())) },
    };
    Ok(AttachedSubquery { dependent, cacheable, attached_block })
}

#[verifier::loop_isolation(false)]
pub fn decode_explanation(j: &Json, depth: u32) -> (r: Result<Explanation, DecodeError>)
    requires
        j.wf(),
    ensures
        r matches Ok(t) ==> explanation_conforms(t, *j) && explanation_encodable(t),
        (exists|t: Explanation| explanation_conforms(t, *j) && explanation_fuel(t) <= depth)
            ==> r is Ok,
        depth > 0 ==> ((*j matches Json::Obj(es) ==> ((exists|q: int|
            0 <= q < es@.len() && !explanation_key((#[trigger] es@[q]).0@)) ==> (r matches Err(e)
            && unknown_field_err(e, es@) && (e.kind matches ErrorKind::UnknownField(k)
            && !explanation_key(k@)))))),
    decreases depth,
{
    if depth == 0 {
        return Err(DecodeError::depth_exceeded());
    }
    let es = match j {
        Json::Obj(es) => es,
        other => { return Err(DecodeError::type_mismatch(JsonKind::Obj, kind_of(other))) },
    };
    let mut i: usize = 0;
    while i < es.len()
        invariant
            i <= es@.len(),
            forall|q: int| 0 <= q < i ==> explanation_key((#[trigger] es@[q]).0@),
        decreases es@.len() - i,
    {
        if !is_explanation_key(&es[i].0) {
            return Err(DecodeError::unknown_field(&es[i].0));
        }
        i += 1;
    }
    let query_block = match obj_get(es, "query_block") {
        None => { return Err(DecodeError::missing_field("query_block")) },
        Some(v) => {
            proof {
                lemma_lookup_wf(es@, "query_block"@);
            }
            match decode_query_block(v, depth - 1) {
                Ok(t) => t,
                Err(e) => { return Err(e.in_field("query_block")) },
            }
        },
    };
    Ok(Explanation { query_block })
}

/// Decode a whole document known to have unique object keys.
pub fn decode(j: &Json) -> (r: Result<Explanation, DecodeError>)
    requires
        j.wf(),
    ensures
        r matches Ok(t) ==> explanation_conforms(t, *j) && explanation_encodable(t),
        (exists|t: Explanation| explanation_conforms(t, *j) && explanation_fuel(t) <= MAX_DEPTH)
            ==> r is Ok,
{
    decode_explanation(j, MAX_DEPTH)
}

/// Decode a whole document; a value tree with duplicate object keys is
/// rejected as malformed input.
pub fn decode_document(j: &Json) -> (r: Result<Explanation, DecodeError>)
    ensures
        r matches Ok(t) ==> j.wf() && explanation_conforms(t, *j) && explanation_encodable(t),
        (j.wf() && (exists|t: Explanation| explanation_conforms(t, *j) && explanation_fuel(t)
            <= MAX_DEPTH)) ==> r is Ok,
{
    if !crate::json::json_wf(j) {
        return Err(DecodeError::malformed_input());
    }
    decode(j)
}


} // verus!
