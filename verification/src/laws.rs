//! The laws the decoder/encoder pair obeys, stated over the conformance
//! relation and proved by structural induction.
//!
//! The central one is functionality: for a fixed tree, any two well-formed
//! documents conforming to it are semantically equal. Combined with the
//! decoders' soundness (`decode` returns a conforming tree) and the
//! encoders' contracts (`encode` returns a conforming document), it gives
//! round-trip idempotence: re-encoding a decoded document reproduces it up
//! to object key order.

use vstd::prelude::*;
use crate::grammar::{
    ab_disc_of, ab_payload_conforms, asq_conforms, asq_list_conforms, asq_own_key,
    block_ref_conforms, block_ref_key, buffer_result_conforms, buffer_result_key, dr_conforms,
    dr_own_key, explanation_conforms, explanation_key, grb_disc_of, grb_payload_conforms,
    grouping_conforms, grouping_own_key, mfs_conforms, mfs_key, nl_conforms, obs_conforms,
    obs_key, obs_list_conforms, ordering_conforms, ordering_own_key, qb_own_key,
    query_block_conforms, query_cost_conforms, query_cost_key, rb_disc_of, rb_payload_conforms,
    rel_costs_conforms, rel_costs_key, sort_cost_conforms, sort_cost_key, str_arr,
    table_block_conforms, table_block_key, table_conforms, table_key, ub_list_conforms,
    union_block_conforms, union_block_key, union_result_conforms, union_result_key,
};
use crate::json::{
    has_key, lemma_lookup_wf, lemma_obj_sem_eq, lookup, sem_eq, Json,
};
use crate::tree::{
    AttachedBlock, AttachedSubquery, BlockReference, BufferResult, DuplicatesRemoval, Explanation,
    GroupedRelationBlock, GroupingOperation, MaterializedFromSubquery, OrderBySubqueries,
    OrderingOperation, QueryBlock, QueryCost, RelationBlock, RelationalCosts, SortCost, Table,
    TableBlock, UnionBlock, UnionResult,
};

verus! {

/// Two arrays of the same strings are semantically equal.
proof fn lemma_str_arr_sem_eq(xs: Seq<String>, a: Json, b: Json)
    requires
        str_arr(a, xs),
        str_arr(b, xs),
    ensures
        sem_eq(a, b),
{
    let xa = a->Arr_0@;
    let xb = b->Arr_0@;
    assert forall|i: int| 0 <= i < xa.len() implies sem_eq(#[trigger] xa[i], xb[i]) by {}
}

/// Functionality: two well-formed documents conforming to the same
/// node are semantically equal.
proof fn lemma_query_cost_functional(t: QueryCost, a: Json, b: Json)
    requires
        query_cost_conforms(t, a),
        query_cost_conforms(t, b),
        a.wf(),
        b.wf(),
    ensures
        sem_eq(a, b),
    decreases t,
{
    let ea = a->Obj_0@;
    let eb = b->Obj_0@;
    assert forall|k: Seq<char>| #[trigger] has_key(ea, k) <==> has_key(eb, k) by {
        if has_key(ea, k) {
            let i = choose|i: int| 0 <= i < ea.len() && (#[trigger] ea[i]).0@ == k;
            assert(query_cost_key(k));
        }
        if has_key(eb, k) {
            let i = choose|i: int| 0 <= i < eb.len() && (#[trigger] eb[i]).0@ == k;
            assert(query_cost_key(k));
        }
    }
    assert forall|k: Seq<char>| has_key(ea, k) implies sem_eq(
        #[trigger] lookup(ea, k),
        lookup(eb, k),
    ) by {
        let i = choose|i: int| 0 <= i < ea.len() && (#[trigger] ea[i]).0@ == k;
        assert(query_cost_key(k));
    }
    lemma_obj_sem_eq(a, b);
}

/// Functionality: two well-formed documents conforming to the same
/// node are semantically equal.
proof fn lemma_sort_cost_functional(t: SortCost, a: Json, b: Json)
    requires
        sort_cost_conforms(t, a),
        sort_cost_conforms(t, b),
        a.wf(),
        b.wf(),
    ensures
        sem_eq(a, b),
    decreases t,
{
    let ea = a->Obj_0@;
    let eb = b->Obj_0@;
    assert forall|k: Seq<char>| #[trigger] has_key(ea, k) <==> has_key(eb, k) by {
        if has_key(ea, k) {
            let i = choose|i: int| 0 <= i < ea.len() && (#[trigger] ea[i]).0@ == k;
            assert(sort_cost_key(k));
        }
        if has_key(eb, k) {
            let i = choose|i: int| 0 <= i < eb.len() && (#[trigger] eb[i]).0@ == k;
            assert(sort_cost_key(k));
        }
    }
    assert forall|k: Seq<char>| has_key(ea, k) implies sem_eq(
        #[trigger] lookup(ea, k),
        lookup(eb, k),
    ) by {
        let i = choose|i: int| 0 <= i < ea.len() && (#[trigger] ea[i]).0@ == k;
        assert(sort_cost_key(k));
    }
    lemma_obj_sem_eq(a, b);
}

/// Functionality: two well-formed documents conforming to the same
/// node are semantically equal.
proof fn lemma_rel_costs_functional(t: RelationalCosts, a: Json, b: Json)
    requires
        rel_costs_conforms(t, a),
        rel_costs_conforms(t, b),
        a.wf(),
        b.wf(),
    ensures
        sem_eq(a, b),
    decreases t,
{
    let ea = a->Obj_0@;
    let eb = b->Obj_0@;
    assert forall|k: Seq<char>| #[trigger] has_key(ea, k) <==> has_key(eb, k) by {
        if has_key(ea, k) {
            let i = choose|i: int| 0 <= i < ea.len() && (#[trigger] ea[i]).0@ == k;
            assert(rel_costs_key(k));
        }
        if has_key(eb, k) {
            let i = choose|i: int| 0 <= i < eb.len() && (#[trigger] eb[i]).0@ == k;
            assert(rel_costs_key(k));
        }
    }
    assert forall|k: Seq<char>| has_key(ea, k) implies sem_eq(
        #[trigger] lookup(ea, k),
        lookup(eb, k),
    ) by {
        let i = choose|i: int| 0 <= i < ea.len() && (#[trigger] ea[i]).0@ == k;
        assert(rel_costs_key(k));
    }
    lemma_obj_sem_eq(a, b);
}

/// Functionality: two well-formed documents conforming to the same
/// node are semantically equal.
proof fn lemma_block_ref_functional(t: BlockReference, a: Json, b: Json)
    requires
        block_ref_conforms(t, a),
        block_ref_conforms(t, b),
        a.wf(),
        b.wf(),
    ensures
        sem_eq(a, b),
    decreases t,
{
    let ea = a->Obj_0@;
    let eb = b->Obj_0@;
    assert forall|k: Seq<char>| #[trigger] has_key(ea, k) <==> has_key(eb, k) by {
        if has_key(ea, k) {
            let i = choose|i: int| 0 <= i < ea.len() && (#[trigger] ea[i]).0@ == k;
            assert(block_ref_key(k));
        }
        if has_key(eb, k) {
            let i = choose|i: int| 0 <= i < eb.len() && (#[trigger] eb[i]).0@ == k;
            assert(block_ref_key(k));
        }
    }
    assert forall|k: Seq<char>| has_key(ea, k) implies sem_eq(
        #[trigger] lookup(ea, k),
        lookup(eb, k),
    ) by {
        let i = choose|i: int| 0 <= i < ea.len() && (#[trigger] ea[i]).0@ == k;
        assert(block_ref_key(k));
    }
    lemma_obj_sem_eq(a, b);
}

/// Functionality: two well-formed documents conforming to the same
/// node are semantically equal.
proof fn lemma_obs_functional(t: OrderBySubqueries, a: Json, b: Json)
    requires
        obs_conforms(t, a),
        obs_conforms(t, b),
        a.wf(),
        b.wf(),
    ensures
        sem_eq(a, b),
    decreases t,
{
    let ea = a->Obj_0@;
    let eb = b->Obj_0@;
    assert forall|k: Seq<char>| #[trigger] has_key(ea, k) <==> has_key(eb, k) by {
        if has_key(ea, k) {
            let i = choose|i: int| 0 <= i < ea.len() && (#[trigger] ea[i]).0@ == k;
            assert(obs_key(k));
        }
        if has_key(eb, k) {
            let i = choose|i: int| 0 <= i < eb.len() && (#[trigger] eb[i]).0@ == k;
            assert(obs_key(k));
        }
    }
    assert forall|k: Seq<char>| has_key(ea, k) implies sem_eq(
        #[trigger] lookup(ea, k),
        lookup(eb, k),
    ) by {
        let i = choose|i: int| 0 <= i < ea.len() && (#[trigger] ea[i]).0@ == k;
        assert(obs_key(k));
        if k == "query_block"@ {
            lemma_lookup_wf(ea, k);
            lemma_lookup_wf(eb, k);
            lemma_block_ref_functional(t.query_block, lookup(ea, k), lookup(eb, k));
        }
    }
    lemma_obj_sem_eq(a, b);
}

proof fn lemma_obs_list_functional(ts: Seq<OrderBySubqueries>, a: Json, b: Json)
    requires
        obs_list_conforms(ts, a),
        obs_list_conforms(ts, b),
        a.wf(),
        b.wf(),
    ensures
        sem_eq(a, b),
    decreases ts,
{
    let xa = a->Arr_0@;
    let xb = b->Arr_0@;
    assert forall|i: int| 0 <= i < xa.len() implies sem_eq(#[trigger] xa[i], xb[i]) by {
        assert(xa[i].wf());
        assert(xb[i].wf());
        lemma_obs_functional(ts[i], xa[i], xb[i]);
    }
}

/// Functionality: two well-formed documents conforming to the same
/// node are semantically equal.
proof fn lemma_table_functional(t: Table, a: Json, b: Json)
    requires
        table_conforms(t, a),
        table_conforms(t, b),
        a.wf(),
        b.wf(),
    ensures
        sem_eq(a, b),
    decreases t,
{
    let ea = a->Obj_0@;
    let eb = b->Obj_0@;
    assert forall|k: Seq<char>| #[trigger] has_key(ea, k) <==> has_key(eb, k) by {
        if has_key(ea, k) {
            let i = choose|i: int| 0 <= i < ea.len() && (#[trigger] ea[i]).0@ == k;
            assert(table_key(k));
        }
        if has_key(eb, k) {
            let i = choose|i: int| 0 <= i < eb.len() && (#[trigger] eb[i]).0@ == k;
            assert(table_key(k));
        }
    }
    assert forall|k: Seq<char>| has_key(ea, k) implies sem_eq(
        #[trigger] lookup(ea, k),
        lookup(eb, k),
    ) by {
        let i = choose|i: int| 0 <= i < ea.len() && (#[trigger] ea[i]).0@ == k;
        assert(table_key(k));
        if k == "possible_keys"@ {
            match t.possible_keys {
                Some(c) => { lemma_str_arr_sem_eq(c@, lookup(ea, k), lookup(eb, k)) },
                None => {},
            }
        }
        if k == "used_key_parts"@ {
            match t.used_key_parts {
                Some(c) => { lemma_str_arr_sem_eq(c@, lookup(ea, k), lookup(eb, k)) },
                None => {},
            }
        }
        if k == "ref"@ {
            match t.reference {
                Some(c) => { lemma_str_arr_sem_eq(c@, lookup(ea, k), lookup(eb, k)) },
                None => {},
            }
        }
        if k == "used_columns"@ {
            match t.used_columns {
                Some(c) => { lemma_str_arr_sem_eq(c@, lookup(ea, k), lookup(eb, k)) },
                None => {},
            }
        }
        if k == "cost_info"@ {
            lemma_lookup_wf(ea, k);
            lemma_lookup_wf(eb, k);
            match t.cost_info {
                Some(c) => { lemma_rel_costs_functional(c, lookup(ea, k), lookup(eb, k)); },
                None => {},
            }
        }
        if k == "attached_subqueries"@ {
            lemma_lookup_wf(ea, k);
            lemma_lookup_wf(eb, k);
            match t.attached_subqueries {
                Some(c) => { lemma_asq_list_functional(c@, lookup(ea, k), lookup(eb, k)); },
                None => {},
            }
        }
        if k == "materialized_from_subquery"@ {
            lemma_lookup_wf(ea, k);
            lemma_lookup_wf(eb, k);
            match t.materialized_from_subquery {
                Some(c) => { lemma_mfs_functional(c, lookup(ea, k), lookup(eb, k)); },
                None => {},
            }
        }
    }
    lemma_obj_sem_eq(a, b);
}

/// Functionality: two well-formed documents conforming to the same
/// node are semantically equal.
proof fn lemma_mfs_functional(t: MaterializedFromSubquery, a: Json, b: Json)
    requires
        mfs_conforms(t, a),
        mfs_conforms(t, b),
        a.wf(),
        b.wf(),
    ensures
        sem_eq(a, b),
    decreases t,
{
    let ea = a->Obj_0@;
    let eb = b->Obj_0@;
    assert forall|k: Seq<char>| #[trigger] has_key(ea, k) <==> has_key(eb, k) by {
        if has_key(ea, k) {
            let i = choose|i: int| 0 <= i < ea.len() && (#[trigger] ea[i]).0@ == k;
            assert(mfs_key(k));
        }
        if has_key(eb, k) {
            let i = choose|i: int| 0 <= i < eb.len() && (#[trigger] eb[i]).0@ == k;
            assert(mfs_key(k));
        }
    }
    assert forall|k: Seq<char>| has_key(ea, k) implies sem_eq(
        #[trigger] lookup(ea, k),
        lookup(eb, k),
    ) by {
        let i = choose|i: int| 0 <= i < ea.len() && (#[trigger] ea[i]).0@ == k;
        assert(mfs_key(k));
        if k == "query_block"@ {
            lemma_lookup_wf(ea, k);
            lemma_lookup_wf(eb, k);
            lemma_query_block_functional(t.query_block, lookup(ea, k), lookup(eb, k));
        }
    }
    lemma_obj_sem_eq(a, b);
}

proof fn lemma_asq_list_functional(ts: Seq<AttachedSubquery>, a: Json, b: Json)
    requires
        asq_list_conforms(ts, a),
        asq_list_conforms(ts, b),
        a.wf(),
        b.wf(),
    ensures
        sem_eq(a, b),
    decreases ts,
{
    let xa = a->Arr_0@;
    let xb = b->Arr_0@;
    assert forall|i: int| 0 <= i < xa.len() implies sem_eq(#[trigger] xa[i], xb[i]) by {
        assert(xa[i].wf());
        assert(xb[i].wf());
        lemma_asq_functional(ts[i], xa[i], xb[i]);
    }
}

/// Functionality: two well-formed documents conforming to the same
/// node are semantically equal.
proof fn lemma_asq_functional(t: AttachedSubquery, a: Json, b: Json)
    requires
        asq_conforms(t, a),
        asq_conforms(t, b),
        a.wf(),
        b.wf(),
    ensures
        sem_eq(a, b),
    decreases t,
{
    let ea = a->Obj_0@;
    let eb = b->Obj_0@;
    assert forall|k: Seq<char>| #[trigger] has_key(ea, k) <==> has_key(eb, k) by {
        if has_key(ea, k) {
            let i = choose|i: int| 0 <= i < ea.len() && (#[trigger] ea[i]).0@ == k;
            assert(asq_own_key(k) || k == ab_disc_of(t.attached_block));
        }
        if has_key(eb, k) {
            let i = choose|i: int| 0 <= i < eb.len() && (#[trigger] eb[i]).0@ == k;
            assert(asq_own_key(k) || k == ab_disc_of(t.attached_block));
        }
    }
    assert forall|k: Seq<char>| has_key(ea, k) implies sem_eq(
        #[trigger] lookup(ea, k),
        lookup(eb, k),
    ) by {
        let i = choose|i: int| 0 <= i < ea.len() && (#[trigger] ea[i]).0@ == k;
        assert(asq_own_key(k) || k == ab_disc_of(t.attached_block));
        if k == ab_disc_of(t.attached_block) {
            lemma_lookup_wf(ea, k);
            lemma_lookup_wf(eb, k);
            lemma_ab_payload_functional(t.attached_block, lookup(ea, k), lookup(eb, k));
        }
    }
    lemma_obj_sem_eq(a, b);
}

proof fn lemma_ab_payload_functional(ab: AttachedBlock, a: Json, b: Json)
    requires
        ab_payload_conforms(ab, a),
        ab_payload_conforms(ab, b),
        a.wf(),
        b.wf(),
    ensures
        sem_eq(a, b),
    decreases ab,
{
    match ab {
        AttachedBlock::QueryBlock(q) => lemma_query_block_functional(q, a, b),
        AttachedBlock::Table(t) => lemma_table_functional(t, a, b),
    }
}

/// Functionality: two well-formed documents conforming to the same
/// node are semantically equal.
proof fn lemma_table_block_functional(t: TableBlock, a: Json, b: Json)
    requires
        table_block_conforms(t, a),
        table_block_conforms(t, b),
        a.wf(),
        b.wf(),
    ensures
        sem_eq(a, b),
    decreases t,
{
    let ea = a->Obj_0@;
    let eb = b->Obj_0@;
    assert forall|k: Seq<char>| #[trigger] has_key(ea, k) <==> has_key(eb, k) by {
        if has_key(ea, k) {
            let i = choose|i: int| 0 <= i < ea.len() && (#[trigger] ea[i]).0@ == k;
            assert(table_block_key(k));
        }
        if has_key(eb, k) {
            let i = choose|i: int| 0 <= i < eb.len() && (#[trigger] eb[i]).0@ == k;
            assert(table_block_key(k));
        }
    }
    assert forall|k: Seq<char>| has_key(ea, k) implies sem_eq(
        #[trigger] lookup(ea, k),
        lookup(eb, k),
    ) by {
        let i = choose|i: int| 0 <= i < ea.len() && (#[trigger] ea[i]).0@ == k;
        assert(table_block_key(k));
        if k == "table"@ {
            lemma_lookup_wf(ea, k);
            lemma_lookup_wf(eb, k);
            lemma_table_functional(t.table, lookup(ea, k), lookup(eb, k));
        }
    }
    lemma_obj_sem_eq(a, b);
}

proof fn lemma_nl_functional(ts: Seq<TableBlock>, a: Json, b: Json)
    requires
        nl_conforms(ts, a),
        nl_conforms(ts, b),
        a.wf(),
        b.wf(),
    ensures
        sem_eq(a, b),
    decreases ts,
{
    let xa = a->Arr_0@;
    let xb = b->Arr_0@;
    assert forall|i: int| 0 <= i < xa.len() implies sem_eq(#[trigger] xa[i], xb[i]) by {
        assert(xa[i].wf());
        assert(xb[i].wf());
        lemma_table_block_functional(ts[i], xa[i], xb[i]);
    }
}

/// Functionality: two well-formed documents conforming to the same
/// node are semantically equal.
proof fn lemma_buffer_result_functional(t: BufferResult, a: Json, b: Json)
    requires
        buffer_result_conforms(t, a),
        buffer_result_conforms(t, b),
        a.wf(),
        b.wf(),
    ensures
        sem_eq(a, b),
    decreases t,
{
    let ea = a->Obj_0@;
    let eb = b->Obj_0@;
    assert forall|k: Seq<char>| #[trigger] has_key(ea, k) <==> has_key(eb, k) by {
        if has_key(ea, k) {
            let i = choose|i: int| 0 <= i < ea.len() && (#[trigger] ea[i]).0@ == k;
            assert(buffer_result_key(k));
        }
        if has_key(eb, k) {
            let i = choose|i: int| 0 <= i < eb.len() && (#[trigger] eb[i]).0@ == k;
            assert(buffer_result_key(k));
        }
    }
    assert forall|k: Seq<char>| has_key(ea, k) implies sem_eq(
        #[trigger] lookup(ea, k),
        lookup(eb, k),
    ) by {
        let i = choose|i: int| 0 <= i < ea.len() && (#[trigger] ea[i]).0@ == k;
        assert(buffer_result_key(k));
        if k == "table"@ {
            lemma_lookup_wf(ea, k);
            lemma_lookup_wf(eb, k);
            lemma_table_functional(t.table, lookup(ea, k), lookup(eb, k));
        }
    }
    lemma_obj_sem_eq(a, b);
}

/// Functionality: two well-formed documents conforming to the same
/// node are semantically equal.
proof fn lemma_union_block_functional(t: UnionBlock, a: Json, b: Json)
    requires
        union_block_conforms(t, a),
        union_block_conforms(t, b),
        a.wf(),
        b.wf(),
    ensures
        sem_eq(a, b),
    decreases t,
{
    let ea = a->Obj_0@;
    let eb = b->Obj_0@;
    assert forall|k: Seq<char>| #[trigger] has_key(ea, k) <==> has_key(eb, k) by {
        if has_key(ea, k) {
            let i = choose|i: int| 0 <= i < ea.len() && (#[trigger] ea[i]).0@ == k;
            assert(union_block_key(k));
        }
        if has_key(eb, k) {
            let i = choose|i: int| 0 <= i < eb.len() && (#[trigger] eb[i]).0@ == k;
            assert(union_block_key(k));
        }
    }
    assert forall|k: Seq<char>| has_key(ea, k) implies sem_eq(
        #[trigger] lookup(ea, k),
        lookup(eb, k),
    ) by {
        let i = choose|i: int| 0 <= i < ea.len() && (#[trigger] ea[i]).0@ == k;
        assert(union_block_key(k));
        if k == "query_block"@ {
            lemma_lookup_wf(ea, k);
            lemma_lookup_wf(eb, k);
            lemma_query_block_functional(t.query_block, lookup(ea, k), lookup(eb, k));
        }
    }
    lemma_obj_sem_eq(a, b);
}

proof fn lemma_ub_list_functional(ts: Seq<UnionBlock>, a: Json, b: Json)
    requires
        ub_list_conforms(ts, a),
        ub_list_conforms(ts, b),
        a.wf(),
        b.wf(),
    ensures
        sem_eq(a, b),
    decreases ts,
{
    let xa = a->Arr_0@;
    let xb = b->Arr_0@;
    assert forall|i: int| 0 <= i < xa.len() implies sem_eq(#[trigger] xa[i], xb[i]) by {
        assert(xa[i].wf());
        assert(xb[i].wf());
        lemma_union_block_functional(ts[i], xa[i], xb[i]);
    }
}

/// Functionality: two well-formed documents conforming to the same
/// node are semantically equal.
proof fn lemma_union_result_functional(t: UnionResult, a: Json, b: Json)
    requires
        union_result_conforms(t, a),
        union_result_conforms(t, b),
        a.wf(),
        b.wf(),
    ensures
        sem_eq(a, b),
    decreases t,
{
    let ea = a->Obj_0@;
    let eb = b->Obj_0@;
    assert forall|k: Seq<char>| #[trigger] has_key(ea, k) <==> has_key(eb, k) by {
        if has_key(ea, k) {
            let i = choose|i: int| 0 <= i < ea.len() && (#[trigger] ea[i]).0@ == k;
            assert(union_result_key(k));
        }
        if has_key(eb, k) {
            let i = choose|i: int| 0 <= i < eb.len() && (#[trigger] eb[i]).0@ == k;
            assert(union_result_key(k));
        }
    }
    assert forall|k: Seq<char>| has_key(ea, k) implies sem_eq(
        #[trigger] lookup(ea, k),
        lookup(eb, k),
    ) by {
        let i = choose|i: int| 0 <= i < ea.len() && (#[trigger] ea[i]).0@ == k;
        assert(union_result_key(k));
        if k == "query_specifications"@ {
            lemma_lookup_wf(ea, k);
            lemma_lookup_wf(eb, k);
            lemma_ub_list_functional(t.query_specifications@, lookup(ea, k), lookup(eb, k));
        }
    }
    lemma_obj_sem_eq(a, b);
}

/// Functionality: two well-formed documents conforming to the same
/// node are semantically equal.
proof fn lemma_grouping_functional(t: GroupingOperation, a: Json, b: Json)
    requires
        grouping_conforms(t, a),
        grouping_conforms(t, b),
        a.wf(),
        b.wf(),
    ensures
        sem_eq(a, b),
    decreases t,
{
    let ea = a->Obj_0@;
    let eb = b->Obj_0@;
    assert forall|k: Seq<char>| #[trigger] has_key(ea, k) <==> has_key(eb, k) by {
        if has_key(ea, k) {
            let i = choose|i: int| 0 <= i < ea.len() && (#[trigger] ea[i]).0@ == k;
            assert(grouping_own_key(k) || (t.relation_block matches Some(g) && k == grb_disc_of(g)));
        }
        if has_key(eb, k) {
            let i = choose|i: int| 0 <= i < eb.len() && (#[trigger] eb[i]).0@ == k;
            assert(grouping_own_key(k) || (t.relation_block matches Some(g) && k == grb_disc_of(g)));
        }
    }
    assert forall|k: Seq<char>| has_key(ea, k) implies sem_eq(
        #[trigger] lookup(ea, k),
        lookup(eb, k),
    ) by {
        let i = choose|i: int| 0 <= i < ea.len() && (#[trigger] ea[i]).0@ == k;
        assert(grouping_own_key(k) || (t.relation_block matches Some(g) && k == grb_disc_of(g)));
        if k == "cost_info"@ {
            lemma_lookup_wf(ea, k);
            lemma_lookup_wf(eb, k);
            match t.cost_info {
                Some(c) => { lemma_sort_cost_functional(c, lookup(ea, k), lookup(eb, k)); },
                None => {},
            }
        }
        if k == "table"@ {
            lemma_lookup_wf(ea, k);
            lemma_lookup_wf(eb, k);
            match t.table {
                Some(c) => { lemma_table_functional(c, lookup(ea, k), lookup(eb, k)); },
                None => {},
            }
        }
        if k == "having_subqueries"@ {
            lemma_lookup_wf(ea, k);
            lemma_lookup_wf(eb, k);
            match t.having_subqueries {
                Some(c) => { lemma_asq_list_functional(c@, lookup(ea, k), lookup(eb, k)); },
                None => {},
            }
        }
        match t.relation_block {
            Some(g) => {
                if k == grb_disc_of(g) {
            lemma_lookup_wf(ea, k);
            lemma_lookup_wf(eb, k);
                    lemma_grb_payload_functional(g, lookup(ea, k), lookup(eb, k));
                }
            },
            None => {},
        }
    }
    lemma_obj_sem_eq(a, b);
}

proof fn lemma_grb_payload_functional(g: GroupedRelationBlock, a: Json, b: Json)
    requires
        grb_payload_conforms(g, a),
        grb_payload_conforms(g, b),
        a.wf(),
        b.wf(),
    ensures
        sem_eq(a, b),
    decreases g,
{
    match g {
        GroupedRelationBlock::BufferResult(x) => lemma_buffer_result_functional(x, a, b),
        GroupedRelationBlock::NestedLoop(ts) => lemma_nl_functional(ts@, a, b),
        GroupedRelationBlock::Table(t) => lemma_table_functional(t, a, b),
    }
}

/// Functionality: two well-formed documents conforming to the same
/// node are semantically equal.
proof fn lemma_ordering_functional(t: OrderingOperation, a: Json, b: Json)
    requires
        ordering_conforms(t, a),
        ordering_conforms(t, b),
        a.wf(),
        b.wf(),
    ensures
        sem_eq(a, b),
    decreases t,
{
    let ea = a->Obj_0@;
    let eb = b->Obj_0@;
    assert forall|k: Seq<char>| #[trigger] has_key(ea, k) <==> has_key(eb, k) by {
        if has_key(ea, k) {
            let i = choose|i: int| 0 <= i < ea.len() && (#[trigger] ea[i]).0@ == k;
            assert(ordering_own_key(k) || (t.relation_block matches Some(rb) && k == rb_disc_of(*rb)));
        }
        if has_key(eb, k) {
            let i = choose|i: int| 0 <= i < eb.len() && (#[trigger] eb[i]).0@ == k;
            assert(ordering_own_key(k) || (t.relation_block matches Some(rb) && k == rb_disc_of(*rb)));
        }
    }
    assert forall|k: Seq<char>| has_key(ea, k) implies sem_eq(
        #[trigger] lookup(ea, k),
        lookup(eb, k),
    ) by {
        let i = choose|i: int| 0 <= i < ea.len() && (#[trigger] ea[i]).0@ == k;
        assert(ordering_own_key(k) || (t.relation_block matches Some(rb) && k == rb_disc_of(*rb)));
        if k == "optimized_away_subqueries"@ {
            lemma_lookup_wf(ea, k);
            lemma_lookup_wf(eb, k);
            match t.optimized_away_subqueries {
                Some(c) => { lemma_asq_list_functional(c@, lookup(ea, k), lookup(eb, k)); },
                None => {},
            }
        }
        if k == "order_by_subqueries"@ {
            lemma_lookup_wf(ea, k);
            lemma_lookup_wf(eb, k);
            match t.order_by_subqueries {
                Some(c) => { lemma_obs_list_functional(c@, lookup(ea, k), lookup(eb, k)); },
                None => {},
            }
        }
        match t.relation_block {
            Some(rb) => {
                if k == rb_disc_of(*rb) {
            lemma_lookup_wf(ea, k);
            lemma_lookup_wf(eb, k);
                    lemma_rb_payload_functional(*rb, lookup(ea, k), lookup(eb, k));
                }
            },
            None => {},
        }
    }
    lemma_obj_sem_eq(a, b);
}

/// Functionality: two well-formed documents conforming to the same
/// node are semantically equal.
proof fn lemma_dr_functional(t: DuplicatesRemoval, a: Json, b: Json)
    requires
        dr_conforms(t, a),
        dr_conforms(t, b),
        a.wf(),
        b.wf(),
    ensures
        sem_eq(a, b),
    decreases t,
{
    let ea = a->Obj_0@;
    let eb = b->Obj_0@;
    assert forall|k: Seq<char>| #[trigger] has_key(ea, k) <==> has_key(eb, k) by {
        if has_key(ea, k) {
            let i = choose|i: int| 0 <= i < ea.len() && (#[trigger] ea[i]).0@ == k;
            assert(dr_own_key(k) || k == rb_disc_of(*t.relation_block));
        }
        if has_key(eb, k) {
            let i = choose|i: int| 0 <= i < eb.len() && (#[trigger] eb[i]).0@ == k;
            assert(dr_own_key(k) || k == rb_disc_of(*t.relation_block));
        }
    }
    assert forall|k: Seq<char>| has_key(ea, k) implies sem_eq(
        #[trigger] lookup(ea, k),
        lookup(eb, k),
    ) by {
        let i = choose|i: int| 0 <= i < ea.len() && (#[trigger] ea[i]).0@ == k;
        assert(dr_own_key(k) || k == rb_disc_of(*t.relation_block));
        if k == rb_disc_of(*t.relation_block) {
            lemma_lookup_wf(ea, k);
            lemma_lookup_wf(eb, k);
            lemma_rb_payload_functional(*t.relation_block, lookup(ea, k), lookup(eb, k));
        }
    }
    lemma_obj_sem_eq(a, b);
}

proof fn lemma_rb_payload_functional(rb: RelationBlock, a: Json, b: Json)
    requires
        rb_payload_conforms(rb, a),
        rb_payload_conforms(rb, b),
        a.wf(),
        b.wf(),
    ensures
        sem_eq(a, b),
    decreases rb,
{
    match rb {
        RelationBlock::DuplicatesRemoval(d) => lemma_dr_functional(d, a, b),
        RelationBlock::GroupingOperation(g) => lemma_grouping_functional(g, a, b),
        RelationBlock::NestedLoop(ts) => lemma_nl_functional(ts@, a, b),
        RelationBlock::OrderingOperation(o) => lemma_ordering_functional(o, a, b),
        RelationBlock::Table(t) => lemma_table_functional(t, a, b),
        RelationBlock::UnionResult(u) => lemma_union_result_functional(u, a, b),
    }
}

/// Functionality: two well-formed documents conforming to the same
/// node are semantically equal.
proof fn lemma_query_block_functional(t: QueryBlock, a: Json, b: Json)
    requires
        query_block_conforms(t, a),
        query_block_conforms(t, b),
        a.wf(),
        b.wf(),
    ensures
        sem_eq(a, b),
    decreases t,
{
    let ea = a->Obj_0@;
    let eb = b->Obj_0@;
    assert forall|k: Seq<char>| #[trigger] has_key(ea, k) <==> has_key(eb, k) by {
        if has_key(ea, k) {
            let i = choose|i: int| 0 <= i < ea.len() && (#[trigger] ea[i]).0@ == k;
            assert(qb_own_key(k) || k == rb_disc_of(*t.relation_block));
        }
        if has_key(eb, k) {
            let i = choose|i: int| 0 <= i < eb.len() && (#[trigger] eb[i]).0@ == k;
            assert(qb_own_key(k) || k == rb_disc_of(*t.relation_block));
        }
    }
    assert forall|k: Seq<char>| has_key(ea, k) implies sem_eq(
        #[trigger] lookup(ea, k),
        lookup(eb, k),
    ) by {
        let i = choose|i: int| 0 <= i < ea.len() && (#[trigger] ea[i]).0@ == k;
        assert(qb_own_key(k) || k == rb_disc_of(*t.relation_block));
        if k == "cost_info"@ {
            lemma_lookup_wf(ea, k);
            lemma_lookup_wf(eb, k);
            match t.cost_info {
                Some(c) => { lemma_query_cost_functional(c, lookup(ea, k), lookup(eb, k)); },
                None => {},
            }
        }
        if k == rb_disc_of(*t.relation_block) {
            lemma_lookup_wf(ea, k);
            lemma_lookup_wf(eb, k);
            lemma_rb_payload_functional(*t.relation_block, lookup(ea, k), lookup(eb, k));
        }
    }
    lemma_obj_sem_eq(a, b);
}

/// Functionality of the grammar: for one decoded tree, any two
/// well-formed documents conforming to it are semantically equal. With
/// `decode`'s soundness and `encode`'s contract this is round-trip
/// idempotence: `encode` of a decoded document reproduces that document up
/// to object key order.
pub proof fn lemma_explanation_functional(t: Explanation, a: Json, b: Json)
    requires
        explanation_conforms(t, a),
        explanation_conforms(t, b),
        a.wf(),
        b.wf(),
    ensures
        sem_eq(a, b),
    decreases t,
{
    let ea = a->Obj_0@;
    let eb = b->Obj_0@;
    assert forall|k: Seq<char>| #[trigger] has_key(ea, k) <==> has_key(eb, k) by {
        if has_key(ea, k) {
            let i = choose|i: int| 0 <= i < ea.len() && (#[trigger] ea[i]).0@ == k;
            assert(explanation_key(k));
        }
        if has_key(eb, k) {
            let i = choose|i: int| 0 <= i < eb.len() && (#[trigger] eb[i]).0@ == k;
            assert(explanation_key(k));
        }
    }
    assert forall|k: Seq<char>| has_key(ea, k) implies sem_eq(
        #[trigger] lookup(ea, k),
        lookup(eb, k),
    ) by {
        let i = choose|i: int| 0 <= i < ea.len() && (#[trigger] ea[i]).0@ == k;
        assert(explanation_key(k));
        if k == "query_block"@ {
            lemma_lookup_wf(ea, k);
            lemma_lookup_wf(eb, k);
            lemma_query_block_functional(t.query_block, lookup(ea, k), lookup(eb, k));
        }
    }
    lemma_obj_sem_eq(a, b);
}

/// An undeclared key anywhere in a table object defeats conformance: no
/// decode can accept it, however deep the object sits.
pub proof fn lemma_unknown_key_rejects_table(t: Table, j: Json, i: int)
    requires
        j matches Json::Obj(es) && 0 <= i < es@.len() && !table_key(es@[i].0@),
    ensures
        !table_conforms(t, j),
{
}

/// An undeclared key in the root object defeats conformance.
pub proof fn lemma_unknown_key_rejects_explanation(t: Explanation, j: Json, i: int)
    requires
        j matches Json::Obj(es) && 0 <= i < es@.len() && !explanation_key(es@[i].0@),
    ensures
        !explanation_conforms(t, j),
{
}

/// A decoded tree's variant tag matches the discriminator key present in
/// the document, and a nested-loop variant preserves the array's length.
pub proof fn lemma_variant_tag(t: QueryBlock, j: Json)
    requires
        query_block_conforms(t, j),
    ensures
        j is Obj ==> has_key(j->Obj_0@, rb_disc_of(*t.relation_block)),
        (j is Obj && (*t.relation_block) is NestedLoop) ==> (lookup(j->Obj_0@, "nested_loop"@)
            matches Json::Arr(items) && items@.len() == (*t.relation_block)->NestedLoop_0@.len()),
{
}

} // verus!
