//! The decoded plan tree. All entities are immutable values; the grammar is
//! mutually recursive through heap indirection (`Box`) on the one genuine
//! cycle: a table may own a materialized subquery owning a fresh query
//! block.

use vstd::prelude::*;

verus! {

#[derive(Debug, PartialEq)]
pub struct Explanation {
    pub query_block: QueryBlock,
}

#[derive(Debug, PartialEq)]
pub struct QueryBlock {
    pub select_id: Option<u32>,
    pub cost_info: Option<QueryCost>,
    pub relation_block: Box<RelationBlock>,
}

/// The closed variant set for how a query block produces its rows; the
/// variant is identified on the wire by which discriminator key is present.
#[derive(Debug, PartialEq)]
pub enum RelationBlock {
    DuplicatesRemoval(DuplicatesRemoval),
    GroupingOperation(GroupingOperation),
    NestedLoop(Vec<TableBlock>),
    OrderingOperation(OrderingOperation),
    Table(Table),
    UnionResult(UnionResult),
}

/// The narrower variant set reachable from inside a grouping operation.
#[derive(Debug, PartialEq)]
pub enum GroupedRelationBlock {
    BufferResult(BufferResult),
    NestedLoop(Vec<TableBlock>),
    Table(Table),
}

/// The variant set reachable from inside an attached subquery.
#[derive(Debug, PartialEq)]
pub enum AttachedBlock {
    QueryBlock(QueryBlock),
    Table(Table),
}

#[derive(Debug, PartialEq)]
pub struct QueryCost {
    pub query_cost: String,
}

#[derive(Debug, PartialEq)]
pub struct SortCost {
    pub sort_cost: String,
}

/// Per-table cost figures, kept as decimal-formatted text so round trips
/// lose no formatting.
#[derive(Debug, PartialEq)]
pub struct RelationalCosts {
    pub read_cost: String,
    pub eval_cost: String,
    pub prefix_cost: String,
    pub data_read_per_join: String,
}

#[derive(Debug, PartialEq)]
pub struct TableBlock {
    pub table: Table,
}

#[derive(Debug, PartialEq)]
pub struct UnionResult {
    pub using_temporary_table: Option<bool>,
    pub table_name: String,
    pub access_type: String,
    pub query_specifications: Vec<UnionBlock>,
}

#[derive(Debug, PartialEq)]
pub struct UnionBlock {
    pub dependent: bool,
    pub cacheable: bool,
    pub query_block: QueryBlock,
}

#[derive(Debug, PartialEq)]
pub struct GroupingOperation {
    pub using_temporary_table: Option<bool>,
    pub using_filesort: bool,
    pub cost_info: Option<SortCost>,
    pub relation_block: Option<GroupedRelationBlock>,
    pub table: Option<Table>,
    pub having_subqueries: Option<Vec<AttachedSubquery>>,
}

#[derive(Debug, PartialEq)]
pub struct OrderingOperation {
    pub using_temporary_table: Option<bool>,
    pub using_filesort: bool,
    pub relation_block: Option<Box<RelationBlock>>,
    pub optimized_away_subqueries: Option<Vec<AttachedSubquery>>,
    pub order_by_subqueries: Option<Vec<OrderBySubqueries>>,
}

/// A lightweight back-reference to a subquery materialized elsewhere.
#[derive(Debug, PartialEq)]
pub struct BlockReference {
    pub select_id: u32,
    pub message: String,
}

#[derive(Debug, PartialEq)]
pub struct OrderBySubqueries {
    pub dependent: bool,
    pub cacheable: bool,
    pub query_block: BlockReference,
}

#[derive(Debug, PartialEq)]
pub struct BufferResult {
    pub using_temporary_table: bool,
    pub table: Table,
}

#[derive(Debug, PartialEq)]
pub struct DuplicatesRemoval {
    pub using_temporary_table: bool,
    pub using_filesort: bool,
    pub relation_block: Box<RelationBlock>,
}

/// A leaf scan/access node; the one place the grammar loops back, through
/// `materialized_from_subquery` and `attached_subqueries`.
#[derive(Debug, PartialEq)]
pub struct Table {
    pub table_name: String,
    pub access_type: String,
    pub possible_keys: Option<Vec<String>>,
    pub key: Option<String>,
    pub used_key_parts: Option<Vec<String>>,
    pub key_length: Option<String>,
    pub reference: Option<Vec<String>>,
    pub cost_info: Option<RelationalCosts>,
    pub rows_examined_per_scan: Option<u32>,
    pub rows_produced_per_join: Option<u32>,
    pub filtered: Option<String>,
    pub first_match: Option<String>,
    pub using_index_for_group_by: Option<bool>,
    pub index_condition: Option<String>,
    pub using_index: Option<bool>,
    pub used_columns: Option<Vec<String>>,
    pub attached_condition: Option<String>,
    pub attached_subqueries: Option<Vec<AttachedSubquery>>,
    pub materialized_from_subquery: Option<MaterializedFromSubquery>,
}

#[derive(Debug, PartialEq)]
pub struct MaterializedFromSubquery {
    pub using_temporary_table: bool,
    pub dependent: Option<bool>,
    pub cacheable: Option<bool>,
    pub query_block: QueryBlock,
}

#[derive(Debug, PartialEq)]
pub struct AttachedSubquery {
    pub dependent: Option<bool>,
    pub cacheable: Option<bool>,
    pub attached_block: AttachedBlock,
}

} // verus!
