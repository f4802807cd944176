//! The relational form of an edge query: one parameterized statement.
use vstd::prelude::*;

use crate::query_edge::{EdgeQuery, SortOrder};

verus! {

/// `n` comma-separated positional parameters (`n >= 1`).
pub open spec fn placeholders(n: nat) -> Seq<char>
    decreases n,
{
    if n <= 1 {
        "?"@
    } else {
        placeholders((n - 1) as nat) + ", ?"@
    }
}

/// The name filter for `n` names; none for an empty list.
pub open spec fn name_filter_sql(n: nat) -> Seq<char> {
    if n == 0 {
        Seq::empty()
    } else {
        " AND type IN ("@ + placeholders(n) + ")"@
    }
}

/// The cursor filter: a row comparison in the query's direction.
pub open spec fn cursor_filter_sql(has_cursor: bool, order: SortOrder) -> Seq<char> {
    if !has_cursor {
        Seq::empty()
    } else {
        match order {
            SortOrder::Asc => " AND (type, dest) > (?, ?)"@,
            SortOrder::Desc => " AND (type, dest) < (?, ?)"@,
        }
    }
}

/// The ordering clause.
pub open spec fn order_sql(order: SortOrder) -> Seq<char> {
    match order {
        SortOrder::Asc => "ORDER BY type ASC, dest ASC"@,
        SortOrder::Desc => "ORDER BY type DESC, dest DESC"@,
    }
}

/// The statement for a query with `n` names. Its parameters are, in order:
/// the source, each name, then the cursor's sort key and destination.
pub open spec fn find_edges_sql_text(n: nat, has_cursor: bool, order: SortOrder) -> Seq<char> {
    "SELECT source, type, dest FROM edges WHERE source = ?"@ + name_filter_sql(n) + cursor_filter_sql(
        has_cursor,
        order,
    ) + " "@ + order_sql(order) + " LIMIT 100"@
}

/// Builds the statement that runs `query` on the edges table.
pub fn find_edges_sql(query: &EdgeQuery) -> (r: String)
    ensures
        r@ == find_edges_sql_text(query.edge_names@.len(), query.cursor is Some, query.order),
{
    let n = query.edge_names.len();
    let mut sql = String::from_str("SELECT source, type, dest FROM edges WHERE source = ?");
    let ghost head = sql@;
    if n > 0 {
        sql.append(" AND type IN (");
        let ghost start = sql@;
        sql.append("?");
        let mut i: usize = 1;
        while i < n
            invariant
                1 <= i <= n,
                sql@ == start + placeholders(i as nat),
            decreases n - i,
        {
            sql.append(", ?");
            assert(sql@ =~= start + placeholders((i + 1) as nat));
            i += 1;
        }
        sql.append(")");
        assert(sql@ =~= head + name_filter_sql(n as nat));
    } else {
        assert(sql@ =~= head + name_filter_sql(n as nat));
    }
    let ghost with_names = sql@;
    match (&query.cursor, query.order) {
        (Some(_), SortOrder::Asc) => sql.append(" AND (type, dest) > (?, ?)"),
        (Some(_), SortOrder::Desc) => sql.append(" AND (type, dest) < (?, ?)"),
        (None, _) => {},
    }
    assert(sql@ =~= with_names + cursor_filter_sql(query.cursor is Some, query.order));
    sql.append(" ");
    match query.order {
        SortOrder::Asc => sql.append("ORDER BY type ASC, dest ASC"),
        SortOrder::Desc => sql.append("ORDER BY type DESC, dest DESC"),
    }
    sql.append(" LIMIT 100");
    assert(sql@ =~= find_edges_sql_text(query.edge_names@.len(), query.cursor is Some, query.order));
    sql
}

} // verus!
