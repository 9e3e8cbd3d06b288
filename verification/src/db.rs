//! The values that the tool hands to its vector database: the query text of a
//! nearest-neighbour search, the row index of a stored chunk, and the scale of
//! the rank-based scores of search hits.

use vstd::prelude::*;

use crate::text::{decimal, decimal_reads_back, digits_value, occurs_at, push_decimal, push_str};

verus! {

/// The query text of a search for the `top_k` stored chunks nearest to the
/// embedding bound to `?1`.
pub open spec fn search_sql_of(top_k: nat) -> Seq<char> {
    "\n        SELECT c.content FROM vector_top_k('idx_chunks_embedding', vector32(?1), "@
        + decimal(top_k) + ") AS v JOIN chunks AS c ON c.rowid = v.id\n        "@
}

/// The search text asks for exactly `top_k` neighbours: it is the fixed text
/// up to `vector32(?1), `, then the decimal digits of `top_k`, which read back
/// as `top_k`, then the fixed text from `) AS v`.
pub proof fn search_sql_asks_for_top_k(top_k: nat)
    ensures
        ({
            let head = "\n        SELECT c.content FROM vector_top_k('idx_chunks_embedding', vector32(?1), "@;
            let sql = search_sql_of(top_k);
            &&& sql.subrange(0, head.len() as int) == head
            &&& occurs_at(sql, decimal(top_k), head.len() as int)
            &&& digits_value(decimal(top_k)) == top_k
            &&& sql.subrange((head.len() + decimal(top_k).len()) as int, sql.len() as int)
                == ") AS v JOIN chunks AS c ON c.rowid = v.id\n        "@
        }),
{
    let head = "\n        SELECT c.content FROM vector_top_k('idx_chunks_embedding', vector32(?1), "@;
    let tail = ") AS v JOIN chunks AS c ON c.rowid = v.id\n        "@;
    let sql = search_sql_of(top_k);
    decimal_reads_back(top_k);
    assert(sql =~= head + decimal(top_k) + tail);
    assert(sql.subrange(0, head.len() as int) =~= head);
    assert(sql.subrange(head.len() as int, (head.len() + decimal(top_k).len()) as int) =~= decimal(top_k));
    assert(sql.subrange((head.len() + decimal(top_k).len()) as int, sql.len() as int) =~= tail);
}

/// The query text of a search for the `top_k` nearest chunks.
pub fn vector_search_sql(top_k: usize) -> (sql: String)
    ensures
        sql@ == search_sql_of(top_k as nat),
{
    let mut sql = String::new();
    push_str(
        &mut sql,
        "\n        SELECT c.content FROM vector_top_k('idx_chunks_embedding', vector32(?1), ",
    );
    push_decimal(&mut sql, top_k);
    push_str(&mut sql, ") AS v JOIN chunks AS c ON c.rowid = v.id\n        ");
    assert(sql@ =~= search_sql_of(top_k as nat));
    sql
}

/// The number that ranks are divided by to score the hits of a search for
/// `top_k` chunks: `top_k`, or `u32::MAX` where `top_k` does not fit in a
/// `u32`. A hit of rank `r` scores `1 - r / rank_scale(top_k)`.
pub fn rank_scale(top_k: usize) -> (scale: u32)
    ensures
        scale == if top_k <= u32::MAX {
            top_k as int
        } else {
            u32::MAX as int
        },
{
    if top_k as u64 <= u32::MAX as u64 {
        top_k as u32
    } else {
        u32::MAX
    }
}

/// The row value stored for the chunk index `chunk_index`, or `None` where it
/// does not fit in the database's signed 64-bit integers.
pub fn chunk_row_index(chunk_index: usize) -> (row: Option<i64>)
    ensures
        row is Some <==> chunk_index <= i64::MAX,
        row matches Some(v) ==> v == chunk_index,
{
    if chunk_index as u64 <= i64::MAX as u64 {
        Some(chunk_index as i64)
    } else {
        None
    }
}

} // verus!
