use raggust::db::{chunk_row_index, rank_scale, vector_search_sql};

#[test]
fn search_sql_names_top_k() {
    let top_k = 5;
    let expected = format!(
        "
        SELECT c.content \
        FROM vector_top_k('idx_chunks_embedding', vector32(?1), {top_k}) AS v \
        JOIN chunks AS c ON c.rowid = v.id
        "
    );
    assert_eq!(vector_search_sql(top_k), expected);
    assert!(vector_search_sql(120).contains("vector32(?1), 120) AS v"));
}

#[test]
fn rank_scale_saturates() {
    assert_eq!(rank_scale(5), 5);
    assert_eq!(rank_scale(0), 0);
    assert_eq!(rank_scale(u32::MAX as usize), u32::MAX);
    assert_eq!(rank_scale(usize::MAX), u32::MAX);
}

#[test]
fn chunk_row_index_fits_i64() {
    assert_eq!(chunk_row_index(0), Some(0));
    assert_eq!(chunk_row_index(42), Some(42));
    assert_eq!(chunk_row_index(i64::MAX as usize), Some(i64::MAX));
    assert_eq!(chunk_row_index(usize::MAX), None);
}
