use raggust::chunk::{chunk_text, try_chunk_text, Chunk};

fn contents(chunks: &[Chunk]) -> Vec<String> {
    chunks.iter().map(|c| c.content.clone()).collect()
}

#[test]
fn short_text_produces_single_chunk() {
    let chunks = chunk_text("hello world", 500, 50);
    assert_eq!(chunks.len(), 1);
    assert_eq!(chunks[0].content, "hello world");
    assert_eq!(chunks[0].index, 0);
}

#[test]
fn text_is_split_with_overlap() {
    let text = "a".repeat(1100);
    let chunks = chunk_text(&text, 500, 50);
    assert_eq!(chunks.len(), 2);
    assert_eq!(chunks[0].content.len(), 500);
    assert_eq!(chunks[1].content.len(), 500);
}

#[test]
fn chunks_have_sequential_indices() {
    let text = "x".repeat(2000);
    let chunks = chunk_text(&text, 500, 50);
    for (i, chunk) in chunks.iter().enumerate() {
        assert_eq!(chunk.index, i);
    }
}

#[test]
fn overlap_clamped_to_half_chunk_size() {
    let text = "a".repeat(1000);
    // overlap 999 > chunk_size/2 (250), gets clamped to 250
    let chunks = chunk_text(&text, 500, 999);
    let expected = chunk_text(&text, 500, 250);
    assert_eq!(chunks.len(), expected.len());
    for (a, b) in chunks.iter().zip(expected.iter()) {
        assert_eq!(a.content, b.content);
    }
}

#[test]
fn windows_step_by_chunk_size_minus_overlap() {
    // step = 4 - min(4 / 2, 3) = 2; (10 - 4) / 2 + 1 = 4 windows
    let chunks = chunk_text("abcdefghij", 4, 3);
    assert_eq!(contents(&chunks), vec!["abcd", "cdef", "efgh", "ghij"]);
    let indices: Vec<usize> = chunks.iter().map(|c| c.index).collect();
    assert_eq!(indices, vec![0, 1, 2, 3]);
}

#[test]
fn consecutive_chunks_share_the_overlap() {
    // step = 5 - 2 = 3
    let chunks = chunk_text("0123456789abcdef", 5, 2);
    assert_eq!(contents(&chunks), vec!["01234", "34567", "6789a", "9abcd"]);
    for pair in chunks.windows(2) {
        let prev: Vec<char> = pair[0].content.chars().collect();
        let next: Vec<char> = pair[1].content.chars().collect();
        assert_eq!(prev[3..5], next[0..2]);
    }
}

#[test]
fn characters_after_the_last_window_are_not_chunked() {
    // 1100 characters, step 450: windows start at 0 and 450; the last 150
    // characters are fewer than one step past the second window's end.
    let text: String = (0..1100).map(|i| if i < 950 { 'a' } else { 'b' }).collect();
    let chunks = chunk_text(&text, 500, 50);
    assert_eq!(chunks.len(), 2);
    assert!(chunks[1].content.chars().all(|c| c == 'a'));
}

#[test]
fn zero_overlap_gives_disjoint_windows() {
    let chunks = chunk_text("aaabbbccc", 3, 0);
    assert_eq!(contents(&chunks), vec!["aaa", "bbb", "ccc"]);
}

#[test]
fn chunk_contents_are_trimmed() {
    let chunks = chunk_text(" ab  cd ", 4, 0);
    assert_eq!(contents(&chunks), vec!["ab", "cd"]);
}

#[test]
fn short_text_is_trimmed_and_may_be_empty() {
    let chunks = chunk_text("  \t hi there \n", 100, 10);
    assert_eq!(contents(&chunks), vec!["hi there"]);
    let chunks = chunk_text("   ", 100, 10);
    assert_eq!(chunks.len(), 1);
    assert_eq!(chunks[0].content, "");
    assert_eq!(chunks[0].index, 0);
}

#[test]
fn text_of_exactly_one_window() {
    let chunks = chunk_text("abcd", 4, 1);
    assert_eq!(contents(&chunks), vec!["abcd"]);
}

#[test]
fn chunk_size_counts_characters_not_bytes() {
    let text = "こんにちわ、世界";
    let chunks = chunk_text(text, 4, 1);
    // 8 characters, step 4 - min(2, 1) = 3: windows at 0 and 3
    assert_eq!(contents(&chunks), vec!["こんにち", "ちわ、世"]);
}

#[test]
fn unicode_whitespace_is_trimmed() {
    let chunks = chunk_text("\u{3000}\u{a0}word\u{2003}", 100, 0);
    assert_eq!(contents(&chunks), vec!["word"]);
}

#[test]
fn try_chunk_text_refuses_empty_text() {
    assert!(try_chunk_text("", 10, 2).is_none());
}

#[test]
fn try_chunk_text_refuses_zero_chunk_size() {
    assert!(try_chunk_text("abc", 0, 0).is_none());
}

#[test]
fn try_chunk_text_refuses_a_blank_window() {
    let text = format!("x{}", " ".repeat(9));
    assert!(try_chunk_text(&text, 5, 0).is_none());
    let text = format!("x{}y", " ".repeat(2));
    assert!(try_chunk_text(&text, 3, 1).is_some());
}

#[test]
fn try_chunk_text_agrees_with_chunk_text() {
    let text = "The quick brown fox jumps over the lazy dog.";
    let checked = try_chunk_text(text, 10, 3).expect("chunkable");
    let plain = chunk_text(text, 10, 3);
    assert_eq!(contents(&checked), contents(&plain));
    assert_eq!(contents(&plain)[0], "The quick");
}

#[test]
fn try_chunk_text_accepts_a_short_blank_text() {
    let chunks = try_chunk_text(" \n ", 10, 2).expect("short text");
    assert_eq!(contents(&chunks), vec![""]);
}

#[test]
fn whitespace_window_edges_are_code_points_of_white_space() {
    // U+180E and U+200B are not White_Space; U+205F is.
    let chunks = chunk_text("\u{205f}a\u{180e}\u{200b}", 100, 0);
    assert_eq!(contents(&chunks), vec!["a\u{180e}\u{200b}"]);
}
