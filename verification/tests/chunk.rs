use cliche::chunk::{ChunkedLine, ChunkedLines};

fn collect_chunks(text: &str, max_chunk_size: usize) -> Vec<String> {
    let mut lines = ChunkedLines::new(text, max_chunk_size);
    let mut chunks: Vec<String> = Vec::new();
    loop {
        let next: Option<ChunkedLine> = lines.next();
        match next {
            Some(chunk) => chunks.push(chunk.as_str().to_string()),
            None => break,
        }
    }
    chunks
}

fn collect_rows(text: &str, max_chunk_size: usize) -> Vec<u64> {
    let mut lines = ChunkedLines::new(text, max_chunk_size);
    let mut rows: Vec<u64> = Vec::new();
    while let Some(chunk) = lines.next() {
        rows.push(chunk.row());
    }
    rows
}

#[test]
fn chunk_at_64_chars() {
    let input = "This is a short line.\nThis line is exactly 64 characters long (include newline) 12345\nThis line is way too long and needs to be split multiple times into chunks of 64 characters or fewer.";
    let max_chunk_size = 64;
    let chunks = collect_chunks(input, max_chunk_size);
    assert_eq!(
        &chunks[..],
        [
            "This is a short line.\n",
            "This line is exactly 64 characters long (include newline) 12345\n",
            "This line is way too long and needs to be split multiple times i",
            "nto chunks of 64 characters or fewer."
        ]
    )
}

#[test]
fn chunk_at_multi_bytes_chars() {
    let input = "\u{1F34C}\u{1F353}\u{1F349}\u{1F347}\u{1F95D}\u{1F352}\u{1F34B}\u{1F34D}\u{1F34F}\u{1F350}\u{1F96D}\u{1F34A}";
    let max_chunk_size = 1;
    let chunks = collect_chunks(input, max_chunk_size);
    assert_eq!(
        &chunks[..],
        [
            "\u{1F34C}", "\u{1F353}", "\u{1F349}", "\u{1F347}", "\u{1F95D}", "\u{1F352}",
            "\u{1F34B}", "\u{1F34D}", "\u{1F34F}", "\u{1F350}", "\u{1F96D}", "\u{1F34A}"
        ],
    )
}

#[test]
fn chunks_concatenate_back_to_the_text() {
    let input = "alpha\nbeta gamma delta\n\u{1F34C}\u{FFFD}tail without newline";
    for max in [1usize, 2, 3, 7, 64] {
        let chunks = collect_chunks(input, max);
        let mut rebuilt = String::new();
        for chunk in &chunks {
            rebuilt.push_str(chunk);
        }
        assert_eq!(rebuilt, input);
    }
}

#[test]
fn chunk_rows_follow_newlines() {
    let input = "one\ntwo\nthree";
    let chunks = collect_chunks(input, 2);
    let rows = collect_rows(input, 2);
    assert_eq!(chunks, ["on", "e\n", "tw", "o\n", "th", "re", "e"]);
    assert_eq!(rows, [1, 1, 2, 2, 3, 3, 3]);

    // the final row reached is 1 plus the number of newlines
    let last_row = *rows.last().unwrap();
    let trailing = u64::from(chunks.last().unwrap().ends_with('\n'));
    assert_eq!(last_row + trailing, 1 + 2);
}

#[test]
fn empty_text_has_no_chunks() {
    let chunks = collect_chunks("", 64);
    assert!(chunks.is_empty());
}
