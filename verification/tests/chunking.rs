use polyrag::chunking::{RTSplitter, RecursiveTextSplitter};

#[test]
fn test_basic_splitting() {
    let splitter = RTSplitter::default();
    let text = "This is a test.\n\nThis is another paragraph.\n\nAnd a third one.";
    let chunks = splitter.split_text(text, 30);

    println!("Chunks: {:?}", chunks);

    assert!(!chunks.is_empty());
    for chunk in &chunks {
        assert!(chunk.len() <= 30);
    }
}

#[test]
fn test_no_overlap() {
    let splitter = RTSplitter::default();
    let text = "This is a very long sentence that should be split into multiple chunks with no overlap between them.";
    let chunks = splitter.split_text(text, 40);

    println!("Chunks: {:?}", chunks);

    assert!(chunks.len() > 1);
    for chunk in &chunks {
        assert!(chunk.len() <= 40);
    }

    let reconstructed = chunks.join("");
    assert_eq!(reconstructed, text);
}

#[test]
fn test_short_text() {
    let splitter = RTSplitter::default();
    let text = "Short text";
    let chunks = splitter.split_text(text, 100);

    assert_eq!(chunks.len(), 1);
    assert_eq!(chunks[0], text);
}

#[test]
fn edge_cases_are_lossless() {
    let splitter = RTSplitter::default();
    let long = "x".repeat(500);
    let cases = [
        "",
        " ",
        "\n\n\n",
        long.as_str(),
        "مرحبا بالعالم RTL mixed with LTR",
        "emoji 😀😀😀 and CJK 北京 mixed",
        "tabs\tand\nnewlines\r\nmixed   spaces",
    ];
    for text in cases {
        let chunks = splitter.split_text(text, 8);
        assert_eq!(chunks.concat(), text, "lossless failed for {:?}", text);
    }
}

#[test]
fn paragraphs_are_cut_first_and_keep_their_separator() {
    let splitter = RTSplitter::default();
    let chunks = splitter.split_text("aaaa\n\nbbbb", 6);
    assert_eq!(chunks, vec!["aaaa".to_string(), "\n\nbbbb".to_string()]);
}

#[test]
fn words_are_cut_by_length_as_a_last_resort() {
    let splitter = RTSplitter::default();
    let chunks = splitter.split_text("abcdefghij", 4);
    assert_eq!(chunks, vec!["abcd".to_string(), "efgh".to_string(), "ij".to_string()]);
}

#[test]
fn ascii_chunks_respect_the_byte_bound() {
    let splitter = RTSplitter::default();
    let text = "one two three four five six seven eight nine ten eleven twelve";
    for max in 1..20 {
        let chunks = splitter.split_text(text, max);
        assert_eq!(chunks.concat(), text);
        for c in &chunks {
            assert!(c.len() <= max);
            assert!(!c.is_empty());
        }
    }
}

#[test]
fn blank_text_yields_no_chunk_drafts() {
    let splitter = RTSplitter::default();
    assert!(splitter.create_chunks_from_text("   \n\t ").is_empty());
}

#[test]
fn chunk_drafts_skip_tiny_pieces_and_count_words() {
    let splitter = RTSplitter::default();
    let drafts = splitter.create_chunks_from_text("hello big   world of text");
    assert_eq!(drafts.len(), 1);
    assert_eq!(drafts[0].text, "hello big   world of text");
    assert_eq!(drafts[0].chunk_index, 0);
    assert_eq!(drafts[0].word_count, 5);

    let small = splitter.create_chunks_from_text("  tiny  ");
    assert!(small.is_empty());
}

#[test]
fn chunk_drafts_keep_their_position_in_the_split() {
    let splitter = RTSplitter::default();
    let para = "word ".repeat(300);
    let text = format!("{}\n\nok\n\n{}", para.trim_end(), para.trim_end());
    let drafts = splitter.create_chunks_from_text(&text);
    assert!(drafts.len() >= 2);
    for d in &drafts {
        assert!(d.text.trim().len() >= 10);
        assert_eq!(d.word_count as usize, d.text.split_whitespace().count());
    }
    let indices: Vec<i32> = drafts.iter().map(|d| d.chunk_index).collect();
    let mut sorted = indices.clone();
    sorted.sort();
    assert_eq!(indices, sorted);
}

#[test]
fn count_words_matches_split_whitespace() {
    let cases = ["", " ", "a", " a b  c ", "tabs\tand\nnewlines", "\u{3000}x\u{2003}y"];
    for c in cases {
        let chars: Vec<char> = c.chars().collect();
        assert_eq!(polyrag::chunking::count_words(&chars), c.split_whitespace().count());
    }
}

#[test]
fn separator_index_past_the_list_splits_by_length() {
    let splitter = RTSplitter::default();
    let text: Vec<char> = "abcdefghij".chars().collect();
    let chunks = splitter.recursive_split(&text, 4, 99);
    let as_strings: Vec<String> = chunks.iter().map(|c| c.iter().collect()).collect();
    assert_eq!(as_strings, vec!["abcd", "efgh", "ij"]);
    assert_eq!(chunks, splitter.split_by_length(&text, 4));
}
