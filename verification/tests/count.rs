use kz::{
    count_all_words, count_chars, count_lines, count_pattern, count_unique_words,
    decode_to_utf8, filter_code_comments, filter_markdown_code, find_utf8_boundary,
    max_line_length, CHUNK_SIZE,
};

#[test]
fn test_count_lines_empty() {
    assert_eq!(count_lines(b""), 0);
}

#[test]
fn test_count_lines_single() {
    assert_eq!(count_lines(b"hello\n"), 1);
}

#[test]
fn test_count_lines_multiple() {
    assert_eq!(count_lines(b"line1\nline2\nline3\n"), 3);
}

#[test]
fn test_count_lines_no_trailing_newline() {
    assert_eq!(count_lines(b"line1\nline2"), 1);
}

#[test]
fn test_count_words_empty() {
    assert_eq!(count_all_words(b""), 0);
}

#[test]
fn test_count_words_single() {
    assert_eq!(count_all_words(b"hello"), 1);
}

#[test]
fn test_count_words_multiple() {
    assert_eq!(count_all_words(b"hello world foo bar"), 4);
}

#[test]
fn test_count_words_multiple_spaces() {
    assert_eq!(count_all_words(b"hello    world"), 2);
}

#[test]
fn test_count_words_newlines() {
    assert_eq!(count_all_words(b"hello\nworld\nfoo"), 3);
}

#[test]
fn test_count_words_mixed_whitespace() {
    assert_eq!(count_all_words(b"hello\t\nworld  \r\nfoo"), 3);
}

#[test]
fn test_count_words_unicode_whitespace() {
    let text = "hello\u{00A0}world";
    assert_eq!(count_all_words(text.as_bytes()), 2);

    let text2 = "hello\u{2003}world";
    assert_eq!(count_all_words(text2.as_bytes()), 2);
}

#[test]
fn test_count_pattern_empty_data() {
    assert_eq!(count_pattern(b"", b"test"), 0);
}

#[test]
fn test_count_pattern_empty_pattern() {
    assert_eq!(count_pattern(b"test", b""), 0);
}

#[test]
fn test_count_pattern_single_occurrence() {
    assert_eq!(count_pattern(b"hello world", b"world"), 1);
}

#[test]
fn test_count_pattern_multiple_occurrences() {
    assert_eq!(count_pattern(b"foo bar foo baz foo", b"foo"), 3);
}

#[test]
fn test_count_pattern_non_overlapping() {
    assert_eq!(count_pattern(b"aaa", b"aa"), 1);
    assert_eq!(count_pattern(b"aaaa", b"aa"), 2);
}

#[test]
fn test_count_pattern_no_match() {
    assert_eq!(count_pattern(b"hello world", b"xyz"), 0);
}

#[test]
fn test_count_pattern_byte_pattern() {
    assert_eq!(count_pattern(b"a\nb\nc\n", b"\n"), 3);
}

#[test]
fn test_large_data_parallel() {
    let large_text = "word ".repeat(200_000);
    let bytes = large_text.as_bytes();

    assert_eq!(count_all_words(bytes), 200_000);

    let large_lines = b"line\n".repeat(200_000);
    assert_eq!(count_lines(&large_lines), 200_000);
}

#[test]
fn test_chunk_boundary_words() {
    let chunk_size = CHUNK_SIZE;
    let mut data = vec![b'a'; chunk_size - 1];
    data.push(b'b');
    data.push(b'c');

    assert_eq!(count_all_words(&data), 1);

    data[chunk_size - 1] = b' ';
    assert_eq!(count_all_words(&data), 2);
}

#[test]
fn test_chunk_boundary_pattern() {
    let chunk_size = CHUNK_SIZE;
    let pattern = b"boundary";
    let mut data = vec![b'x'; chunk_size - 4];
    data.extend_from_slice(pattern);
    data.extend_from_slice(b"yyyyyy");

    assert_eq!(count_pattern(&data, pattern), 1);
}

#[test]
fn test_count_chars_empty() {
    assert_eq!(count_chars(b""), 0);
}

#[test]
fn test_count_chars_ascii() {
    assert_eq!(count_chars(b"hello world"), 11);
}

#[test]
fn test_count_chars_utf8() {
    assert_eq!(count_chars("hello 世界".as_bytes()), 8);
    assert_eq!(count_chars("🦀 Rust".as_bytes()), 6);
}

#[test]
fn test_count_chars_vs_bytes() {
    let text = "café";
    assert_eq!(count_chars(text.as_bytes()), 4);
    assert_eq!(text.as_bytes().len(), 5);
}

#[test]
fn test_max_line_length_empty() {
    assert_eq!(max_line_length(b""), 0);
}

#[test]
fn test_max_line_length_single_line() {
    assert_eq!(max_line_length(b"hello"), 5);
}

#[test]
fn test_max_line_length_multiple_lines() {
    assert_eq!(max_line_length(b"hi\nhello\nbye"), 5);
}

#[test]
fn test_max_line_length_trailing_newline() {
    assert_eq!(max_line_length(b"hello\nworld\n"), 5);
}

#[test]
fn test_max_line_length_empty_lines() {
    assert_eq!(max_line_length(b"\n\nhello\n\n"), 5);
}

#[test]
fn test_max_line_length_crlf() {
    assert_eq!(max_line_length(b"hello\r\nworld\r\n"), 5);
    assert_eq!(max_line_length(b"hi\r\nhello\r\nbye\r\n"), 5);
}

#[test]
fn test_max_line_length_mixed_endings() {
    assert_eq!(max_line_length(b"hello\nworld\r\nfoo\n"), 5);
}

#[test]
fn test_filter_code_c_style_single_line() {
    let input = b"// this is a comment\nint x = 5;\n";
    let output = filter_code_comments(input);
    assert_eq!(output, b"int x = 5;\n");
}

#[test]
fn test_filter_code_c_style_multiline() {
    let input = b"/* multiline\ncomment */\nint x = 5;\n";
    let output = filter_code_comments(input);
    assert_eq!(output, b"int x = 5;\n");
}

#[test]
fn test_filter_code_hash_comments() {
    let input = b"# Python comment\nprint('hello')\n";
    let output = filter_code_comments(input);
    assert_eq!(output, b"print('hello')\n");
}

#[test]
fn test_filter_code_sql_comments() {
    let input = b"-- SQL comment\nSELECT * FROM users;\n";
    let output = filter_code_comments(input);
    assert_eq!(output, b"SELECT * FROM users;\n");
}

#[test]
fn test_filter_code_python_docstring() {
    let input = b"\"\"\"\nThis is a docstring\n\"\"\"\ndef foo():\n    pass\n";
    let output = filter_code_comments(input);
    assert_eq!(output, b"def foo():\n    pass\n");
}

#[test]
fn test_filter_code_empty_lines() {
    let input = b"int x = 5;\n\nint y = 10;\n";
    let output = filter_code_comments(input);
    assert_eq!(output, b"int x = 5;\nint y = 10;\n");
}

#[test]
fn test_filter_code_preserves_urls_and_colors() {
    let input = b"url = \"https://example.com#anchor\"\ncolor = \"#fff\"\n";
    let output = filter_code_comments(input);
    assert!(String::from_utf8_lossy(&output).contains("#anchor"));
    assert!(String::from_utf8_lossy(&output).contains("#fff"));
}

#[test]
fn test_filter_code_preserves_sql_operators() {
    let input = b"SELECT * FROM foo--bar WHERE x = 1\n";
    let output = filter_code_comments(input);
    assert!(String::from_utf8_lossy(&output).contains("foo--bar"));
}

#[test]
fn test_filter_markdown_code_block() {
    let input = b"Some text\n```rust\nlet x = 5;\n```\nMore text\n";
    let output = filter_markdown_code(input);
    assert!(String::from_utf8_lossy(&output).contains("Some text"));
    assert!(String::from_utf8_lossy(&output).contains("More text"));
    assert!(!String::from_utf8_lossy(&output).contains("let x = 5"));
}

#[test]
fn test_filter_markdown_inline_code() {
    let input = b"Use the `println!` macro\n";
    let output = filter_markdown_code(input);
    let output_str = String::from_utf8_lossy(&output);
    assert!(output_str.contains("Use the"));
    assert!(output_str.contains("macro"));
    assert!(!output_str.contains("println!"));
}

#[test]
fn test_filter_markdown_multiple_blocks() {
    let input = b"Intro\n```\ncode1\n```\nMiddle\n```\ncode2\n```\nEnd\n";
    let output = filter_markdown_code(input);
    let output_str = String::from_utf8_lossy(&output);
    assert!(output_str.contains("Intro"));
    assert!(output_str.contains("Middle"));
    assert!(output_str.contains("End"));
    assert!(!output_str.contains("code1"));
    assert!(!output_str.contains("code2"));
}

#[test]
fn test_unique_words_basic() {
    let input = b"hello world hello foo world bar";
    assert_eq!(count_unique_words(input), 4);
}

#[test]
fn test_unique_words_empty() {
    assert_eq!(count_unique_words(b""), 0);
}

#[test]
fn test_unique_words_all_same() {
    let input = b"word word word word word";
    assert_eq!(count_unique_words(input), 1);
}

#[test]
fn test_utf8_boundary_detection() {
    let text = "hello 世界 test";
    let data = text.as_bytes();

    let boundary = find_utf8_boundary(data, 7);
    assert!(std::str::from_utf8(&data[boundary..]).is_ok());
}

#[test]
fn test_decode_utf8_passthrough() {
    let input = "hello world".as_bytes();
    let output = decode_to_utf8(input, Some("utf-8"));
    assert_eq!(output, input);
}

#[test]
fn test_decode_autodetect_utf8() {
    let input = "hello 世界".as_bytes();
    let output = decode_to_utf8(input, None);
    assert_eq!(output, input);
}
