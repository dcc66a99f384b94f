use kz::{
    build_exclude_set, calculate_statistics, count_all_words, count_blank_lines, count_chars,
    count_lines, count_pattern, count_unique_words, decode_to_utf8, encoding_known,
    filter_code_comments, filter_markdown_code, find_utf8_boundary, format_values,
    generate_histogram, is_binary, line_lengths, max_line_length, parse_file_list, process_data,
    value_widths, Args, Counts, ExcludeError, StreamTally,
};

fn no_args() -> Args {
    Args {
        files: Vec::new(),
        lines: false,
        bytes: false,
        chars: false,
        words: false,
        max_line_length: false,
        pattern: None,
        files0_from: None,
        json: false,
        stats: false,
        unique: false,
        recursive: false,
        exclude: Vec::new(),
        histogram: false,
        code: false,
        markdown: false,
        verbose: false,
        timing: false,
        blank_lines: false,
        total_only: false,
        encoding: None,
        progress: false,
    }
}

// Counting in pieces gives the sum of the pieces.

#[test]
fn lines_add_up_over_a_split() {
    let data = b"one\ntwo\nthree\nfour";
    for cut in 0..data.len() {
        let (a, b) = data.split_at(cut);
        assert_eq!(count_lines(a) + count_lines(b), count_lines(data));
    }
}

#[test]
fn chars_add_up_over_a_split_between_characters() {
    let data = "añb€c𝄞d".as_bytes();
    for cut in 0..data.len() {
        let (a, b) = data.split_at(cut);
        if (b[0] & 0xC0) != 0x80 {
            assert_eq!(count_chars(a) + count_chars(b), count_chars(data));
        }
    }
}

#[test]
fn chars_of_valid_text_are_its_scalars() {
    let text = "naïve – 世界 🎉";
    assert_eq!(count_chars(text.as_bytes()), text.chars().count());
}

#[test]
fn chars_skip_invalid_bytes() {
    assert_eq!(count_chars(b"a\xffb"), 2);
    assert_eq!(count_chars(b"\xc3"), 0);
    assert_eq!(count_chars(b"\xe4\xb8"), 0);
}

#[test]
fn words_over_a_split_overcount_by_at_most_one() {
    let data = b"alpha beta  gamma\ndelta";
    for cut in 0..data.len() {
        let (a, b) = data.split_at(cut);
        let sum = count_all_words(a) + count_all_words(b);
        let whole = count_all_words(data);
        assert!(sum == whole || sum == whole + 1);
    }
}

#[test]
fn unique_words_never_exceed_words() {
    let data = b"to be or not to be";
    assert_eq!(count_all_words(data), 6);
    assert_eq!(count_unique_words(data), 4);
}

#[test]
fn unique_words_of_invalid_utf8_are_none() {
    assert_eq!(count_unique_words(b"\xff \xfe \xff"), 0);
}

// Display columns, as `wc -L` counts them.

#[test]
fn max_line_length_counts_tab_stops() {
    assert_eq!(max_line_length(b"a\tb\n"), 9);
    assert_eq!(max_line_length(b"\t\n"), 8);
}

#[test]
fn max_line_length_counts_wide_chars_twice() {
    assert_eq!(max_line_length("世界\n".as_bytes()), 4);
    assert_eq!(max_line_length("café\n".as_bytes()), 4);
}

#[test]
fn max_line_length_of_ascii_is_byte_length() {
    assert_eq!(max_line_length(b"hello world\nhi\n"), 11);
}

// Blank lines, binary data, boundaries.

#[test]
fn blank_lines_hold_only_whitespace() {
    assert_eq!(count_blank_lines(b"a\n\n  \nb"), 2);
    assert_eq!(count_blank_lines(b""), 0);
    assert_eq!(count_blank_lines(b"\r\n\t\n"), 2);
}

#[test]
fn binary_means_a_zero_byte_early_on() {
    assert!(is_binary(b"ab\0c"));
    assert!(!is_binary(b"plain text"));
    let mut late = vec![b'a'; 9000];
    late.push(0);
    assert!(!is_binary(&late));
}

#[test]
fn utf8_boundary_skips_continuation_bytes() {
    let data = "a€b".as_bytes();
    assert_eq!(find_utf8_boundary(data, 2), 4);
    assert_eq!(find_utf8_boundary(data, 0), 0);
    assert_eq!(find_utf8_boundary(data, 10), data.len());
}

#[test]
fn pattern_occurrences_do_not_overlap() {
    assert_eq!(count_pattern(b"aaaa", b"aa"), 2);
    assert_eq!(count_pattern(b"abcabc", b"abc"), 2);
    assert_eq!(count_pattern(b"ab", b"abc"), 0);
}

// Decoding.

#[test]
fn decoding_latin1_gives_utf8() {
    assert_eq!(decode_to_utf8(&[0xE9], Some("iso-8859-1")), vec![0xC3, 0xA9]);
    assert_eq!(decode_to_utf8(b"caf\xe9", Some("latin1")), "café".as_bytes().to_vec());
}

#[test]
fn decoding_keeps_bytes_without_a_known_encoding() {
    assert_eq!(decode_to_utf8(b"\xe9", None), vec![0xE9]);
    assert_eq!(decode_to_utf8(b"\xe9", Some("no-such-encoding")), vec![0xE9]);
    assert_eq!(decode_to_utf8(b"\xe9", Some("utf-8")), vec![0xE9]);
}

#[test]
fn encoding_names_are_looked_up() {
    assert!(encoding_known("iso-8859-1"));
    assert!(encoding_known("Shift_JIS"));
    assert!(!encoding_known("no-such-encoding"));
}

// Line lengths, statistics, histogram.

#[test]
fn line_lengths_drop_carriage_returns() {
    assert_eq!(line_lengths(b"ab\r\ncd"), vec![2, 2]);
    assert_eq!(line_lengths(b""), Vec::<usize>::new());
    assert_eq!(line_lengths(b"x\n\n"), vec![1, 0]);
}

#[test]
fn statistics_of_three_lines() {
    let st = calculate_statistics(b"ab\n\nabcd\n");
    assert_eq!(st.line_count, 3);
    assert_eq!(st.total_length, 6);
    assert_eq!(st.median_line_length, 2);
    assert_eq!(st.min_line_length, 0);
    assert_eq!(st.max_line_length, 4);
    assert_eq!(st.empty_lines, 1);
    assert_eq!(st.line_lengths, vec![2, 0, 4]);
}

#[test]
fn statistics_median_of_even_count() {
    let st = calculate_statistics(b"a\nabcd\nab\nabcde\n");
    assert_eq!(st.median_line_length, 3);
    assert!(st.min_line_length <= st.median_line_length);
    assert!(st.median_line_length <= st.max_line_length);
}

#[test]
fn statistics_of_nothing_are_zero() {
    let st = calculate_statistics(b"");
    assert_eq!(st.line_count, 0);
    assert_eq!(st.median_line_length, 0);
    assert_eq!(st.max_line_length, 0);
}

#[test]
fn histogram_buckets_by_tens() {
    let h = generate_histogram(b"ab\nabcdefghijkl\ncd\n");
    assert_eq!(h.len(), 2);
    assert_eq!(h.get(&0), Some(&2));
    assert_eq!(h.get(&10), Some(&1));
}

// Filters.

#[test]
fn code_filter_drops_comment_only_lines() {
    let out = filter_code_comments(b"// note\nlet x = 1; // tail\n\n");
    assert_eq!(out, b"let x = 1;\n".to_vec());
}

#[test]
fn code_filter_leaves_no_blank_line() {
    let src = b"#!/bin/sh\n\n  # note\nx=1   \n/* a\n b */\n\t\ny=2 -- z\n";
    let out = filter_code_comments(src);
    assert_eq!(count_blank_lines(&out), 0);
    assert_eq!(out, b"x=1\ny=2\n".to_vec());
}

#[test]
fn markdown_filter_leaves_no_backtick() {
    let src = b"a `b` c\n```\nfn x() {}\n```\n``d``\n";
    let out = filter_markdown_code(src);
    assert!(!out.contains(&b'`'));
    assert_eq!(out, b"a  c\nd\n".to_vec());
}

#[test]
fn markdown_filter_drops_fenced_blocks() {
    let out = filter_markdown_code(b"Text\n```\ncode\n```\nMore `x` here");
    let s = String::from_utf8(out).unwrap();
    assert!(s.contains("Text"));
    assert!(s.contains("More"));
    assert!(!s.contains("code"));
}

// Output layout.

#[test]
fn values_are_right_aligned() {
    let values = vec![3, 12];
    let widths = value_widths(&values);
    assert_eq!(widths, vec![1, 2]);
    assert_eq!(format_values(&values, &vec![2, 3], "f"), b" 3  12 f".to_vec());
    assert_eq!(format_values(&values, &vec![], ""), b"3 12".to_vec());
}

#[test]
fn counts_format_in_wc_order() {
    let mut args = no_args();
    args.normalize();
    let mut c = Counts::new();
    c.lines = 2;
    c.words = 10;
    c.bytes = 45;
    assert_eq!(c.get_values(&args), vec![2, 10, 45]);
    assert_eq!(c.format(&args, "a.txt", &vec![1, 2, 2]), b"2 10 45 a.txt".to_vec());
}

// Options.

#[test]
fn normalize_defaults_to_lines_words_bytes() {
    let mut args = no_args();
    args.normalize();
    assert!(args.lines && args.words && args.bytes);
    assert!(!args.chars && !args.max_line_length);

    let mut args = no_args();
    args.chars = true;
    args.normalize();
    assert!(args.chars && !args.lines && !args.words && !args.bytes);
    args.normalize();
    assert!(args.chars && !args.lines);
}

#[test]
fn chunked_counting_is_for_lines_and_bytes() {
    let mut args = no_args();
    args.lines = true;
    assert!(args.counts_by_chunk());
    assert!(!args.needs_only_bytes());
    args.lines = false;
    args.bytes = true;
    assert!(args.needs_only_bytes());
    args.words = true;
    assert!(!args.counts_by_chunk());
    let mut args = no_args();
    args.bytes = true;
    args.encoding = Some("latin1".to_string());
    assert!(!args.needs_only_bytes());
}

// Totals.

#[test]
fn totals_sum_and_keep_the_longest_line() {
    let mut a = Counts::new();
    a.lines = 1;
    a.max_line_length = 7;
    let mut b = Counts::new();
    b.lines = 2;
    b.max_line_length = 4;
    assert!(a.can_add(&b));
    a.add(&b);
    assert_eq!(a.lines, 3);
    assert_eq!(a.max_line_length, 7);
}

#[test]
fn totals_refuse_overflow() {
    let mut a = Counts::new();
    a.bytes = usize::MAX;
    let mut b = Counts::new();
    b.bytes = 1;
    assert!(!a.can_add(&b));
}

// Processing a buffer.

#[test]
fn process_data_takes_what_is_asked() {
    let mut args = no_args();
    args.normalize();
    let c = process_data(b"hello world\nbye\n", &args);
    assert_eq!((c.lines, c.words, c.bytes), (2, 3, 16));
    assert_eq!(c.chars, 0);
    assert!(c.statistics.is_none() && c.histogram.is_none());
}

#[test]
fn process_data_with_every_count() {
    let mut args = no_args();
    args.chars = true;
    args.max_line_length = true;
    args.blank_lines = true;
    args.unique = true;
    args.pattern = Some("o".to_string());
    args.stats = true;
    args.histogram = true;
    let c = process_data("hi\n\nwörld wörld\n".as_bytes(), &args);
    assert_eq!(c.chars, 16);
    assert_eq!(c.max_line_length, 11);
    assert_eq!(c.blank_lines, 1);
    assert_eq!(c.unique_words, 2);
    assert_eq!(c.pattern, 0);
    assert_eq!(c.lines, 3);
    assert_eq!(c.words, 3);
    let st = c.statistics.unwrap();
    assert_eq!(st.line_lengths, vec![2, 0, 13]);
    assert_eq!(c.histogram.unwrap().get(&10), Some(&1));
}

#[test]
fn process_data_decodes_then_counts() {
    let mut args = no_args();
    args.chars = true;
    args.bytes = true;
    args.encoding = Some("iso-8859-1".to_string());
    let c = process_data(b"caf\xe9", &args);
    assert_eq!(c.chars, 4);
    assert_eq!(c.bytes, 5);
}

#[test]
fn process_data_counts_code_only() {
    let mut args = no_args();
    args.lines = true;
    args.code = true;
    let c = process_data(b"# comment\nx = 1\ny = 2\n", &args);
    assert_eq!(c.lines, 2);
}

// File lists.

#[test]
fn file_list_skips_empty_and_malformed_names() {
    assert_eq!(
        parse_file_list(b"a.txt\0\0b.txt\0\xff\0c"),
        vec!["a.txt".to_string(), "b.txt".to_string(), "c".to_string()]
    );
    assert_eq!(parse_file_list(b""), Vec::<String>::new());
}

// Exclusion globs.

#[test]
fn exclusion_globs_match_paths() {
    let set = build_exclude_set(&vec!["*.min.js".to_string(), "target/**".to_string()])
        .ok()
        .unwrap();
    assert!(set.excludes("dir/app.min.js"));
    assert!(set.excludes("target/debug/x"));
    assert!(!set.excludes("src/app.js"));
}

#[test]
fn no_exclusion_globs_exclude_nothing() {
    let set = build_exclude_set(&Vec::new()).ok().unwrap();
    assert!(!set.excludes("anything"));
}

#[test]
fn a_bad_glob_is_reported_with_its_index() {
    match build_exclude_set(&vec!["*.rs".to_string(), "a[".to_string()]) {
        Err(ExcludeError::BadPattern(i, _)) => assert_eq!(i, 1),
        _ => panic!("expected a bad pattern"),
    }
}

// Streaming.

#[test]
fn stream_tally_matches_whole_buffer() {
    let data = b"one\ntwo\nthree\n";
    let mut t = StreamTally::new();
    for piece in data.chunks(5) {
        assert!(t.feed(piece));
    }
    assert_eq!(t.lines(), count_lines(data));
    assert_eq!(t.bytes(), data.len());
    let mut args = no_args();
    args.lines = true;
    let c = t.counts(&args);
    assert_eq!((c.lines, c.bytes, c.words), (3, 0, 0));
}

#[test]
fn globs_too_large_to_combine_are_reported() {
    let huge = "?".repeat(300_000);
    match build_exclude_set(&vec![huge]) {
        Err(ExcludeError::BuildFailed(_)) => {}
        _ => panic!("expected the globs to be too large to combine"),
    }
}

#[test]
fn large_buffers_count_in_parallel_pieces() {
    let unit = "ab cd efgh ij\n\n  \nwörld\t!\n";
    let reps = 100_000;
    let data = unit.repeat(reps).into_bytes();
    assert!(data.len() > 2 * 1024 * 1024);
    assert_eq!(count_lines(&data), 4 * reps);
    assert_eq!(count_blank_lines(&data), 2 * reps);
    assert_eq!(count_all_words(&data), 6 * reps);
    assert_eq!(count_chars(&data), unit.chars().count() * reps);
    assert_eq!(max_line_length(&data), 13);
    let lengths = line_lengths(&data);
    assert_eq!(lengths.len(), 4 * reps);
    assert_eq!(&lengths[..4], &[13, 0, 2, 8]);
    let h = generate_histogram(&data);
    assert_eq!(h.get(&0), Some(&(3 * reps)));
    assert_eq!(h.get(&10), Some(&reps));
    assert_eq!(h.len(), 2);
    let st = calculate_statistics(&data);
    assert_eq!(st.line_count, 4 * reps);
    assert_eq!(st.total_length, 23 * reps);
    assert_eq!(st.empty_lines, reps);
    assert_eq!(st.median_line_length, 5);
}

#[test]
fn unique_words_of_a_large_buffer() {
    let unit = "über alles\nand more alles\n\n";
    let data = unit.repeat(40_000).into_bytes();
    assert!(data.len() > 1024 * 1024);
    assert_eq!(count_unique_words(&data), 4);
    let mut odd = data.clone();
    odd.push(0xff);
    assert_eq!(count_unique_words(&odd), 0);
}

#[test]
fn max_line_length_counts_emoji_as_wide() {
    assert_eq!(max_line_length("🚀\n".as_bytes()), 2);
    assert_eq!(max_line_length("a🎉b\n".as_bytes()), 4);
    assert_eq!(max_line_length("⌚\n".as_bytes()), 2);
}

#[test]
fn max_line_length_restarts_at_carriage_return_and_form_feed() {
    assert_eq!(max_line_length(b"abc\rde\n"), 3);
    assert_eq!(max_line_length(b"ab\rcdef\n"), 4);
    assert_eq!(max_line_length(b"ab\x0cx\n"), 2);
    assert_eq!(max_line_length(b"abc\r\n"), 3);
}

#[test]
fn decoding_treats_padded_utf8_labels_as_utf8() {
    assert_eq!(decode_to_utf8(b"\xe9", Some(" UTF8 ")), vec![0xE9]);
    assert_eq!(decode_to_utf8(b"\xe9", Some("Unicode-1-1-UTF-8")), vec![0xE9]);
    assert_eq!(decode_to_utf8(b"\xe9", Some(" Latin1 ")), vec![0xC3, 0xA9]);
}

#[test]
fn cut_points_are_spaced_by_the_chunk_size() {
    let data = b"aaaa\nbb\nccccccc\nd\neeeeee\nf\n".repeat(20);
    let cuts = kz::lines::find_line_boundaries(&data, 10);
    assert_eq!(cuts[0], 0);
    assert_eq!(*cuts.last().unwrap(), data.len());
    for k in 1..cuts.len() - 1 {
        assert!(cuts[k] >= cuts[k - 1] + 10);
        assert_eq!(data[cuts[k] - 1], b'\n');
    }
    let text = "añb€c𝄞d".repeat(30);
    let cuts = kz::count::find_utf8_chunk_boundaries(text.as_bytes(), 7);
    for k in 1..cuts.len() - 1 {
        assert!(cuts[k] >= cuts[k - 1] + 7);
        assert!(text.is_char_boundary(cuts[k]));
    }
}

#[test]
fn repeating_text_on_a_new_line_keeps_unique_words() {
    let d = "the cat and the hat";
    let doubled = format!("{}\n{}", d, d);
    assert_eq!(count_unique_words(doubled.as_bytes()), count_unique_words(d.as_bytes()));
    assert_eq!(count_unique_words(d.as_bytes()), 4);
    assert!(count_unique_words(d.as_bytes()) <= count_all_words(d.as_bytes()));
}

#[test]
fn histogram_counts_add_up() {
    let a = b"short\na line of twenty.\n\n".to_vec();
    let b = b"0123456789abc\nx".to_vec();
    let mut ab = a.clone();
    ab.extend_from_slice(&b);
    let h = generate_histogram(&ab);
    let ha = generate_histogram(&a);
    let hb = generate_histogram(&b);
    let total: usize = h.values().sum();
    assert_eq!(total, line_lengths(&ab).len());
    for (k, v) in &h {
        assert_eq!(k % 10, 0);
        assert_eq!(*v, ha.get(k).copied().unwrap_or(0) + hb.get(k).copied().unwrap_or(0));
    }
}

#[test]
fn max_line_length_gives_marks_and_jamo_no_column() {
    assert_eq!(max_line_length("\u{0e01}\u{0e31}\n".as_bytes()), 1);
    assert_eq!(max_line_length("\u{0915}\u{0941}\n".as_bytes()), 1);
    assert_eq!(max_line_length("\u{05d0}\u{05bf}\u{05c1}\n".as_bytes()), 1);
    assert_eq!(max_line_length("\u{1100}\u{1161}\u{11a8}\n".as_bytes()), 2);
    assert_eq!(max_line_length("a\u{00ad}b\n".as_bytes()), 3);
    assert_eq!(max_line_length("a\u{200d}b\n".as_bytes()), 2);
}

#[test]
fn binary_input_is_skipped() {
    let mut args = no_args();
    args.normalize();
    assert!(kz::process_unless_binary(b"a\0b\n", &args).is_none());
    let c = kz::process_unless_binary(b"a b\n", &args).unwrap();
    assert_eq!((c.lines, c.words, c.bytes), (1, 2, 4));
}
