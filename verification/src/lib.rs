//! Counting lines, words, characters, columns and patterns in byte buffers,
//! as `wc` counts them.

pub mod codec;
pub mod config;
pub mod count;
pub mod encoding;
pub mod exclude;
pub mod filelist;
pub mod filter;
pub mod layout;
pub mod linecount;
pub mod lines;
pub mod order;
pub mod parallel;
pub mod pattern;
pub mod report;
pub mod search;
pub mod stats;
pub mod stream;
pub mod text;
pub mod width;
pub mod words;

pub use config::Args;
pub use count::{count_chars, count_lines, find_utf8_boundary, is_binary, CHUNK_SIZE};
pub use encoding::{decode_to_utf8, encoding_known};
pub use exclude::{build_exclude_set, ExcludeError, ExcludeSet};
pub use filelist::parse_file_list;
pub use filter::{filter_code_comments, filter_markdown_code};
pub use layout::{format_values, value_widths};
pub use linecount::{count_blank_lines, max_line_length};
pub use pattern::count_pattern;
pub use report::{process_data, process_unless_binary, Counts};
pub use stats::{calculate_statistics, generate_histogram, line_lengths, Statistics};
pub use stream::{StreamTally, STREAM_CHUNK};
pub use words::{count_all_words, count_unique_words};
