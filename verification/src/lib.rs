//! A log-file pager library: line indexes that grow as a file is explored,
//! command parsing and line styling for the `grok` viewer.
pub mod waypoint;
pub mod sane_index;
pub mod indexed_log;
pub mod cursor_log_file;
pub mod sane_lines;
pub mod text;
pub mod config;
pub mod line_view_mode;
pub mod stylist;
pub mod sub_line_iterator;
pub mod search_prompt;
pub mod switch_prompt;
pub mod index;
pub mod eventual_index;
pub mod keyboard;
pub mod display;
pub mod viewer;
pub mod styled_line;
pub mod style_rules;
pub mod patterns;
pub mod index_filter;
pub mod filtered_log;
pub mod screen_buffer;
pub mod read_buffer;
pub mod timeout;
