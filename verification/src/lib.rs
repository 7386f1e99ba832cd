//! Core logic of a code-review desktop client: unified diff parsing,
//! diff display layout, review-comment bookkeeping and text navigation.
pub mod text;
pub mod editor_diff;
pub mod file_diff;
pub mod diff_mode;
pub mod pr_detail;
pub mod terminal_input;
pub mod editor_motion;
pub mod review;
pub mod file_tree;
pub mod command_menu;
pub mod workspace;
pub mod onboarding;
pub mod editor_keys;
pub mod markdown_inline;
pub mod html_dom;
pub mod html_blocks;
pub mod md_blocks;
pub mod md_source;
pub mod window_layout;
pub mod pane_layout;
pub mod terminal_layout;
pub mod editor_layout;
pub mod pr_api;
pub mod pr_texts;
