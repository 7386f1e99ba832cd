# august

The core of a desktop client for reviewing pull requests, written in Verus.
The functions of `src/` are proved against their contracts, except the ten
marked `#[verifier::external_body]`, whose bodies Verus does not check:

- `push_char`, `to_lowercase` (`text`) and `char_is_alphanumeric`
  (`editor_motion`) call the standard library; `new_uuid_text`
  (`workspace`) calls `uuid`; `parse_fragment` (`html_dom`) calls `scraper`;
  `markdown_events` (`md_source`) calls `pulldown-cmark`. Their contracts
  are trusted: they state what the called function does, naming a result
  (`lowercase`, `is_alphanumeric`, `fragment_items`,
  `markdown_event_list`) where it would take pages to write out.
- `event_of`, `leaf_event`, `tag_kind` and `inline_tag_kind` (`md_source`)
  turn `pulldown-cmark`'s events into the library's, one variant at a time,
  for `markdown_events`; they carry no contract.

Modules:

- `text`, `editor_diff`, `file_diff`, `pr_detail`: unified-diff parsing,
  pull-request data, timestamps, and the conversation and commit lists.
- `diff_mode`, `editor_layout`, `editor_motion`, `editor_keys`: the diff
  display (collapsed context, inline comment rows), what the editor view
  shows, word motion and key handling.
- `review`: review sessions, draft comments and the review request.
- `file_tree`, `command_menu`: the changed-file tree and the fuzzy file
  finder.
- `markdown_inline`, `md_blocks`, `md_source`, `html_dom`, `html_blocks`:
  Markdown text and embedded HTML turned into styled text and blocks.
- `pane_layout`, `window_layout`, `workspace`, `onboarding`: panes, splits
  and tabs, the window's sidebars, workspaces and the onboarding steps.
- `terminal_input`, `terminal_layout`: keys sent to a terminal and what a
  terminal view draws.
- `pr_api`, `pr_texts`: records reported by the hosting service and the
  texts the pull-request views show.

Laws of the library (what one call undoes, what every operation keeps) are
public proof functions named `law_*` next to the functions they speak of.

`app/` holds the parts that Verus does not see: settings files, the file
walk of the finder and the decoding of service responses.
