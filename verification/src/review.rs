//! Reviewing a pull request file by file: which file is shown, where a
//! clicked diff line anchors a comment, the draft comments kept until the
//! review is submitted, and which comments show on which rows.
use vstd::prelude::*;
use crate::diff_mode::{
    display_views, left_side, row_matches, CommentAttachment, DiffDisplayLine, DisplayView,
    InlineComment, InlineCommentView,
};
use crate::editor_diff::DiffLineTag;
use crate::text::{chars_of, is_blank, is_blank_text, range_eq};
use crate::diff_mode::{attachments_view, timestamp_cuts, timestamp_label, timestamp_text, AttachmentView};
use crate::text::string_of_all;

verus! {

/// A GitHub user.
#[derive(Clone, Debug)]
pub struct GitHubUser {
    pub login: String,
    pub avatar_url: String,
}

/// A file of a pull request as the review lists it.
#[derive(Clone, Debug)]
pub struct PullRequestFile {
    pub sha: String,
    pub filename: String,
    pub status: String,
    pub additions: u64,
    pub deletions: u64,
    pub changes: u64,
    pub patch: Option<String>,
}

/// A posted review comment on a line of a file.
#[derive(Clone, Debug)]
pub struct ReviewComment {
    pub id: u64,
    pub body: String,
    pub path: String,
    pub position: Option<u64>,
    pub line: Option<u64>,
    pub side: Option<String>,
    pub user: GitHubUser,
    pub created_at: String,
}

/// A comment of a review about to be submitted.
#[derive(Clone, Debug)]
pub struct CreateReviewComment {
    pub path: String,
    pub body: String,
    pub line: u64,
    pub side: String,
}

/// A review about to be submitted.
#[derive(Clone, Debug)]
pub struct CreateReviewRequest {
    pub body: String,
    pub event: String,
    pub comments: Vec<CreateReviewComment>,
}

/// The line of a file a comment is about, and the row that shows it.
#[derive(Clone, Debug)]
pub struct CommentAnchor {
    pub path: String,
    pub line: u64,
    pub side: String,
    pub display_line_index: usize,
}

pub struct AnchorView {
    pub path: Seq<char>,
    pub line: u64,
    pub side: Seq<char>,
    pub display_line_index: usize,
}

impl View for CommentAnchor {
    type V = AnchorView;

    open spec fn view(&self) -> AnchorView {
        AnchorView {
            path: self.path@,
            line: self.line,
            side: self.side@,
            display_line_index: self.display_line_index,
        }
    }
}

impl CommentAnchor {
    /// A copy of this anchor.
    pub fn duplicate(&self) -> (r: CommentAnchor)
        ensures
            r@ == self@,
    {
        CommentAnchor {
            path: self.path.clone(),
            line: self.line,
            side: self.side.clone(),
            display_line_index: self.display_line_index,
        }
    }

    /// Whether two anchors are the same.
    pub fn same_as(&self, other: &CommentAnchor) -> (b: bool)
        ensures
            b == (self@ == other@),
    {
        self.path == other.path && self.line == other.line && self.side == other.side
            && self.display_line_index == other.display_line_index
    }
}

/// A draft comment kept until the review is submitted.
#[derive(Clone, Debug)]
pub struct PendingComment {
    pub anchor: CommentAnchor,
    pub body: String,
}

pub struct PendingView {
    pub anchor: AnchorView,
    pub body: Seq<char>,
}

impl View for PendingComment {
    type V = PendingView;

    open spec fn view(&self) -> PendingView {
        PendingView { anchor: self.anchor@, body: self.body@ }
    }
}

pub open spec fn pending_views(p: Seq<PendingComment>) -> Seq<PendingView> {
    p.map_values(|c: PendingComment| c@)
}

/// The side name of the new file.
pub open spec fn right_side() -> Seq<char> {
    seq!['R', 'I', 'G', 'H', 'T']
}

/// The review of one pull request: the file shown, the draft comments, and
/// the comment panel that is open, if any.
pub struct ReviewSession {
    pub pr_number: u64,
    pub pr_title: String,
    pub owner: String,
    pub repo: String,
    pub selected_file_index: usize,
    pub pending_comments: Vec<PendingComment>,
    pub active_comment_anchor: Option<CommentAnchor>,
    pub active_comment_existing: Vec<ReviewComment>,
    pub active_comment_pending_body: Option<String>,
    pub submitting: bool,
}

pub open spec fn anchor_view(a: Option<CommentAnchor>) -> Option<AnchorView> {
    match a {
        Some(x) => Some(x@),
        None => None,
    }
}

pub open spec fn opt_view(s: Option<String>) -> Option<Seq<char>> {
    match s {
        Some(x) => Some(x@),
        None => None,
    }
}

/// The posted comments on `line` of the file `path`.
pub open spec fn comment_on(c: ReviewComment, path: Seq<char>, line: u64) -> bool {
    c.path@ == path && c.line == Some(line)
}

/// The first draft comment anchored at `a`.
pub open spec fn find_pending(p: Seq<PendingView>, a: AnchorView, from: int) -> Option<int>
    decreases p.len() - from,
{
    if from < 0 || from >= p.len() {
        None
    } else if p[from].anchor == a {
        Some(from)
    } else {
        find_pending(p, a, from + 1)
    }
}

pub proof fn lemma_find_pending_range(p: Seq<PendingView>, a: AnchorView, from: int)
    ensures
        find_pending(p, a, from) matches Some(i) ==> 0 <= from <= i < p.len() && p[i].anchor == a,
    decreases p.len() - from,
{
    if 0 <= from < p.len() && p[from].anchor != a {
        lemma_find_pending_range(p, a, from + 1);
    }
}

/// The first row that shows `line` of `side`.
pub open spec fn first_match(ds: Seq<DisplayView>, line: u64, side: Seq<char>, from: int) -> Option<int>
    decreases ds.len() - from,
{
    if from < 0 || from >= ds.len() {
        None
    } else if row_matches(ds[from], line, side) {
        Some(from)
    } else {
        first_match(ds, line, side, from + 1)
    }
}

/// The drafts after saving `body` at `a`: an existing draft there gets the
/// new body, else a new draft is added.
pub open spec fn upsert_spec(p: Seq<PendingView>, a: AnchorView, body: Seq<char>) -> Seq<PendingView> {
    match find_pending(p, a, 0) {
        Some(i) => p.update(i, PendingView { anchor: a, body }),
        None => p.push(PendingView { anchor: a, body }),
    }
}

fn clone_comment(c: &ReviewComment) -> (r: ReviewComment)
    ensures
        r == *c,
{
    ReviewComment {
        id: c.id,
        body: c.body.clone(),
        path: c.path.clone(),
        position: c.position,
        line: c.line,
        side: match &c.side {
            Some(s) => Some(s.clone()),
            None => None,
        },
        user: GitHubUser { login: c.user.login.clone(), avatar_url: c.user.avatar_url.clone() },
        created_at: c.created_at.clone(),
    }
}

/// The posted comments on `line` of the file `path`, in their order.
pub fn existing_comments_for(comments: &[ReviewComment], path: &str, line: u64) -> (r: Vec<ReviewComment>)
    ensures
        r@ == comments@.filter(|c: ReviewComment| comment_on(c, path@, line)),
{
    let ghost keep = |c: ReviewComment| comment_on(c, path@, line);
    let p = path.to_owned();
    let mut r: Vec<ReviewComment> = Vec::new();
    let mut i: usize = 0;
    assert(comments@.take(0).filter(keep) =~= Seq::<ReviewComment>::empty()) by {
        reveal_with_fuel(Seq::<_>::filter, 1);
    }
    while i < comments.len()
        invariant
            i <= comments.len(),
            p@ == path@,
            keep == (|c: ReviewComment| comment_on(c, path@, line)),
            r@ == comments@.take(i as int).filter(keep),
        decreases comments.len() - i,
    {
        proof {
            reveal_with_fuel(Seq::<_>::filter, 1);
            assert(comments@.take(i + 1).drop_last() =~= comments@.take(i as int));
        }
        let c = &comments[i];
        let on_line = match c.line {
            Some(l) => l == line,
            None => false,
        };
        if c.path == p && on_line {
            r.push(clone_comment(c));
        }
        i = i + 1;
    }
    assert(comments@.take(i as int) =~= comments@);
    r
}

/// Whether a side name is `"LEFT"`.
fn is_left(side: &str) -> (b: bool)
    ensures
        b == (side@ == left_side()),
{
    let chars = chars_of(side);
    let left = vec!['L', 'E', 'F', 'T'];
    assert(left@ =~= left_side());
    let b = range_eq(&chars, 0, chars.len(), &left);
    assert(chars@.subrange(0, chars.len() as int) =~= chars@);
    b
}

/// The first row that shows `line` of `side`: for `"LEFT"` a deleted line
/// with that old line number, otherwise any other line with that new line
/// number.
pub fn find_display_line_index(display_lines: &[DiffDisplayLine], line: u64, side: &str) -> (r: Option<usize>)
    ensures
        match r {
            Some(i) => first_match(display_views(display_lines@), line, side@, 0) == Some(i as int),
            None => first_match(display_views(display_lines@), line, side@, 0) is None,
        },
{
    let ghost ds = display_views(display_lines@);
    let left = is_left(side);
    let want = line as usize;
    let mut i: usize = 0;
    while i < display_lines.len()
        invariant
            i <= display_lines.len(),
            ds == display_views(display_lines@),
            left == (side@ == left_side()),
            want == line as usize,
            first_match(ds, line, side@, 0) == first_match(ds, line, side@, i as int),
        decreases display_lines.len() - i,
    {
        assert(ds[i as int] == display_lines@[i as int]@);
        let matches = match &display_lines[i] {
            DiffDisplayLine::Line { line: l, .. } => {
                if left {
                    match l.old_line_num {
                        Some(v) => v == want && l.tag == DiffLineTag::Delete,
                        None => false,
                    }
                } else {
                    match l.new_line_num {
                        Some(v) => v == want && l.tag != DiffLineTag::Delete,
                        None => false,
                    }
                }
            },
            _ => false,
        };
        assert(matches == row_matches(ds[i as int], line, side@));
        if matches {
            return Some(i);
        }
        i = i + 1;
    }
    None
}

/// The file after file `i` of `n`, wrapping around.
pub open spec fn next_index(i: int, n: int) -> int {
    (i + 1) % n
}

/// The file before file `i` of `n`, wrapping around.
pub open spec fn prev_index(i: int, n: int) -> int {
    if i == 0 {
        n - 1
    } else {
        i - 1
    }
}

/// The file reached from file `i` of `n` by going to the next one `k`
/// times.
pub open spec fn next_times(i: int, n: int, k: nat) -> int
    decreases k,
{
    if k == 0 {
        i
    } else {
        next_index(next_times(i, n, (k - 1) as nat), n)
    }
}

impl ReviewSession {
    /// A review of pull request `pr_number` with nothing drafted yet,
    /// showing the first file.
    pub fn new(owner: String, repo: String, pr_number: u64, pr_title: String) -> (s: Self)
        ensures
            s.owner == owner && s.repo == repo && s.pr_number == pr_number && s.pr_title == pr_title,
            s.selected_file_index == 0,
            s.pending_comments@.len() == 0,
            s.active_comment_anchor is None,
            s.active_comment_existing@.len() == 0,
            s.active_comment_pending_body is None,
            !s.submitting,
    {
        ReviewSession {
            pr_number,
            pr_title,
            owner,
            repo,
            selected_file_index: 0,
            pending_comments: Vec::new(),
            active_comment_anchor: None,
            active_comment_existing: Vec::new(),
            active_comment_pending_body: None,
            submitting: false,
        }
    }

    /// Closes the comment panel.
    pub fn close_comment_panel(&mut self)
        ensures
            final(self).active_comment_anchor is None,
            final(self).active_comment_existing@.len() == 0,
            final(self).active_comment_pending_body is None,
            final(self).pending_comments == old(self).pending_comments,
            final(self).selected_file_index == old(self).selected_file_index,
            final(self).submitting == old(self).submitting,
    {
        self.active_comment_anchor = None;
        self.active_comment_existing.clear();
        self.active_comment_pending_body = None;
    }

    /// Shows file `index` and closes the comment panel.
    pub fn select_file(&mut self, index: usize)
        ensures
            final(self).selected_file_index == index,
            final(self).active_comment_anchor is None,
            final(self).active_comment_existing@.len() == 0,
            final(self).active_comment_pending_body is None,
            final(self).pending_comments == old(self).pending_comments,
    {
        self.selected_file_index = index;
        self.close_comment_panel();
    }

    /// Shows the next of `file_count` files, wrapping around, and closes the
    /// comment panel; does nothing when there are no files.  Tells whether
    /// it moved.
    pub fn next_file(&mut self, file_count: usize) -> (moved: bool)
        requires
            file_count > 0 ==> old(self).selected_file_index < usize::MAX,
        ensures
            moved == (file_count > 0),
            moved ==> final(self).selected_file_index == next_index(
                old(self).selected_file_index as int,
                file_count as int,
            ),
            moved ==> final(self).active_comment_anchor is None && final(self).active_comment_pending_body is None
                && final(self).active_comment_existing@.len() == 0,
            !moved ==> *final(self) == *old(self),
            final(self).pending_comments == old(self).pending_comments,
    {
        if file_count > 0 {
            self.selected_file_index = (self.selected_file_index + 1) % file_count;
            self.close_comment_panel();
            true
        } else {
            false
        }
    }

    /// Shows the previous of `file_count` files, wrapping around, and closes
    /// the comment panel; does nothing when there are no files.  Tells
    /// whether it moved.
    pub fn prev_file(&mut self, file_count: usize) -> (moved: bool)
        ensures
            moved == (file_count > 0),
            moved ==> final(self).selected_file_index == prev_index(
                old(self).selected_file_index as int,
                file_count as int,
            ),
            moved ==> final(self).active_comment_anchor is None && final(self).active_comment_pending_body is None
                && final(self).active_comment_existing@.len() == 0,
            !moved ==> *final(self) == *old(self),
            final(self).pending_comments == old(self).pending_comments,
    {
        if file_count > 0 {
            self.selected_file_index = if self.selected_file_index == 0 {
                file_count - 1
            } else {
                self.selected_file_index - 1
            };
            self.close_comment_panel();
            true
        } else {
            false
        }
    }
}


/// The line and side that a click on a row of kind `tag` comments on: the
/// old line of a deleted row, the new line of any other row.
pub open spec fn click_target(tag: DiffLineTag, old_line_num: Option<usize>, new_line_num: Option<usize>) -> Option<
    (u64, Seq<char>),
> {
    match tag {
        DiffLineTag::Delete => match old_line_num {
            Some(o) => Some((o as u64, left_side())),
            None => None,
        },
        _ => match new_line_num {
            Some(n) => Some((n as u64, right_side())),
            None => None,
        },
    }
}

/// The body of the first draft anchored at `a`, if any.
pub open spec fn draft_body(p: Seq<PendingComment>, a: AnchorView) -> Option<Seq<char>> {
    match find_pending(pending_views(p), a, 0) {
        Some(i) => Some(p[i].body@),
        None => None,
    }
}

/// A submitted comment carries the path, line, side and body of its draft.
pub open spec fn carries_draft(c: CreateReviewComment, p: PendingComment) -> bool {
    &&& c.path@ == p.anchor.path@
    &&& c.body@ == p.body@
    &&& c.line == p.anchor.line
    &&& c.side@ == p.anchor.side@
}

/// `"LEFT"` or `"RIGHT"`.
fn side_name(left: bool) -> (s: String)
    ensures
        left ==> s@ == left_side(),
        !left ==> s@ == right_side(),
{
    let mut s = String::new();
    if left {
        s.append("LEFT");
        proof {
            reveal_strlit("LEFT");
        }
        assert(s@ =~= left_side());
    } else {
        s.append("RIGHT");
        proof {
            reveal_strlit("RIGHT");
        }
        assert(s@ =~= right_side());
    }
    s
}

/// The index of the first draft anchored at `a`.
fn pending_index(pending: &Vec<PendingComment>, a: &CommentAnchor) -> (r: Option<usize>)
    ensures
        match r {
            Some(i) => find_pending(pending_views(pending@), a@, 0) == Some(i as int),
            None => find_pending(pending_views(pending@), a@, 0) is None,
        },
        r matches Some(i) ==> i < pending@.len() && pending@[i as int]@.anchor == a@,
{
    let ghost pv = pending_views(pending@);
    proof {
        lemma_find_pending_range(pv, a@, 0);
    }
    let mut i: usize = 0;
    while i < pending.len()
        invariant
            i <= pending.len(),
            pv == pending_views(pending@),
            find_pending(pv, a@, 0) == find_pending(pv, a@, i as int),
        decreases pending.len() - i,
    {
        assert(pv[i as int] == pending@[i as int]@);
        if pending[i].anchor.same_as(a) {
            return Some(i);
        }
        i = i + 1;
    }
    None
}

/// The first 10 bytes of a time stamp, or all of it when it is shorter.
pub fn format_timestamp(timestamp: &str) -> (r: String)
    requires
        timestamp_cuts(timestamp@),
    ensures
        r@ == timestamp_label(timestamp@),
{
    let owned = timestamp.to_owned();
    let chars = timestamp_text(&owned);
    string_of_all(&chars)
}

/// Whether any draft is on the file `path`.
pub fn file_has_pending(pending: &[PendingComment], path: &str) -> (b: bool)
    ensures
        b == exists|k: int| 0 <= k < pending@.len() && (#[trigger] pending@[k]).anchor.path@ == path@,
{
    let p = path.to_owned();
    let mut i: usize = 0;
    while i < pending.len()
        invariant
            i <= pending.len(),
            p@ == path@,
            forall|k: int| 0 <= k < i ==> (#[trigger] pending@[k]).anchor.path@ != path@,
        decreases pending.len() - i,
    {
        if pending[i].anchor.path == p {
            return true;
        }
        i = i + 1;
    }
    false
}

impl ReviewSession {
    /// The name of the file shown, if the index is in range.
    pub fn selected_filename(&self, files: &[PullRequestFile]) -> (r: Option<String>)
        ensures
            self.selected_file_index < files@.len() ==> (r matches Some(n) && n@
                == files@[self.selected_file_index as int].filename@),
            self.selected_file_index >= files@.len() ==> r is None,
    {
        if self.selected_file_index < files.len() {
            Some(files[self.selected_file_index].filename.clone())
        } else {
            None
        }
    }

    /// Opens the comment panel for a clicked row of the file
    /// `selected_filename`: the panel is anchored at the row's line and
    /// side, lists the posted comments on that line, and holds the draft
    /// already written there.  Nothing changes when no file is shown or
    /// the row has no line on the side it belongs to.
    pub fn on_diff_line_clicked(
        &mut self,
        selected_filename: Option<&str>,
        comments: &[ReviewComment],
        display_line_index: usize,
        old_line_num: Option<usize>,
        new_line_num: Option<usize>,
        tag: DiffLineTag,
    )
        ensures
            match (selected_filename, click_target(tag, old_line_num, new_line_num)) {
                (Some(path), Some((line, side))) => {
                    let a = AnchorView { path: path@, line, side, display_line_index };
                    &&& anchor_view(final(self).active_comment_anchor) == Some(a)
                    &&& final(self).active_comment_existing@ == comments@.filter(
                        |c: ReviewComment| comment_on(c, path@, line),
                    )
                    &&& opt_view(final(self).active_comment_pending_body) == draft_body(
                        old(self).pending_comments@,
                        a,
                    )
                    &&& final(self).pending_comments == old(self).pending_comments
                    &&& final(self).selected_file_index == old(self).selected_file_index
                    &&& final(self).submitting == old(self).submitting
                },
                _ => *final(self) == *old(self),
            },
    {
        let path = match selected_filename {
            Some(p) => p,
            None => {
                return ;
            },
        };
        let (line, side) = match tag {
            DiffLineTag::Delete => match old_line_num {
                Some(o) => (o as u64, side_name(true)),
                None => {
                    return ;
                },
            },
            _ => match new_line_num {
                Some(n) => (n as u64, side_name(false)),
                None => {
                    return ;
                },
            },
        };
        let anchor = CommentAnchor { path: path.to_owned(), line, side, display_line_index };
        proof {
            lemma_find_pending_range(pending_views(self.pending_comments@), anchor@, 0);
        }
        let existing = existing_comments_for(comments, path, line);
        let pending_body = match pending_index(&self.pending_comments, &anchor) {
            Some(i) => {
                let b = self.pending_comments[i].body.clone();
                assert(find_pending(pending_views(self.pending_comments@), anchor@, 0) == Some(i as int));
                assert(draft_body(self.pending_comments@, anchor@) == Some(b@));
                Some(b)
            },
            None => None,
        };
        self.active_comment_anchor = Some(anchor);
        self.active_comment_existing = existing;
        self.active_comment_pending_body = pending_body;
    }

    /// Saves the text typed in the open comment panel as the draft at the
    /// panel's anchor: it replaces the body of a draft already there, or is
    /// added as a new draft; then the panel closes.  Nothing changes when
    /// no panel is open, no text was typed, or the text is blank.
    pub fn save_pending_comment(&mut self, input_body: Option<&str>)
        ensures
            match (old(self).active_comment_anchor, input_body) {
                (Some(a), Some(body)) => if is_blank_text(body@) {
                    *final(self) == *old(self)
                } else {
                    &&& pending_views(final(self).pending_comments@) == upsert_spec(
                        pending_views(old(self).pending_comments@),
                        a@,
                        body@,
                    )
                    &&& final(self).active_comment_anchor is None
                    &&& final(self).active_comment_existing@.len() == 0
                    &&& final(self).active_comment_pending_body is None
                    &&& final(self).selected_file_index == old(self).selected_file_index
                    &&& final(self).submitting == old(self).submitting
                },
                _ => *final(self) == *old(self),
            },
    {
        let anchor = match &self.active_comment_anchor {
            Some(a) => a.duplicate(),
            None => {
                return ;
            },
        };
        let text = match input_body {
            Some(b) => b,
            None => {
                return ;
            },
        };
        let chars = chars_of(text);
        if is_blank(&chars) {
            return ;
        }
        let body = text.to_owned();
        let ghost pv = pending_views(self.pending_comments@);
        let ghost av = anchor@;
        proof {
            lemma_find_pending_range(pv, av, 0);
        }
        match pending_index(&self.pending_comments, &anchor) {
            Some(i) => {
                let ghost bv = body@;
                self.pending_comments.set(i, PendingComment { anchor, body });
                assert(pending_views(self.pending_comments@) =~= pv.update(
                    i as int,
                    PendingView { anchor: av, body: bv },
                ));
            },
            None => {
                let ghost bv = body@;
                self.pending_comments.push(PendingComment { anchor, body });
                assert(pending_views(self.pending_comments@) =~= pv.push(
                    PendingView { anchor: av, body: bv },
                ));
            },
        }
        self.close_comment_panel();
    }

    /// Submits the review with verdict `event`: hands back the request
    /// carrying every draft in order, drops the drafts and closes the
    /// panel.  A review already being submitted is left alone.
    pub fn submit_review(&mut self, event: &str) -> (r: Option<CreateReviewRequest>)
        ensures
            old(self).submitting ==> r is None && *final(self) == *old(self),
            !old(self).submitting ==> {
                &&& r matches Some(req) && req.body@.len() == 0 && req.event@ == event@
                    && req.comments@.len() == old(self).pending_comments@.len() && forall|i: int|
                    0 <= i < req.comments@.len() ==> carries_draft(
                        #[trigger] req.comments@[i],
                        old(self).pending_comments@[i],
                    )
                &&& final(self).pending_comments@.len() == 0
                &&& final(self).active_comment_anchor is None
                &&& final(self).active_comment_existing@.len() == 0
                &&& final(self).active_comment_pending_body is None
                &&& !final(self).submitting
                &&& final(self).selected_file_index == old(self).selected_file_index
            },
    {
        if self.submitting {
            return None;
        }
        self.submitting = true;
        let mut comments: Vec<CreateReviewComment> = Vec::new();
        let mut i: usize = 0;
        while i < self.pending_comments.len()
            invariant
                i <= self.pending_comments.len(),
                comments@.len() == i,
                forall|j: int| 0 <= j < i ==> carries_draft(#[trigger] comments@[j], self.pending_comments@[j]),
            decreases self.pending_comments.len() - i,
        {
            let pc = &self.pending_comments[i];
            comments.push(
                CreateReviewComment {
                    path: pc.anchor.path.clone(),
                    body: pc.body.clone(),
                    line: pc.anchor.line,
                    side: pc.anchor.side.clone(),
                },
            );
            i = i + 1;
        }
        let request = CreateReviewRequest { body: String::new(), event: event.to_owned(), comments };
        self.pending_comments.clear();
        self.close_comment_panel();
        self.submitting = false;
        Some(request)
    }
}


// ---------------------------------------------------------------------------
// Comment markers
// ---------------------------------------------------------------------------

/// The side of a posted comment; `"RIGHT"` when it names none.
pub open spec fn side_or_right(side: Option<String>) -> Seq<char> {
    match side {
        Some(s) => s@,
        None => right_side(),
    }
}

/// A draft on the file `path` marks its row.
pub open spec fn draft_marks(p: PendingComment, path: Seq<char>, row: usize) -> bool {
    p.anchor.path@ == path && p.anchor.display_line_index == row
}

/// A posted comment on a line of the file `path` marks the first row that
/// shows that line.
pub open spec fn posted_marks(c: ReviewComment, path: Seq<char>, ds: Seq<DisplayView>, row: usize) -> bool {
    c.path@ == path && match c.line {
        Some(l) => first_match(ds, l, side_or_right(c.side), 0) == Some(row as int),
        None => false,
    }
}

/// Whether a row of the diff of `path` carries a comment marker.
pub open spec fn is_marked(
    pending: Seq<PendingComment>,
    comments: Seq<ReviewComment>,
    ds: Seq<DisplayView>,
    path: Seq<char>,
    row: usize,
) -> bool {
    ||| exists|k: int| 0 <= k < pending.len() && draft_marks(#[trigger] pending[k], path, row)
    ||| exists|k: int| 0 <= k < comments.len() && posted_marks(#[trigger] comments[k], path, ds, row)
}

/// Strictly increasing, hence sorted and free of repeats.
pub open spec fn strictly_increasing(s: Seq<usize>) -> bool {
    forall|i: int, j: int| 0 <= i < j < s.len() ==> s[i] < s[j]
}

pub proof fn lemma_first_match_range(ds: Seq<DisplayView>, line: u64, side: Seq<char>, from: int)
    ensures
        first_match(ds, line, side, from) matches Some(i) ==> 0 <= from <= i < ds.len(),
    decreases ds.len() - from,
{
    if 0 <= from < ds.len() && !row_matches(ds[from], line, side) {
        lemma_first_match_range(ds, line, side, from + 1);
    }
}

/// Putting `x` at its place in a strictly increasing list keeps it so, and
/// adds just `x`.
pub proof fn lemma_insert_in_order(before: Seq<usize>, i: int, x: usize)
    requires
        strictly_increasing(before),
        0 <= i <= before.len(),
        forall|j: int| 0 <= j < i ==> before[j] < x,
        i < before.len() ==> before[i] > x,
    ensures
        strictly_increasing(before.insert(i, x)),
        forall|y: usize| before.insert(i, x).contains(y) <==> (before.contains(y) || y == x),
{
    let after = before.insert(i, x);
    assert forall|a: int, b: int| 0 <= a < b < after.len() implies after[a] < after[b] by {
        if b > i {
            assert(after[b] == before[b - 1]);
            assert(before[i] <= before[b - 1]);
            if a > i {
                assert(after[a] == before[a - 1]);
            }
        }
    }
    assert forall|y: usize| after.contains(y) <==> (before.contains(y) || y == x) by {
        if after.contains(y) {
            let k = choose|k: int| 0 <= k < after.len() && after[k] == y;
            if k < i {
                assert(before[k] == y);
            } else if k > i {
                assert(before[k - 1] == y);
            }
        }
        if before.contains(y) {
            let k = choose|k: int| 0 <= k < before.len() && before[k] == y;
            if k < i {
                assert(after[k] == y);
            } else {
                assert(after[k + 1] == y);
            }
        }
        if y == x {
            assert(after[i] == x);
        }
    }
}

/// Adds `x` to a strictly increasing list unless it is there already.
fn insert_mark(marks: &mut Vec<usize>, x: usize)
    requires
        strictly_increasing(old(marks)@),
    ensures
        strictly_increasing(final(marks)@),
        forall|y: usize| final(marks)@.contains(y) <==> (old(marks)@.contains(y) || y == x),
{
    let mut i: usize = 0;
    while i < marks.len() && marks[i] < x
        invariant
            i <= marks.len(),
            marks@ == old(marks)@,
            forall|j: int| 0 <= j < i ==> marks@[j] < x,
        decreases marks.len() - i,
    {
        i = i + 1;
    }
    if i < marks.len() && marks[i] == x {
        assert forall|y: usize| marks@.contains(y) <==> (old(marks)@.contains(y) || y == x) by {
            if y == x {
                assert(marks@[i as int] == x);
            }
        }
        return ;
    }
    let ghost before = marks@;
    proof {
        lemma_insert_in_order(before, i as int, x);
    }
    marks.insert(i, x);
    assert(marks@ == before.insert(i as int, x));
    assert(before == old(marks)@);
    assert forall|y: usize| marks@.contains(y) <==> (old(marks)@.contains(y) || y == x) by {
        assert(before.insert(i as int, x).contains(y) <==> (before.contains(y) || y == x));
    }
}

/// The rows of the diff of `path` that carry a comment marker, in order
/// and each once: the rows of the drafts on that file, and the first row
/// that shows the line of each posted comment on it (on its side, the new
/// side when it names none).
pub fn comment_marker_indices(
    pending: &[PendingComment],
    comments: &[ReviewComment],
    display_lines: &[DiffDisplayLine],
    path: &str,
) -> (r: Vec<usize>)
    ensures
        strictly_increasing(r@),
        forall|row: usize|
            r@.contains(row) <==> is_marked(pending@, comments@, display_views(display_lines@), path@, row),
{
    let ghost ds = display_views(display_lines@);
    let p = path.to_owned();
    let mut marks: Vec<usize> = Vec::new();
    let mut i: usize = 0;
    while i < pending.len()
        invariant
            i <= pending.len(),
            p@ == path@,
            strictly_increasing(marks@),
            forall|row: usize|
                marks@.contains(row) <==> exists|k: int|
                    0 <= k < i && draft_marks(#[trigger] pending@[k], path@, row),
        decreases pending.len() - i,
    {
        let ghost old_marks = marks@;
        if pending[i].anchor.path == p {
            insert_mark(&mut marks, pending[i].anchor.display_line_index);
        }
        assert forall|row: usize|
            marks@.contains(row) <==> exists|k: int|
                0 <= k < i + 1 && draft_marks(#[trigger] pending@[k], path@, row) by {
            if draft_marks(pending@[i as int], path@, row) {
                assert(marks@.contains(row));
            }
            if marks@.contains(row) && !old_marks.contains(row) {
                assert(draft_marks(pending@[i as int], path@, row));
            }
        }
        i = i + 1;
    }
    let mut j: usize = 0;
    while j < comments.len()
        invariant
            j <= comments.len(),
            p@ == path@,
            ds == display_views(display_lines@),
            strictly_increasing(marks@),
            forall|row: usize|
                marks@.contains(row) <==> (exists|k: int|
                    0 <= k < pending@.len() && draft_marks(#[trigger] pending@[k], path@, row))
                    || (exists|k: int|
                    0 <= k < j && posted_marks(#[trigger] comments@[k], path@, ds, row)),
        decreases comments.len() - j,
    {
        let ghost old_marks = marks@;
        let c = &comments[j];
        let mut found: Option<usize> = None;
        if c.path == p {
            match c.line {
                Some(l) => {
                    let side = match &c.side {
                        Some(s) => s.clone(),
                        None => side_name(false),
                    };
                    found = find_display_line_index(display_lines, l, side.as_str());
                    proof {
                        lemma_first_match_range(ds, l, side@, 0);
                    }
                },
                None => {},
            }
        }
        match found {
            Some(idx) => {
                insert_mark(&mut marks, idx);
            },
            None => {},
        }
        assert forall|row: usize|
            marks@.contains(row) <==> (exists|k: int|
                0 <= k < pending@.len() && draft_marks(#[trigger] pending@[k], path@, row))
                || (exists|k: int| 0 <= k < j + 1 && posted_marks(#[trigger] comments@[k], path@, ds, row)) by {
            if posted_marks(comments@[j as int], path@, ds, row) {
                assert(marks@.contains(row));
            }
            if marks@.contains(row) && !old_marks.contains(row) {
                assert(posted_marks(comments@[j as int], path@, ds, row));
            }
        }
        j = j + 1;
    }
    marks
}


// ---------------------------------------------------------------------------
// Inline comments
// ---------------------------------------------------------------------------

/// A comment with the line and side it is about.
pub struct EntryView {
    pub line: u64,
    pub side: Seq<char>,
    pub comment: InlineCommentView,
}

struct Entry {
    line: u64,
    side: String,
    comment: InlineComment,
}

spec fn entry_view(e: Entry) -> EntryView {
    EntryView { line: e.line, side: e.side@, comment: e.comment@ }
}

spec fn entry_views(es: Seq<Entry>) -> Seq<EntryView> {
    es.map_values(|e: Entry| entry_view(e))
}

/// `"You"`.
pub open spec fn you() -> Seq<char> {
    seq!['Y', 'o', 'u']
}

/// A posted comment as shown under its line.
pub open spec fn posted_entry(c: ReviewComment) -> EntryView {
    EntryView {
        line: match c.line {
            Some(l) => l,
            None => 0,
        },
        side: side_or_right(c.side),
        comment: InlineCommentView {
            author: c.user.login@,
            body: c.body@,
            created_at: c.created_at@,
            is_pending: false,
        },
    }
}

/// A draft as shown under its line: by `"You"`, with no time stamp.
pub open spec fn draft_entry(p: PendingComment) -> EntryView {
    EntryView {
        line: p.anchor.line,
        side: p.anchor.side@,
        comment: InlineCommentView { author: you(), body: p.body@, created_at: Seq::empty(), is_pending: true },
    }
}

/// The posted comments on a line of the file `path`, in order.
pub open spec fn posted_entries(cs: Seq<ReviewComment>, path: Seq<char>) -> Seq<EntryView>
    decreases cs.len(),
{
    if cs.len() == 0 {
        Seq::empty()
    } else {
        posted_entries(cs.drop_last(), path) + if cs.last().path@ == path && cs.last().line is Some {
            seq![posted_entry(cs.last())]
        } else {
            Seq::empty()
        }
    }
}

/// The drafts on the file `path`, in order.
pub open spec fn draft_entries(ps: Seq<PendingComment>, path: Seq<char>) -> Seq<EntryView>
    decreases ps.len(),
{
    if ps.len() == 0 {
        Seq::empty()
    } else {
        draft_entries(ps.drop_last(), path) + if ps.last().anchor.path@ == path {
            seq![draft_entry(ps.last())]
        } else {
            Seq::empty()
        }
    }
}

/// The comments shown in the diff of `path`: the posted ones, then the
/// drafts.
pub open spec fn comment_entries(cs: Seq<ReviewComment>, ps: Seq<PendingComment>, path: Seq<char>) -> Seq<
    EntryView,
> {
    posted_entries(cs, path) + draft_entries(ps, path)
}

/// Whether an entry is about `line` of `side`.
pub open spec fn same_key(e: EntryView, line: u64, side: Seq<char>) -> bool {
    e.line == line && e.side == side
}

/// The comments of the entries about `line` of `side`, in order.
pub open spec fn key_comments(es: Seq<EntryView>, line: u64, side: Seq<char>) -> Seq<InlineCommentView>
    decreases es.len(),
{
    if es.len() == 0 {
        Seq::empty()
    } else {
        key_comments(es.drop_last(), line, side) + if same_key(es.last(), line, side) {
            seq![es.last().comment]
        } else {
            Seq::empty()
        }
    }
}

/// Whether an entry before entry `i` is about the same line and side.
pub open spec fn seen_before(es: Seq<EntryView>, i: int) -> bool {
    exists|j: int| 0 <= j < i && same_key(#[trigger] es[j], es[i].line, es[i].side)
}

/// The attachments of the first `n` entries: one per line and side, in the
/// order in which each first occurs, holding all the comments about it.
pub open spec fn grouped(es: Seq<EntryView>, n: int) -> Seq<AttachmentView>
    decreases n,
{
    if n <= 0 {
        Seq::empty()
    } else {
        grouped(es, n - 1) + if seen_before(es, n - 1) {
            Seq::empty()
        } else {
            seq![
                AttachmentView {
                    line: es[n - 1].line,
                    side: es[n - 1].side,
                    comments: key_comments(es, es[n - 1].line, es[n - 1].side),
                },
            ]
        }
    }
}

fn clone_inline(c: &InlineComment) -> (r: InlineComment)
    ensures
        r@ == c@,
{
    InlineComment {
        author: c.author.clone(),
        body: c.body.clone(),
        created_at: c.created_at.clone(),
        is_pending: c.is_pending,
    }
}

/// `"You"`.
fn you_string() -> (s: String)
    ensures
        s@ == you(),
{
    let mut s = String::new();
    s.append("You");
    proof {
        reveal_strlit("You");
    }
    assert(s@ =~= you());
    s
}

/// The comments shown in the diff of `path`, posted ones then drafts.
fn collect_entries(comments: &[ReviewComment], pending: &[PendingComment], path: &str) -> (r: Vec<Entry>)
    ensures
        entry_views(r@) == comment_entries(comments@, pending@, path@),
{
    let p = path.to_owned();
    let mut r: Vec<Entry> = Vec::new();
    let mut i: usize = 0;
    assert(entry_views(r@) =~= posted_entries(comments@.take(0), path@));
    while i < comments.len()
        invariant
            i <= comments.len(),
            p@ == path@,
            entry_views(r@) == posted_entries(comments@.take(i as int), path@),
        decreases comments.len() - i,
    {
        let ghost before = entry_views(r@);
        assert(comments@.take(i + 1).drop_last() =~= comments@.take(i as int));
        let c = &comments[i];
        if c.path == p {
            match c.line {
                Some(l) => {
                    let side = match &c.side {
                        Some(s) => s.clone(),
                        None => side_name(false),
                    };
                    let comment = InlineComment {
                        author: c.user.login.clone(),
                        body: c.body.clone(),
                        created_at: c.created_at.clone(),
                        is_pending: false,
                    };
                    r.push(Entry { line: l, side, comment });
                    assert(entry_views(r@) =~= before + seq![posted_entry(comments@[i as int])]);
                },
                None => {
                    assert(entry_views(r@) =~= before + Seq::<EntryView>::empty());
                },
            }
        } else {
            assert(entry_views(r@) =~= before + Seq::<EntryView>::empty());
        }
        i = i + 1;
    }
    assert(comments@.take(comments.len() as int) =~= comments@);
    let ghost posted = entry_views(r@);
    let mut k: usize = 0;
    assert(entry_views(r@) =~= posted + draft_entries(pending@.take(0), path@));
    while k < pending.len()
        invariant
            k <= pending.len(),
            p@ == path@,
            posted == posted_entries(comments@, path@),
            entry_views(r@) == posted + draft_entries(pending@.take(k as int), path@),
        decreases pending.len() - k,
    {
        let ghost before = entry_views(r@);
        assert(pending@.take(k + 1).drop_last() =~= pending@.take(k as int));
        let pc = &pending[k];
        if pc.anchor.path == p {
            let comment = InlineComment {
                author: you_string(),
                body: pc.body.clone(),
                created_at: String::new(),
                is_pending: true,
            };
            r.push(Entry { line: pc.anchor.line, side: pc.anchor.side.clone(), comment });
            assert(entry_views(r@) =~= before + seq![draft_entry(pending@[k as int])]);
            assert(draft_entries(pending@.take(k + 1), path@) =~= draft_entries(pending@.take(k as int), path@)
                + seq![draft_entry(pending@[k as int])]);
        } else {
            assert(draft_entries(pending@.take(k + 1), path@) =~= draft_entries(pending@.take(k as int), path@)
                + Seq::<EntryView>::empty());
        }
        k = k + 1;
    }
    assert(pending@.take(pending.len() as int) =~= pending@);
    r
}

/// The comments of the entries about `line` of `side`, in order.
fn comments_with_key(entries: &Vec<Entry>, line: u64, side: &String) -> (r: Vec<InlineComment>)
    ensures
        r@.map_values(|c: InlineComment| c@) == key_comments(entry_views(entries@), line, side@),
{
    let ghost es = entry_views(entries@);
    let mut r: Vec<InlineComment> = Vec::new();
    let mut k: usize = 0;
    assert(r@.map_values(|c: InlineComment| c@) =~= key_comments(es.take(0), line, side@));
    while k < entries.len()
        invariant
            k <= entries.len(),
            es == entry_views(entries@),
            r@.map_values(|c: InlineComment| c@) == key_comments(es.take(k as int), line, side@),
        decreases entries.len() - k,
    {
        let ghost before = r@.map_values(|c: InlineComment| c@);
        assert(es.take(k + 1).drop_last() =~= es.take(k as int));
        assert(es[k as int] == entry_view(entries@[k as int]));
        let e = &entries[k];
        if e.line == line && e.side == *side {
            r.push(clone_inline(&e.comment));
            assert(r@.map_values(|c: InlineComment| c@) =~= before + seq![es[k as int].comment]);
        } else {
            assert(r@.map_values(|c: InlineComment| c@) =~= before + Seq::<InlineCommentView>::empty());
        }
        k = k + 1;
    }
    assert(es.take(entries.len() as int) =~= es);
    r
}

/// Whether an entry before entry `i` is about the same line and side.
fn key_seen_before(entries: &Vec<Entry>, i: usize) -> (b: bool)
    requires
        i < entries.len(),
    ensures
        b == seen_before(entry_views(entries@), i as int),
{
    let ghost es = entry_views(entries@);
    let mut j: usize = 0;
    while j < i
        invariant
            j <= i < entries.len(),
            es == entry_views(entries@),
            forall|m: int| 0 <= m < j ==> !same_key(#[trigger] es[m], es[i as int].line, es[i as int].side),
        decreases i - j,
    {
        assert(es[j as int] == entry_view(entries@[j as int]));
        assert(es[i as int] == entry_view(entries@[i as int]));
        if entries[j].line == entries[i].line && entries[j].side == entries[i].side {
            assert(same_key(es[j as int], es[i as int].line, es[i as int].side));
            return true;
        }
        j = j + 1;
    }
    false
}

/// The comments to show under the lines of the diff of `path`: one
/// attachment per commented line and side, in the order in which each
/// first occurs, holding the posted comments on it (on the side they name,
/// the new side when they name none) and then the drafts there.
pub fn inline_attachments(comments: &[ReviewComment], pending: &[PendingComment], path: &str) -> (r: Vec<
    CommentAttachment,
>)
    ensures
        ({
            let es = comment_entries(comments@, pending@, path@);
            attachments_view(r@) == grouped(es, es.len() as int)
        }),
{
    let entries = collect_entries(comments, pending, path);
    let ghost es = entry_views(entries@);
    let mut r: Vec<CommentAttachment> = Vec::new();
    let mut i: usize = 0;
    while i < entries.len()
        invariant
            i <= entries.len(),
            es == entry_views(entries@),
            attachments_view(r@) == grouped(es, i as int),
        decreases entries.len() - i,
    {
        let ghost before = attachments_view(r@);
        assert(es[i as int] == entry_view(entries@[i as int]));
        if !key_seen_before(&entries, i) {
            let cs = comments_with_key(&entries, entries[i].line, &entries[i].side);
            r.push(CommentAttachment { line: entries[i].line, side: entries[i].side.clone(), comments: cs });
            assert(attachments_view(r@) =~= before + seq![
                AttachmentView {
                    line: es[i as int].line,
                    side: es[i as int].side,
                    comments: key_comments(es, es[i as int].line, es[i as int].side),
                },
            ]);
        } else {
            assert(attachments_view(r@) =~= before + Seq::<AttachmentView>::empty());
        }
        i = i + 1;
    }
    r
}


// ---------------------------------------------------------------------------
// Laws
// ---------------------------------------------------------------------------

/// Going back from the file after file `i` shows file `i` again.
pub proof fn law_prev_undoes_next(i: int, n: int)
    requires
        0 <= i < n,
    ensures
        prev_index(next_index(i, n), n) == i,
{
    if i + 1 < n {
        vstd::arithmetic::div_mod::lemma_small_mod((i + 1) as nat, n as nat);
    } else {
        vstd::arithmetic::div_mod::lemma_mod_self_0(n);
    }
}

/// Going forward from the file before file `i` shows file `i` again.
pub proof fn law_next_undoes_prev(i: int, n: int)
    requires
        0 <= i < n,
    ensures
        next_index(prev_index(i, n), n) == i,
{
    if i == 0 {
        vstd::arithmetic::div_mod::lemma_mod_self_0(n);
    } else {
        vstd::arithmetic::div_mod::lemma_small_mod(i as nat, n as nat);
    }
}

/// Going to the next file `k` times moves `k` places round the list.
pub proof fn lemma_next_times(i: int, n: int, k: nat)
    requires
        0 <= i < n,
    ensures
        next_times(i, n, k) == (i + k) % n,
    decreases k,
{
    if k == 0 {
        vstd::arithmetic::div_mod::lemma_small_mod(i as nat, n as nat);
    } else {
        lemma_next_times(i, n, (k - 1) as nat);
        let m = i + k - 1;
        vstd::arithmetic::div_mod::lemma_add_mod_noop_right(1, m, n);
        assert(1 + m == i + k);
    }
}

/// Going to the next file as many times as there are files comes back to
/// the file shown first.
pub proof fn law_next_cycles(i: int, n: int)
    requires
        0 <= i < n,
    ensures
        next_times(i, n, n as nat) == i,
{
    lemma_next_times(i, n, n as nat);
    vstd::arithmetic::div_mod::lemma_mod_add_multiples_vanish(i, n);
    vstd::arithmetic::div_mod::lemma_small_mod(i as nat, n as nat);
    assert(n + i == i + n);
}

pub proof fn lemma_find_pending_spec(p: Seq<PendingView>, a: AnchorView, from: int)
    requires
        0 <= from <= p.len(),
    ensures
        match find_pending(p, a, from) {
            Some(i) => from <= i < p.len() && p[i].anchor == a && forall|k: int|
                from <= k < i ==> (#[trigger] p[k]).anchor != a,
            None => forall|k: int| from <= k < p.len() ==> (#[trigger] p[k]).anchor != a,
        },
    decreases p.len() - from,
{
    if from < p.len() && p[from].anchor != a {
        lemma_find_pending_spec(p, a, from + 1);
    }
}

/// The first draft at `a` is draft `i` when draft `i` is at `a` and none
/// before it is.
pub proof fn lemma_find_pending_is(p: Seq<PendingView>, a: AnchorView, i: int)
    requires
        0 <= i < p.len(),
        p[i].anchor == a,
        forall|k: int| 0 <= k < i ==> (#[trigger] p[k]).anchor != a,
    ensures
        find_pending(p, a, 0) == Some(i),
{
    lemma_find_pending_spec(p, a, 0);
    match find_pending(p, a, 0) {
        Some(j) => {
            if j < i {
                assert(p[j].anchor != a);
            }
            if j > i {
                assert(p[i].anchor != a);
            }
        },
        None => {
            assert(p[i].anchor != a);
        },
    }
}

/// After saving a draft at `a`, the draft found at `a` is the one just
/// saved: reopening the panel there shows the saved text.
pub proof fn law_saved_draft_reopens(p: Seq<PendingView>, a: AnchorView, body: Seq<char>)
    ensures
        ({
            let q = upsert_spec(p, a, body);
            find_pending(q, a, 0) matches Some(i) && q[i] == PendingView { anchor: a, body }
        }),
{
    lemma_find_pending_spec(p, a, 0);
    let q = upsert_spec(p, a, body);
    match find_pending(p, a, 0) {
        Some(i) => {
            assert forall|k: int| 0 <= k < i implies (#[trigger] q[k]).anchor != a by {
                assert(q[k] == p[k]);
            }
            lemma_find_pending_is(q, a, i);
        },
        None => {
            assert forall|k: int| 0 <= k < p.len() implies (#[trigger] q[k]).anchor != a by {
                assert(q[k] == p[k]);
            }
            lemma_find_pending_is(q, a, p.len() as int);
        },
    }
}

/// Saving at an anchor twice leaves what saving the second text alone
/// leaves: the second save replaces the first draft, it adds none.
pub proof fn law_save_twice_keeps_one_draft(p: Seq<PendingView>, a: AnchorView, first: Seq<char>, second: Seq<char>)
    ensures
        upsert_spec(upsert_spec(p, a, first), a, second) == upsert_spec(p, a, second),
{
    lemma_find_pending_spec(p, a, 0);
    let q = upsert_spec(p, a, first);
    law_saved_draft_reopens(p, a, first);
    match find_pending(p, a, 0) {
        Some(i) => {
            assert forall|k: int| 0 <= k < i implies (#[trigger] q[k]).anchor != a by {
                assert(q[k] == p[k]);
            }
            lemma_find_pending_is(q, a, i);
            assert(upsert_spec(q, a, second) =~= upsert_spec(p, a, second));
        },
        None => {
            assert forall|k: int| 0 <= k < p.len() implies (#[trigger] q[k]).anchor != a by {
                assert(q[k] == p[k]);
            }
            lemma_find_pending_is(q, a, p.len() as int);
            assert(upsert_spec(q, a, second) =~= upsert_spec(p, a, second));
        },
    }
}

/// No two drafts share an anchor.
pub open spec fn anchors_distinct(p: Seq<PendingView>) -> bool {
    forall|i: int, j: int| 0 <= i < j < p.len() ==> p[i].anchor != p[j].anchor
}

/// Saving keeps one draft per anchor, leaves every draft at another anchor
/// as it was, and adds a draft only where there was none.
pub proof fn law_save_keeps_one_draft_per_anchor(p: Seq<PendingView>, a: AnchorView, body: Seq<char>)
    requires
        anchors_distinct(p),
    ensures
        ({
            let q = upsert_spec(p, a, body);
            &&& anchors_distinct(q)
            &&& forall|k: int| 0 <= k < p.len() && p[k].anchor != a ==> #[trigger] q[k] == p[k]
            &&& q.len() == p.len() + if find_pending(p, a, 0) is Some { 0int } else { 1int }
        }),
{
    lemma_find_pending_spec(p, a, 0);
}

} // verus!
