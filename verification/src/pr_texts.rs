//! The texts the pull-request views show: state and verdict labels, the
//! lines that introduce a pull request, the number and file-count labels,
//! the author a commit row names, and the change totals of a pull request.
use vstd::prelude::*;
use crate::editor_layout::{decimal_digits, decimal_text};
use crate::pr_detail::{PrFile, PullRequestState, ReviewState};

verus! {

/// The label of a pull request's state.
pub open spec fn state_label_spec(s: PullRequestState) -> Seq<char> {
    match s {
        PullRequestState::Open => "Open"@,
        PullRequestState::Closed => "Closed"@,
        PullRequestState::Merged => "Merged"@,
    }
}

/// The label of a pull request's state.
pub fn state_label(s: PullRequestState) -> (r: String)
    ensures
        r@ == state_label_spec(s),
{
    let mut out = String::new();
    match s {
        PullRequestState::Open => out.append("Open"),
        PullRequestState::Closed => out.append("Closed"),
        PullRequestState::Merged => out.append("Merged"),
    }
    out
}

/// What a review did, as its row says it.
pub open spec fn verdict_label_spec(s: ReviewState) -> Seq<char> {
    match s {
        ReviewState::Approved => "approved"@,
        ReviewState::ChangesRequested => "requested changes"@,
        ReviewState::Commented => "reviewed"@,
        ReviewState::Dismissed => "dismissed review"@,
        ReviewState::Pending => "pending review"@,
    }
}

/// What a review did, as its row says it.
pub fn verdict_label(s: ReviewState) -> (r: String)
    ensures
        r@ == verdict_label_spec(s),
{
    let mut out = String::new();
    match s {
        ReviewState::Approved => out.append("approved"),
        ReviewState::ChangesRequested => out.append("requested changes"),
        ReviewState::Commented => out.append("reviewed"),
        ReviewState::Dismissed => out.append("dismissed review"),
        ReviewState::Pending => out.append("pending review"),
    }
    out
}

/// `#` and the number of a pull request.
pub fn number_label(n: u64) -> (r: String)
    ensures
        r@ == "#"@ + decimal_digits(n as nat),
{
    let mut out = String::new();
    out.append("#");
    out.append(decimal_text(n).as_str());
    out
}

/// The line under a pull request's title: who wants to merge which branch
/// into which.
pub fn merge_line(author: &str, base: &str, head: &str) -> (r: String)
    ensures
        r@ == author@ + " wants to merge into "@ + base@ + " from "@ + head@,
{
    let mut out = String::new();
    out.append(author);
    out.append(" wants to merge into ");
    out.append(base);
    out.append(" from ");
    out.append(head);
    out
}

/// The line over a pull request's description.
pub fn opened_line(author: &str) -> (r: String)
    ensures
        r@ == author@ + " opened this pull request"@,
{
    let mut out = String::new();
    out.append(author);
    out.append(" opened this pull request");
    out
}

/// The number of changed files: `1 file`, else the count and `files`.
pub open spec fn file_count_label_spec(n: usize) -> Seq<char> {
    decimal_digits(n as nat) + if n == 1 {
        " file"@
    } else {
        " files"@
    }
}

/// The number of changed files.
pub fn file_count_label(n: usize) -> (r: String)
    ensures
        r@ == file_count_label_spec(n),
{
    let mut out = decimal_text(n as u64);
    if n == 1 {
        out.append(" file");
    } else {
        out.append(" files");
    }
    out
}

/// The author a commit row names: the account login when there is one,
/// else the name recorded in the commit.
pub fn commit_author_label(author: &Option<String>, author_name: &String) -> (r: String)
    ensures
        r@ == match author {
            Some(login) => login@,
            None => author_name@,
        },
{
    match author {
        Some(login) => login.clone(),
        None => author_name.clone(),
    }
}

/// The lines added over the first `n` files.
pub open spec fn added_lines(files: Seq<PrFile>, n: int) -> int
    decreases n,
{
    if n <= 0 {
        0
    } else {
        added_lines(files, n - 1) + files[n - 1].additions
    }
}

/// The lines removed over the first `n` files.
pub open spec fn removed_lines(files: Seq<PrFile>, n: int) -> int
    decreases n,
{
    if n <= 0 {
        0
    } else {
        removed_lines(files, n - 1) + files[n - 1].deletions
    }
}

proof fn lemma_sums_grow(files: Seq<PrFile>, i: int, n: int)
    requires
        0 <= i <= n <= files.len(),
    ensures
        added_lines(files, i) <= added_lines(files, n),
        removed_lines(files, i) <= removed_lines(files, n),
    decreases n - i,
{
    if i < n {
        lemma_sums_grow(files, i + 1, n);
    }
}

/// The lines a pull request adds and removes over all its files.
pub fn change_totals(files: &[PrFile]) -> (r: (u64, u64))
    requires
        added_lines(files@, files@.len() as int) <= u64::MAX,
        removed_lines(files@, files@.len() as int) <= u64::MAX,
    ensures
        r.0 == added_lines(files@, files@.len() as int),
        r.1 == removed_lines(files@, files@.len() as int),
{
    let mut add: u64 = 0;
    let mut del: u64 = 0;
    let mut i: usize = 0;
    while i < files.len()
        invariant
            i <= files.len(),
            added_lines(files@, files@.len() as int) <= u64::MAX,
            removed_lines(files@, files@.len() as int) <= u64::MAX,
            add == added_lines(files@, i as int),
            del == removed_lines(files@, i as int),
        decreases files.len() - i,
    {
        proof {
            lemma_sums_grow(files@, i + 1, files@.len() as int);
        }
        add = add + files[i].additions;
        del = del + files[i].deletions;
        i = i + 1;
    }
    (add, del)
}

/// `+` and the number of added lines, as the summary shows it.
pub fn added_label(n: u64) -> (r: String)
    ensures
        r@ == "+"@ + decimal_digits(n as nat),
{
    let mut out = String::new();
    out.append("+");
    out.append(decimal_text(n).as_str());
    out
}

/// `-` and the number of removed lines, as the summary shows it.
pub fn removed_label(n: u64) -> (r: String)
    ensures
        r@ == "-"@ + decimal_digits(n as nat),
{
    let mut out = String::new();
    out.append("-");
    out.append(decimal_text(n).as_str());
    out
}

// ---------------------------------------------------------------------------
// The review view
// ---------------------------------------------------------------------------

/// The last part of a path: what follows its last `/`, or the whole path.
pub open spec fn base_name_spec(path: Seq<char>) -> Seq<char>
    decreases path.len(),
{
    if path.len() == 0 {
        path
    } else if path.last() == '/' {
        Seq::empty()
    } else {
        base_name_spec(path.drop_last()).push(path.last())
    }
}

/// The name a file of the review list shows: the last part of its path.
pub fn base_name(path: &str) -> (r: String)
    ensures
        r@ == base_name_spec(path@),
{
    let cs = crate::text::chars_of(path);
    let mut start = cs.len();
    assert(cs@.take(start as int) =~= cs@);
    assert(base_name_spec(cs@) + cs@.skip(start as int) =~= base_name_spec(cs@));
    while start > 0 && cs[start - 1] != '/'
        invariant
            start <= cs.len(),
            base_name_spec(cs@) == base_name_spec(cs@.take(start as int)) + cs@.skip(start as int),
        decreases start,
    {
        let ghost t = cs@.take(start as int);
        assert(t.drop_last() =~= cs@.take(start - 1));
        assert(cs@.skip(start - 1) =~= seq![cs@[start - 1]] + cs@.skip(start as int));
        assert(base_name_spec(t) == base_name_spec(t.drop_last()).push(t.last()));
        assert(base_name_spec(t) + cs@.skip(start as int) =~= base_name_spec(cs@.take(start - 1)) + cs@.skip(start - 1));
        start = start - 1;
    }
    let ghost t = cs@.take(start as int);
    assert(base_name_spec(t) =~= Seq::<char>::empty());
    let r = crate::text::string_of(&cs, start, cs.len());
    assert(r@ =~= cs@.skip(start as int));
    assert(cs@.take(cs.len() as int) =~= cs@);
    r
}

/// The title line of the review view: `#`, the number, a space and the
/// title.
pub fn review_title(n: u64, title: &str) -> (r: String)
    ensures
        r@ == "#"@ + decimal_digits(n as nat) + " "@ + title@,
{
    let mut out = number_label(n);
    out.append(" ");
    out.append(title);
    out
}

/// The count of comments not yet submitted.
pub fn pending_label(n: usize) -> (r: String)
    ensures
        r@ == decimal_digits(n as nat) + " pending"@,
{
    let mut out = decimal_text(n as u64);
    out.append(" pending");
    out
}

/// The heading of the list of files under review.
pub fn files_heading(n: usize) -> (r: String)
    ensures
        r@ == "FILES ("@ + decimal_digits(n as nat) + ")"@,
{
    let mut out = String::new();
    out.append("FILES (");
    out.append(decimal_text(n as u64).as_str());
    out.append(")");
    out
}

/// The line a comment panel is about.
pub fn anchor_label(line: u64, path: &str) -> (r: String)
    ensures
        r@ == "Line "@ + decimal_digits(line as nat) + " in "@ + path@,
{
    let mut out = String::new();
    out.append("Line ");
    out.append(decimal_text(line).as_str());
    out.append(" in ");
    out.append(path);
    out
}

/// The heading of a posted comment: `@`, the author, and the date in
/// brackets.
pub fn comment_heading(login: &str, date: &str) -> (r: String)
    ensures
        r@ == "@"@ + login@ + " ("@ + date@ + ")"@,
{
    let mut out = String::new();
    out.append("@");
    out.append(login);
    out.append(" (");
    out.append(date);
    out.append(")");
    out
}

/// The label of a review tab.
pub fn review_tab_label(n: u64) -> (r: String)
    ensures
        r@ == "PR #"@ + decimal_digits(n as nat),
{
    let mut out = String::new();
    out.append("PR #");
    out.append(decimal_text(n).as_str());
    out
}

} // verus!
