//! The pull-request records the hosting service reports, field by field as
//! present or missing, and how they become the library's comments, reviews,
//! commits and files: an item without its key field is skipped, a missing
//! text field reads as empty.
use vstd::prelude::*;
use crate::editor_layout::{decimal_digits, decimal_text};
use crate::pr_detail::{
    file_status_from_api, file_status_spec, review_state_from_api, review_state_spec, PrComment, PrCommit, PrFile,
    PrFileStatus, PrReview, ReviewState,
};

verus! {

/// A conversation comment as reported: author login, body, creation time.
#[derive(Clone, Debug)]
pub struct ApiComment {
    pub login: Option<String>,
    pub body: Option<String>,
    pub created_at: Option<String>,
}

/// A review as reported: author login, body, submission time and state.
#[derive(Clone, Debug)]
pub struct ApiReview {
    pub login: Option<String>,
    pub body: Option<String>,
    pub submitted_at: Option<String>,
    pub state: Option<String>,
}

/// A commit as reported: hash, message, author name and date from the
/// commit, and the author's account login.
#[derive(Clone, Debug)]
pub struct ApiCommit {
    pub sha: Option<String>,
    pub message: Option<String>,
    pub author_name: Option<String>,
    pub author_login: Option<String>,
    pub date: Option<String>,
}

/// A changed file as reported.
#[derive(Clone, Debug)]
pub struct ApiFile {
    pub filename: Option<String>,
    pub status: Option<String>,
    pub additions: Option<u64>,
    pub deletions: Option<u64>,
    pub patch: Option<String>,
    pub previous_filename: Option<String>,
}

/// The text of a field that may be missing: empty when it is.
pub open spec fn text_or_empty(o: Option<String>) -> Seq<char> {
    match o {
        Some(s) => s@,
        None => Seq::empty(),
    }
}

/// The text of a field that may be missing, kept optional.
pub open spec fn opt_text(o: Option<String>) -> Option<Seq<char>> {
    match o {
        Some(s) => Some(s@),
        None => None,
    }
}

fn text_of(o: &Option<String>) -> (r: String)
    ensures
        r@ == text_or_empty(*o),
{
    match o {
        Some(s) => s.clone(),
        None => String::new(),
    }
}

fn opt_text_of(o: &Option<String>) -> (r: Option<String>)
    ensures
        opt_text(r) == opt_text(*o),
{
    match o {
        Some(s) => Some(s.clone()),
        None => None,
    }
}

// ---------------------------------------------------------------------------
// Comments
// ---------------------------------------------------------------------------

/// A comment as author, body and creation time.
pub open spec fn comment_view(c: PrComment) -> (Seq<char>, Seq<char>, Seq<char>) {
    (c.author@, c.body@, c.created_at@)
}

/// The comment a record gives: none without an author login.
pub open spec fn comment_of(item: ApiComment) -> Option<(Seq<char>, Seq<char>, Seq<char>)> {
    match item.login {
        Some(login) => Some((login@, text_or_empty(item.body), text_or_empty(item.created_at))),
        None => None,
    }
}

/// The comments of the reported records, in order; records without an
/// author login are skipped.
pub fn parse_comments(items: &[ApiComment]) -> (r: Vec<PrComment>)
    ensures
        r@.map_values(|c: PrComment| comment_view(c)) == items@.filter_map(|it: ApiComment| comment_of(it)),
{
    let mut out: Vec<PrComment> = Vec::new();
    let mut i: usize = 0;
    assert(items@.take(0).filter_map(|it: ApiComment| comment_of(it)) =~= Seq::empty());
    while i < items.len()
        invariant
            i <= items.len(),
            out@.map_values(|c: PrComment| comment_view(c)) == items@.take(i as int).filter_map(
                |it: ApiComment| comment_of(it),
            ),
        decreases items.len() - i,
    {
        let item = &items[i];
        let ghost before = out@;
        assert(items@.take(i + 1).drop_last() =~= items@.take(i as int));
        assert(items@.take(i + 1).last() == items@[i as int]);
        match &item.login {
            Some(login) => {
                let c = PrComment { author: login.clone(), body: text_of(&item.body), created_at: text_of(&item.created_at) };
                out.push(c);
                assert(out@.map_values(|c: PrComment| comment_view(c)) =~= before.map_values(
                    |c: PrComment| comment_view(c),
                ).push(comment_of(*item)->0));
            },
            None => {},
        }
        i = i + 1;
    }
    assert(items@.take(i as int) =~= items@);
    out
}

// ---------------------------------------------------------------------------
// Reviews
// ---------------------------------------------------------------------------

/// A review as author, body, verdict and submission time.
pub open spec fn review_view(r: PrReview) -> (Seq<char>, Seq<char>, ReviewState, Seq<char>) {
    (r.author@, r.body@, r.state, r.created_at@)
}

/// The review a record gives: none without an author login; a missing
/// state reads as pending.
pub open spec fn review_of(item: ApiReview) -> Option<(Seq<char>, Seq<char>, ReviewState, Seq<char>)> {
    match item.login {
        Some(login) => Some(
            (
                login@,
                text_or_empty(item.body),
                review_state_spec(text_or_empty(item.state)),
                text_or_empty(item.submitted_at),
            ),
        ),
        None => None,
    }
}

/// The reviews of the reported records, in order; records without an
/// author login are skipped.
pub fn parse_reviews(items: &[ApiReview]) -> (r: Vec<PrReview>)
    ensures
        r@.map_values(|x: PrReview| review_view(x)) == items@.filter_map(|it: ApiReview| review_of(it)),
{
    let mut out: Vec<PrReview> = Vec::new();
    let mut i: usize = 0;
    assert(items@.take(0).filter_map(|it: ApiReview| review_of(it)) =~= Seq::empty());
    while i < items.len()
        invariant
            i <= items.len(),
            out@.map_values(|x: PrReview| review_view(x)) == items@.take(i as int).filter_map(
                |it: ApiReview| review_of(it),
            ),
        decreases items.len() - i,
    {
        let item = &items[i];
        let ghost before = out@;
        assert(items@.take(i + 1).drop_last() =~= items@.take(i as int));
        assert(items@.take(i + 1).last() == items@[i as int]);
        match &item.login {
            Some(login) => {
                let state_text = text_of(&item.state);
                let state = review_state_from_api(state_text.as_str());
                let x = PrReview {
                    author: login.clone(),
                    body: text_of(&item.body),
                    state,
                    created_at: text_of(&item.submitted_at),
                };
                out.push(x);
                assert(out@.map_values(|x: PrReview| review_view(x)) =~= before.map_values(
                    |x: PrReview| review_view(x),
                ).push(review_of(*item)->0));
            },
            None => {},
        }
        i = i + 1;
    }
    assert(items@.take(i as int) =~= items@);
    out
}

// ---------------------------------------------------------------------------
// Commits
// ---------------------------------------------------------------------------

/// A commit as hash, message, author name, author login and date.
pub open spec fn commit_view(c: PrCommit) -> (Seq<char>, Seq<char>, Seq<char>, Option<Seq<char>>, Seq<char>) {
    (c.sha@, c.message@, c.author_name@, opt_text(c.author), c.date@)
}

/// The commit a record gives: none without a hash.
pub open spec fn commit_of(item: ApiCommit) -> Option<(Seq<char>, Seq<char>, Seq<char>, Option<Seq<char>>, Seq<char>)> {
    match item.sha {
        Some(sha) => Some(
            (
                sha@,
                text_or_empty(item.message),
                text_or_empty(item.author_name),
                opt_text(item.author_login),
                text_or_empty(item.date),
            ),
        ),
        None => None,
    }
}

/// The commits of the reported records, in order; records without a hash
/// are skipped.
pub fn parse_commits(items: &[ApiCommit]) -> (r: Vec<PrCommit>)
    ensures
        r@.map_values(|x: PrCommit| commit_view(x)) == items@.filter_map(|it: ApiCommit| commit_of(it)),
{
    let mut out: Vec<PrCommit> = Vec::new();
    let mut i: usize = 0;
    assert(items@.take(0).filter_map(|it: ApiCommit| commit_of(it)) =~= Seq::empty());
    while i < items.len()
        invariant
            i <= items.len(),
            out@.map_values(|x: PrCommit| commit_view(x)) == items@.take(i as int).filter_map(
                |it: ApiCommit| commit_of(it),
            ),
        decreases items.len() - i,
    {
        let item = &items[i];
        let ghost before = out@;
        assert(items@.take(i + 1).drop_last() =~= items@.take(i as int));
        assert(items@.take(i + 1).last() == items@[i as int]);
        match &item.sha {
            Some(sha) => {
                let x = PrCommit {
                    sha: sha.clone(),
                    message: text_of(&item.message),
                    author_name: text_of(&item.author_name),
                    author: opt_text_of(&item.author_login),
                    date: text_of(&item.date),
                };
                out.push(x);
                assert(out@.map_values(|x: PrCommit| commit_view(x)) =~= before.map_values(
                    |x: PrCommit| commit_view(x),
                ).push(commit_of(*item)->0));
            },
            None => {},
        }
        i = i + 1;
    }
    assert(items@.take(i as int) =~= items@);
    out
}

// ---------------------------------------------------------------------------
// Files
// ---------------------------------------------------------------------------

/// A changed file as name, status, counts, patch and former name.
pub open spec fn file_view(f: PrFile) -> (Seq<char>, PrFileStatus, u64, u64, Option<Seq<char>>, Option<Seq<char>>) {
    (f.filename@, f.status, f.additions, f.deletions, opt_text(f.patch), opt_text(f.previous_filename))
}

/// A count that may be missing: zero when it is.
pub open spec fn count_or_zero(o: Option<u64>) -> u64 {
    match o {
        Some(n) => n,
        None => 0,
    }
}

/// The file a record gives: none without a file name; a missing status
/// reads as a modification.
pub open spec fn file_of(item: ApiFile) -> Option<(Seq<char>, PrFileStatus, u64, u64, Option<Seq<char>>, Option<Seq<char>>)> {
    match item.filename {
        Some(name) => Some(
            (
                name@,
                file_status_spec(text_or_empty(item.status)),
                count_or_zero(item.additions),
                count_or_zero(item.deletions),
                opt_text(item.patch),
                opt_text(item.previous_filename),
            ),
        ),
        None => None,
    }
}

/// The files of the reported records, in order; records without a file
/// name are skipped.
pub fn parse_files(items: &[ApiFile]) -> (r: Vec<PrFile>)
    ensures
        r@.map_values(|x: PrFile| file_view(x)) == items@.filter_map(|it: ApiFile| file_of(it)),
{
    let mut out: Vec<PrFile> = Vec::new();
    let mut i: usize = 0;
    assert(items@.take(0).filter_map(|it: ApiFile| file_of(it)) =~= Seq::empty());
    while i < items.len()
        invariant
            i <= items.len(),
            out@.map_values(|x: PrFile| file_view(x)) == items@.take(i as int).filter_map(|it: ApiFile| file_of(it)),
        decreases items.len() - i,
    {
        let item = &items[i];
        let ghost before = out@;
        assert(items@.take(i + 1).drop_last() =~= items@.take(i as int));
        assert(items@.take(i + 1).last() == items@[i as int]);
        match &item.filename {
            Some(name) => {
                let status_text = text_of(&item.status);
                let status = file_status_from_api(status_text.as_str());
                let additions = match item.additions {
                    Some(n) => n,
                    None => 0,
                };
                let deletions = match item.deletions {
                    Some(n) => n,
                    None => 0,
                };
                let x = PrFile {
                    filename: name.clone(),
                    status,
                    additions,
                    deletions,
                    patch: opt_text_of(&item.patch),
                    previous_filename: opt_text_of(&item.previous_filename),
                };
                out.push(x);
                assert(out@.map_values(|x: PrFile| file_view(x)) =~= before.map_values(|x: PrFile| file_view(x)).push(
                    file_of(*item)->0,
                ));
            },
            None => {},
        }
        i = i + 1;
    }
    assert(items@.take(i as int) =~= items@);
    out
}


/// The five resources a pull request's detail is read from.
#[derive(Clone, Copy, Debug, PartialEq, Eq, Structural)]
pub enum PrEndpoint {
    Body,
    Comments,
    Reviews,
    Commits,
    Files,
}

/// What follows the pull request's number in the address of a resource,
/// with the page size each one asks for.
pub open spec fn endpoint_suffix(e: PrEndpoint) -> Seq<char> {
    match e {
        PrEndpoint::Body => ""@,
        PrEndpoint::Comments => "/comments?per_page=100"@,
        PrEndpoint::Reviews => "/reviews?per_page=100"@,
        PrEndpoint::Commits => "/commits?per_page=250"@,
        PrEndpoint::Files => "/files?per_page=100"@,
    }
}

/// The collection a resource hangs under: conversation comments are issue
/// comments, everything else belongs to the pull.
pub open spec fn endpoint_collection(e: PrEndpoint) -> Seq<char> {
    match e {
        PrEndpoint::Comments => "/issues/"@,
        _ => "/pulls/"@,
    }
}

/// The address of one resource of pull request `number` in `owner/repo`.
pub open spec fn endpoint_url_spec(owner: Seq<char>, repo: Seq<char>, number: u64, e: PrEndpoint) -> Seq<char> {
    "https://api.github.com/repos/"@ + owner + "/"@ + repo + endpoint_collection(e) + decimal_digits(
        number as nat,
    ) + endpoint_suffix(e)
}

/// The address of one resource of pull request `number` in `owner/repo`.
pub fn endpoint_url(owner: &str, repo: &str, number: u64, endpoint: PrEndpoint) -> (r: String)
    ensures
        r@ == endpoint_url_spec(owner@, repo@, number, endpoint),
{
    let mut out = String::new();
    out.append("https://api.github.com/repos/");
    out.append(owner);
    out.append("/");
    out.append(repo);
    match endpoint {
        PrEndpoint::Comments => out.append("/issues/"),
        _ => out.append("/pulls/"),
    }
    out.append(decimal_text(number).as_str());
    match endpoint {
        PrEndpoint::Body => {
            proof {
                reveal_strlit("");
            }
        },
        PrEndpoint::Comments => out.append("/comments?per_page=100"),
        PrEndpoint::Reviews => out.append("/reviews?per_page=100"),
        PrEndpoint::Commits => out.append("/commits?per_page=250"),
        PrEndpoint::Files => out.append("/files?per_page=100"),
    }
    assert(out@ =~= endpoint_url_spec(owner@, repo@, number, endpoint));
    out
}

/// The value of the authorization header a request carries.
pub fn bearer_header(token: &str) -> (r: String)
    ensures
        r@ == "Bearer "@ + token@,
{
    let mut out = String::new();
    out.append("Bearer ");
    out.append(token);
    out
}

} // verus!
