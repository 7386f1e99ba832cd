//! The file finder: which directory entries it lists, how a typed query
//! scores a path, and the order in which matching files are offered.
use vstd::prelude::*;
use crate::text::{
    chars_are, chars_of, insert_index, lemma_insert_index_bound, lex_le, lex_le_chars, lowercase,
    sorted_insert, stable_sort, starts_with_char, to_lowercase,
};

verus! {

/// Entries the finder skips: hidden ones and the usual build and package
/// directories.
pub open spec fn is_skipped_name(name: Seq<char>) -> bool {
    starts_with_char(name, '.') || name == "node_modules"@ || name == "target"@
}

/// Whether the finder skips a directory entry of this name.
pub fn is_skipped_entry(name: &str) -> (b: bool)
    ensures
        b == is_skipped_name(name@),
{
    let c = chars_of(name);
    (c.len() > 0 && c[0] == '.') || chars_are(&c, "node_modules") || chars_are(&c, "target")
}

// ---------------------------------------------------------------------------
// Fuzzy matching
// ---------------------------------------------------------------------------

/// Where a scan of the text stands: how many pattern characters were
/// found, the score so far, the position of the last match and the bonus
/// for matches that follow each other.
pub struct FuzzyState {
    pub matched: int,
    pub score: int,
    pub last: Option<int>,
    pub bonus: int,
}

/// A match at position `i` starts a word: it is the first character, or
/// follows `'/'`, `'_'` or `'-'`.
pub open spec fn at_word_start(t: Seq<char>, i: int) -> bool {
    i == 0 || t[i - 1] == '/' || t[i - 1] == '_' || t[i - 1] == '-'
}

/// The scan of the first `n` characters of the text: each character that
/// equals the next pattern character is a match worth 1, 3 more at a word
/// start, and 2 more in bonus when it follows the previous match directly.
pub open spec fn fuzzy_scan(p: Seq<char>, t: Seq<char>, n: int) -> FuzzyState
    decreases n,
{
    if n <= 0 {
        FuzzyState { matched: 0, score: 0, last: None, bonus: 0 }
    } else {
        let s = fuzzy_scan(p, t, n - 1);
        let i = n - 1;
        if s.matched < p.len() && t[i] == p[s.matched] {
            FuzzyState {
                matched: s.matched + 1,
                score: s.score + 1 + if at_word_start(t, i) {
                    3int
                } else {
                    0int
                },
                last: Some(i),
                bonus: s.bonus + if s.last == Some(i - 1) {
                    2int
                } else {
                    0int
                },
            }
        } else {
            s
        }
    }
}

/// The score of the text for the pattern: 1 for an empty pattern, 0 when
/// the pattern is not a subsequence of the text, else the score of the
/// scan plus its bonus.
pub open spec fn fuzzy_score(p: Seq<char>, t: Seq<char>) -> int {
    if p.len() == 0 {
        1
    } else {
        let s = fuzzy_scan(p, t, t.len() as int);
        if s.matched == p.len() {
            s.score + s.bonus
        } else {
            0
        }
    }
}

/// Whether scoring the text stays inside an `i32`: the running score, the
/// running bonus and, for a match, their sum never pass `i32::MAX`.
pub open spec fn fuzzy_fits(p: Seq<char>, t: Seq<char>) -> bool {
    p.len() == 0 || {
        let s = fuzzy_scan(p, t, t.len() as int);
        &&& s.score <= i32::MAX
        &&& s.bonus <= i32::MAX
        &&& (s.matched == p.len() ==> s.score + s.bonus <= i32::MAX)
    }
}

pub proof fn lemma_fuzzy_scan_bounds(p: Seq<char>, t: Seq<char>, n: int)
    requires
        0 <= n <= t.len(),
    ensures
        0 <= fuzzy_scan(p, t, n).matched <= p.len(),
        0 <= fuzzy_scan(p, t, n).matched <= n,
        0 <= fuzzy_scan(p, t, n).score <= 4 * n,
        fuzzy_scan(p, t, n).score >= fuzzy_scan(p, t, n).matched,
        0 <= fuzzy_scan(p, t, n).bonus <= 2 * n,
        fuzzy_scan(p, t, n).last matches Some(l) ==> 0 <= l < n,
    decreases n,
{
    if n > 0 {
        lemma_fuzzy_scan_bounds(p, t, n - 1);
    }
}

/// The running score and bonus only grow along the text.
pub proof fn lemma_fuzzy_scan_grows(p: Seq<char>, t: Seq<char>, a: int, b: int)
    requires
        0 <= a <= b,
    ensures
        fuzzy_scan(p, t, a).score <= fuzzy_scan(p, t, b).score,
        fuzzy_scan(p, t, a).bonus <= fuzzy_scan(p, t, b).bonus,
    decreases b - a,
{
    if a < b {
        lemma_fuzzy_scan_grows(p, t, a, b - 1);
    }
}

/// The score of `text` for `pattern` (see `fuzzy_score`), or `None` when
/// scoring would pass the range of an `i32`.
pub fn fuzzy_score_checked(pattern: &str, text: &str) -> (r: Option<i32>)
    ensures
        match r {
            Some(v) => fuzzy_fits(pattern@, text@) && v == fuzzy_score(pattern@, text@),
            None => !fuzzy_fits(pattern@, text@),
        },
{
    let p = chars_of(pattern);
    let t = chars_of(text);
    if p.len() == 0 {
        return Some(1);
    }
    let mut matched: usize = 0;
    let mut score: i64 = 0;
    let mut last: Option<usize> = None;
    let mut bonus: i64 = 0;
    let mut i: usize = 0;
    while i < t.len()
        invariant
            i <= t.len(),
            p@ == pattern@,
            t@ == text@,
            p.len() > 0,
            0 <= score <= i32::MAX,
            0 <= bonus <= i32::MAX,
            ({
                let s = fuzzy_scan(p@, t@, i as int);
                &&& s.matched == matched
                &&& s.score == score
                &&& s.bonus == bonus
                &&& s.last == match last {
                    Some(l) => Some(l as int),
                    None => None,
                }
            }),
        decreases t.len() - i,
    {
        proof {
            lemma_fuzzy_scan_bounds(p@, t@, i as int);
        }
        if matched < p.len() && t[i] == p[matched] {
            score = score + 1;
            match last {
                Some(l) => {
                    if i == l + 1 {
                        bonus = bonus + 2;
                    }
                },
                None => {},
            }
            if i == 0 || t[i - 1] == '/' || t[i - 1] == '_' || t[i - 1] == '-' {
                score = score + 3;
            }
            last = Some(i);
            matched = matched + 1;
        }
        i = i + 1;
        if score > 0x7fff_ffff || bonus > 0x7fff_ffff {
            proof {
                lemma_fuzzy_scan_grows(p@, t@, i as int, t.len() as int);
            }
            return None;
        }
    }
    proof {
        lemma_fuzzy_scan_bounds(p@, t@, t.len() as int);
    }
    if matched == p.len() {
        if score + bonus > 0x7fff_ffff {
            None
        } else {
            Some((score + bonus) as i32)
        }
    } else {
        Some(0)
    }
}

/// How well `text` matches `pattern`, character by character in order
/// (see `fuzzy_score`); 0 means no match.
pub fn fuzzy_match(pattern: &str, text: &str) -> (r: i32)
    requires
        fuzzy_fits(pattern@, text@),
    ensures
        r == fuzzy_score(pattern@, text@),
{
    match fuzzy_score_checked(pattern, text) {
        Some(v) => v,
        None => {
            assert(false);
            0
        },
    }
}

// ---------------------------------------------------------------------------
// Filtering
// ---------------------------------------------------------------------------

/// The score of a listed path for a query, both taken in lowercase; a path
/// whose score would pass the range of an `i32` is left out like one that
/// does not match.
pub open spec fn path_score(query: Seq<char>, path: Seq<char>) -> int {
    if fuzzy_fits(lowercase(query), lowercase(path)) {
        fuzzy_score(lowercase(query), lowercase(path))
    } else {
        0
    }
}

/// The first `n` paths that match the query, with their scores.
pub open spec fn scored_matches(paths: Seq<String>, query: Seq<char>, n: int) -> Seq<(int, int)>
    decreases n,
{
    if n <= 0 {
        Seq::empty()
    } else {
        scored_matches(paths, query, n - 1) + if path_score(query, paths[n - 1]@) > 0 {
            seq![(n - 1, path_score(query, paths[n - 1]@))]
        } else {
            Seq::empty()
        }
    }
}

/// The order by path name.
pub open spec fn by_path(paths: Seq<String>) -> spec_fn((int, int), (int, int)) -> bool {
    |a: (int, int), b: (int, int)| lex_le(paths[a.0]@, paths[b.0]@)
}

/// The order by score, highest first.
pub open spec fn by_score() -> spec_fn((int, int), (int, int)) -> bool {
    |a: (int, int), b: (int, int)| a.1 >= b.1
}

/// What the finder offers for a query: with an empty query every path,
/// scored 0, in path order; otherwise the matching paths, highest score
/// first, paths of equal score in their listed order.
pub open spec fn filtered(paths: Seq<String>, query: Seq<char>) -> Seq<(int, int)> {
    if lowercase(query).len() == 0 {
        stable_sort(Seq::new(paths.len(), |i: int| (i, 0int)), by_path(paths))
    } else {
        stable_sort(scored_matches(paths, query, paths.len() as int), by_score())
    }
}

pub open spec fn pair_views(v: Seq<(usize, i32)>) -> Seq<(int, int)> {
    v.map_values(|x: (usize, i32)| (x.0 as int, x.1 as int))
}

/// Puts `x` into a list sorted by path after the entries whose paths come
/// before or equal its own.
fn insert_by_path(order: &mut Vec<(usize, i32)>, paths: &Vec<Vec<char>>, strings: Ghost<Seq<String>>, x: (usize, i32))
    requires
        x.0 < paths.len(),
        paths.len() == strings@.len(),
        forall|f: int| 0 <= f < paths.len() ==> (#[trigger] paths@[f])@ == strings@[f]@,
        forall|k: int| 0 <= k < old(order).len() ==> (#[trigger] old(order)@[k]).0 < paths.len(),
    ensures
        pair_views(final(order)@) == sorted_insert(pair_views(old(order)@), by_path(strings@), (x.0 as int, x.1 as int)),
        forall|k: int| 0 <= k < final(order).len() ==> (#[trigger] final(order)@[k]).0 < paths.len(),
{
    let ghost s = pair_views(order@);
    let ghost le = by_path(strings@);
    let ghost xv = (x.0 as int, x.1 as int);
    proof {
        lemma_insert_index_bound(s, le, xv, 0);
    }
    let mut p: usize = 0;
    while p < order.len() && lex_le_chars(&paths[order[p].0], &paths[x.0])
        invariant
            p <= order.len(),
            order@ == old(order)@,
            s == pair_views(order@),
            le == by_path(strings@),
            xv == (x.0 as int, x.1 as int),
            x.0 < paths.len(),
            paths.len() == strings@.len(),
            forall|f: int| 0 <= f < paths.len() ==> (#[trigger] paths@[f])@ == strings@[f]@,
            forall|k: int| 0 <= k < order.len() ==> (#[trigger] order@[k]).0 < paths.len(),
            insert_index(s, le, xv, 0) == insert_index(s, le, xv, p as int),
        decreases order.len() - p,
    {
        assert(s[p as int] == (order@[p as int].0 as int, order@[p as int].1 as int));
        p = p + 1;
    }
    proof {
        if p < order.len() {
            assert(s[p as int] == (order@[p as int].0 as int, order@[p as int].1 as int));
        }
        assert(insert_index(s, le, xv, p as int) == p);
    }
    let ghost before = order@;
    order.insert(p, x);
    assert(pair_views(order@) =~= s.insert(p as int, xv));
    assert forall|k: int| 0 <= k < order.len() implies (#[trigger] order@[k]).0 < paths.len() by {
        if k < p {
            assert(order@[k] == before[k]);
        } else if k > p {
            assert(order@[k] == before[k - 1]);
        }
    }
}

/// Puts `x` into a list sorted by score, highest first, after the entries
/// of equal or higher score.
fn insert_by_score(order: &mut Vec<(usize, i32)>, x: (usize, i32))
    ensures
        pair_views(final(order)@) == sorted_insert(pair_views(old(order)@), by_score(), (x.0 as int, x.1 as int)),
{
    let ghost s = pair_views(order@);
    let ghost le = by_score();
    let ghost xv = (x.0 as int, x.1 as int);
    proof {
        lemma_insert_index_bound(s, le, xv, 0);
    }
    let mut p: usize = 0;
    while p < order.len() && order[p].1 >= x.1
        invariant
            p <= order.len(),
            order@ == old(order)@,
            s == pair_views(order@),
            le == by_score(),
            xv == (x.0 as int, x.1 as int),
            insert_index(s, le, xv, 0) == insert_index(s, le, xv, p as int),
        decreases order.len() - p,
    {
        assert(s[p as int] == (order@[p as int].0 as int, order@[p as int].1 as int));
        p = p + 1;
    }
    proof {
        if p < order.len() {
            assert(s[p as int] == (order@[p as int].0 as int, order@[p as int].1 as int));
        }
        assert(insert_index(s, le, xv, p as int) == p);
    }
    order.insert(p, x);
    assert(pair_views(order@) =~= s.insert(p as int, xv));
}

/// The entries the finder offers for `query` over the listed `paths`:
/// (index of the path, score) pairs, as `filtered` orders them.
pub fn filter_files(paths: &[String], query: &str) -> (r: Vec<(usize, i32)>)
    ensures
        pair_views(r@) == filtered(paths@, query@),
{
    let q = to_lowercase(query);
    let qc = chars_of(q.as_str());
    let mut r: Vec<(usize, i32)> = Vec::new();
    if qc.len() == 0 {
        let mut chars: Vec<Vec<char>> = Vec::new();
        let mut k: usize = 0;
        while k < paths.len()
            invariant
                k <= paths.len(),
                chars.len() == k,
                forall|f: int| 0 <= f < k ==> (#[trigger] chars@[f])@ == paths@[f]@,
            decreases paths.len() - k,
        {
            chars.push(chars_of(paths[k].as_str()));
            k = k + 1;
        }
        let ghost ids = Seq::new(paths@.len(), |i: int| (i, 0int));
        let mut i: usize = 0;
        assert(pair_views(r@) =~= stable_sort(ids.take(0), by_path(paths@)));
        while i < paths.len()
            invariant
                i <= paths.len(),
                chars.len() == paths.len(),
                ids == Seq::new(paths@.len(), |i: int| (i, 0int)),
                forall|f: int| 0 <= f < paths.len() ==> (#[trigger] chars@[f])@ == paths@[f]@,
                forall|j: int| 0 <= j < r.len() ==> (#[trigger] r@[j]).0 < paths.len(),
                pair_views(r@) == stable_sort(ids.take(i as int), by_path(paths@)),
            decreases paths.len() - i,
        {
            assert(ids.take(i + 1).drop_last() =~= ids.take(i as int));
            assert(ids.take(i + 1).last() == (i as int, 0int));
            insert_by_path(&mut r, &chars, Ghost(paths@), (i, 0));
            i = i + 1;
        }
        assert(ids.take(paths.len() as int) =~= ids);
        r
    } else {
        let mut matches: Vec<(usize, i32)> = Vec::new();
        let mut i: usize = 0;
        while i < paths.len()
            invariant
                i <= paths.len(),
                q@ == lowercase(query@),
                pair_views(matches@) == scored_matches(paths@, query@, i as int),
            decreases paths.len() - i,
        {
            let lower = to_lowercase(paths[i].as_str());
            let ghost before = pair_views(matches@);
            match fuzzy_score_checked(q.as_str(), lower.as_str()) {
                Some(score) => {
                    if score > 0 {
                        matches.push((i, score));
                        assert(pair_views(matches@) =~= before + seq![(i as int, score as int)]);
                    } else {
                        assert(pair_views(matches@) =~= before + Seq::<(int, int)>::empty());
                    }
                },
                None => {
                    assert(pair_views(matches@) =~= before + Seq::<(int, int)>::empty());
                },
            }
            i = i + 1;
        }
        let ghost ms = pair_views(matches@);
        let mut j: usize = 0;
        assert(pair_views(r@) =~= stable_sort(ms.take(0), by_score()));
        while j < matches.len()
            invariant
                j <= matches.len(),
                ms == pair_views(matches@),
                pair_views(r@) == stable_sort(ms.take(j as int), by_score()),
            decreases matches.len() - j,
        {
            assert(ms.take(j + 1).drop_last() =~= ms.take(j as int));
            assert(ms.take(j + 1).last() == (matches@[j as int].0 as int, matches@[j as int].1 as int));
            insert_by_score(&mut r, matches[j]);
            j = j + 1;
        }
        assert(ms.take(matches.len() as int) =~= ms);
        r
    }
}

// ---------------------------------------------------------------------------
// Selection
// ---------------------------------------------------------------------------

/// The selection after moving down a list of `count` entries: one further,
/// unless it is on the last entry or the list is empty.
pub fn select_next(selected: usize, count: usize) -> (r: usize)
    ensures
        r == if count > 0 && selected + 1 < count {
            selected + 1
        } else {
            selected as int
        },
{
    if count > 0 && selected < count - 1 {
        selected + 1
    } else {
        selected
    }
}

/// The selection after moving up: one back, unless it is on the first
/// entry.
pub fn select_prev(selected: usize) -> (r: usize)
    ensures
        r == if selected > 0 {
            selected - 1
        } else {
            0
        },
{
    if selected > 0 {
        selected - 1
    } else {
        selected
    }
}


// ---------------------------------------------------------------------------
// The menu
// ---------------------------------------------------------------------------

/// The file finder: whether it is shown, its query, the matches of the
/// query as file indices with scores, and the selected match.
pub struct CommandMenu {
    pub visible: bool,
    pub query: String,
    pub filtered_indices: Vec<(usize, i32)>,
    pub selected_index: usize,
}

impl CommandMenu {
    /// A hidden finder with an empty query and no matches.
    pub fn new() -> (m: CommandMenu)
        ensures
            !m.visible,
            m.query@ == Seq::<char>::empty(),
            m.filtered_indices@ == Seq::<(usize, i32)>::empty(),
            m.selected_index == 0,
    {
        CommandMenu { visible: false, query: String::new(), filtered_indices: Vec::new(), selected_index: 0 }
    }

    /// Runs the query over the workspace's files again.
    pub fn refresh(&mut self, paths: &[String])
        ensures
            pair_views(final(self).filtered_indices@) == filtered(paths@, old(self).query@),
            final(self).query@ == old(self).query@,
            final(self).visible == old(self).visible,
            final(self).selected_index == old(self).selected_index,
    {
        self.filtered_indices = filter_files(paths, self.query.as_str());
    }

    /// Shows the finder with an empty query over the workspace's files,
    /// the first match selected; nothing changes when it is shown already.
    pub fn show(&mut self, paths: &[String])
        ensures
            old(self).visible ==> final(self).visible && final(self).query@ == old(self).query@
                && final(self).filtered_indices@ == old(self).filtered_indices@ && final(self).selected_index
                == old(self).selected_index,
            !old(self).visible ==> final(self).visible && final(self).query@ == Seq::<char>::empty() && pair_views(
                final(self).filtered_indices@,
            ) == filtered(paths@, Seq::<char>::empty()) && final(self).selected_index == 0,
    {
        if self.visible {
            return;
        }
        self.visible = true;
        self.query = String::new();
        self.refresh(paths);
        self.selected_index = 0;
    }

    /// Hides the finder.
    pub fn hide_menu(&mut self)
        ensures
            !final(self).visible,
            final(self).query@ == old(self).query@,
            final(self).filtered_indices@ == old(self).filtered_indices@,
            final(self).selected_index == old(self).selected_index,
    {
        self.visible = false;
    }

    /// Hides the finder when it is shown, else shows it.
    pub fn toggle(&mut self, paths: &[String])
        ensures
            final(self).visible == !old(self).visible,
            !old(self).visible ==> final(self).query@ == Seq::<char>::empty() && pair_views(
                final(self).filtered_indices@,
            ) == filtered(paths@, Seq::<char>::empty()) && final(self).selected_index == 0,
    {
        if self.visible {
            self.hide_menu();
        } else {
            self.show(paths);
        }
    }

    /// Takes a new query: the matches are found again and the first one is
    /// selected.
    pub fn set_query(&mut self, query: String, paths: &[String])
        ensures
            final(self).query@ == query@,
            pair_views(final(self).filtered_indices@) == filtered(paths@, query@),
            final(self).selected_index == 0,
            final(self).visible == old(self).visible,
    {
        self.query = query;
        self.refresh(paths);
        self.selected_index = 0;
    }

    /// Moves the selection down one match, stopping at the last.
    pub fn select_next(&mut self)
        ensures
            final(self).selected_index == select_next_spec(old(self).selected_index, old(self).filtered_indices@.len()),
            final(self).filtered_indices@ == old(self).filtered_indices@,
            final(self).visible == old(self).visible,
            final(self).query@ == old(self).query@,
    {
        self.selected_index = select_next(self.selected_index, self.filtered_indices.len());
    }

    /// Moves the selection up one match, stopping at the first.
    pub fn select_prev(&mut self)
        ensures
            final(self).selected_index == if old(self).selected_index > 0 {
                old(self).selected_index - 1
            } else {
                0
            },
            final(self).filtered_indices@ == old(self).filtered_indices@,
            final(self).visible == old(self).visible,
            final(self).query@ == old(self).query@,
    {
        self.selected_index = select_prev(self.selected_index);
    }

    /// Picks the selected match and hides the finder: the index of the
    /// file to open, if a match is selected.
    pub fn confirm(&mut self) -> (r: Option<usize>)
        ensures
            r == if old(self).selected_index < old(self).filtered_indices@.len() {
                Some(old(self).filtered_indices@[old(self).selected_index as int].0)
            } else {
                None
            },
            !final(self).visible,
            final(self).filtered_indices@ == old(self).filtered_indices@,
            final(self).selected_index == old(self).selected_index,
    {
        let r = if self.selected_index < self.filtered_indices.len() {
            Some(self.filtered_indices[self.selected_index].0)
        } else {
            None
        };
        self.hide_menu();
        r
    }

    /// Selects the match at `index` and picks it.
    pub fn select_item(&mut self, index: usize) -> (r: Option<usize>)
        ensures
            r == if index < old(self).filtered_indices@.len() {
                Some(old(self).filtered_indices@[index as int].0)
            } else {
                None
            },
            !final(self).visible,
            final(self).selected_index == index,
    {
        self.selected_index = index;
        self.confirm()
    }
}

/// The selection after moving down a list of `count` entries.
pub open spec fn select_next_spec(selected: usize, count: nat) -> usize {
    if count > 0 && selected + 1 < count {
        (selected + 1) as usize
    } else {
        selected
    }
}

// ---------------------------------------------------------------------------
// Laws
// ---------------------------------------------------------------------------

/// The finder offers matches with the best scores first and, for an empty
/// query, all paths in path order; in either case every entry it started
/// from is offered exactly once.
pub proof fn law_offers_in_order(paths: Seq<String>, query: Seq<char>)
    ensures
        lowercase(query).len() == 0 ==> crate::text::sorted_by(filtered(paths, query), by_path(paths)),
        lowercase(query).len() != 0 ==> crate::text::sorted_by(filtered(paths, query), by_score()),
        lowercase(query).len() == 0 ==> filtered(paths, query).to_multiset() == Seq::new(
            paths.len(),
            |i: int| (i, 0int),
        ).to_multiset(),
        lowercase(query).len() != 0 ==> filtered(paths, query).to_multiset() == scored_matches(
            paths,
            query,
            paths.len() as int,
        ).to_multiset(),
{
    let lp = by_path(paths);
    assert forall|a: (int, int), b: (int, int)| #![trigger lp(a, b)] lp(a, b) || lp(b, a) by {
        crate::text::lemma_lex_total(paths[a.0]@, paths[b.0]@);
    }
    assert forall|a: (int, int), b: (int, int), c: (int, int)| #![trigger lp(a, b), lp(b, c)]
        lp(a, b) && lp(b, c) implies lp(a, c) by {
        crate::text::lemma_lex_trans(paths[a.0]@, paths[b.0]@, paths[c.0]@);
    }
    let ls = by_score();
    assert forall|a: (int, int), b: (int, int)| #![trigger ls(a, b)] ls(a, b) || ls(b, a) by {}
    assert forall|a: (int, int), b: (int, int), c: (int, int)| #![trigger ls(a, b), ls(b, c)]
        ls(a, b) && ls(b, c) implies ls(a, c) by {}
    crate::text::law_stable_sort_sorts(Seq::new(paths.len(), |i: int| (i, 0int)), lp);
    crate::text::law_stable_sort_sorts(scored_matches(paths, query, paths.len() as int), ls);
}

/// `p` occurs in `t` character by character, in order, at the increasing
/// positions `f`.
pub open spec fn embeds_at(p: Seq<char>, t: Seq<char>, f: Seq<int>) -> bool {
    &&& f.len() == p.len()
    &&& forall|k: int| 0 <= k < f.len() ==> 0 <= #[trigger] f[k] < t.len() && t[f[k]] == p[k]
    &&& forall|k: int, l: int| 0 <= k < l < f.len() ==> #[trigger] f[k] < #[trigger] f[l]
}

/// Whether the characters of `p` occur in `t` in order.
pub open spec fn is_subsequence(p: Seq<char>, t: Seq<char>) -> bool {
    exists|f: Seq<int>| embeds_at(p, t, f)
}

/// The positions of the matches of the first `n` characters of the scan.
pub open spec fn match_positions(p: Seq<char>, t: Seq<char>, n: int) -> Seq<int>
    decreases n,
{
    if n <= 0 {
        Seq::empty()
    } else {
        let s = fuzzy_scan(p, t, n - 1);
        if s.matched < p.len() && t[n - 1] == p[s.matched] {
            match_positions(p, t, n - 1).push(n - 1)
        } else {
            match_positions(p, t, n - 1)
        }
    }
}

pub proof fn lemma_match_positions(p: Seq<char>, t: Seq<char>, n: int)
    requires
        0 <= n <= t.len(),
    ensures
        match_positions(p, t, n).len() == fuzzy_scan(p, t, n).matched,
        embeds_at(
            p.take(fuzzy_scan(p, t, n).matched),
            t,
            match_positions(p, t, n),
        ),
        forall|k: int| 0 <= k < match_positions(p, t, n).len() ==> #[trigger] match_positions(p, t, n)[k] < n,
    decreases n,
{
    lemma_fuzzy_scan_bounds(p, t, n);
    if n > 0 {
        lemma_match_positions(p, t, n - 1);
        lemma_fuzzy_scan_bounds(p, t, n - 1);
        let s = fuzzy_scan(p, t, n - 1);
        let f = match_positions(p, t, n - 1);
        if s.matched < p.len() && t[n - 1] == p[s.matched] {
            let g = f.push(n - 1);
            let q = p.take(s.matched + 1);
            assert forall|k: int| 0 <= k < g.len() implies 0 <= #[trigger] g[k] < t.len() && t[g[k]] == q[k] by {
                if k < f.len() {
                    assert(g[k] == f[k]);
                    assert(p.take(s.matched)[k] == q[k]);
                }
            }
            assert forall|k: int, l: int| 0 <= k < l < g.len() implies #[trigger] g[k] < #[trigger] g[l] by {
                if l < f.len() {
                    assert(g[k] == f[k] && g[l] == f[l]);
                } else {
                    assert(g[k] == f[k]);
                }
            }
        }
    }
}

pub proof fn lemma_matched_monotone(p: Seq<char>, t: Seq<char>, a: int, b: int)
    requires
        0 <= a <= b,
    ensures
        fuzzy_scan(p, t, a).matched <= fuzzy_scan(p, t, b).matched,
    decreases b - a,
{
    if a < b {
        lemma_matched_monotone(p, t, a, b - 1);
    }
}

pub proof fn lemma_embedding_found(p: Seq<char>, t: Seq<char>, f: Seq<int>, k: int)
    requires
        embeds_at(p, t, f),
        0 <= k < f.len(),
    ensures
        fuzzy_scan(p, t, f[k] + 1).matched >= k + 1,
    decreases k,
{
    let start = if k == 0 {
        0
    } else {
        f[k - 1] + 1
    };
    if k > 0 {
        lemma_embedding_found(p, t, f, k - 1);
        assert(f[k - 1] < f[k]);
    }
    assert(fuzzy_scan(p, t, start).matched >= k);
    lemma_matched_monotone(p, t, start, f[k]);
    lemma_fuzzy_scan_bounds(p, t, f[k]);
    if fuzzy_scan(p, t, f[k]).matched >= k + 1 {
        lemma_matched_monotone(p, t, f[k], f[k] + 1);
    }
}

/// A non-empty pattern scores above zero exactly when its characters occur
/// in the text in order.
pub proof fn law_score_positive_iff_subsequence(p: Seq<char>, t: Seq<char>)
    requires
        p.len() > 0,
    ensures
        (fuzzy_score(p, t) > 0) == is_subsequence(p, t),
{
    let n = t.len() as int;
    lemma_fuzzy_scan_bounds(p, t, n);
    lemma_match_positions(p, t, n);
    if fuzzy_scan(p, t, n).matched == p.len() {
        assert(p.take(p.len() as int) =~= p);
        assert(embeds_at(p, t, match_positions(p, t, n)));
    }
    if is_subsequence(p, t) {
        let f = choose|f: Seq<int>| embeds_at(p, t, f);
        let last = f.len() - 1;
        lemma_embedding_found(p, t, f, last);
        lemma_matched_monotone(p, t, f[last] + 1, n);
    }
}
} // verus!
