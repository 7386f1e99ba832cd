//! The tree of the files a pull request changes: each file path split into
//! directory names, every directory listed once where it is first reached in
//! path order, and the contents of a collapsed directory hidden.
use vstd::prelude::*;
use crate::pr_detail::{PrFile, PrFileStatus};
use crate::text::{
    append_chars, chars_of, find_char, insert_index, lemma_find_char, lemma_insert_index_bound, lex_le,
    lex_le_chars, lemma_stable_sort_elements, lemma_stable_sort_len, range_eq, sorted_insert, stable_sort, string_of_all,
};

verus! {

// ---------------------------------------------------------------------------
// Paths
// ---------------------------------------------------------------------------

/// The pieces of `s[from..]` between the `'/'` characters, as
/// `str::split('/')` yields them.
pub open spec fn split_from(s: Seq<char>, from: int) -> Seq<Seq<char>>
    decreases s.len() - from,
{
    if from < 0 || from > s.len() {
        Seq::empty()
    } else {
        proof {
            lemma_find_char(s, from, '/');
        }
        let e = find_char(s, from, '/');
        if e >= s.len() {
            seq![s.subrange(from, s.len() as int)]
        } else {
            seq![s.subrange(from, e)] + split_from(s, e + 1)
        }
    }
}

/// The names that make up a path, split at each `'/'`.
pub open spec fn path_parts(s: Seq<char>) -> Seq<Seq<char>> {
    split_from(s, 0)
}

pub proof fn lemma_split_nonempty(s: Seq<char>, from: int)
    requires
        0 <= from <= s.len(),
    ensures
        split_from(s, from).len() >= 1,
    decreases s.len() - from,
{
    lemma_find_char(s, from, '/');
    let e = find_char(s, from, '/');
    if e < s.len() {
        lemma_split_nonempty(s, e + 1);
    }
}

/// The path of the directory made of the first `k` names: the names joined
/// by `'/'`, with no `'/'` put in while the path is still empty.
pub open spec fn join_parts(parts: Seq<Seq<char>>, k: int) -> Seq<char>
    decreases k,
{
    if k <= 0 {
        Seq::empty()
    } else {
        let p = join_parts(parts, k - 1);
        if p.len() == 0 {
            parts[k - 1]
        } else {
            p + seq!['/'] + parts[k - 1]
        }
    }
}

pub open spec fn parts_view(parts: Seq<Vec<char>>) -> Seq<Seq<char>> {
    parts.map_values(|p: Vec<char>| p@)
}

/// The names of a path, split at each `'/'`.
pub fn split_path(s: &Vec<char>) -> (r: Vec<Vec<char>>)
    ensures
        parts_view(r@) == path_parts(s@),
        r@.len() >= 1,
{
    let mut r: Vec<Vec<char>> = Vec::new();
    let mut cur: Vec<char> = Vec::new();
    let mut start: usize = 0;
    let mut i: usize = 0;
    while i < s.len()
        invariant
            start <= i <= s.len(),
            cur@ == s@.subrange(start as int, i as int),
            forall|k: int| start <= k < i ==> s@[k] != '/',
            parts_view(r@) + split_from(s@, start as int) == path_parts(s@),
        decreases s.len() - i,
    {
        if s[i] == '/' {
            proof {
                lemma_find_char(s@, start as int, '/');
                let e = find_char(s@, start as int, '/');
                if e < i {
                    assert(s@[e] != '/');
                }
                assert(e == i);
                assert(split_from(s@, start as int) == seq![s@.subrange(start as int, i as int)] + split_from(
                    s@,
                    i + 1,
                ));
            }
            let ghost before = parts_view(r@);
            r.push(cur);
            assert(parts_view(r@) =~= before.push(s@.subrange(start as int, i as int)));
            assert(parts_view(r@) + split_from(s@, i + 1) =~= before + (seq![s@.subrange(start as int, i as int)]
                + split_from(s@, i + 1)));
            cur = Vec::new();
            start = i + 1;
        } else {
            cur.push(s[i]);
        }
        i = i + 1;
        assert(cur@ =~= s@.subrange(start as int, i as int));
    }
    proof {
        lemma_find_char(s@, start as int, '/');
        let e = find_char(s@, start as int, '/');
        if e < s.len() {
            assert(s@[e] != '/');
        }
    }
    let ghost before = parts_view(r@);
    r.push(cur);
    assert(parts_view(r@) =~= before.push(s@.subrange(start as int, s.len() as int)));
    assert(parts_view(r@) =~= before + split_from(s@, start as int));
    r
}

/// Whether two character lists are equal.
fn chars_eq(a: &Vec<char>, b: &Vec<char>) -> (r: bool)
    ensures
        r == (a@ == b@),
{
    let r = range_eq(a, 0, a.len(), b);
    assert(a@.subrange(0, a.len() as int) =~= a@);
    r
}

// ---------------------------------------------------------------------------
// Directories
// ---------------------------------------------------------------------------

/// The path of the directory made of the first `k` names of file `f`.
pub open spec fn dir_at(files: Seq<PrFile>, f: int, k: int) -> Seq<char> {
    join_parts(path_parts(files[f].filename@), k)
}

/// Whether `d` is the path of a directory that holds a changed file.
pub open spec fn is_dir_of(files: Seq<PrFile>, d: Seq<char>) -> bool {
    exists|f: int, k: int|
        0 <= f < files.len() && 1 <= k < path_parts(files[f].filename@).len() && d == #[trigger] dir_at(
            files,
            f,
            k,
        )
}

/// Whether the list holds the path `d`.
pub open spec fn holds_path(v: Seq<String>, d: Seq<char>) -> bool {
    exists|i: int| 0 <= i < v.len() && (#[trigger] v[i])@ == d
}

/// No path occurs twice.
pub open spec fn paths_distinct(v: Seq<String>) -> bool {
    forall|i: int, j: int| 0 <= i < j < v.len() ==> (#[trigger] v[i])@ != (#[trigger] v[j])@
}

/// Whether the list holds a string equal to `s`.
fn contains_path(v: &[String], s: &String) -> (b: bool)
    ensures
        b == holds_path(v@, s@),
{
    let mut i: usize = 0;
    while i < v.len()
        invariant
            i <= v.len(),
            forall|k: int| 0 <= k < i ==> (#[trigger] v@[k])@ != s@,
        decreases v.len() - i,
    {
        if v[i] == *s {
            assert(v@[i as int]@ == s@);
            return true;
        }
        i = i + 1;
    }
    false
}

/// The directories a list names.
pub open spec fn path_set(v: Seq<String>) -> Set<Seq<char>> {
    Set::new(|d: Seq<char>| holds_path(v, d))
}

/// `s` with `d` taken out when it is there and put in when it is not.
pub open spec fn toggled(s: Set<Seq<char>>, d: Seq<char>) -> Set<Seq<char>> {
    if s.contains(d) {
        s.remove(d)
    } else {
        s.insert(d)
    }
}

/// Collapses directory `dir` when it is expanded and expands it when it is
/// collapsed.
pub fn toggle_dir(expanded: &mut Vec<String>, dir: &str)
    requires
        paths_distinct(old(expanded)@),
    ensures
        paths_distinct(final(expanded)@),
        path_set(final(expanded)@) == toggled(path_set(old(expanded)@), dir@),
{
    let target = dir.to_string();
    let mut i: usize = 0;
    while i < expanded.len()
        invariant
            i <= expanded.len(),
            expanded@ == old(expanded)@,
            paths_distinct(expanded@),
            forall|k: int| 0 <= k < i ==> (#[trigger] expanded@[k])@ != dir@,
            target@ == dir@,
        decreases expanded.len() - i,
    {
        if expanded[i] == target {
            let ghost before = expanded@;
            expanded.remove(i);
            assert(path_set(expanded@) =~= path_set(before).remove(dir@)) by {
                assert forall|d: Seq<char>| path_set(expanded@).contains(d) <==> path_set(before).remove(dir@).contains(d) by {
                    if holds_path(expanded@, d) {
                        let k = choose|k: int| 0 <= k < expanded@.len() && (#[trigger] expanded@[k])@ == d;
                        if k < i {
                            assert(before[k] == expanded@[k]);
                        } else {
                            assert(before[k + 1] == expanded@[k]);
                            assert(before[i as int]@ == dir@);
                        }
                    }
                    if d != dir@ && holds_path(before, d) {
                        let k = choose|k: int| 0 <= k < before.len() && (#[trigger] before[k])@ == d;
                        if k < i {
                            assert(expanded@[k] == before[k]);
                        } else {
                            assert(k != i);
                            assert(expanded@[k - 1] == before[k]);
                        }
                    }
                }
            }
            assert(path_set(before).contains(dir@)) by {
                assert(before[i as int]@ == dir@);
            }
            return;
        }
        i = i + 1;
    }
    let ghost before = expanded@;
    assert(!holds_path(before, dir@));
    expanded.push(target);
    assert(path_set(expanded@) =~= path_set(before).insert(dir@)) by {
        assert forall|d: Seq<char>| path_set(expanded@).contains(d) <==> path_set(before).insert(dir@).contains(d) by {
            if holds_path(expanded@, d) {
                let k = choose|k: int| 0 <= k < expanded@.len() && (#[trigger] expanded@[k])@ == d;
                if k < before.len() {
                    assert(before[k] == expanded@[k]);
                }
            }
            if holds_path(before, d) {
                let k = choose|k: int| 0 <= k < before.len() && (#[trigger] before[k])@ == d;
                assert(expanded@[k] == before[k]);
            }
            if d == dir@ {
                assert(expanded@[before.len() as int]@ == dir@);
            }
        }
    }
}

/// Toggling a directory twice leaves the same directories expanded.
pub proof fn law_toggle_dir_twice(s: Set<Seq<char>>, d: Seq<char>)
    ensures
        toggled(toggled(s, d), d) == s,
{
    assert(toggled(toggled(s, d), d) =~= s);
}

/// Adds a path to a list of distinct paths unless it is there already.
fn add_path(v: &mut Vec<String>, s: String)
    requires
        paths_distinct(old(v)@),
    ensures
        paths_distinct(final(v)@),
        forall|d: Seq<char>| holds_path(final(v)@, d) <==> (holds_path(old(v)@, d) || d == s@),
{
    if contains_path(v.as_slice(), &s) {
        return ;
    }
    let ghost before = v@;
    let ghost sv = s@;
    v.push(s);
    assert forall|d: Seq<char>| holds_path(v@, d) <==> (holds_path(before, d) || d == sv) by {
        if holds_path(v@, d) {
            let i = choose|i: int| 0 <= i < v@.len() && (#[trigger] v@[i])@ == d;
            if i < before.len() {
                assert(before[i] == v@[i]);
            }
        }
        if holds_path(before, d) {
            let i = choose|i: int| 0 <= i < before.len() && (#[trigger] before[i])@ == d;
            assert(v@[i] == before[i]);
        }
        if d == sv {
            assert(v@[before.len() as int]@ == sv);
        }
    }
}

/// Appends `'/'` and then `part`, leaving out the `'/'` while the path is
/// empty.
fn extend_path(path: &mut String, part: &Vec<char>)
    ensures
        old(path)@.len() == 0 ==> final(path)@ == part@,
        old(path)@.len() != 0 ==> final(path)@ == old(path)@ + seq!['/'] + part@,
{
    if path.as_str().unicode_len() != 0 {
        path.append("/");
        proof {
            reveal_strlit("/");
        }
    }
    append_chars(path, part, 0, part.len());
    assert(part@.subrange(0, part.len() as int) =~= part@);
}

/// The paths of all directories that hold a changed file, each once.
pub fn collect_all_dirs(files: &[PrFile]) -> (r: Vec<String>)
    ensures
        paths_distinct(r@),
        forall|d: Seq<char>| holds_path(r@, d) <==> is_dir_of(files@, d),
{
    let mut dirs: Vec<String> = Vec::new();
    let mut f: usize = 0;
    while f < files.len()
        invariant
            f <= files.len(),
            paths_distinct(dirs@),
            forall|d: Seq<char>|
                #![trigger holds_path(dirs@, d)]
                holds_path(dirs@, d) <==> exists|g: int, k: int|
                    0 <= g < f && 1 <= k < path_parts(files@[g].filename@).len() && d == #[trigger] dir_at(
                        files@,
                        g,
                        k,
                    ),
        decreases files.len() - f,
    {
        let chars = chars_of(files[f].filename.as_str());
        let parts = split_path(&chars);
        let ghost pv = parts_view(parts@);
        let ghost before = dirs@;
        let mut path = String::new();
        let mut k: usize = 0;
        while k + 1 < parts.len()
            invariant
                k + 1 <= parts.len(),
                pv == parts_view(parts@),
                pv == path_parts(files@[f as int].filename@),
                path@ == join_parts(pv, k as int),
                paths_distinct(dirs@),
                forall|d: Seq<char>|
                    #![trigger holds_path(dirs@, d)]
                    holds_path(dirs@, d) <==> (holds_path(before, d) || exists|j: int|
                        1 <= j <= k && d == #[trigger] join_parts(pv, j)),
            decreases parts.len() - k,
        {
            let ghost dirs_before = dirs@;
            extend_path(&mut path, &parts[k]);
            assert(path@ == join_parts(pv, k + 1));
            add_path(&mut dirs, path.clone());
            k = k + 1;
            assert forall|d: Seq<char>|
                holds_path(dirs@, d) <==> (holds_path(before, d) || exists|j: int|
                    1 <= j <= k && d == #[trigger] join_parts(pv, j)) by {
                if holds_path(dirs@, d) && !holds_path(dirs_before, d) {
                    assert(d == join_parts(pv, k as int));
                }
                if exists|j: int| 1 <= j <= k && d == #[trigger] join_parts(pv, j) {
                    let j = choose|j: int| 1 <= j <= k && d == #[trigger] join_parts(pv, j);
                    if j < k {
                        assert(holds_path(dirs_before, d) || holds_path(before, d));
                    }
                }
            }
        }
        assert(k + 1 == parts.len() && pv.len() == parts.len());
        assert forall|d: Seq<char>| holds_path(dirs@, d) implies exists|g: int, j: int|
            0 <= g < f + 1 && 1 <= j < path_parts(files@[g].filename@).len() && d == #[trigger] dir_at(
                files@,
                g,
                j,
            ) by {
            if holds_path(before, d) {
                let (g, j) = choose|g: int, j: int|
                    0 <= g < f && 1 <= j < path_parts(files@[g].filename@).len() && d == #[trigger] dir_at(
                        files@,
                        g,
                        j,
                    );
                assert(d == dir_at(files@, g, j));
            } else {
                let j = choose|j: int| 1 <= j <= k && d == #[trigger] join_parts(pv, j);
                assert(d == dir_at(files@, f as int, j));
            }
        }
        assert forall|d: Seq<char>|
            (exists|g: int, j: int|
                0 <= g < f + 1 && 1 <= j < path_parts(files@[g].filename@).len() && d == #[trigger] dir_at(
                    files@,
                    g,
                    j,
                )) implies holds_path(dirs@, d) by {
            let (g, j) = choose|g: int, j: int|
                0 <= g < f + 1 && 1 <= j < path_parts(files@[g].filename@).len() && d == #[trigger] dir_at(
                    files@,
                    g,
                    j,
                );
            if g == f {
                assert(d == join_parts(pv, j));
                assert(1 <= j <= k);
                assert(exists|jj: int| 1 <= jj <= k && d == #[trigger] join_parts(pv, jj));
                assert(holds_path(dirs@, d));
            } else {
                assert(d == dir_at(files@, g, j));
                assert(holds_path(before, d));
                assert(holds_path(dirs@, d));
            }
        }
        f = f + 1;
    }
    dirs
}


// ---------------------------------------------------------------------------
// Path order
// ---------------------------------------------------------------------------

/// Whether the names `a` come before or equal `b`, compared name by name
/// in the order of `str` (by code point), a shorter list first when it is
/// a prefix of the other.
pub open spec fn parts_le(a: Seq<Seq<char>>, b: Seq<Seq<char>>) -> bool
    decreases a.len(),
{
    if a.len() == 0 {
        true
    } else if b.len() == 0 {
        false
    } else if a[0] != b[0] {
        lex_le(a[0], b[0])
    } else {
        parts_le(a.drop_first(), b.drop_first())
    }
}

/// The order of files by their path names.
pub open spec fn file_le(files: Seq<PrFile>) -> spec_fn(int, int) -> bool {
    |i: int, j: int| parts_le(path_parts(files[i].filename@), path_parts(files[j].filename@))
}

/// The indices of the files, stably sorted by their path names.
pub open spec fn path_order(files: Seq<PrFile>) -> Seq<int> {
    stable_sort(Seq::new(files.len(), |i: int| i), file_le(files))
}

/// Whether the names `a` come before or equal `b`.
fn parts_le_exec(a: &Vec<Vec<char>>, b: &Vec<Vec<char>>) -> (r: bool)
    ensures
        r == parts_le(parts_view(a@), parts_view(b@)),
{
    let ghost av = parts_view(a@);
    let ghost bv = parts_view(b@);
    let mut i: usize = 0;
    assert(av.skip(0) =~= av);
    assert(bv.skip(0) =~= bv);
    while i < a.len() && i < b.len()
        invariant
            i <= a.len(),
            i <= b.len(),
            av == parts_view(a@),
            bv == parts_view(b@),
            parts_le(av, bv) == parts_le(av.skip(i as int), bv.skip(i as int)),
        decreases a.len() - i,
    {
        assert(av.skip(i as int)[0] == a@[i as int]@);
        assert(bv.skip(i as int)[0] == b@[i as int]@);
        if !chars_eq(&a[i], &b[i]) {
            return lex_le_chars(&a[i], &b[i]);
        }
        assert(av.skip(i as int).drop_first() =~= av.skip(i + 1));
        assert(bv.skip(i as int).drop_first() =~= bv.skip(i + 1));
        i = i + 1;
    }
    i == a.len()
}

/// Puts file `x` into `order` after the files whose names come before or
/// equal its own.
fn insert_in_order(order: &mut Vec<usize>, all_parts: &Vec<Vec<Vec<char>>>, files: Ghost<Seq<PrFile>>, x: usize)
    requires
        x < all_parts.len(),
        all_parts.len() == files@.len(),
        forall|f: int| 0 <= f < all_parts.len() ==> parts_view(#[trigger] all_parts@[f]@) == path_parts(files@[f].filename@),
        forall|k: int| 0 <= k < old(order).len() ==> (#[trigger] old(order)@[k]) < all_parts.len(),
    ensures
        final(order)@.map_values(|v: usize| v as int) == sorted_insert(
            old(order)@.map_values(|v: usize| v as int),
            file_le(files@),
            x as int,
        ),
        forall|k: int| 0 <= k < final(order).len() ==> (#[trigger] final(order)@[k]) < all_parts.len(),
{
    let ghost s = order@.map_values(|v: usize| v as int);
    let ghost le = file_le(files@);
    proof {
        lemma_insert_index_bound(s, le, x as int, 0);
    }
    let mut p: usize = 0;
    while p < order.len() && parts_le_exec(&all_parts[order[p]], &all_parts[x])
        invariant
            p <= order.len(),
            order@ == old(order)@,
            s == order@.map_values(|v: usize| v as int),
            le == file_le(files@),
            x < all_parts.len(),
            all_parts.len() == files@.len(),
            forall|f: int| 0 <= f < all_parts.len() ==> parts_view(#[trigger] all_parts@[f]@) == path_parts(files@[f].filename@),
            forall|k: int| 0 <= k < order.len() ==> (#[trigger] order@[k]) < all_parts.len(),
            insert_index(s, le, x as int, 0) == insert_index(s, le, x as int, p as int),
        decreases order.len() - p,
    {
        assert(s[p as int] == order@[p as int] as int);
        p = p + 1;
    }
    proof {
        if p < order.len() {
            assert(s[p as int] == order@[p as int] as int);
        }
        assert(insert_index(s, le, x as int, p as int) == p);
    }
    let ghost before = order@;
    order.insert(p, x);
    assert(order@.map_values(|v: usize| v as int) =~= s.insert(p as int, x as int));
    assert forall|k: int| 0 <= k < order.len() implies (#[trigger] order@[k]) < all_parts.len() by {
        if k < p {
            assert(order@[k] == before[k]);
        } else if k > p {
            assert(order@[k] == before[k - 1]);
        }
    }
}

/// The indices of the files, stably sorted by their path names.
fn sort_by_path(all_parts: &Vec<Vec<Vec<char>>>, files: Ghost<Seq<PrFile>>) -> (order: Vec<usize>)
    requires
        all_parts.len() == files@.len(),
        forall|f: int| 0 <= f < all_parts.len() ==> parts_view(#[trigger] all_parts@[f]@) == path_parts(files@[f].filename@),
    ensures
        order@.map_values(|v: usize| v as int) == path_order(files@),
        forall|k: int| 0 <= k < order.len() ==> (#[trigger] order@[k]) < all_parts.len(),
{
    let ghost ids = Seq::new(files@.len(), |i: int| i);
    let mut order: Vec<usize> = Vec::new();
    let mut i: usize = 0;
    assert(ids.take(0) =~= Seq::<int>::empty());
    assert(order@.map_values(|v: usize| v as int) =~= stable_sort(ids.take(0), file_le(files@)));
    while i < all_parts.len()
        invariant
            i <= all_parts.len(),
            all_parts.len() == files@.len(),
            ids == Seq::new(files@.len(), |i: int| i),
            forall|f: int| 0 <= f < all_parts.len() ==> parts_view(#[trigger] all_parts@[f]@) == path_parts(files@[f].filename@),
            forall|k: int| 0 <= k < order.len() ==> (#[trigger] order@[k]) < all_parts.len(),
            order@.map_values(|v: usize| v as int) == stable_sort(ids.take(i as int), file_le(files@)),
        decreases all_parts.len() - i,
    {
        assert(ids.take(i + 1).drop_last() =~= ids.take(i as int));
        assert(ids.take(i + 1).last() == i);
        insert_in_order(&mut order, all_parts, files, i);
        i = i + 1;
    }
    assert(ids.take(all_parts.len() as int) =~= ids);
    order
}


// ---------------------------------------------------------------------------
// Tree entries
// ---------------------------------------------------------------------------

/// A row of the file tree: a directory or a changed file.
#[derive(Clone, Debug)]
pub struct PrFileEntry {
    pub name: String,
    pub path: String,
    pub is_dir: bool,
    pub is_expanded: bool,
    pub depth: usize,
    pub file_index: Option<usize>,
    pub status: Option<PrFileStatus>,
    pub additions: u64,
    pub deletions: u64,
}

pub struct FileEntryView {
    pub name: Seq<char>,
    pub path: Seq<char>,
    pub is_dir: bool,
    pub is_expanded: bool,
    pub depth: usize,
    pub file_index: Option<usize>,
    pub status: Option<PrFileStatus>,
    pub additions: u64,
    pub deletions: u64,
}

impl View for PrFileEntry {
    type V = FileEntryView;

    open spec fn view(&self) -> FileEntryView {
        FileEntryView {
            name: self.name@,
            path: self.path@,
            is_dir: self.is_dir,
            is_expanded: self.is_expanded,
            depth: self.depth,
            file_index: self.file_index,
            status: self.status,
            additions: self.additions,
            deletions: self.deletions,
        }
    }
}

pub open spec fn entry_views(es: Seq<PrFileEntry>) -> Seq<FileEntryView> {
    es.map_values(|e: PrFileEntry| e@)
}

/// Whether the rows list the directory `d`.
pub open spec fn listed_dir(es: Seq<FileEntryView>, d: Seq<char>) -> bool {
    exists|i: int| 0 <= i < es.len() && (#[trigger] es[i]).is_dir && es[i].path == d
}

/// Whether every one of the first `d` directories of a path is expanded,
/// so that the directory below them, or the file, is shown.
pub open spec fn reached(parts: Seq<Seq<char>>, expanded: Seq<String>, d: int) -> bool {
    forall|j: int| 1 <= j <= d ==> holds_path(expanded, #[trigger] join_parts(parts, j))
}

/// The row of the directory made of the first `d` names.
pub open spec fn dir_entry(parts: Seq<Seq<char>>, expanded: Seq<String>, d: int) -> FileEntryView {
    FileEntryView {
        name: parts[d - 1],
        path: join_parts(parts, d),
        is_dir: true,
        is_expanded: holds_path(expanded, join_parts(parts, d)),
        depth: (d - 1) as usize,
        file_index: None,
        status: None,
        additions: 0,
        deletions: 0,
    }
}

/// The row of file `f`.
pub open spec fn file_entry(files: Seq<PrFile>, f: int) -> FileEntryView {
    let parts = path_parts(files[f].filename@);
    FileEntryView {
        name: parts.last(),
        path: files[f].filename@,
        is_dir: false,
        is_expanded: false,
        depth: (parts.len() - 1) as usize,
        file_index: Some(f as usize),
        status: Some(files[f].status),
        additions: files[f].additions,
        deletions: files[f].deletions,
    }
}

/// The rows after the directories of a path down to depth `d`: each one
/// that is reached and not listed yet is added.
pub open spec fn with_dirs(es: Seq<FileEntryView>, parts: Seq<Seq<char>>, expanded: Seq<String>, d: int) -> Seq<
    FileEntryView,
>
    decreases d,
{
    if d <= 0 {
        es
    } else {
        let s = with_dirs(es, parts, expanded, d - 1);
        if reached(parts, expanded, d - 1) && !listed_dir(s, join_parts(parts, d)) {
            s.push(dir_entry(parts, expanded, d))
        } else {
            s
        }
    }
}

/// The rows after file `f`: its directories, then the file itself when
/// all of them are expanded.
pub open spec fn with_file(es: Seq<FileEntryView>, files: Seq<PrFile>, expanded: Seq<String>, f: int) -> Seq<
    FileEntryView,
> {
    let parts = path_parts(files[f].filename@);
    let s = with_dirs(es, parts, expanded, parts.len() - 1);
    if reached(parts, expanded, parts.len() - 1) {
        s.push(file_entry(files, f))
    } else {
        s
    }
}

/// The rows of the first `k` files in path order.
pub open spec fn tree_prefix(files: Seq<PrFile>, expanded: Seq<String>, order: Seq<int>, k: int) -> Seq<
    FileEntryView,
>
    decreases k,
{
    if k <= 0 {
        Seq::empty()
    } else {
        with_file(tree_prefix(files, expanded, order, k - 1), files, expanded, order[k - 1])
    }
}

/// The rows of the file tree.
pub open spec fn file_tree(files: Seq<PrFile>, expanded: Seq<String>) -> Seq<FileEntryView> {
    tree_prefix(files, expanded, path_order(files), files.len() as int)
}

/// Past a collapsed directory nothing more of the path is listed.
pub proof fn lemma_with_dirs_stops(
    es: Seq<FileEntryView>,
    parts: Seq<Seq<char>>,
    expanded: Seq<String>,
    d: int,
    e: int,
)
    requires
        0 <= d <= e,
        !reached(parts, expanded, d),
    ensures
        with_dirs(es, parts, expanded, e) == with_dirs(es, parts, expanded, d),
    decreases e - d,
{
    if e > d {
        lemma_with_dirs_stops(es, parts, expanded, d, e - 1);
        assert(!reached(parts, expanded, e - 1));
    }
}

/// The rows of a tree, from the files, their path names, their order and
/// the expanded directories.
fn tree_rows(
    files: &[PrFile],
    all_parts: &Vec<Vec<Vec<char>>>,
    order: &Vec<usize>,
    expanded_dirs: &[String],
) -> (r: Vec<PrFileEntry>)
    requires
        all_parts.len() == files@.len(),
        forall|f: int| 0 <= f < all_parts.len() ==> parts_view(#[trigger] all_parts@[f]@) == path_parts(files@[f].filename@),
        forall|f: int| 0 <= f < all_parts.len() ==> (#[trigger] all_parts@[f]).len() >= 1,
        forall|k: int| 0 <= k < order.len() ==> (#[trigger] order@[k]) < all_parts.len(),
    ensures
        entry_views(r@) == tree_prefix(
            files@,
            expanded_dirs@,
            order@.map_values(|v: usize| v as int),
            order.len() as int,
        ),
{
    let ghost ord = order@.map_values(|v: usize| v as int);
    let ghost x = expanded_dirs@;
    let mut entries: Vec<PrFileEntry> = Vec::new();
    let mut emitted: Vec<String> = Vec::new();
    let mut k: usize = 0;
    while k < order.len()
        invariant
            k <= order.len(),
            ord == order@.map_values(|v: usize| v as int),
            x == expanded_dirs@,
            all_parts.len() == files@.len(),
            forall|f: int| 0 <= f < all_parts.len() ==> parts_view(#[trigger] all_parts@[f]@) == path_parts(files@[f].filename@),
            forall|f: int| 0 <= f < all_parts.len() ==> (#[trigger] all_parts@[f]).len() >= 1,
            forall|j: int| 0 <= j < order.len() ==> (#[trigger] order@[j]) < all_parts.len(),
            entry_views(entries@) == tree_prefix(files@, x, ord, k as int),
            paths_distinct(emitted@),
            forall|p: Seq<char>|
                #![trigger holds_path(emitted@, p)]
                holds_path(emitted@, p) <==> listed_dir(entry_views(entries@), p),
        decreases order.len() - k,
    {
        let f = order[k];
        assert(ord[k as int] == f as int);
        let parts = &all_parts[f];
        let ghost pv = parts_view(parts@);
        let ghost es0 = entry_views(entries@);
        let m = parts.len() - 1;
        let mut path = String::new();
        let mut collapsed = false;
        let mut d: usize = 0;
        assert(reached(pv, x, 0));
        while d < m
            invariant_except_break
                path@ == join_parts(pv, d as int),
                !collapsed,
                reached(pv, x, d as int),
                entry_views(entries@) == with_dirs(es0, pv, x, d as int),
            invariant
                d <= m,
                m + 1 == parts.len(),
                pv == parts_view(parts@),
                x == expanded_dirs@,
                paths_distinct(emitted@),
                forall|p: Seq<char>|
                    #![trigger holds_path(emitted@, p)]
                    holds_path(emitted@, p) <==> listed_dir(entry_views(entries@), p),
            ensures
                collapsed ==> !reached(pv, x, d + 1) && d < m,
                !collapsed ==> d == m,
                collapsed ==> entry_views(entries@) == with_dirs(es0, pv, x, d + 1),
                !collapsed ==> entry_views(entries@) == with_dirs(es0, pv, x, d as int),
                !collapsed ==> reached(pv, x, d as int),
            decreases m - d,
        {
            extend_path(&mut path, &parts[d]);
            assert(pv[d as int] == parts@[d as int]@);
            assert(path@ == join_parts(pv, d + 1));
            let exp = contains_path(expanded_dirs, &path);
            let ghost before = entry_views(entries@);
            if !contains_path(emitted.as_slice(), &path) {
                let name = string_of_all(&parts[d]);
                let entry = PrFileEntry {
                    name,
                    path: path.clone(),
                    is_dir: true,
                    is_expanded: exp,
                    depth: d,
                    file_index: None,
                    status: None,
                    additions: 0,
                    deletions: 0,
                };
                let ghost ev = entry@;
                entries.push(entry);
                assert(entry_views(entries@) =~= before.push(ev));
                assert(ev == dir_entry(pv, x, d + 1));
                add_path(&mut emitted, path.clone());
                assert forall|p: Seq<char>| holds_path(emitted@, p) <==> listed_dir(entry_views(entries@), p) by {
                    let now = entry_views(entries@);
                    if listed_dir(now, p) {
                        let i = choose|i: int| 0 <= i < now.len() && (#[trigger] now[i]).is_dir && now[i].path == p;
                        if i < before.len() {
                            assert(now[i] == before[i]);
                            assert(listed_dir(before, p));
                        }
                    }
                    if listed_dir(before, p) {
                        let i = choose|i: int| 0 <= i < before.len() && (#[trigger] before[i]).is_dir && before[i].path == p;
                        assert(now[i] == before[i]);
                    }
                    if p == path@ {
                        assert(now[before.len() as int].is_dir);
                    }
                }
                if !exp {
                    collapsed = true;
                }
            } else {
                assert(listed_dir(before, path@));
                if !exp {
                    collapsed = true;
                }
            }
            assert(entry_views(entries@) == with_dirs(es0, pv, x, d + 1));
            if collapsed {
                break;
            }
            d = d + 1;
        }
        proof {
            if collapsed {
                lemma_with_dirs_stops(es0, pv, x, d + 1, m as int);
            }
        }
        assert(entry_views(entries@) == with_dirs(es0, pv, x, m as int));
        assert(pv.len() == parts.len());
        assert(pv == path_parts(files@[f as int].filename@));
        if !collapsed {
            let ghost before = entry_views(entries@);
            let name = string_of_all(&parts[m]);
            assert(pv[m as int] == parts@[m as int]@);
            let file = &files[f];
            let entry = PrFileEntry {
                name,
                path: file.filename.clone(),
                is_dir: false,
                is_expanded: false,
                depth: m,
                file_index: Some(f),
                status: Some(file.status),
                additions: file.additions,
                deletions: file.deletions,
            };
            let ghost ev = entry@;
            entries.push(entry);
            assert(entry_views(entries@) =~= before.push(ev));
            assert(ev == file_entry(files@, f as int));
            assert forall|p: Seq<char>| holds_path(emitted@, p) <==> listed_dir(entry_views(entries@), p) by {
                let now = entry_views(entries@);
                if listed_dir(now, p) {
                    let i = choose|i: int| 0 <= i < now.len() && (#[trigger] now[i]).is_dir && now[i].path == p;
                    assert(i < before.len());
                    assert(now[i] == before[i]);
                    assert(listed_dir(before, p));
                }
                if listed_dir(before, p) {
                    let i = choose|i: int| 0 <= i < before.len() && (#[trigger] before[i]).is_dir && before[i].path == p;
                    assert(now[i] == before[i]);
                }
            }
        }
        assert(entry_views(entries@) == with_file(es0, files@, x, f as int));
        k = k + 1;
    }
    entries
}

/// The rows of the file tree of a pull request: the files in path order
/// (stably, by their names compared one by one), each directory listed
/// once, at the first file that reaches it, and nothing below a directory
/// that is not in `expanded_dirs`.
pub fn build_file_tree_entries(files: &[PrFile], expanded_dirs: &[String]) -> (r: Vec<PrFileEntry>)
    ensures
        entry_views(r@) == file_tree(files@, expanded_dirs@),
{
    let mut all_parts: Vec<Vec<Vec<char>>> = Vec::new();
    let mut i: usize = 0;
    while i < files.len()
        invariant
            i <= files.len(),
            all_parts.len() == i,
            forall|f: int| 0 <= f < i ==> parts_view(#[trigger] all_parts@[f]@) == path_parts(files@[f].filename@),
            forall|f: int| 0 <= f < i ==> (#[trigger] all_parts@[f]).len() >= 1,
        decreases files.len() - i,
    {
        let chars = chars_of(files[i].filename.as_str());
        let parts = split_path(&chars);
        all_parts.push(parts);
        i = i + 1;
    }
    let order = sort_by_path(&all_parts, Ghost(files@));
    let r = tree_rows(files, &all_parts, &order, expanded_dirs);
    assert(order.len() == files.len()) by {
        assert(order@.map_values(|v: usize| v as int).len() == path_order(files@).len());
        lemma_stable_sort_len(Seq::new(files@.len(), |i: int| i), file_le(files@));
    }
    r
}


// ---------------------------------------------------------------------------
// Laws
// ---------------------------------------------------------------------------

/// No directory is listed twice.
pub open spec fn dirs_distinct(es: Seq<FileEntryView>) -> bool {
    forall|i: int, j: int|
        0 <= i < j < es.len() && (#[trigger] es[i]).is_dir && (#[trigger] es[j]).is_dir ==> es[i].path != es[j].path
}

pub proof fn lemma_with_dirs_distinct(es: Seq<FileEntryView>, parts: Seq<Seq<char>>, expanded: Seq<String>, d: int)
    requires
        dirs_distinct(es),
    ensures
        dirs_distinct(with_dirs(es, parts, expanded, d)),
    decreases d,
{
    if d > 0 {
        lemma_with_dirs_distinct(es, parts, expanded, d - 1);
        let s = with_dirs(es, parts, expanded, d - 1);
        if reached(parts, expanded, d - 1) && !listed_dir(s, join_parts(parts, d)) {
            let t = s.push(dir_entry(parts, expanded, d));
            assert forall|i: int, j: int|
                0 <= i < j < t.len() && (#[trigger] t[i]).is_dir && (#[trigger] t[j]).is_dir implies t[i].path
                != t[j].path by {
                if j == s.len() {
                    assert(t[i] == s[i]);
                    if t[i].path == t[j].path {
                        assert(listed_dir(s, join_parts(parts, d)));
                    }
                } else {
                    assert(t[i] == s[i] && t[j] == s[j]);
                }
            }
        }
    }
}

pub proof fn lemma_tree_prefix_distinct(files: Seq<PrFile>, expanded: Seq<String>, order: Seq<int>, k: int)
    ensures
        dirs_distinct(tree_prefix(files, expanded, order, k)),
    decreases k,
{
    if k > 0 {
        lemma_tree_prefix_distinct(files, expanded, order, k - 1);
        let es = tree_prefix(files, expanded, order, k - 1);
        let parts = path_parts(files[order[k - 1]].filename@);
        lemma_with_dirs_distinct(es, parts, expanded, parts.len() - 1);
        let s = with_dirs(es, parts, expanded, parts.len() - 1);
        let t = s.push(file_entry(files, order[k - 1]));
        assert forall|i: int, j: int|
            0 <= i < j < t.len() && (#[trigger] t[i]).is_dir && (#[trigger] t[j]).is_dir implies t[i].path != t[j].path by {
            assert(t[i] == s[i]);
            if j < s.len() {
                assert(t[j] == s[j]);
            }
        }
    }
}

/// Every directory is listed at most once in the file tree.
pub proof fn law_each_dir_listed_once(files: Seq<PrFile>, expanded: Seq<String>)
    ensures
        dirs_distinct(file_tree(files, expanded)),
{
    lemma_tree_prefix_distinct(files, expanded, path_order(files), files.len() as int);
}

/// The file index of each row that is a file, in order.
pub open spec fn file_rows(es: Seq<FileEntryView>) -> Seq<Option<usize>>
    decreases es.len(),
{
    if es.len() == 0 {
        Seq::empty()
    } else {
        file_rows(es.drop_last()) + if es.last().is_dir {
            Seq::empty()
        } else {
            seq![es.last().file_index]
        }
    }
}

pub proof fn lemma_file_rows_push(es: Seq<FileEntryView>, e: FileEntryView)
    ensures
        file_rows(es.push(e)) == file_rows(es) + if e.is_dir {
            Seq::<Option<usize>>::empty()
        } else {
            seq![e.file_index]
        },
{
    assert(es.push(e).drop_last() =~= es);
}

pub proof fn lemma_with_dirs_files(es: Seq<FileEntryView>, parts: Seq<Seq<char>>, expanded: Seq<String>, d: int)
    ensures
        file_rows(with_dirs(es, parts, expanded, d)) == file_rows(es),
    decreases d,
{
    if d > 0 {
        lemma_with_dirs_files(es, parts, expanded, d - 1);
        let s = with_dirs(es, parts, expanded, d - 1);
        lemma_file_rows_push(s, dir_entry(parts, expanded, d));
        assert(file_rows(s) + Seq::<Option<usize>>::empty() =~= file_rows(s));
    }
}

/// Every directory that holds a changed file is expanded.
pub open spec fn all_expanded(files: Seq<PrFile>, expanded: Seq<String>) -> bool {
    forall|d: Seq<char>| is_dir_of(files, d) ==> holds_path(expanded, d)
}

pub proof fn lemma_tree_prefix_files(files: Seq<PrFile>, expanded: Seq<String>, order: Seq<int>, k: int)
    requires
        all_expanded(files, expanded),
        0 <= k <= order.len(),
        forall|j: int| 0 <= j < order.len() ==> 0 <= #[trigger] order[j] < files.len(),
    ensures
        file_rows(tree_prefix(files, expanded, order, k)) == order.take(k).map_values(|f: int| Some(f as usize)),
    decreases k,
{
    if k == 0 {
        assert(order.take(0).map_values(|f: int| Some(f as usize)) =~= Seq::<Option<usize>>::empty());
    } else {
        lemma_tree_prefix_files(files, expanded, order, k - 1);
        let f = order[k - 1];
        let es = tree_prefix(files, expanded, order, k - 1);
        let parts = path_parts(files[f].filename@);
        lemma_split_nonempty(files[f].filename@, 0);
        assert forall|j: int| 1 <= j <= parts.len() - 1 implies holds_path(expanded, #[trigger] join_parts(parts, j)) by {
            assert(dir_at(files, f, j) == join_parts(parts, j));
            assert(is_dir_of(files, join_parts(parts, j)));
        }
        assert(reached(parts, expanded, parts.len() - 1));
        lemma_with_dirs_files(es, parts, expanded, parts.len() - 1);
        let s = with_dirs(es, parts, expanded, parts.len() - 1);
        lemma_file_rows_push(s, file_entry(files, f));
        assert(order.take(k).map_values(|f: int| Some(f as usize)) =~= order.take(k - 1).map_values(
            |f: int| Some(f as usize),
        ).push(Some(f as usize)));
    }
}

/// With every directory expanded, the tree lists each changed file once,
/// in path order.
pub proof fn law_expanded_tree_lists_files_in_path_order(files: Seq<PrFile>, expanded: Seq<String>)
    requires
        all_expanded(files, expanded),
    ensures
        file_rows(file_tree(files, expanded)) == path_order(files).map_values(|f: int| Some(f as usize)),
{
    let ids = Seq::new(files.len(), |i: int| i);
    lemma_stable_sort_elements(ids, file_le(files));
    lemma_stable_sort_len(ids, file_le(files));
    let order = path_order(files);
    assert forall|j: int| 0 <= j < order.len() implies 0 <= #[trigger] order[j] < files.len() by {
        let i = choose|i: int| 0 <= i < ids.len() && ids[i] == #[trigger] stable_sort(ids, file_le(files))[j];
    }
    lemma_tree_prefix_files(files, expanded, order, files.len() as int);
    assert(order.take(files.len() as int) =~= order);
}

/// Each row is a directory row, naming no file and carrying no status or
/// counts, or the row of one of the files, naming it by its index and
/// carrying its path, status and numbers of added and deleted lines, shown
/// under the last name of its path at the depth of its directories.
pub open spec fn rows_carry_files(files: Seq<PrFile>, es: Seq<FileEntryView>) -> bool {
    forall|i: int|
        0 <= i < es.len() ==> {
            let e = #[trigger] es[i];
            &&& e.is_dir ==> e.file_index is None && e.status is None && e.additions == 0 && e.deletions == 0
            &&& !e.is_dir ==> (e.file_index matches Some(f) && f < files.len() && e.path == files[f as int].filename@
                && e.status == Some(files[f as int].status) && e.additions == files[f as int].additions
                && e.deletions == files[f as int].deletions && e.name == path_parts(files[f as int].filename@).last()
                && e.depth == (path_parts(files[f as int].filename@).len() - 1) as usize)
        }
}

proof fn lemma_with_dirs_carry(
    files: Seq<PrFile>,
    es: Seq<FileEntryView>,
    parts: Seq<Seq<char>>,
    expanded: Seq<String>,
    d: int,
)
    requires
        rows_carry_files(files, es),
    ensures
        rows_carry_files(files, with_dirs(es, parts, expanded, d)),
    decreases d,
{
    if d > 0 {
        lemma_with_dirs_carry(files, es, parts, expanded, d - 1);
        let s = with_dirs(es, parts, expanded, d - 1);
        let t = s.push(dir_entry(parts, expanded, d));
        assert forall|i: int| 0 <= i < t.len() implies {
            let e = #[trigger] t[i];
            &&& e.is_dir ==> e.file_index is None && e.status is None && e.additions == 0 && e.deletions == 0
            &&& !e.is_dir ==> (e.file_index matches Some(f) && f < files.len() && e.path == files[f as int].filename@
                && e.status == Some(files[f as int].status) && e.additions == files[f as int].additions
                && e.deletions == files[f as int].deletions && e.name == path_parts(files[f as int].filename@).last()
                && e.depth == (path_parts(files[f as int].filename@).len() - 1) as usize)
        } by {
            if i < s.len() {
                assert(t[i] == s[i]);
            }
        }
    }
}

proof fn lemma_tree_prefix_carry(files: Seq<PrFile>, expanded: Seq<String>, order: Seq<int>, k: int)
    requires
        files.len() <= usize::MAX,
        0 <= k <= order.len(),
        forall|j: int| 0 <= j < order.len() ==> 0 <= #[trigger] order[j] < files.len(),
    ensures
        rows_carry_files(files, tree_prefix(files, expanded, order, k)),
    decreases k,
{
    if k > 0 {
        lemma_tree_prefix_carry(files, expanded, order, k - 1);
        let f = order[k - 1];
        let es = tree_prefix(files, expanded, order, k - 1);
        let parts = path_parts(files[f].filename@);
        lemma_split_nonempty(files[f].filename@, 0);
        lemma_with_dirs_carry(files, es, parts, expanded, parts.len() - 1);
        let s = with_dirs(es, parts, expanded, parts.len() - 1);
        let t = s.push(file_entry(files, f));
        assert forall|i: int| 0 <= i < t.len() implies {
            let e = #[trigger] t[i];
            &&& e.is_dir ==> e.file_index is None && e.status is None && e.additions == 0 && e.deletions == 0
            &&& !e.is_dir ==> (e.file_index matches Some(g) && g < files.len() && e.path == files[g as int].filename@
                && e.status == Some(files[g as int].status) && e.additions == files[g as int].additions
                && e.deletions == files[g as int].deletions && e.name == path_parts(files[g as int].filename@).last()
                && e.depth == (path_parts(files[g as int].filename@).len() - 1) as usize)
        } by {
            if i < s.len() {
                assert(t[i] == s[i]);
            }
        }
    }
}

/// Every row of the file tree is a directory row, with no file, status or
/// counts, or the row of a changed file that carries that file's path,
/// status and numbers of added and deleted lines.
pub proof fn law_file_rows_carry_their_file(files: Seq<PrFile>, expanded: Seq<String>)
    requires
        files.len() <= usize::MAX,
    ensures
        rows_carry_files(files, file_tree(files, expanded)),
{
    let ids = Seq::new(files.len(), |i: int| i);
    lemma_stable_sort_elements(ids, file_le(files));
    lemma_stable_sort_len(ids, file_le(files));
    let order = path_order(files);
    assert forall|j: int| 0 <= j < order.len() implies 0 <= #[trigger] order[j] < files.len() by {
        let i = choose|i: int| 0 <= i < ids.len() && ids[i] == #[trigger] stable_sort(ids, file_le(files))[j];
    }
    lemma_tree_prefix_carry(files, expanded, order, files.len() as int);
}

/// Every file row lies under expanded directories: each directory on the
/// path of its file is among the expanded ones.
pub open spec fn files_under_expanded(files: Seq<PrFile>, expanded: Seq<String>, es: Seq<FileEntryView>) -> bool {
    forall|i: int|
        0 <= i < es.len() && !(#[trigger] es[i]).is_dir ==> (es[i].file_index matches Some(f) && f < files.len() && {
            let parts = path_parts(files[f as int].filename@);
            forall|j: int| 1 <= j < parts.len() ==> holds_path(expanded, #[trigger] join_parts(parts, j))
        })
}

proof fn lemma_with_dirs_under(
    files: Seq<PrFile>,
    es: Seq<FileEntryView>,
    parts: Seq<Seq<char>>,
    expanded: Seq<String>,
    d: int,
)
    requires
        files_under_expanded(files, expanded, es),
    ensures
        files_under_expanded(files, expanded, with_dirs(es, parts, expanded, d)),
    decreases d,
{
    if d > 0 {
        lemma_with_dirs_under(files, es, parts, expanded, d - 1);
        let s = with_dirs(es, parts, expanded, d - 1);
        let t = s.push(dir_entry(parts, expanded, d));
        assert forall|i: int| 0 <= i < t.len() && !(#[trigger] t[i]).is_dir implies (t[i].file_index matches Some(f)
            && f < files.len() && {
            let parts = path_parts(files[f as int].filename@);
            forall|j: int| 1 <= j < parts.len() ==> holds_path(expanded, #[trigger] join_parts(parts, j))
        }) by {
            assert(t[i] == s[i]);
        }
    }
}

proof fn lemma_tree_prefix_under(files: Seq<PrFile>, expanded: Seq<String>, order: Seq<int>, k: int)
    requires
        files.len() <= usize::MAX,
        0 <= k <= order.len(),
        forall|j: int| 0 <= j < order.len() ==> 0 <= #[trigger] order[j] < files.len(),
    ensures
        files_under_expanded(files, expanded, tree_prefix(files, expanded, order, k)),
    decreases k,
{
    if k > 0 {
        lemma_tree_prefix_under(files, expanded, order, k - 1);
        let f = order[k - 1];
        let es = tree_prefix(files, expanded, order, k - 1);
        let parts = path_parts(files[f].filename@);
        lemma_with_dirs_under(files, es, parts, expanded, parts.len() - 1);
        let s = with_dirs(es, parts, expanded, parts.len() - 1);
        if reached(parts, expanded, parts.len() - 1) {
            let t = s.push(file_entry(files, f));
            assert forall|i: int| 0 <= i < t.len() && !(#[trigger] t[i]).is_dir implies (t[i].file_index matches Some(g)
                && g < files.len() && {
                let ps = path_parts(files[g as int].filename@);
                forall|j: int| 1 <= j < ps.len() ==> holds_path(expanded, #[trigger] join_parts(ps, j))
            }) by {
                if i < s.len() {
                    assert(t[i] == s[i]);
                } else {
                    assert(t[i] == file_entry(files, f));
                    assert forall|j: int| 1 <= j < parts.len() implies holds_path(expanded, #[trigger] join_parts(parts, j)) by {
                        assert(1 <= j <= parts.len() - 1);
                    }
                }
            }
        }
    }
}

/// A file shows in the tree only when every directory on its path is
/// expanded.
pub proof fn law_files_shown_only_under_expanded_dirs(files: Seq<PrFile>, expanded: Seq<String>)
    requires
        files.len() <= usize::MAX,
    ensures
        files_under_expanded(files, expanded, file_tree(files, expanded)),
{
    let ids = Seq::new(files.len(), |i: int| i);
    lemma_stable_sort_elements(ids, file_le(files));
    lemma_stable_sort_len(ids, file_le(files));
    let order = path_order(files);
    assert forall|j: int| 0 <= j < order.len() implies 0 <= #[trigger] order[j] < files.len() by {
        let i = choose|i: int| 0 <= i < ids.len() && ids[i] == #[trigger] stable_sort(ids, file_le(files))[j];
    }
    lemma_tree_prefix_under(files, expanded, order, files.len() as int);
}

} // verus!
