//! How a window's panes are laid out: a tree of horizontal and vertical
//! splits whose leaves are panes, the splitting and closing of panes, and
//! the tabs of a pane.
use vstd::prelude::*;

verus! {

/// The direction in which the members of a split are laid out.
#[derive(Clone, Copy, Debug, PartialEq, Eq, Structural)]
pub enum Axis {
    Horizontal,
    Vertical,
}

/// Where a new pane goes next to an existing one.
#[derive(Clone, Copy, Debug, PartialEq, Eq, Structural)]
pub enum SplitDirection {
    Up,
    Down,
    Left,
    Right,
}

impl SplitDirection {
    /// The axis a split in this direction lays panes out along: vertical
    /// for up and down, horizontal for left and right.
    pub fn axis(&self) -> (a: Axis)
        ensures
            a == split_axis(*self),
    {
        match self {
            SplitDirection::Up | SplitDirection::Down => Axis::Vertical,
            SplitDirection::Left | SplitDirection::Right => Axis::Horizontal,
        }
    }

    /// Whether the new pane goes before the existing one: up and left.
    pub fn is_before(&self) -> (b: bool)
        ensures
            b == goes_before(*self),
    {
        match self {
            SplitDirection::Up | SplitDirection::Left => true,
            _ => false,
        }
    }
}

pub open spec fn split_axis(d: SplitDirection) -> Axis {
    match d {
        SplitDirection::Up | SplitDirection::Down => Axis::Vertical,
        _ => Axis::Horizontal,
    }
}

pub open spec fn goes_before(d: SplitDirection) -> bool {
    d == SplitDirection::Up || d == SplitDirection::Left
}

/// A member of the layout: a pane, by its id, or a split of members.
#[derive(Debug)]
pub enum Member {
    Pane(u64),
    Axis(PaneAxis),
}

/// A split: its members laid out along its axis.
#[derive(Debug)]
pub struct PaneAxis {
    pub axis: Axis,
    pub members: Vec<Member>,
}

/// The layout as a mathematical tree.
pub enum LayoutView {
    Pane(u64),
    Split(Axis, Seq<LayoutView>),
}

pub open spec fn member_view(m: Member) -> LayoutView
    decreases m,
{
    match m {
        Member::Pane(id) => LayoutView::Pane(id),
        Member::Axis(a) => LayoutView::Split(a.axis, members_view(a.members@)),
    }
}

pub open spec fn members_view(ms: Seq<Member>) -> Seq<LayoutView>
    decreases ms,
{
    if ms.len() == 0 {
        Seq::empty()
    } else {
        seq![member_view(ms[0])] + members_view(ms.drop_first())
    }
}

pub proof fn lemma_members_view(ms: Seq<Member>)
    ensures
        members_view(ms).len() == ms.len(),
        forall|i: int| 0 <= i < ms.len() ==> #[trigger] members_view(ms)[i] == member_view(ms[i]),
    decreases ms.len(),
{
    if ms.len() > 0 {
        lemma_members_view(ms.drop_first());
        assert forall|i: int| 0 <= i < ms.len() implies #[trigger] members_view(ms)[i] == member_view(ms[i]) by {
            if i > 0 {
                assert(ms.drop_first()[i - 1] == ms[i]);
            }
        }
    }
}

/// The view of a list of members is the list of their views.
pub proof fn lemma_members_view_ext(ms: Seq<Member>, vs: Seq<LayoutView>)
    requires
        vs.len() == ms.len(),
        forall|i: int| 0 <= i < ms.len() ==> #[trigger] vs[i] == member_view(ms[i]),
    ensures
        members_view(ms) == vs,
{
    lemma_members_view(ms);
    assert(members_view(ms) =~= vs);
}

/// The panes of a layout, in order.
pub open spec fn view_leaves(v: LayoutView) -> Seq<u64>
    decreases v,
{
    match v {
        LayoutView::Pane(id) => seq![id],
        LayoutView::Split(_, cs) => list_leaves(cs),
    }
}

pub open spec fn list_leaves(cs: Seq<LayoutView>) -> Seq<u64>
    decreases cs,
{
    if cs.len() == 0 {
        Seq::empty()
    } else {
        view_leaves(cs[0]) + list_leaves(cs.drop_first())
    }
}

/// The pair of the new pane and the old member, in the order the
/// direction puts them.
pub open spec fn pair(dir: SplitDirection, new_pane: u64, old: LayoutView) -> Seq<LayoutView> {
    if goes_before(dir) {
        seq![LayoutView::Pane(new_pane), old]
    } else {
        seq![old, LayoutView::Pane(new_pane)]
    }
}

/// The members of a split along `axis` after splitting the first pane
/// `target` found depth first: the new pane goes next to it when the split
/// runs along the same axis, else the two share a new split in the
/// direction's axis; `None` when `target` is not among them.
pub open spec fn split_list(axis: Axis, ms: Seq<LayoutView>, target: u64, new_pane: u64, dir: SplitDirection) -> Option<
    Seq<LayoutView>,
>
    decreases ms,
{
    if ms.len() == 0 {
        None
    } else {
        let h = ms[0];
        let rest = ms.drop_first();
        let later = match split_list(axis, rest, target, new_pane, dir) {
            Some(r) => Some(seq![h] + r),
            None => None,
        };
        match h {
            LayoutView::Pane(id) => if id == target {
                if split_axis(dir) == axis {
                    Some(pair(dir, new_pane, h) + rest)
                } else {
                    Some(seq![LayoutView::Split(split_axis(dir), pair(dir, new_pane, h))] + rest)
                }
            } else {
                later
            },
            LayoutView::Split(ax2, cs) => match split_list(ax2, cs, target, new_pane, dir) {
                Some(cs2) => Some(seq![LayoutView::Split(ax2, cs2)] + rest),
                None => later,
            },
        }
    }
}

/// The layout after splitting pane `target` in direction `dir` with the
/// pane `new_pane`: a single pane becomes a split of the two; a split
/// changes as `split_list` says; otherwise nothing changes.
pub open spec fn split_root(root: LayoutView, target: u64, new_pane: u64, dir: SplitDirection) -> LayoutView {
    match root {
        LayoutView::Pane(id) => if id == target {
            LayoutView::Split(split_axis(dir), pair(dir, new_pane, root))
        } else {
            root
        },
        LayoutView::Split(ax, cs) => match split_list(ax, cs, target, new_pane, dir) {
            Some(cs2) => LayoutView::Split(ax, cs2),
            None => root,
        },
    }
}

/// A split left with one member gives way to that member.
pub open spec fn collapse(ax: Axis, cs: Seq<LayoutView>) -> LayoutView {
    if cs.len() == 1 {
        cs[0]
    } else {
        LayoutView::Split(ax, cs)
    }
}

/// The members after removing the first pane `target` found depth first;
/// a nested split left with a single member is replaced by it; `None` when
/// `target` is not among them.
pub open spec fn remove_list(ms: Seq<LayoutView>, target: u64) -> Option<Seq<LayoutView>>
    decreases ms,
{
    if ms.len() == 0 {
        None
    } else {
        let h = ms[0];
        let rest = ms.drop_first();
        let later = match remove_list(rest, target) {
            Some(r) => Some(seq![h] + r),
            None => None,
        };
        match h {
            LayoutView::Pane(id) => if id == target {
                Some(rest)
            } else {
                later
            },
            LayoutView::Split(ax2, cs) => match remove_list(cs, target) {
                Some(cs2) => Some(seq![collapse(ax2, cs2)] + rest),
                None => later,
            },
        }
    }
}

/// The layout after closing pane `target`: the last pane is never
/// closed; a split left with one member gives way to it.
pub open spec fn remove_root(root: LayoutView, target: u64) -> LayoutView {
    match root {
        LayoutView::Pane(_) => root,
        LayoutView::Split(ax, cs) => match remove_list(cs, target) {
            Some(cs2) => collapse(ax, cs2),
            None => root,
        },
    }
}

/// The first pane of a layout, following first members only.
pub open spec fn first_leaf(v: LayoutView) -> Option<u64>
    decreases v,
{
    match v {
        LayoutView::Pane(id) => Some(id),
        LayoutView::Split(_, cs) => if cs.len() == 0 {
            None
        } else {
            first_leaf(cs[0])
        },
    }
}

/// The panes of a list that starts with `x`.
pub proof fn lemma_list_leaves_cons(x: LayoutView, r: Seq<LayoutView>)
    ensures
        list_leaves(seq![x] + r) == view_leaves(x) + list_leaves(r),
{
    let s = seq![x] + r;
    assert(s[0] == x);
    assert(s.drop_first() =~= r);
}

/// The panes of two lists one after the other.
pub proof fn lemma_list_leaves_concat(a: Seq<LayoutView>, b: Seq<LayoutView>)
    ensures
        list_leaves(a + b) == list_leaves(a) + list_leaves(b),
    decreases a.len(),
{
    if a.len() == 0 {
        assert(a + b =~= b);
        assert(list_leaves(a) + list_leaves(b) =~= list_leaves(b));
    } else {
        assert((a + b)[0] == a[0]);
        assert((a + b).drop_first() =~= a.drop_first() + b);
        lemma_list_leaves_concat(a.drop_first(), b);
        assert(list_leaves(a + b) =~= list_leaves(a) + list_leaves(b));
    }
}

/// A split that gives way to its only member keeps the panes.
pub proof fn lemma_collapse_leaves(ax: Axis, cs: Seq<LayoutView>)
    ensures
        view_leaves(collapse(ax, cs)) == list_leaves(cs),
{
    if cs.len() == 1 {
        assert(cs =~= seq![cs[0]] + Seq::<LayoutView>::empty());
        lemma_list_leaves_cons(cs[0], Seq::<LayoutView>::empty());
        assert(view_leaves(cs[0]) + Seq::<u64>::empty() =~= view_leaves(cs[0]));
    }
}

/// The index of the first `t` in `s`; `s.len()` when there is none.
pub open spec fn first_index(s: Seq<u64>, t: u64) -> int
    decreases s.len(),
{
    if s.len() == 0 {
        0
    } else if s[0] == t {
        0
    } else {
        1 + first_index(s.drop_first(), t)
    }
}

/// `s` with `n` put next to its element at `i`: before it or after it.
pub open spec fn put_beside(s: Seq<u64>, i: int, n: u64, before: bool) -> Seq<u64> {
    s.take(i) + (if before {
        seq![n, s[i]]
    } else {
        seq![s[i], n]
    }) + s.skip(i + 1)
}

pub proof fn lemma_first_index(s: Seq<u64>, t: u64)
    ensures
        0 <= first_index(s, t) <= s.len(),
        s.contains(t) <==> first_index(s, t) < s.len(),
        first_index(s, t) < s.len() ==> s[first_index(s, t)] == t,
        forall|j: int| 0 <= j < first_index(s, t) ==> s[j] != t,
    decreases s.len(),
{
    if s.len() > 0 && s[0] != t {
        let d = s.drop_first();
        lemma_first_index(d, t);
        assert forall|j: int| 0 <= j < first_index(s, t) implies s[j] != t by {
            if j > 0 {
                assert(s[j] == d[j - 1]);
            }
        }
        if s.contains(t) {
            let j = choose|j: int| 0 <= j < s.len() && s[j] == t;
            assert(d[j - 1] == t);
        }
        if d.contains(t) {
            let j = choose|j: int| 0 <= j < d.len() && d[j] == t;
            assert(s[j + 1] == t);
        }
    } else if s.len() > 0 {
        assert(s[0] == t);
    }
}

/// The first `t` of `a + b` lies in `a` when `a` holds one, else in `b`.
pub proof fn lemma_first_index_concat(a: Seq<u64>, b: Seq<u64>, t: u64)
    ensures
        first_index(a + b, t) == if a.contains(t) {
            first_index(a, t)
        } else {
            a.len() + first_index(b, t)
        },
    decreases a.len(),
{
    if a.len() == 0 {
        assert(a + b =~= b);
    } else {
        assert((a + b)[0] == a[0]);
        assert((a + b).drop_first() =~= a.drop_first() + b);
        lemma_first_index_concat(a.drop_first(), b, t);
        if a[0] != t {
            assert(a.contains(t) <==> a.drop_first().contains(t)) by {
                if a.contains(t) {
                    let j = choose|j: int| 0 <= j < a.len() && a[j] == t;
                    assert(a.drop_first()[j - 1] == t);
                }
                if a.drop_first().contains(t) {
                    let j = choose|j: int| 0 <= j < a.drop_first().len() && a.drop_first()[j] == t;
                    assert(a[j + 1] == t);
                }
            }
        } else {
            assert(a.contains(t)) by {
                assert(a[0] == t);
            }
        }
    }
}

/// Putting a pane beside an element of `a` in `a + b`.
pub proof fn lemma_put_beside_left(a: Seq<u64>, b: Seq<u64>, i: int, n: u64, before: bool)
    requires
        0 <= i < a.len(),
    ensures
        put_beside(a + b, i, n, before) == put_beside(a, i, n, before) + b,
{
    assert(put_beside(a + b, i, n, before) =~= put_beside(a, i, n, before) + b);
}

/// Putting a pane beside an element of `b` in `a + b`.
pub proof fn lemma_put_beside_right(a: Seq<u64>, b: Seq<u64>, j: int, n: u64, before: bool)
    requires
        0 <= j < b.len(),
    ensures
        put_beside(a + b, a.len() + j, n, before) == a + put_beside(b, j, n, before),
{
    assert(put_beside(a + b, a.len() + j, n, before) =~= a + put_beside(b, j, n, before));
}

/// What a split does to the panes of a list of members: when the pane is
/// among them, the new pane lands next to its first occurrence; otherwise
/// nothing is found.
pub proof fn lemma_split_list_leaves(ax: Axis, ms: Seq<LayoutView>, target: u64, new_pane: u64, dir: SplitDirection)
    ensures
        match split_list(ax, ms, target, new_pane, dir) {
            Some(r) => list_leaves(ms).contains(target) && list_leaves(r) == put_beside(
                list_leaves(ms),
                first_index(list_leaves(ms), target),
                new_pane,
                goes_before(dir),
            ),
            None => !list_leaves(ms).contains(target),
        },
    decreases ms,
{
    if ms.len() == 0 {
        return;
    }
    let h = ms[0];
    let rest = ms.drop_first();
    let lr = list_leaves(rest);
    let before = goes_before(dir);
    assert(ms =~= seq![h] + rest);
    lemma_list_leaves_cons(h, rest);
    lemma_split_list_leaves(ax, rest, target, new_pane, dir);
    lemma_first_index_concat(view_leaves(h), lr, target);
    lemma_first_index(lr, target);
    match h {
        LayoutView::Pane(id) => {
            assert(view_leaves(h) =~= seq![id]);
            if id == target {
                let p = pair(dir, new_pane, h);
                assert(list_leaves(p) =~= if before { seq![new_pane, id] } else { seq![id, new_pane] }) by {
                    lemma_list_leaves_cons(p[0], seq![p[1]]);
                    lemma_list_leaves_cons(p[1], Seq::<LayoutView>::empty());
                    assert(p =~= seq![p[0]] + seq![p[1]]);
                    assert(seq![p[1]] =~= seq![p[1]] + Seq::<LayoutView>::empty());
                }
                assert(seq![id].contains(target)) by {
                    assert(seq![id][0] == id);
                }
                assert(list_leaves(ms).contains(target)) by {
                    assert(list_leaves(ms)[0] == id);
                }
                if split_axis(dir) == ax {
                    lemma_list_leaves_concat(p, rest);
                } else {
                    let sp = LayoutView::Split(split_axis(dir), p);
                    lemma_list_leaves_cons(sp, rest);
                }
                assert(list_leaves(split_list(ax, ms, target, new_pane, dir)->0) =~= put_beside(
                    list_leaves(ms),
                    0,
                    new_pane,
                    before,
                ));
            } else {
                assert(!seq![id].contains(target));
                match split_list(ax, rest, target, new_pane, dir) {
                    Some(r) => {
                        lemma_list_leaves_cons(h, r);
                        lemma_put_beside_right(seq![id], lr, first_index(lr, target), new_pane, before);
                        assert(list_leaves(ms).contains(target)) by {
                            let j = first_index(lr, target);
                            assert(list_leaves(ms)[1 + j] == target);
                        }
                    },
                    None => {
                        assert(!list_leaves(ms).contains(target)) by {
                            if list_leaves(ms).contains(target) {
                                let j = choose|j: int| 0 <= j < list_leaves(ms).len() && list_leaves(ms)[j] == target;
                                assert(lr[j - 1] == target);
                            }
                        }
                    },
                }
            }
        },
        LayoutView::Split(ax2, cs) => {
            lemma_split_list_leaves(ax2, cs, target, new_pane, dir);
            let lc = list_leaves(cs);
            assert(view_leaves(h) == lc);
            lemma_first_index(lc, target);
            match split_list(ax2, cs, target, new_pane, dir) {
                Some(cs2) => {
                    lemma_list_leaves_cons(LayoutView::Split(ax2, cs2), rest);
                    lemma_put_beside_left(lc, lr, first_index(lc, target), new_pane, before);
                    assert(list_leaves(ms).contains(target)) by {
                        let j = first_index(lc, target);
                        assert(list_leaves(ms)[j] == target);
                    }
                },
                None => {
                    match split_list(ax, rest, target, new_pane, dir) {
                        Some(r) => {
                            lemma_list_leaves_cons(h, r);
                            lemma_put_beside_right(lc, lr, first_index(lr, target), new_pane, before);
                            assert(list_leaves(ms).contains(target)) by {
                                let j = first_index(lr, target);
                                assert(list_leaves(ms)[lc.len() + j] == target);
                            }
                        },
                        None => {
                            assert(!list_leaves(ms).contains(target)) by {
                                if list_leaves(ms).contains(target) {
                                    let j = choose|j: int| 0 <= j < list_leaves(ms).len() && list_leaves(ms)[j] == target;
                                    if j < lc.len() {
                                        assert(lc[j] == target);
                                    } else {
                                        assert(lr[j - lc.len()] == target);
                                    }
                                }
                            }
                        },
                    }
                },
            }
        },
    }
}

/// What closing a pane does to the panes of a list of members: when the
/// pane is among them its first occurrence goes; otherwise nothing is
/// found.
pub proof fn lemma_remove_list_leaves(ms: Seq<LayoutView>, target: u64)
    ensures
        match remove_list(ms, target) {
            Some(r) => list_leaves(ms).contains(target) && list_leaves(r) == list_leaves(ms).remove(
                first_index(list_leaves(ms), target),
            ),
            None => !list_leaves(ms).contains(target),
        },
    decreases ms,
{
    if ms.len() == 0 {
        return;
    }
    let h = ms[0];
    let rest = ms.drop_first();
    let lr = list_leaves(rest);
    assert(ms =~= seq![h] + rest);
    lemma_list_leaves_cons(h, rest);
    lemma_remove_list_leaves(rest, target);
    lemma_first_index_concat(view_leaves(h), lr, target);
    lemma_first_index(lr, target);
    match h {
        LayoutView::Pane(id) => {
            assert(view_leaves(h) =~= seq![id]);
            if id == target {
                assert(list_leaves(ms)[0] == id);
                assert(seq![id].contains(target)) by {
                    assert(seq![id][0] == id);
                }
                assert(lr =~= list_leaves(ms).remove(0));
            } else {
                assert(!seq![id].contains(target));
                match remove_list(rest, target) {
                    Some(r) => {
                        lemma_list_leaves_cons(h, r);
                        let j = first_index(lr, target);
                        assert(list_leaves(ms)[1 + j] == target);
                        assert(seq![id] + lr.remove(j) =~= (seq![id] + lr).remove(1 + j));
                    },
                    None => {
                        assert(!list_leaves(ms).contains(target)) by {
                            if list_leaves(ms).contains(target) {
                                let j = choose|j: int| 0 <= j < list_leaves(ms).len() && list_leaves(ms)[j] == target;
                                assert(lr[j - 1] == target);
                            }
                        }
                    },
                }
            }
        },
        LayoutView::Split(ax2, cs) => {
            lemma_remove_list_leaves(cs, target);
            let lc = list_leaves(cs);
            lemma_first_index(lc, target);
            match remove_list(cs, target) {
                Some(cs2) => {
                    lemma_collapse_leaves(ax2, cs2);
                    lemma_list_leaves_cons(collapse(ax2, cs2), rest);
                    let j = first_index(lc, target);
                    assert(list_leaves(ms)[j] == target);
                    assert(lc.remove(j) + lr =~= (lc + lr).remove(j));
                },
                None => {
                    match remove_list(rest, target) {
                        Some(r) => {
                            lemma_list_leaves_cons(h, r);
                            let j = first_index(lr, target);
                            assert(list_leaves(ms)[lc.len() + j] == target);
                            assert(lc + lr.remove(j) =~= (lc + lr).remove(lc.len() + j));
                        },
                        None => {
                            assert(!list_leaves(ms).contains(target)) by {
                                if list_leaves(ms).contains(target) {
                                    let j = choose|j: int| 0 <= j < list_leaves(ms).len() && list_leaves(ms)[j] == target;
                                    if j < lc.len() {
                                        assert(lc[j] == target);
                                    } else {
                                        assert(lr[j - lc.len()] == target);
                                    }
                                }
                            }
                        },
                    }
                },
            }
        },
    }
}

/// Splitting a pane puts the new pane next to the first occurrence of the
/// split pane in the order of panes, before it for up and left and after it
/// for down and right; all other panes keep their order. Splitting a pane
/// the layout does not hold changes nothing.
pub proof fn law_split_puts_new_pane_beside(v: LayoutView, target: u64, new_pane: u64, dir: SplitDirection)
    ensures
        view_leaves(v).contains(target) ==> view_leaves(split_root(v, target, new_pane, dir)) == put_beside(
            view_leaves(v),
            first_index(view_leaves(v), target),
            new_pane,
            goes_before(dir),
        ),
        !view_leaves(v).contains(target) ==> split_root(v, target, new_pane, dir) == v,
{
    match v {
        LayoutView::Pane(id) => {
            assert(view_leaves(v) =~= seq![id]);
            if id == target {
                let p = pair(dir, new_pane, v);
                lemma_list_leaves_cons(p[0], seq![p[1]]);
                lemma_list_leaves_cons(p[1], Seq::<LayoutView>::empty());
                assert(p =~= seq![p[0]] + seq![p[1]]);
                assert(seq![p[1]] =~= seq![p[1]] + Seq::<LayoutView>::empty());
                assert(view_leaves(v)[0] == target);
                assert(view_leaves(split_root(v, target, new_pane, dir)) =~= put_beside(
                    view_leaves(v),
                    0,
                    new_pane,
                    goes_before(dir),
                ));
            } else {
                assert(!view_leaves(v).contains(target)) by {
                    if view_leaves(v).contains(target) {
                        assert(view_leaves(v)[0] == target);
                    }
                }
            }
        },
        LayoutView::Split(ax, cs) => {
            lemma_split_list_leaves(ax, cs, target, new_pane, dir);
        },
    }
}

/// Closing a pane of a split takes the first occurrence of that pane out of
/// the order of panes and keeps the others in order; closing a pane the
/// layout does not hold, or the layout's only pane, changes nothing.
pub proof fn law_remove_takes_pane_out(v: LayoutView, target: u64)
    ensures
        v is Split && view_leaves(v).contains(target) ==> view_leaves(remove_root(v, target)) == view_leaves(
            v,
        ).remove(first_index(view_leaves(v), target)),
        !(v is Split && view_leaves(v).contains(target)) ==> remove_root(v, target) == v,
{
    match v {
        LayoutView::Pane(_) => {},
        LayoutView::Split(ax, cs) => {
            lemma_remove_list_leaves(cs, target);
            match remove_list(cs, target) {
                Some(cs2) => {
                    lemma_collapse_leaves(ax, cs2);
                },
                None => {},
            }
        },
    }
}

/// Every split of the layout has at least two members.
pub open spec fn splits_wide(v: LayoutView) -> bool
    decreases v,
{
    match v {
        LayoutView::Pane(_) => true,
        LayoutView::Split(_, cs) => cs.len() >= 2 && all_wide(cs),
    }
}

/// Every member of the list has splits of at least two members.
pub open spec fn all_wide(cs: Seq<LayoutView>) -> bool
    decreases cs,
{
    cs.len() == 0 || (splits_wide(cs[0]) && all_wide(cs.drop_first()))
}

proof fn lemma_all_wide_cons(x: LayoutView, r: Seq<LayoutView>)
    ensures
        all_wide(seq![x] + r) == (splits_wide(x) && all_wide(r)),
{
    let s = seq![x] + r;
    assert(s[0] == x);
    assert(s.drop_first() =~= r);
}

proof fn lemma_all_wide_concat(a: Seq<LayoutView>, b: Seq<LayoutView>)
    ensures
        all_wide(a + b) == (all_wide(a) && all_wide(b)),
    decreases a.len(),
{
    if a.len() == 0 {
        assert(a + b =~= b);
    } else {
        assert((a + b)[0] == a[0]);
        assert((a + b).drop_first() =~= a.drop_first() + b);
        lemma_all_wide_concat(a.drop_first(), b);
    }
}

/// A split left with at least one member, all of them wide, collapses to a
/// wide layout.
proof fn lemma_collapse_wide(ax: Axis, cs: Seq<LayoutView>)
    requires
        cs.len() >= 1,
        all_wide(cs),
    ensures
        splits_wide(collapse(ax, cs)),
{
}

/// Removing a pane from a wide list leaves a wide list at most one shorter.
proof fn lemma_remove_list_wide(ms: Seq<LayoutView>, target: u64)
    requires
        all_wide(ms),
    ensures
        remove_list(ms, target) matches Some(r) ==> all_wide(r) && r.len() + 1 >= ms.len(),
    decreases ms,
{
    if ms.len() > 0 {
        let h = ms[0];
        let rest = ms.drop_first();
        assert(splits_wide(h) && all_wide(rest));
        lemma_remove_list_wide(rest, target);
        match remove_list(rest, target) {
            Some(r) => lemma_all_wide_cons(h, r),
            None => {},
        }
        match h {
            LayoutView::Pane(_) => {},
            LayoutView::Split(ax2, cs) => {
                lemma_remove_list_wide(cs, target);
                match remove_list(cs, target) {
                    Some(cs2) => {
                        lemma_collapse_wide(ax2, cs2);
                        lemma_all_wide_cons(collapse(ax2, cs2), rest);
                    },
                    None => {},
                }
            },
        }
    }
}

/// Splitting a pane in a wide list leaves a wide list at least as long.
proof fn lemma_split_list_wide(axis: Axis, ms: Seq<LayoutView>, target: u64, new_pane: u64, dir: SplitDirection)
    requires
        all_wide(ms),
    ensures
        split_list(axis, ms, target, new_pane, dir) matches Some(r) ==> all_wide(r) && r.len() >= ms.len(),
    decreases ms,
{
    if ms.len() > 0 {
        let h = ms[0];
        let rest = ms.drop_first();
        assert(splits_wide(h) && all_wide(rest));
        lemma_split_list_wide(axis, rest, target, new_pane, dir);
        match split_list(axis, rest, target, new_pane, dir) {
            Some(r) => lemma_all_wide_cons(h, r),
            None => {},
        }
        let p = pair(dir, new_pane, h);
        lemma_all_wide_cons(p[0], seq![p[1]]);
        lemma_all_wide_cons(p[1], Seq::<LayoutView>::empty());
        assert(p =~= seq![p[0]] + seq![p[1]]);
        assert(seq![p[1]] =~= seq![p[1]] + Seq::<LayoutView>::empty());
        lemma_all_wide_concat(p, rest);
        lemma_all_wide_cons(LayoutView::Split(split_axis(dir), p), rest);
        match h {
            LayoutView::Pane(_) => {},
            LayoutView::Split(ax2, cs) => {
                lemma_split_list_wide(ax2, cs, target, new_pane, dir);
                match split_list(ax2, cs, target, new_pane, dir) {
                    Some(cs2) => lemma_all_wide_cons(LayoutView::Split(ax2, cs2), rest),
                    None => {},
                }
            },
        }
    }
}

/// Closing a pane keeps every split with at least two members: a split
/// left with one member, the outermost one included, gives way to it.
pub proof fn law_remove_keeps_splits_wide(v: LayoutView, target: u64)
    requires
        splits_wide(v),
    ensures
        splits_wide(remove_root(v, target)),
{
    match v {
        LayoutView::Pane(_) => {},
        LayoutView::Split(ax, cs) => {
            lemma_remove_list_wide(cs, target);
            match remove_list(cs, target) {
                Some(cs2) => lemma_collapse_wide(ax, cs2),
                None => {},
            }
        },
    }
}

/// Splitting a pane keeps every split with at least two members.
pub proof fn law_split_keeps_splits_wide(v: LayoutView, target: u64, new_pane: u64, dir: SplitDirection)
    requires
        splits_wide(v),
    ensures
        splits_wide(split_root(v, target, new_pane, dir)),
{
    match v {
        LayoutView::Pane(id) => {
            let p = pair(dir, new_pane, v);
            lemma_all_wide_cons(p[0], seq![p[1]]);
            lemma_all_wide_cons(p[1], Seq::<LayoutView>::empty());
            assert(p =~= seq![p[0]] + seq![p[1]]);
            assert(seq![p[1]] =~= seq![p[1]] + Seq::<LayoutView>::empty());
        },
        LayoutView::Split(ax, cs) => {
            lemma_split_list_wide(ax, cs, target, new_pane, dir);
        },
    }
}

/// A split of a layout that holds the pane stays a split.
proof fn lemma_split_root_is_split(v: LayoutView, target: u64, new_pane: u64, dir: SplitDirection)
    requires
        view_leaves(v).contains(target),
    ensures
        split_root(v, target, new_pane, dir) is Split,
{
}

/// Splitting a pane and then closing the new pane gives back the panes in
/// their old order, when the new pane was not in the layout before.
pub proof fn law_split_then_close_restores_panes(v: LayoutView, target: u64, new_pane: u64, dir: SplitDirection)
    requires
        view_leaves(v).contains(target),
        !view_leaves(v).contains(new_pane),
    ensures
        view_leaves(remove_root(split_root(v, target, new_pane, dir), new_pane)) == view_leaves(v),
{
    let l = view_leaves(v);
    let i = first_index(l, target);
    let before = goes_before(dir);
    law_split_puts_new_pane_beside(v, target, new_pane, dir);
    lemma_first_index(l, target);
    let v2 = split_root(v, target, new_pane, dir);
    let l2 = view_leaves(v2);
    assert(l2 == put_beside(l, i, new_pane, before));
    lemma_split_root_is_split(v, target, new_pane, dir);
    let j = if before { i } else { i + 1 };
    assert(l2[j] == new_pane);
    assert(l2.contains(new_pane));
    law_remove_takes_pane_out(v2, new_pane);
    lemma_first_index(l2, new_pane);
    assert forall|x: int| 0 <= x < j implies l2[x] != new_pane by {
        if x < i {
            assert(l2[x] == l[x]);
        } else {
            assert(x == i && !before);
            assert(l2[x] == l[i]);
        }
        assert(l.contains(l[x]) || x >= i);
    }
    assert(first_index(l2, new_pane) == j) by {
        if first_index(l2, new_pane) < j {
            assert(l2[first_index(l2, new_pane)] == new_pane);
        }
        if first_index(l2, new_pane) > j {
            assert(l2[j] == new_pane);
        }
    }
    assert(l2.remove(j) =~= l);
}

/// The members of the split that holds the new pane and the old one, in
/// the order the direction puts them.
fn pair_members(dir: SplitDirection, new_pane: u64, old: Member) -> (r: Vec<Member>)
    ensures
        members_view(r@) == pair(dir, new_pane, member_view(old)),
{
    let ghost ov = member_view(old);
    let mut r: Vec<Member> = Vec::new();
    if dir.is_before() {
        r.push(Member::Pane(new_pane));
        r.push(old);
    } else {
        r.push(old);
        r.push(Member::Pane(new_pane));
    }
    proof {
        lemma_members_view_ext(r@, pair(dir, new_pane, ov));
    }
    r
}

/// `a` followed by `b`, as one list.
fn join_members(a: Vec<Member>, b: Vec<Member>) -> (r: Vec<Member>)
    ensures
        members_view(r@) == members_view(a@) + members_view(b@),
{
    let ghost av = a@;
    let ghost bv = b@;
    let mut a = a;
    let mut b = b;
    a.append(&mut b);
    proof {
        lemma_members_view(av);
        lemma_members_view(bv);
        lemma_members_view(a@);
        assert(members_view(a@) =~= members_view(av) + members_view(bv));
    }
    a
}

/// The one-member list holding `m`.
fn single_member(m: Member) -> (r: Vec<Member>)
    ensures
        members_view(r@) == seq![member_view(m)],
{
    let ghost mv = member_view(m);
    let mut r: Vec<Member> = Vec::new();
    r.push(m);
    proof {
        lemma_members_view_ext(r@, seq![mv]);
    }
    r
}

/// Splits the first pane `target`, depth first, among the members of a
/// split along `axis`, and tells whether it was found.
fn split_members(axis: Axis, members: Vec<Member>, target: u64, new_pane: u64, dir: SplitDirection) -> (r: (
    Vec<Member>,
    bool,
))
    ensures
        match split_list(axis, members_view(members@), target, new_pane, dir) {
            Some(v) => r.1 && members_view(r.0@) == v,
            None => !r.1 && members_view(r.0@) == members_view(members@),
        },
    decreases members@,
{
    let ghost whole = members@;
    let ghost mv = members_view(whole);
    let mut rest = members;
    if rest.len() == 0 {
        return (rest, false);
    }
    let h = rest.remove(0);
    let ghost restv = members_view(rest@);
    proof {
        lemma_members_view(whole);
        lemma_members_view(rest@);
        assert(rest@ =~= whole.subrange(1, whole.len() as int));
        assert(restv =~= mv.drop_first());
        assert(mv[0] == member_view(h));
    }
    match h {
        Member::Pane(id) => {
            if id == target {
                let old = Member::Pane(id);
                if dir.axis() == axis {
                    let p = pair_members(dir, new_pane, old);
                    (join_members(p, rest), true)
                } else {
                    let p = pair_members(dir, new_pane, old);
                    let s = single_member(Member::Axis(PaneAxis { axis: dir.axis(), members: p }));
                    (join_members(s, rest), true)
                }
            } else {
                assert(decreases_to!(whole => rest@));
                let (r, found) = split_members(axis, rest, target, new_pane, dir);
                (join_members(single_member(Member::Pane(id)), r), found)
            }
        },
        Member::Axis(sub) => {
            let PaneAxis { axis: ax2, members: sub_members } = sub;
            assert(decreases_to!(whole => whole[0]));
            let (sub2, found) = split_members(ax2, sub_members, target, new_pane, dir);
            let s = single_member(Member::Axis(PaneAxis { axis: ax2, members: sub2 }));
            if found {
                (join_members(s, rest), true)
            } else {
                assert(decreases_to!(whole => rest@));
                let (r, found2) = split_members(axis, rest, target, new_pane, dir);
                (join_members(s, r), found2)
            }
        },
    }
}

/// A split left with a single member gives way to it.
fn collapse_members(axis: Axis, members: Vec<Member>) -> (r: Member)
    ensures
        member_view(r) == collapse(axis, members_view(members@)),
{
    proof {
        lemma_members_view(members@);
    }
    if members.len() == 1 {
        let mut members = members;
        members.remove(0)
    } else {
        Member::Axis(PaneAxis { axis, members })
    }
}

/// Removes the first pane `target`, depth first, from the members of a
/// split, and tells whether it was found.
fn remove_members(members: Vec<Member>, target: u64) -> (r: (Vec<Member>, bool))
    ensures
        match remove_list(members_view(members@), target) {
            Some(v) => r.1 && members_view(r.0@) == v,
            None => !r.1 && members_view(r.0@) == members_view(members@),
        },
    decreases members@,
{
    let ghost whole = members@;
    let ghost mv = members_view(whole);
    let mut rest = members;
    if rest.len() == 0 {
        return (rest, false);
    }
    let h = rest.remove(0);
    proof {
        lemma_members_view(whole);
        lemma_members_view(rest@);
        assert(rest@ =~= whole.subrange(1, whole.len() as int));
        assert(members_view(rest@) =~= mv.drop_first());
        assert(mv[0] == member_view(h));
    }
    match h {
        Member::Pane(id) => {
            if id == target {
                (rest, true)
            } else {
                assert(decreases_to!(whole => rest@));
                let (r, found) = remove_members(rest, target);
                (join_members(single_member(Member::Pane(id)), r), found)
            }
        },
        Member::Axis(sub) => {
            let PaneAxis { axis: ax2, members: sub_members } = sub;
            assert(decreases_to!(whole => whole[0]));
            let (sub2, found) = remove_members(sub_members, target);
            if found {
                let s = single_member(collapse_members(ax2, sub2));
                (join_members(s, rest), true)
            } else {
                let s = single_member(Member::Axis(PaneAxis { axis: ax2, members: sub2 }));
                assert(decreases_to!(whole => rest@));
                let (r, found2) = remove_members(rest, target);
                (join_members(s, r), found2)
            }
        },
    }
}

/// The panes of the first `i` members and the next one.
proof fn lemma_list_leaves_take(vs: Seq<LayoutView>, i: int)
    requires
        0 <= i < vs.len(),
    ensures
        list_leaves(vs.take(i + 1)) == list_leaves(vs.take(i)) + view_leaves(vs[i]),
{
    assert(vs.take(i + 1) =~= vs.take(i) + seq![vs[i]]);
    lemma_list_leaves_concat(vs.take(i), seq![vs[i]]);
    assert(seq![vs[i]] =~= seq![vs[i]] + Seq::<LayoutView>::empty());
    lemma_list_leaves_cons(vs[i], Seq::<LayoutView>::empty());
    assert(view_leaves(vs[i]) + Seq::<u64>::empty() =~= view_leaves(vs[i]));
}

impl Member {
    /// The first pane, following first members only; `None` when a split
    /// on that path has no members.
    pub fn first_pane(&self) -> (r: Option<u64>)
        ensures
            r == first_leaf(member_view(*self)),
        decreases *self,
    {
        match self {
            Member::Pane(id) => Some(*id),
            Member::Axis(a) => {
                proof {
                    lemma_members_view(a.members@);
                }
                if a.members.len() == 0 {
                    None
                } else {
                    assert(decreases_to!(*self => a.members@[0]));
                    a.members[0].first_pane()
                }
            },
        }
    }

    /// Appends the panes of this member, in layout order.
    pub fn collect_panes(&self, panes: &mut Vec<u64>)
        ensures
            final(panes)@ == old(panes)@ + view_leaves(member_view(*self)),
        decreases *self,
    {
        match self {
            Member::Pane(id) => {
                panes.push(*id);
                assert(panes@ =~= old(panes)@ + seq![*id]);
            },
            Member::Axis(a) => {
                let ghost vs = members_view(a.members@);
                proof {
                    lemma_members_view(a.members@);
                }
                let mut i: usize = 0;
                assert(vs.take(0) =~= Seq::<LayoutView>::empty());
                assert(panes@ =~= old(panes)@ + list_leaves(vs.take(0)));
                while i < a.members.len()
                    invariant
                        i <= a.members.len(),
                        *self == Member::Axis(*a),
                        vs == members_view(a.members@),
                        vs.len() == a.members.len(),
                        forall|j: int| 0 <= j < a.members.len() ==> #[trigger] vs[j] == member_view(a.members@[j]),
                        panes@ == old(panes)@ + list_leaves(vs.take(i as int)),
                    decreases a.members.len() - i,
                {
                    assert(decreases_to!(*self => (*self)->Axis_0.members@[i as int]));
                    let ghost before = panes@;
                    a.members[i].collect_panes(panes);
                    proof {
                        lemma_list_leaves_take(vs, i as int);
                    }
                    assert(panes@ =~= old(panes)@ + list_leaves(vs.take(i + 1)));
                    i = i + 1;
                }
                assert(vs.take(i as int) =~= vs);
            },
        }
    }
}

impl PaneAxis {
    /// A split of the given members along `axis`.
    pub fn new(axis: Axis, members: Vec<Member>) -> (r: PaneAxis)
        ensures
            r.axis == axis,
            r.members@ == members@,
    {
        PaneAxis { axis, members }
    }
}

/// The layout of a window's panes and the pane that has the focus.
pub struct PaneStore {
    pub root: Member,
    pub active_pane: Option<u64>,
}

/// The focused pane after closing `target`: when the focus was on it, it
/// moves to the first pane of the new layout.
pub open spec fn active_after_remove(active: Option<u64>, old_root: LayoutView, target: u64) -> Option<u64> {
    if active == Some(target) && old_root != LayoutView::Pane(target) {
        first_leaf(remove_root(old_root, target))
    } else {
        active
    }
}

impl PaneStore {
    /// The layout as a tree of panes and splits.
    pub open spec fn layout(&self) -> LayoutView {
        member_view(self.root)
    }

    /// A store over the given layout; the first of its panes has the focus.
    pub fn with_root(root: Member) -> (s: PaneStore)
        ensures
            s.layout() == member_view(root),
            s.active_pane == if view_leaves(member_view(root)).len() > 0 {
                Some(view_leaves(member_view(root))[0])
            } else {
                None
            },
    {
        let mut panes: Vec<u64> = Vec::new();
        root.collect_panes(&mut panes);
        assert(panes@ =~= view_leaves(member_view(root)));
        let active_pane = if panes.len() > 0 {
            Some(panes[0])
        } else {
            None
        };
        PaneStore { root, active_pane }
    }

    /// Splits pane `target` in `direction` with `new_pane`, which takes the
    /// focus.
    pub fn split_pane(&mut self, target: u64, new_pane: u64, direction: SplitDirection)
        ensures
            final(self).layout() == split_root(old(self).layout(), target, new_pane, direction),
            final(self).active_pane == Some(new_pane),
    {
        let mut root = Member::Pane(new_pane);
        std::mem::swap(&mut root, &mut self.root);
        let new_root = match root {
            Member::Pane(id) => {
                if id == target {
                    let members = pair_members(direction, new_pane, Member::Pane(id));
                    Member::Axis(PaneAxis::new(direction.axis(), members))
                } else {
                    Member::Pane(id)
                }
            },
            Member::Axis(a) => {
                let PaneAxis { axis, members } = a;
                let (members2, _found) = split_members(axis, members, target, new_pane, direction);
                Member::Axis(PaneAxis { axis, members: members2 })
            },
        };
        self.root = new_root;
        self.active_pane = Some(new_pane);
    }

    /// Closes pane `target`; the last pane stays. When the focus was on
    /// it, the first pane of the new layout takes it.
    pub fn remove_pane(&mut self, target: u64)
        ensures
            final(self).layout() == remove_root(old(self).layout(), target),
            final(self).active_pane == active_after_remove(old(self).active_pane, old(self).layout(), target),
    {
        let ghost old_root = member_view(self.root);
        let mut root = Member::Pane(target);
        std::mem::swap(&mut root, &mut self.root);
        match root {
            Member::Pane(id) => {
                self.root = Member::Pane(id);
                if id == target {
                    return;
                }
            },
            Member::Axis(a) => {
                let PaneAxis { axis, members } = a;
                let (members2, found) = remove_members(members, target);
                if found {
                    self.root = collapse_members(axis, members2);
                } else {
                    self.root = Member::Axis(PaneAxis { axis, members: members2 });
                }
            },
        }
        if self.active_pane == Some(target) {
            self.active_pane = self.root.first_pane();
        }
    }

    /// The panes, in layout order.
    pub fn panes(&self) -> (r: Vec<u64>)
        ensures
            r@ == view_leaves(self.layout()),
    {
        let mut panes: Vec<u64> = Vec::new();
        self.root.collect_panes(&mut panes);
        assert(panes@ =~= view_leaves(self.layout()));
        panes
    }

    /// How many panes the layout holds.
    pub fn pane_count(&self) -> (r: usize)
        ensures
            r == view_leaves(self.layout()).len(),
    {
        self.panes().len()
    }
}

/// The tabs of a pane and which of them is shown.
pub struct Pane<T> {
    pub tabs: Vec<T>,
    pub active_index: usize,
}

/// The tab after `i` among `n`, wrapping to the first.
pub open spec fn tab_after(i: int, n: int) -> int {
    (i + 1) % n
}

/// The tab before `i` among `n`, wrapping to the last.
pub open spec fn tab_before(i: int, n: int) -> int {
    if i == 0 {
        n - 1
    } else {
        i - 1
    }
}

/// The shown tab after a tab is removed and `n` are left: it stays, unless
/// it now lies past the end of a list that is not empty.
pub open spec fn active_after_close(active: int, n: int) -> int {
    if active >= n && n > 0 {
        n - 1
    } else {
        active
    }
}

impl<T> Pane<T> {
    /// The shown tab lies among the tabs, when there are any.
    pub open spec fn wf(&self) -> bool {
        self.tabs.len() > 0 ==> self.active_index < self.tabs.len()
    }

    /// A pane with no tabs.
    pub fn new() -> (p: Pane<T>)
        ensures
            p.tabs@ == Seq::<T>::empty(),
            p.active_index == 0,
            p.wf(),
    {
        Pane { tabs: Vec::new(), active_index: 0 }
    }

    /// Adds a tab at the end and shows it.
    pub fn add_tab(&mut self, tab: T)
        requires
            old(self).tabs.len() < usize::MAX,
        ensures
            final(self).tabs@ == old(self).tabs@.push(tab),
            final(self).active_index == old(self).tabs.len(),
            final(self).wf(),
    {
        self.tabs.push(tab);
        self.active_index = self.tabs.len() - 1;
    }

    /// Removes the tab at `index` and hands it back; `None`, with nothing
    /// changed, when there is no such tab.
    pub fn remove_tab(&mut self, index: usize) -> (r: Option<T>)
        ensures
            index < old(self).tabs.len() ==> r == Some(old(self).tabs@[index as int]) && final(self).tabs@
                == old(self).tabs@.remove(index as int) && final(self).active_index == active_after_close(
                old(self).active_index as int,
                old(self).tabs.len() - 1,
            ),
            index >= old(self).tabs.len() ==> r is None && final(self).tabs@ == old(self).tabs@
                && final(self).active_index == old(self).active_index,
            old(self).wf() ==> final(self).wf(),
    {
        if index < self.tabs.len() {
            let removed = self.tabs.remove(index);
            if self.active_index >= self.tabs.len() && self.tabs.len() > 0 {
                self.active_index = self.tabs.len() - 1;
            }
            Some(removed)
        } else {
            None
        }
    }

    /// The shown tab, if there is one.
    pub fn active_tab(&self) -> (r: Option<&T>)
        ensures
            r == if self.active_index < self.tabs.len() {
                Some(&self.tabs@[self.active_index as int])
            } else {
                None
            },
    {
        if self.active_index < self.tabs.len() {
            Some(&self.tabs[self.active_index])
        } else {
            None
        }
    }

    /// Shows the tab at `index`; nothing changes when there is no such tab.
    pub fn select_tab(&mut self, index: usize)
        ensures
            final(self).tabs@ == old(self).tabs@,
            final(self).active_index == if index < old(self).tabs.len() {
                index
            } else {
                old(self).active_index
            },
            old(self).wf() ==> final(self).wf(),
    {
        if index < self.tabs.len() {
            self.active_index = index;
        }
    }

    /// Shows the next tab, wrapping to the first; a pane with at most one
    /// tab is left as it is.
    pub fn next_tab(&mut self)
        requires
            old(self).wf(),
        ensures
            final(self).tabs@ == old(self).tabs@,
            final(self).active_index == if old(self).tabs.len() > 1 {
                tab_after(old(self).active_index as int, old(self).tabs.len() as int)
            } else {
                old(self).active_index as int
            },
            final(self).wf(),
    {
        if self.tabs.len() > 1 {
            self.active_index = (self.active_index + 1) % self.tabs.len();
        }
    }

    /// Shows the previous tab, wrapping to the last; a pane with at most
    /// one tab is left as it is.
    pub fn prev_tab(&mut self)
        requires
            old(self).wf(),
        ensures
            final(self).tabs@ == old(self).tabs@,
            final(self).active_index == if old(self).tabs.len() > 1 {
                tab_before(old(self).active_index as int, old(self).tabs.len() as int)
            } else {
                old(self).active_index as int
            },
            final(self).wf(),
    {
        if self.tabs.len() > 1 {
            self.active_index = if self.active_index == 0 {
                self.tabs.len() - 1
            } else {
                self.active_index - 1
            };
        }
    }
}

/// Going to the next tab and then back shows the tab shown before, and the
/// other way round.
pub proof fn law_tab_moves_undo_each_other(i: int, n: int)
    requires
        0 <= i < n,
    ensures
        tab_before(tab_after(i, n), n) == i,
        tab_after(tab_before(i, n), n) == i,
{
    if i + 1 == n {
        assert((i + 1) % n == 0) by (nonlinear_arith)
            requires
                i + 1 == n,
                n > 0,
        ;
    } else {
        assert((i + 1) % n == i + 1) by (nonlinear_arith)
            requires
                0 <= i + 1 < n,
        ;
    }
    if i == 0 {
        assert((n - 1 + 1) % n == 0) by (nonlinear_arith)
            requires
                n > 0,
        ;
    } else {
        assert((i - 1 + 1) % n == i) by (nonlinear_arith)
            requires
                0 <= i < n,
        ;
    }
}

/// What closing the current pane does, decided from the tabs of the
/// focused pane and the number of panes.
#[derive(Clone, Copy, Debug, PartialEq, Eq, Structural)]
pub enum CloseOutcome {
    /// The focused pane's shown tab was closed.
    TabClosed,
    /// The focused pane had its last tab and was closed.
    PaneClosed,
    /// Nothing was closed: no pane has the focus, or it is the last pane
    /// and holds at most one tab.
    Nothing,
}

impl PaneStore {
    /// Shows the next tab of the focused pane `active`; nothing changes
    /// when no pane has the focus.
    pub fn next_pane<T>(&self, active: &mut Pane<T>)
        requires
            old(active).wf(),
        ensures
            self.active_pane is None ==> *final(active) == *old(active),
            self.active_pane is Some ==> final(active).tabs@ == old(active).tabs@ && final(active).active_index
                == if old(active).tabs.len() > 1 {
                tab_after(old(active).active_index as int, old(active).tabs.len() as int)
            } else {
                old(active).active_index as int
            },
            final(active).wf(),
    {
        if self.active_pane.is_some() {
            active.next_tab();
        }
    }

    /// Shows the previous tab of the focused pane `active`; nothing
    /// changes when no pane has the focus.
    pub fn prev_pane<T>(&self, active: &mut Pane<T>)
        requires
            old(active).wf(),
        ensures
            self.active_pane is None ==> *final(active) == *old(active),
            self.active_pane is Some ==> final(active).tabs@ == old(active).tabs@ && final(active).active_index
                == if old(active).tabs.len() > 1 {
                tab_before(old(active).active_index as int, old(active).tabs.len() as int)
            } else {
                old(active).active_index as int
            },
            final(active).wf(),
    {
        if self.active_pane.is_some() {
            active.prev_tab();
        }
    }

    /// Closes the shown tab of the focused pane `active` when it has more
    /// than one; otherwise closes the pane itself, unless it is the last.
    pub fn close_current_pane<T>(&mut self, active: &mut Pane<T>) -> (r: CloseOutcome)
        requires
            old(active).wf(),
        ensures
            final(active).wf(),
            r == if old(self).active_pane is None {
                CloseOutcome::Nothing
            } else if old(active).tabs.len() > 1 {
                CloseOutcome::TabClosed
            } else if view_leaves(old(self).layout()).len() > 1 {
                CloseOutcome::PaneClosed
            } else {
                CloseOutcome::Nothing
            },
            r == CloseOutcome::TabClosed ==> final(active).tabs@ == old(active).tabs@.remove(
                old(active).active_index as int,
            ) && final(active).active_index == active_after_close(
                old(active).active_index as int,
                old(active).tabs.len() - 1,
            ),
            r != CloseOutcome::TabClosed ==> *final(active) == *old(active),
            r == CloseOutcome::PaneClosed ==> final(self).layout() == remove_root(
                old(self).layout(),
                old(self).active_pane->0,
            ) && final(self).active_pane == active_after_remove(
                old(self).active_pane,
                old(self).layout(),
                old(self).active_pane->0,
            ),
            r != CloseOutcome::PaneClosed ==> final(self).layout() == old(self).layout()
                && final(self).active_pane == old(self).active_pane,
    {
        match self.active_pane {
            None => CloseOutcome::Nothing,
            Some(id) => {
                if active.tabs.len() > 1 {
                    let i = active.active_index;
                    let _removed = active.remove_tab(i);
                    CloseOutcome::TabClosed
                } else if self.pane_count() > 1 {
                    self.remove_pane(id);
                    CloseOutcome::PaneClosed
                } else {
                    CloseOutcome::Nothing
                }
            },
        }
    }
}

/// How many terminals a restored pane opens first: as many as it had, and
/// at least one when it has no files to open.
pub fn terminals_to_restore(terminal_count: usize, has_files: bool) -> (r: usize)
    ensures
        r == if !has_files && terminal_count < 1 {
            1
        } else {
            terminal_count
        },
{
    if !has_files && terminal_count < 1 {
        1
    } else {
        terminal_count
    }
}

/// The tab a restored pane shows: the saved one, or the last tab when the
/// pane has fewer tabs now.
pub fn restored_tab_index(saved: usize, tab_count: usize) -> (r: usize)
    ensures
        r == if tab_count == 0 {
            0
        } else if saved < tab_count - 1 {
            saved as int
        } else {
            tab_count - 1
        },
        tab_count > 0 ==> r < tab_count,
{
    let last = if tab_count == 0 {
        0
    } else {
        tab_count - 1
    };
    if saved < last {
        saved
    } else {
        last
    }
}

} // verus!
