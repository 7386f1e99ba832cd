//! The workspaces a window can show: a list of named folders, one of them
//! active, and the moves between them.
use vstd::prelude::*;
use crate::review::{next_index, prev_index};

verus! {

/// Whether `c` is a lowercase hexadecimal digit.
pub open spec fn is_lower_hex(c: char) -> bool {
    ('0' <= c && c <= '9') || ('a' <= c && c <= 'f')
}

/// The text of a random (version 4) UUID in hyphenated lowercase form:
/// 36 characters, `'-'` at positions 8, 13, 18 and 23, lowercase hex
/// digits elsewhere, the version digit `'4'` at position 14 and one of
/// `'8'`, `'9'`, `'a'`, `'b'` at position 19.
pub open spec fn is_uuid_v4_text(s: Seq<char>) -> bool {
    &&& s.len() == 36
    &&& forall|i: int|
        0 <= i < 36 ==> if i == 8 || i == 13 || i == 18 || i == 23 {
            s[i] == '-'
        } else {
            is_lower_hex(#[trigger] s[i])
        }
    &&& s[14] == '4'
    &&& s[19] == '8' || s[19] == '9' || s[19] == 'a' || s[19] == 'b'
}

/// `Uuid::new_v4().to_string()`: a fresh random UUID of version 4 in its
/// hyphenated lowercase text form.  Which UUID comes out is left to the
/// random source; only its form is stated.
#[verifier::external_body]
fn new_uuid_text() -> (r: String)
    ensures
        is_uuid_v4_text(r@),
{
    uuid::Uuid::new_v4().to_string()
}

/// A named folder the user works in.
#[derive(Clone, Debug)]
pub struct Workspace {
    pub id: String,
    pub name: String,
    pub path: String,
}

impl Workspace {
    /// A workspace with a fresh random id.
    pub fn new(name: String, path: String) -> (w: Self)
        ensures
            w.name == name,
            w.path == path,
            is_uuid_v4_text(w.id@),
    {
        Workspace { id: new_uuid_text(), name, path }
    }
}

/// The workspace that is active after moving to the next one: the one
/// after the active one, wrapping around, when there are two or more and
/// one is active; no change otherwise.
pub open spec fn after_next(count: int, active: Option<usize>) -> Option<usize> {
    match active {
        Some(c) => if count > 1 {
            Some(next_index(c as int, count) as usize)
        } else {
            active
        },
        None => active,
    }
}

/// The workspace that is active after moving to the previous one: the one
/// before the active one, wrapping around, when there are two or more, one
/// is active and the one before it exists; no change otherwise.
pub open spec fn after_prev(count: int, active: Option<usize>) -> Option<usize> {
    match active {
        Some(c) => if count > 1 && prev_index(c as int, count) < count {
            Some(prev_index(c as int, count) as usize)
        } else {
            active
        },
        None => active,
    }
}

/// The list of workspaces and which one is active.
pub struct WorkspaceStore {
    pub workspaces: Vec<Workspace>,
    pub active_workspace_index: Option<usize>,
}

impl WorkspaceStore {
    /// A store with no workspace.
    pub fn new() -> (s: Self)
        ensures
            s.workspaces@.len() == 0,
            s.active_workspace_index is None,
    {
        WorkspaceStore { workspaces: Vec::new(), active_workspace_index: None }
    }

    /// Adds a workspace; the first one added becomes active.  Gives the
    /// index of the new workspace.
    fn push_workspace(&mut self, workspace: Workspace) -> (index: usize)
        requires
            old(self).workspaces@.len() < usize::MAX,
        ensures
            final(self).workspaces@ == old(self).workspaces@.push(workspace),
            index == old(self).workspaces@.len(),
            final(self).active_workspace_index == if old(self).active_workspace_index is None {
                Some(index)
            } else {
                old(self).active_workspace_index
            },
    {
        self.workspaces.push(workspace);
        let index = self.workspaces.len() - 1;
        if self.active_workspace_index.is_none() {
            self.active_workspace_index = Some(index);
        }
        index
    }

    /// Adds a workspace with a fresh random id; the first one added becomes
    /// active.  Gives the index of the new workspace.
    pub fn add_workspace(&mut self, name: String, path: String) -> (index: usize)
        requires
            old(self).workspaces@.len() < usize::MAX,
        ensures
            index == old(self).workspaces@.len(),
            final(self).workspaces@.len() == index + 1,
            final(self).workspaces@.take(index as int) == old(self).workspaces@,
            final(self).workspaces@[index as int].name == name,
            final(self).workspaces@[index as int].path == path,
            is_uuid_v4_text(final(self).workspaces@[index as int].id@),
            final(self).active_workspace_index == if old(self).active_workspace_index is None {
                Some(index)
            } else {
                old(self).active_workspace_index
            },
    {
        let w = Workspace::new(name, path);
        let index = self.push_workspace(w);
        assert(self.workspaces@.take(index as int) =~= old(self).workspaces@);
        index
    }

    /// Adds a workspace with a known id, as when restoring saved ones; the
    /// first one added becomes active.  Gives the index of the new
    /// workspace.
    pub fn add_workspace_with_id(&mut self, id: String, name: String, path: String) -> (index: usize)
        requires
            old(self).workspaces@.len() < usize::MAX,
        ensures
            index == old(self).workspaces@.len(),
            final(self).workspaces@ == old(self).workspaces@.push(Workspace { id, name, path }),
            final(self).active_workspace_index == if old(self).active_workspace_index is None {
                Some(index)
            } else {
                old(self).active_workspace_index
            },
    {
        self.push_workspace(Workspace { id, name, path })
    }

    /// The active workspace, if one is active and its index is in range.
    pub fn active_workspace(&self) -> (r: Option<&Workspace>)
        ensures
            match self.active_workspace_index {
                Some(i) => if i < self.workspaces@.len() {
                    r == Some(&self.workspaces@[i as int])
                } else {
                    r is None
                },
                None => r is None,
            },
    {
        match self.active_workspace_index {
            Some(i) => if i < self.workspaces.len() {
                Some(&self.workspaces[i])
            } else {
                None
            },
            None => None,
        }
    }

    /// Makes workspace `index` active if it exists and is not active yet;
    /// tells whether the active workspace changed.
    pub fn set_active(&mut self, index: usize) -> (changed: bool)
        ensures
            changed == (index < old(self).workspaces@.len() && old(self).active_workspace_index != Some(
                index,
            )),
            final(self).active_workspace_index == if changed {
                Some(index)
            } else {
                old(self).active_workspace_index
            },
            final(self).workspaces == old(self).workspaces,
    {
        if index < self.workspaces.len() && self.active_workspace_index != Some(index) {
            self.active_workspace_index = Some(index);
            true
        } else {
            false
        }
    }

    /// Moves to the next workspace, wrapping around; tells whether the
    /// active workspace changed.
    pub fn next_workspace(&mut self) -> (changed: bool)
        requires
            old(self).active_workspace_index matches Some(c) ==> c < usize::MAX,
        ensures
            final(self).active_workspace_index == after_next(
                old(self).workspaces@.len() as int,
                old(self).active_workspace_index,
            ),
            changed == (final(self).active_workspace_index != old(self).active_workspace_index),
            final(self).workspaces == old(self).workspaces,
    {
        if self.workspaces.len() > 1 {
            match self.active_workspace_index {
                Some(current) => {
                    let new_index = (current + 1) % self.workspaces.len();
                    proof {
                        lemma_next_moves(current as int, self.workspaces@.len() as int);
                    }
                    self.set_active(new_index)
                },
                None => false,
            }
        } else {
            false
        }
    }

    /// Moves to the previous workspace, wrapping around; tells whether the
    /// active workspace changed.
    pub fn prev_workspace(&mut self) -> (changed: bool)
        ensures
            final(self).active_workspace_index == after_prev(
                old(self).workspaces@.len() as int,
                old(self).active_workspace_index,
            ),
            changed == (final(self).active_workspace_index != old(self).active_workspace_index),
            final(self).workspaces == old(self).workspaces,
    {
        if self.workspaces.len() > 1 {
            match self.active_workspace_index {
                Some(current) => {
                    let new_index = if current == 0 {
                        self.workspaces.len() - 1
                    } else {
                        current - 1
                    };
                    self.set_active(new_index)
                },
                None => false,
            }
        } else {
            false
        }
    }
}

/// With two or more workspaces, the next one is another one, and in range.
pub proof fn lemma_next_moves(c: int, n: int)
    requires
        n > 1,
        c >= 0,
    ensures
        0 <= next_index(c, n) < n,
        c < n ==> next_index(c, n) != c,
{
    vstd::arithmetic::div_mod::lemma_mod_bound(c + 1, n);
    if c < n {
        if c + 1 < n {
            vstd::arithmetic::div_mod::lemma_small_mod((c + 1) as nat, n as nat);
        } else {
            vstd::arithmetic::div_mod::lemma_mod_self_0(n);
        }
    }
}

/// Moving to the next workspace and then to the previous one makes the
/// first one active again, when it is one of the workspaces.
pub proof fn law_prev_workspace_undoes_next(count: int, active: Option<usize>)
    requires
        count <= usize::MAX,
        active matches Some(c) ==> c < count,
    ensures
        after_prev(count, after_next(count, active)) == active,
{
    if let Some(c) = active {
        if count > 1 {
            crate::review::law_prev_undoes_next(c as int, count);
            lemma_next_moves(c as int, count);
        }
    }
}

/// Moving to the previous workspace and then to the next one makes the
/// first one active again, when it is one of the workspaces.
pub proof fn law_next_workspace_undoes_prev(count: int, active: Option<usize>)
    requires
        count <= usize::MAX,
        active matches Some(c) ==> c < count,
    ensures
        after_next(count, after_prev(count, active)) == active,
{
    if let Some(c) = active {
        if count > 1 {
            crate::review::law_next_undoes_prev(c as int, count);
        }
    }
}

/// The workspace active after restoring `count` saved workspaces whose
/// saved active one was `saved`: that one while it exists, else the first;
/// none when nothing was saved.
pub open spec fn restored_active_spec(saved: Option<usize>, count: usize) -> Option<usize> {
    if count == 0 {
        None
    } else {
        match saved {
            Some(i) => if i < count {
                Some(i)
            } else {
                Some(0usize)
            },
            None => Some(0usize),
        }
    }
}

/// The workspace active after restoring the saved ones.
pub fn restored_active_index(saved: Option<usize>, count: usize) -> (r: Option<usize>)
    ensures
        r == restored_active_spec(saved, count),
        r matches Some(i) ==> i < count,
{
    if count == 0 {
        return None;
    }
    match saved {
        Some(i) => if i < count {
            Some(i)
        } else {
            Some(0)
        },
        None => Some(0),
    }
}

} // verus!
