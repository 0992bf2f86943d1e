//! Finding the output and the current workspace for a workspace switch.

use vstd::prelude::*;

verus! {

/// What a fade reads of a workspace.
#[derive(Clone, Debug)]
pub struct WorkspaceInfo {
    pub name: String,
    /// The workspace number, or -1 where the name does not start with one.
    pub num: i32,
    /// The name of the output the workspace is on.
    pub output: String,
    pub visible: bool,
    pub focused: bool,
}

/// What a fade reads of an output.
#[derive(Clone, Debug)]
pub struct OutputInfo {
    pub name: String,
    pub focused: bool,
}

/// Why a switch cannot be planned.
#[derive(Clone, Copy, Debug, PartialEq, Eq, Structural)]
pub enum ResolveError {
    /// The destination does not exist yet and there is no output to create it on.
    NoOutputs,
    /// No workspace is visible on the output and none has focus.
    NoCurrentWorkspace,
}

/// The outcome of resolving a switch.
#[derive(Clone, Debug)]
pub struct Resolution {
    /// The output the destination lives on or will be created on.
    pub output: String,
    /// The index of the current workspace in the snapshot.
    pub current: usize,
    /// The number of the current workspace.
    pub current_num: i32,
    /// The destination exists and is visible already: no fade is needed.
    pub already_visible: bool,
}

/// `i` is the first index of `s` whose element satisfies `p`.
pub open spec fn is_first<T>(s: Seq<T>, p: spec_fn(T) -> bool, i: int) -> bool {
    &&& 0 <= i < s.len()
    &&& p(s[i])
    &&& forall|j: int| 0 <= j < i ==> !p(#[trigger] s[j])
}

/// The first index of `s` whose element satisfies `p`, if there is one.
pub open spec fn first_where<T>(s: Seq<T>, p: spec_fn(T) -> bool) -> Option<int> {
    if exists|i: int| is_first(s, p, i) {
        Some(choose|i: int| is_first(s, p, i))
    } else {
        None
    }
}

pub open spec fn named(name: Seq<char>) -> spec_fn(WorkspaceInfo) -> bool {
    |w: WorkspaceInfo| w.name@ == name
}

pub open spec fn visible_on(output: Seq<char>) -> spec_fn(WorkspaceInfo) -> bool {
    |w: WorkspaceInfo| w.visible && w.output@ == output
}

pub open spec fn focused_workspace() -> spec_fn(WorkspaceInfo) -> bool {
    |w: WorkspaceInfo| w.focused
}

pub open spec fn focused_output() -> spec_fn(OutputInfo) -> bool {
    |o: OutputInfo| o.focused
}

/// The output a switch to `name` goes to: that of the workspace so named,
/// else the focused output, else the first one; `None` where the workspace
/// does not exist and there is no output.
pub open spec fn target_output(ws: Seq<WorkspaceInfo>, outs: Seq<OutputInfo>, name: Seq<char>) -> Option<Seq<char>> {
    match first_where(ws, named(name)) {
        Some(i) => Some(ws[i].output@),
        None => if outs.len() == 0 {
            None
        } else {
            match first_where(outs, focused_output()) {
                Some(k) => Some(outs[k].name@),
                None => Some(outs[0].name@),
            }
        },
    }
}

/// The current workspace for `output`: the first one visible on it, else
/// the first focused one.
pub open spec fn current_index(ws: Seq<WorkspaceInfo>, output: Seq<char>) -> Option<int> {
    match first_where(ws, visible_on(output)) {
        Some(j) => Some(j),
        None => first_where(ws, focused_workspace()),
    }
}

/// The workspace named `name` exists and is visible.
pub open spec fn destination_visible(ws: Seq<WorkspaceInfo>, name: Seq<char>) -> bool {
    match first_where(ws, named(name)) {
        Some(i) => ws[i].visible,
        None => false,
    }
}

/// A switch to a workspace that does not exist yet, with no output to
/// create it on, has no output to go to: resolution fails, and
/// `resolve` returns `NoOutputs`.
pub proof fn no_outputs_is_fatal(ws: Seq<WorkspaceInfo>, name: Seq<char>)
    requires
        forall|i: int| 0 <= i < ws.len() ==> (#[trigger] ws[i]).name@ != name,
    ensures
        target_output(ws, Seq::empty(), name) == None::<Seq<char>>,
{
    lemma_none(ws, named(name));
}

proof fn lemma_first<T>(s: Seq<T>, p: spec_fn(T) -> bool, i: int)
    requires
        is_first(s, p, i),
    ensures
        first_where(s, p) == Some(i),
{
    let k = choose|k: int| is_first(s, p, k);
    assert(is_first(s, p, k));
    if k < i {
        assert(!p(s[k]));
    } else if i < k {
        assert(!p(s[i]));
    }
}

proof fn lemma_none<T>(s: Seq<T>, p: spec_fn(T) -> bool)
    requires
        forall|j: int| 0 <= j < s.len() ==> !p(#[trigger] s[j]),
    ensures
        first_where(s, p) == None::<int>,
{
}

fn find_named(ws: &Vec<WorkspaceInfo>, name: &String) -> (r: Option<usize>)
    ensures
        match r {
            Some(i) => first_where(ws@, named(name@)) == Some(i as int),
            None => first_where(ws@, named(name@)) == None::<int>,
        },
{
    let mut i: usize = 0;
    while i < ws.len()
        invariant
            i <= ws@.len(),
            forall|j: int| 0 <= j < i ==> !named(name@)(#[trigger] ws@[j]),
        decreases ws@.len() - i,
    {
        if ws[i].name == *name {
            proof {
                lemma_first(ws@, named(name@), i as int);
            }
            return Some(i);
        }
        i = i + 1;
    }
    proof {
        lemma_none(ws@, named(name@));
    }
    None
}

fn find_visible_on(ws: &Vec<WorkspaceInfo>, output: &String) -> (r: Option<usize>)
    ensures
        match r {
            Some(i) => first_where(ws@, visible_on(output@)) == Some(i as int),
            None => first_where(ws@, visible_on(output@)) == None::<int>,
        },
{
    let mut i: usize = 0;
    while i < ws.len()
        invariant
            i <= ws@.len(),
            forall|j: int| 0 <= j < i ==> !visible_on(output@)(#[trigger] ws@[j]),
        decreases ws@.len() - i,
    {
        if ws[i].visible && ws[i].output == *output {
            proof {
                lemma_first(ws@, visible_on(output@), i as int);
            }
            return Some(i);
        }
        i = i + 1;
    }
    proof {
        lemma_none(ws@, visible_on(output@));
    }
    None
}

fn find_focused_workspace(ws: &Vec<WorkspaceInfo>) -> (r: Option<usize>)
    ensures
        match r {
            Some(i) => first_where(ws@, focused_workspace()) == Some(i as int),
            None => first_where(ws@, focused_workspace()) == None::<int>,
        },
{
    let mut i: usize = 0;
    while i < ws.len()
        invariant
            i <= ws@.len(),
            forall|j: int| 0 <= j < i ==> !focused_workspace()(#[trigger] ws@[j]),
        decreases ws@.len() - i,
    {
        if ws[i].focused {
            proof {
                lemma_first(ws@, focused_workspace(), i as int);
            }
            return Some(i);
        }
        i = i + 1;
    }
    proof {
        lemma_none(ws@, focused_workspace());
    }
    None
}

fn find_focused_output(outs: &Vec<OutputInfo>) -> (r: Option<usize>)
    ensures
        match r {
            Some(i) => first_where(outs@, focused_output()) == Some(i as int),
            None => first_where(outs@, focused_output()) == None::<int>,
        },
{
    let mut i: usize = 0;
    while i < outs.len()
        invariant
            i <= outs@.len(),
            forall|j: int| 0 <= j < i ==> !focused_output()(#[trigger] outs@[j]),
        decreases outs@.len() - i,
    {
        if outs[i].focused {
            proof {
                lemma_first(outs@, focused_output(), i as int);
            }
            return Some(i);
        }
        i = i + 1;
    }
    proof {
        lemma_none(outs@, focused_output());
    }
    None
}

/// Whether resolving a switch to `name` needs the list of outputs: only
/// where no workspace of that name exists yet.
pub fn needs_outputs(name: &String, workspaces: &Vec<WorkspaceInfo>) -> (r: bool)
    ensures
        r == (first_where(workspaces@, named(name@)) is None),
{
    find_named(workspaces, name).is_none()
}

/// Resolves a switch to `name` against a snapshot of the workspaces and
/// outputs. `outputs` is read only where no workspace is named `name`.
pub fn resolve(name: &String, workspaces: &Vec<WorkspaceInfo>, outputs: &Vec<OutputInfo>) -> (r:
    Result<Resolution, ResolveError>)
    ensures
        match target_output(workspaces@, outputs@, name@) {
            None => r == Err::<Resolution, ResolveError>(ResolveError::NoOutputs),
            Some(o) => match current_index(workspaces@, o) {
                None => r == Err::<Resolution, ResolveError>(ResolveError::NoCurrentWorkspace),
                Some(j) => r matches Ok(res) && res.output@ == o && res.current == j
                    && res.current_num == workspaces@[j].num
                    && res.already_visible == destination_visible(workspaces@, name@),
            },
        },
{
    let found = find_named(workspaces, name);
    let output = match found {
        Some(i) => workspaces[i].output.clone(),
        None => {
            if outputs.len() == 0 {
                return Err(ResolveError::NoOutputs);
            }
            match find_focused_output(outputs) {
                Some(k) => outputs[k].name.clone(),
                None => outputs[0].name.clone(),
            }
        },
    };
    let current = match find_visible_on(workspaces, &output) {
        Some(j) => j,
        None => match find_focused_workspace(workspaces) {
            Some(j) => j,
            None => {
                return Err(ResolveError::NoCurrentWorkspace);
            },
        },
    };
    let already_visible = match found {
        Some(i) => workspaces[i].visible,
        None => false,
    };
    Ok(Resolution { output, current, current_num: workspaces[current].num, already_visible })
}

} // verus!
