//! The timed command sequences of the three fades.

use vstd::prelude::*;

use crate::command::{Command, Sentinel, Step, Target};
use crate::resolve::{
    current_index,
    destination_visible,
    resolve,
    target_output,
    OutputInfo,
    Resolution,
    ResolveError,
    WorkspaceInfo,
};
use crate::token::draw_below;

verus! {

/// Marks are drawn from `0..TOKEN_BOUND`.
pub const TOKEN_BOUND: u32 = 9999;

/// `block` repeated `n` times.
pub open spec fn repeat(block: Seq<Step>, n: nat) -> Seq<Step>
    decreases n,
{
    if n == 0 {
        Seq::empty()
    } else {
        repeat(block, (n - 1) as nat) + block
    }
}

/// Fade-in of the window marked `fade`: claim the mark as `token`, then
/// `steps` times a pause of a `steps`-th of the duration followed by a
/// raise of a `steps`-th, then opacity 1 and the mark removed.
pub open spec fn fade_in_sequence(token: u32, steps: u32) -> Seq<Step> {
    seq![Step::Run(Command::Claim { sentinel: Sentinel::Fade, token })] + repeat(
        seq![
            Step::Pause(steps as u64),
            Step::Run(Command::Raise { target: Target::Token(token), steps }),
        ],
        steps as nat,
    ) + seq![
        Step::Run(Command::SetOpaque(Target::Token(token))),
        Step::Run(Command::Unmark(token)),
    ]
}

/// Fade-out of the window marked `quit`: claim the mark as `token`, then
/// `steps` times a pause and a lowering by a `steps`-th, then close it.
pub open spec fn fade_out_sequence(token: u32, steps: u32) -> Seq<Step> {
    seq![Step::Run(Command::Claim { sentinel: Sentinel::Quit, token })] + repeat(
        seq![
            Step::Pause(steps as u64),
            Step::Run(Command::Lower { target: Target::Token(token), steps }),
        ],
        steps as nat,
    ) + seq![Step::Run(Command::Kill(token))]
}

/// A switch away from the workspace numbered `current`. Where the
/// destination is visible already it is the switch alone. Otherwise the
/// current workspace fades out in `steps` lowerings, each followed by a
/// pause of half a `steps`-th of the duration; the destination is made
/// transparent, switched to, and the old workspace made opaque again;
/// then the focused workspace fades in the same way and ends at opacity 1.
pub open spec fn switch_sequence(current: i32, steps: u32, already_visible: bool) -> Seq<Step> {
    if already_visible {
        seq![Step::Run(Command::Switch)]
    } else {
        repeat(
            seq![
                Step::Run(Command::Lower { target: Target::Workspace(current), steps }),
                Step::Pause((2 * steps) as u64),
            ],
            steps as nat,
        ) + seq![
            Step::Run(Command::SetTransparent(Target::Destination)),
            Step::Run(Command::Switch),
            Step::Run(Command::SetOpaque(Target::Workspace(current))),
        ] + repeat(
            seq![
                Step::Run(Command::Raise { target: Target::Focused, steps }),
                Step::Pause((2 * steps) as u64),
            ],
            steps as nat,
        ) + seq![Step::Run(Command::SetOpaque(Target::Focused))]
    }
}

/// Appends `n` copies of the pair `a`, `b` to `v`.
fn push_repeated(v: &mut Vec<Step>, a: Step, b: Step, n: u32)
    ensures
        final(v)@ == old(v)@ + repeat(seq![a, b], n as nat),
{
    let ghost start = v@;
    let mut i: u32 = 0;
    assert(v@ =~= start + repeat(seq![a, b], 0));
    while i < n
        invariant
            i <= n,
            v@ == start + repeat(seq![a, b], i as nat),
        decreases n - i,
    {
        v.push(a);
        v.push(b);
        i = i + 1;
        assert(v@ =~= start + repeat(seq![a, b], i as nat));
    }
}

/// The fade-in of the window marked `fade`, under the mark `token`.
pub fn fade_in_steps(token: u32, steps: u32) -> (r: Vec<Step>)
    ensures
        r@ == fade_in_sequence(token, steps),
{
    let mut v: Vec<Step> = Vec::new();
    v.push(Step::Run(Command::Claim { sentinel: Sentinel::Fade, token }));
    push_repeated(
        &mut v,
        Step::Pause(steps as u64),
        Step::Run(Command::Raise { target: Target::Token(token), steps }),
        steps,
    );
    v.push(Step::Run(Command::SetOpaque(Target::Token(token))));
    v.push(Step::Run(Command::Unmark(token)));
    assert(v@ =~= fade_in_sequence(token, steps));
    v
}

/// The fade-out of the window marked `quit`, under the mark `token`.
pub fn fade_out_steps(token: u32, steps: u32) -> (r: Vec<Step>)
    ensures
        r@ == fade_out_sequence(token, steps),
{
    let mut v: Vec<Step> = Vec::new();
    v.push(Step::Run(Command::Claim { sentinel: Sentinel::Quit, token }));
    push_repeated(
        &mut v,
        Step::Pause(steps as u64),
        Step::Run(Command::Lower { target: Target::Token(token), steps }),
        steps,
    );
    v.push(Step::Run(Command::Kill(token)));
    assert(v@ =~= fade_out_sequence(token, steps));
    v
}

/// The fade-in of the window marked `fade`, under a freshly drawn mark.
pub fn fade_in(steps: u32) -> (r: Vec<Step>)
    ensures
        exists|t: u32| t < TOKEN_BOUND && r@ == fade_in_sequence(t, steps),
{
    let token = draw_below(TOKEN_BOUND);
    fade_in_steps(token, steps)
}

/// The fade-out of the window marked `quit`, under a freshly drawn mark.
pub fn fade_out(steps: u32) -> (r: Vec<Step>)
    ensures
        exists|t: u32| t < TOKEN_BOUND && r@ == fade_out_sequence(t, steps),
{
    let token = draw_below(TOKEN_BOUND);
    fade_out_steps(token, steps)
}

/// The switch that `res` describes.
pub fn switch_steps(res: &Resolution, steps: u32) -> (r: Vec<Step>)
    ensures
        r@ == switch_sequence(res.current_num, steps, res.already_visible),
{
    let mut v: Vec<Step> = Vec::new();
    if res.already_visible {
        v.push(Step::Run(Command::Switch));
    } else {
        let current = res.current_num;
        let pause = Step::Pause(2 * steps as u64);
        push_repeated(
            &mut v,
            Step::Run(Command::Lower { target: Target::Workspace(current), steps }),
            pause,
            steps,
        );
        v.push(Step::Run(Command::SetTransparent(Target::Destination)));
        v.push(Step::Run(Command::Switch));
        v.push(Step::Run(Command::SetOpaque(Target::Workspace(current))));
        push_repeated(&mut v, Step::Run(Command::Raise { target: Target::Focused, steps }), pause, steps);
        v.push(Step::Run(Command::SetOpaque(Target::Focused)));
    }
    assert(v@ =~= switch_sequence(res.current_num, steps, res.already_visible));
    v
}

/// Resolves a switch to `name` and lays out its sequence; fails before any
/// command where resolution fails.
pub fn fade_workspace(
    name: &String,
    workspaces: &Vec<WorkspaceInfo>,
    outputs: &Vec<OutputInfo>,
    steps: u32,
) -> (r: Result<Vec<Step>, ResolveError>)
    ensures
        match target_output(workspaces@, outputs@, name@) {
            None => r matches Err(e) && e == ResolveError::NoOutputs,
            Some(o) => match current_index(workspaces@, o) {
                None => r matches Err(e) && e == ResolveError::NoCurrentWorkspace,
                Some(j) => r matches Ok(v) && v@ == switch_sequence(
                    workspaces@[j].num,
                    steps,
                    destination_visible(workspaces@, name@),
                ),
            },
        },
{
    match resolve(name, workspaces, outputs) {
        Ok(res) => Ok(switch_steps(&res, steps)),
        Err(e) => Err(e),
    }
}

/// How many steps of `s` satisfy `p`.
pub open spec fn count_where(s: Seq<Step>, p: spec_fn(Step) -> bool) -> nat
    decreases s.len(),
{
    if s.len() == 0 {
        0
    } else {
        count_where(s.drop_last(), p) + if p(s.last()) {
            1nat
        } else {
            0nat
        }
    }
}

pub open spec fn is_raise() -> spec_fn(Step) -> bool {
    |s: Step| s matches Step::Run(Command::Raise { .. })
}

/// A raise by one `steps`-th.
pub open spec fn is_raise_by(steps: u32) -> spec_fn(Step) -> bool {
    |s: Step| s matches Step::Run(Command::Raise { steps: k, .. }) && k == steps
}

pub open spec fn is_lower() -> spec_fn(Step) -> bool {
    |s: Step| s matches Step::Run(Command::Lower { .. })
}

/// A lowering by one `steps`-th.
pub open spec fn is_lower_by(steps: u32) -> spec_fn(Step) -> bool {
    |s: Step| s matches Step::Run(Command::Lower { steps: k, .. }) && k == steps
}

/// A command that sets the opacity outright.
pub open spec fn is_absolute() -> spec_fn(Step) -> bool {
    |s: Step|
        s matches Step::Run(Command::SetOpaque(_)) || s matches Step::Run(Command::SetTransparent(_))
}

/// A command that changes the opacity in any way.
pub open spec fn is_opacity() -> spec_fn(Step) -> bool {
    |s: Step| is_raise()(s) || is_lower()(s) || is_absolute()(s)
}

pub open spec fn is_kill() -> spec_fn(Step) -> bool {
    |s: Step| s matches Step::Run(Command::Kill(_))
}

/// A command, as against a pause.
pub open spec fn is_run() -> spec_fn(Step) -> bool {
    |s: Step| s matches Step::Run(_)
}

/// A pause of one `parts`-th of the duration.
pub open spec fn is_pause_of(parts: u64) -> spec_fn(Step) -> bool {
    |s: Step| s == Step::Pause(parts)
}

pub open spec fn is_pause() -> spec_fn(Step) -> bool {
    |s: Step| s matches Step::Pause(_)
}

proof fn lemma_count_add(a: Seq<Step>, b: Seq<Step>, p: spec_fn(Step) -> bool)
    ensures
        count_where(a + b, p) == count_where(a, p) + count_where(b, p),
    decreases b.len(),
{
    if b.len() == 0 {
        assert(a + b =~= a);
    } else {
        assert((a + b).drop_last() =~= a + b.drop_last());
        lemma_count_add(a, b.drop_last(), p);
    }
}

proof fn lemma_count_pair(x: Step, y: Step, p: spec_fn(Step) -> bool)
    ensures
        count_where(seq![x], p) == (if p(x) { 1nat } else { 0nat }),
        count_where(seq![x, y], p) == (if p(x) { 1nat } else { 0nat }) + (if p(y) { 1nat } else { 0nat }),
{
    assert(seq![x].drop_last() =~= Seq::<Step>::empty());
    assert(seq![x, y].drop_last() =~= seq![x]);
    assert(count_where(Seq::<Step>::empty(), p) == 0);
    assert(count_where(seq![x], p) == count_where(Seq::<Step>::empty(), p) + (if p(x) { 1nat } else { 0nat }));
    assert(count_where(seq![x, y], p) == count_where(seq![x], p) + (if p(y) { 1nat } else { 0nat }));
}

proof fn lemma_count_triple(x: Step, y: Step, z: Step, p: spec_fn(Step) -> bool)
    ensures
        count_where(seq![x, y, z], p) == (if p(x) { 1nat } else { 0nat }) + (if p(y) { 1nat } else {
            0nat
        }) + (if p(z) { 1nat } else { 0nat }),
{
    lemma_count_pair(x, y, p);
    assert(seq![x, y, z].drop_last() =~= seq![x, y]);
}

proof fn lemma_count_repeat(block: Seq<Step>, n: nat, p: spec_fn(Step) -> bool)
    ensures
        count_where(repeat(block, n), p) == n * count_where(block, p),
        repeat(block, n).len() == n * block.len(),
    decreases n,
{
    if n == 0 {
        assert(count_where(Seq::<Step>::empty(), p) == 0);
    } else {
        assert(repeat(block, n) == repeat(block, (n - 1) as nat) + block);
        lemma_count_repeat(block, (n - 1) as nat, p);
        lemma_count_add(repeat(block, (n - 1) as nat), block, p);
        assert(count_where(repeat(block, n), p) == n * count_where(block, p)) by (nonlinear_arith)
            requires
                count_where(repeat(block, n), p) == count_where(repeat(block, (n - 1) as nat), p)
                    + count_where(block, p),
                count_where(repeat(block, (n - 1) as nat), p) == (n - 1) * count_where(block, p),
        ;
        assert(repeat(block, n).len() == n * block.len()) by (nonlinear_arith)
            requires
                repeat(block, n).len() == repeat(block, (n - 1) as nat).len() + block.len(),
                repeat(block, (n - 1) as nat).len() == (n - 1) * block.len(),
        ;
    }
}

/// Counting over a block repeated between a head and a tail.
proof fn lemma_count_framed(a: Seq<Step>, block: Seq<Step>, n: nat, c: Seq<Step>, p: spec_fn(Step) -> bool)
    ensures
        count_where(a + repeat(block, n) + c, p) == count_where(a, p) + n * count_where(block, p)
            + count_where(c, p),
        (a + repeat(block, n) + c).len() == a.len() + n * block.len() + c.len(),
{
    lemma_count_repeat(block, n, p);
    lemma_count_add(a, repeat(block, n), p);
    lemma_count_add(a + repeat(block, n), c, p);
}

/// Every raise of a fade-in is by one `steps`-th and there are `steps` of
/// them, so together they bring the opacity up by exactly 1. Nothing
/// lowers it, and the last change is an explicit opacity 1, followed only
/// by the removal of the mark.
pub proof fn fade_in_adds_up_to_one(token: u32, steps: u32)
    requires
        steps > 0,
    ensures
        count_where(fade_in_sequence(token, steps), is_raise_by(steps)) == steps,
        count_where(fade_in_sequence(token, steps), is_raise()) == steps,
        count_where(fade_in_sequence(token, steps), is_lower()) == 0,
        ({
            let s = fade_in_sequence(token, steps);
            &&& s.len() >= 2
            &&& s[s.len() - 2] == Step::Run(Command::SetOpaque(Target::Token(token)))
            &&& s[s.len() - 1] == Step::Run(Command::Unmark(token))
        }),
{
    let block = seq![
        Step::Pause(steps as u64),
        Step::Run(Command::Raise { target: Target::Token(token), steps }),
    ];
    let a = seq![Step::Run(Command::Claim { sentinel: Sentinel::Fade, token })];
    let c = seq![
        Step::Run(Command::SetOpaque(Target::Token(token))),
        Step::Run(Command::Unmark(token)),
    ];
    assert(a =~= seq![a[0]]);
    assert(count_where(block, is_raise_by(steps)) == 1) by {
        lemma_count_pair(block[0], block[1], is_raise_by(steps));
    }
    assert(count_where(block, is_raise()) == 1) by {
        lemma_count_pair(block[0], block[1], is_raise());
    }
    assert(count_where(block, is_lower()) == 0) by {
        lemma_count_pair(block[0], block[1], is_lower());
    }
    lemma_count_pair(a[0], c[1], is_raise_by(steps));
    lemma_count_pair(c[0], c[1], is_raise_by(steps));
    lemma_count_pair(a[0], c[1], is_raise());
    lemma_count_pair(c[0], c[1], is_raise());
    lemma_count_pair(a[0], c[1], is_lower());
    lemma_count_pair(c[0], c[1], is_lower());
    lemma_count_framed(a, block, steps as nat, c, is_raise_by(steps));
    lemma_count_framed(a, block, steps as nat, c, is_raise());
    lemma_count_framed(a, block, steps as nat, c, is_lower());
    let s = fade_in_sequence(token, steps);
    assert(s =~= (a + repeat(block, steps as nat)) + c);
    assert(s[s.len() - 2] == c[0]);
}

spec fn one_if(b: bool) -> nat {
    if b {
        1
    } else {
        0
    }
}

spec fn n_if(n: nat, b: bool) -> nat {
    if b {
        n
    } else {
        0
    }
}

proof fn lemma_times_pair(n: nat, x: bool, y: bool)
    ensures
        n * (one_if(x) + one_if(y)) == n_if(n, x) + n_if(n, y),
{
    assert(n * (one_if(x) + one_if(y)) == n * one_if(x) + n * one_if(y)) by (nonlinear_arith);
}

proof fn lemma_count_fade_out(token: u32, steps: u32, p: spec_fn(Step) -> bool)
    ensures
        count_where(fade_out_sequence(token, steps), p) == one_if(
            p(Step::Run(Command::Claim { sentinel: Sentinel::Quit, token })),
        ) + n_if(steps as nat, p(Step::Pause(steps as u64))) + n_if(
            steps as nat,
            p(Step::Run(Command::Lower { target: Target::Token(token), steps })),
        ) + one_if(p(Step::Run(Command::Kill(token)))),
{
    let block = seq![
        Step::Pause(steps as u64),
        Step::Run(Command::Lower { target: Target::Token(token), steps }),
    ];
    let a = seq![Step::Run(Command::Claim { sentinel: Sentinel::Quit, token })];
    let c = seq![Step::Run(Command::Kill(token))];
    lemma_count_pair(block[0], block[1], p);
    lemma_count_pair(a[0], a[0], p);
    lemma_count_pair(c[0], c[0], p);
    assert(a =~= seq![a[0]]);
    assert(c =~= seq![c[0]]);
    assert(block =~= seq![block[0], block[1]]);
    lemma_count_framed(a, block, steps as nat, c, p);
    lemma_times_pair(steps as nat, p(block[0]), p(block[1]));
    assert(fade_out_sequence(token, steps) =~= a + repeat(block, steps as nat) + c);
}

/// A fade-out lowers the opacity `steps` times by one `steps`-th each,
/// then closes the window: one close, as the last step, and no command
/// that raises the opacity or sets it outright.
pub proof fn fade_out_lowers_then_closes(token: u32, steps: u32)
    requires
        steps > 0,
    ensures
        count_where(fade_out_sequence(token, steps), is_lower_by(steps)) == steps,
        count_where(fade_out_sequence(token, steps), is_lower()) == steps,
        count_where(fade_out_sequence(token, steps), is_kill()) == 1,
        count_where(fade_out_sequence(token, steps), is_raise()) == 0,
        count_where(fade_out_sequence(token, steps), is_absolute()) == 0,
        fade_out_sequence(token, steps).last() == Step::Run(Command::Kill(token)),
{
    lemma_count_fade_out(token, steps, is_lower_by(steps));
    lemma_count_fade_out(token, steps, is_lower());
    lemma_count_fade_out(token, steps, is_kill());
    lemma_count_fade_out(token, steps, is_raise());
    lemma_count_fade_out(token, steps, is_absolute());
}

/// A switch to a workspace that is visible already is the switch alone:
/// one command, and none that touches the opacity.
pub proof fn visible_destination_just_switches(current: i32, steps: u32)
    ensures
        switch_sequence(current, steps, true) == seq![Step::Run(Command::Switch)],
        count_where(switch_sequence(current, steps, true), is_run()) == 1,
        count_where(switch_sequence(current, steps, true), is_opacity()) == 0,
{
    let x = Step::Run(Command::Switch);
    lemma_count_pair(x, x, is_run());
    lemma_count_pair(x, x, is_opacity());
}

spec fn out_block(current: i32, steps: u32) -> Seq<Step> {
    seq![
        Step::Run(Command::Lower { target: Target::Workspace(current), steps }),
        Step::Pause((2 * steps) as u64),
    ]
}

spec fn middle_block(current: i32) -> Seq<Step> {
    seq![
        Step::Run(Command::SetTransparent(Target::Destination)),
        Step::Run(Command::Switch),
        Step::Run(Command::SetOpaque(Target::Workspace(current))),
    ]
}

spec fn in_block(steps: u32) -> Seq<Step> {
    seq![
        Step::Run(Command::Raise { target: Target::Focused, steps }),
        Step::Pause((2 * steps) as u64),
    ]
}

spec fn last_block() -> Seq<Step> {
    seq![Step::Run(Command::SetOpaque(Target::Focused))]
}

/// Counting over the full crossfade.
proof fn lemma_count_crossfade(current: i32, steps: u32, p: spec_fn(Step) -> bool)
    ensures
        switch_sequence(current, steps, false) == repeat(out_block(current, steps), steps as nat)
            + middle_block(current) + repeat(in_block(steps), steps as nat) + last_block(),
        count_where(switch_sequence(current, steps, false), p) == n_if(
            steps as nat,
            p(out_block(current, steps)[0]),
        ) + n_if(steps as nat, p(out_block(current, steps)[1])) + one_if(p(middle_block(current)[0]))
            + one_if(p(middle_block(current)[1])) + one_if(p(middle_block(current)[2])) + n_if(
            steps as nat,
            p(in_block(steps)[0]),
        ) + n_if(steps as nat, p(in_block(steps)[1])) + one_if(p(last_block()[0])),
        repeat(out_block(current, steps), steps as nat).len() == 2 * steps,
        switch_sequence(current, steps, false).len() == 4 * steps + 4,
{
    let o = out_block(current, steps);
    let m = middle_block(current);
    let b = in_block(steps);
    let l = last_block();
    let n = steps as nat;
    lemma_count_framed(Seq::empty(), o, n, m, p);
    assert(Seq::<Step>::empty() + repeat(o, n) + m =~= repeat(o, n) + m);
    assert(count_where(Seq::<Step>::empty(), p) == 0);
    lemma_count_framed(repeat(o, n) + m, b, n, l, p);
    lemma_count_repeat(o, n, p);
    lemma_count_repeat(b, n, p);
    assert(o =~= seq![o[0], o[1]]);
    assert(b =~= seq![b[0], b[1]]);
    assert(m =~= seq![m[0], m[1], m[2]]);
    assert(l =~= seq![l[0]]);
    lemma_count_pair(o[0], o[1], p);
    lemma_count_pair(b[0], b[1], p);
    lemma_count_pair(l[0], l[0], p);
    lemma_count_triple(m[0], m[1], m[2], p);
    lemma_times_pair(n, p(o[0]), p(o[1]));
    lemma_times_pair(n, p(b[0]), p(b[1]));
    assert(n * o.len() == 2 * n) by (nonlinear_arith)
        requires
            o.len() == 2,
    ;
    assert(n * b.len() == 2 * n) by (nonlinear_arith)
        requires
            b.len() == 2,
    ;
    assert(switch_sequence(current, steps, false) =~= repeat(o, n) + m + repeat(b, n) + l);
}

/// A switch to a workspace that is not visible issues `2 * steps`
/// opacity changes, `steps` lowerings of the current workspace and
/// `steps` raises of the focused one, each by one `steps`-th and each
/// followed by a pause of a `2 * steps`-th of the duration. Beside them it
/// issues exactly four commands, in this order: the destination set to
/// opacity 0, the switch, the old workspace set to opacity 1, and the
/// focused workspace set to opacity 1.
pub proof fn hidden_destination_crossfades(current: i32, steps: u32)
    requires
        steps > 0,
    ensures
        ({
            let s = switch_sequence(current, steps, false);
            &&& count_where(s, is_lower()) == steps
            &&& count_where(s, is_lower_by(steps)) == steps
            &&& count_where(s, is_raise()) == steps
            &&& count_where(s, is_raise_by(steps)) == steps
            &&& count_where(s, is_pause()) == 2 * steps
            &&& count_where(s, is_pause_of((2 * steps) as u64)) == 2 * steps
            &&& count_where(s, is_run()) == 2 * steps + 4
            &&& s.len() == 4 * steps + 4
            &&& s[2 * steps] == Step::Run(Command::SetTransparent(Target::Destination))
            &&& s[2 * steps + 1] == Step::Run(Command::Switch)
            &&& s[2 * steps + 2] == Step::Run(Command::SetOpaque(Target::Workspace(current)))
            &&& s[4 * steps + 3] == Step::Run(Command::SetOpaque(Target::Focused))
        }),
{
    lemma_count_crossfade(current, steps, is_lower());
    lemma_count_crossfade(current, steps, is_lower_by(steps));
    lemma_count_crossfade(current, steps, is_raise());
    lemma_count_crossfade(current, steps, is_raise_by(steps));
    lemma_count_crossfade(current, steps, is_pause());
    lemma_count_crossfade(current, steps, is_pause_of((2 * steps) as u64));
    lemma_count_crossfade(current, steps, is_run());
    let m = middle_block(current);
    let s = switch_sequence(current, steps, false);
    assert(s[2 * steps] == m[0]);
    assert(s[2 * steps + 1] == m[1]);
    assert(s[2 * steps + 2] == m[2]);
    assert(s[4 * steps + 3] == last_block()[0]);
}

} // verus!
