use sway_fade::command::{render, Command, Sentinel, Step, Target};
use sway_fade::sequence::{fade_in, fade_in_steps, fade_out, fade_out_steps, TOKEN_BOUND};

fn stride_text(steps: u32) -> String {
    format!("{}", 1.0f32 / (steps as f32))
}

fn runs(plan: &[Step]) -> Vec<Command> {
    plan.iter()
        .filter_map(|s| match s {
            Step::Run(c) => Some(*c),
            Step::Pause(_) => None,
        })
        .collect()
}

#[test]
fn fade_in_four_steps_over_one_second() {
    let plan = fade_in_steps(42, 4);
    assert_eq!(plan.len(), 11);
    assert_eq!(plan[0], Step::Run(Command::Claim { sentinel: Sentinel::Fade, token: 42 }));
    for i in 0..4 {
        assert_eq!(plan[1 + 2 * i], Step::Pause(4));
        assert_eq!(plan[2 + 2 * i], Step::Run(Command::Raise { target: Target::Token(42), steps: 4 }));
    }
    assert_eq!(plan[9], Step::Run(Command::SetOpaque(Target::Token(42))));
    assert_eq!(plan[10], Step::Run(Command::Unmark(42)));
    // After the mark is claimed: four raises, opacity 1, unmark.
    assert_eq!(runs(&plan[1..]).len(), 6);
    let stride = stride_text(4);
    assert_eq!(stride, "0.25");
    assert_eq!(1.0f32 / 4.0, 0.25);
    assert_eq!(render(runs(&plan)[1], &stride, ""), "[con_mark=42] opacity plus 0.25");
}

#[test]
fn fade_in_deltas_add_up_to_one() {
    for steps in [1u32, 3, 7, 10] {
        let plan = fade_in_steps(7, steps);
        let raises = runs(&plan)
            .iter()
            .filter(|c| matches!(c, Command::Raise { steps: k, .. } if *k == steps))
            .count();
        assert_eq!(raises as u32, steps);
        let total: f64 = (0..raises).map(|_| 1.0 / steps as f64).sum();
        assert!((total - 1.0).abs() < 1e-9);
        assert_eq!(plan[plan.len() - 2], Step::Run(Command::SetOpaque(Target::Token(7))));
    }
}

#[test]
fn fade_out_lowers_then_kills() {
    let plan = fade_out_steps(9, 5);
    let cmds = runs(&plan);
    assert_eq!(cmds[0], Command::Claim { sentinel: Sentinel::Quit, token: 9 });
    assert_eq!(cmds.iter().filter(|c| matches!(c, Command::Lower { .. })).count(), 5);
    assert_eq!(cmds.iter().filter(|c| matches!(c, Command::Kill(_))).count(), 1);
    assert_eq!(
        cmds.iter()
            .filter(|c| matches!(c, Command::SetOpaque(_) | Command::SetTransparent(_)))
            .count(),
        0
    );
    assert_eq!(*plan.last().unwrap(), Step::Run(Command::Kill(9)));
    assert_eq!(plan.iter().filter(|s| **s == Step::Pause(5)).count(), 5);
}

#[test]
fn drawn_tokens_stay_in_range() {
    for _ in 0..50 {
        match fade_in(3)[0] {
            Step::Run(Command::Claim { sentinel: Sentinel::Fade, token }) => assert!(token < TOKEN_BOUND),
            other => panic!("unexpected first step {:?}", other),
        }
        match fade_out(3)[0] {
            Step::Run(Command::Claim { sentinel: Sentinel::Quit, token }) => assert!(token < TOKEN_BOUND),
            other => panic!("unexpected first step {:?}", other),
        }
    }
}

#[test]
fn zero_steps_still_settles() {
    let plan = fade_in_steps(1, 0);
    assert_eq!(
        plan,
        vec![
            Step::Run(Command::Claim { sentinel: Sentinel::Fade, token: 1 }),
            Step::Run(Command::SetOpaque(Target::Token(1))),
            Step::Run(Command::Unmark(1)),
        ]
    );
}
