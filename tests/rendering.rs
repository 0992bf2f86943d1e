use sway_fade::command::{push_decimal, push_signed_decimal, render, Command, Sentinel, Target};

#[test]
fn renders_mark_commands() {
    assert_eq!(
        render(Command::Claim { sentinel: Sentinel::Fade, token: 1234 }, "0.1", "x"),
        "[con_mark=fade] mark 1234; unmark fade"
    );
    assert_eq!(
        render(Command::Claim { sentinel: Sentinel::Quit, token: 0 }, "0.1", "x"),
        "[con_mark=quit] mark 0; unmark quit"
    );
    assert_eq!(render(Command::Unmark(77), "0.1", "x"), "[con_mark=77] unmark 77");
    assert_eq!(render(Command::Kill(9998), "0.1", "x"), "[con_mark=9998] kill");
    assert_eq!(
        render(Command::Lower { target: Target::Token(5), steps: 10 }, "0.1", "x"),
        "[con_mark=5] opacity minus 0.1"
    );
    assert_eq!(render(Command::SetOpaque(Target::Token(5)), "0.1", "x"), "[con_mark=5] opacity 1");
}

#[test]
fn renders_workspace_commands() {
    assert_eq!(
        render(Command::Lower { target: Target::Workspace(3), steps: 10 }, "0.1", "web"),
        "[workspace=3] opacity minus 0.1"
    );
    assert_eq!(
        render(Command::SetTransparent(Target::Destination), "0.1", "web"),
        "[workspace=web] opacity 0"
    );
    assert_eq!(render(Command::Switch, "0.1", "web"), "workspace web");
    assert_eq!(
        render(Command::SetOpaque(Target::Workspace(-1)), "0.1", "web"),
        "[workspace=-1] opacity 1"
    );
    assert_eq!(
        render(Command::Raise { target: Target::Focused, steps: 3 }, "0.33333334", "web"),
        "[workspace=__focused__] opacity plus 0.33333334"
    );
    assert_eq!(
        render(Command::SetOpaque(Target::Focused), "0.1", "web"),
        "[workspace=__focused__] opacity 1"
    );
}

#[test]
fn decimal_digits() {
    let mut s = String::from("n=");
    push_decimal(&mut s, 0);
    assert_eq!(s, "n=0");
    let mut s = String::new();
    push_decimal(&mut s, 18446744073709551615);
    assert_eq!(s, "18446744073709551615");
    let mut s = String::new();
    push_signed_decimal(&mut s, i32::MIN);
    assert_eq!(s, "-2147483648");
    let mut s = String::new();
    push_signed_decimal(&mut s, 305);
    assert_eq!(s, "305");
}
