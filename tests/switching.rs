use sway_fade::command::{Command, Step, Target};
use sway_fade::resolve::{needs_outputs, resolve, OutputInfo, ResolveError, WorkspaceInfo};
use sway_fade::sequence::{fade_workspace, switch_steps};

fn ws(name: &str, num: i32, output: &str, visible: bool, focused: bool) -> WorkspaceInfo {
    WorkspaceInfo { name: name.to_string(), num, output: output.to_string(), visible, focused }
}

fn out(name: &str, focused: bool) -> OutputInfo {
    OutputInfo { name: name.to_string(), focused }
}

#[test]
fn resolves_new_workspace_on_focused_output() {
    let workspaces = vec![ws("1", 1, "A", true, true)];
    let outputs = vec![out("A", true)];
    let name = "2".to_string();
    assert!(needs_outputs(&name, &workspaces));
    let res = resolve(&name, &workspaces, &outputs).unwrap();
    assert_eq!(res.output, "A");
    assert_eq!(workspaces[res.current].name, "1");
    assert_eq!(res.current_num, 1);
    assert!(!res.already_visible);
}

#[test]
fn empty_outputs_fail_before_any_command() {
    let workspaces = vec![ws("1", 1, "A", true, true)];
    let name = "2".to_string();
    assert_eq!(resolve(&name, &workspaces, &vec![]).unwrap_err(), ResolveError::NoOutputs);
    assert_eq!(fade_workspace(&name, &workspaces, &vec![], 10).unwrap_err(), ResolveError::NoOutputs);
}

#[test]
fn no_current_workspace_is_fatal() {
    let workspaces = vec![ws("1", 1, "B", false, false)];
    let outputs = vec![out("A", false)];
    let name = "2".to_string();
    assert_eq!(
        resolve(&name, &workspaces, &outputs).unwrap_err(),
        ResolveError::NoCurrentWorkspace
    );
}

#[test]
fn existing_workspace_output_wins() {
    let workspaces = vec![
        ws("1", 1, "A", true, true),
        ws("2", 2, "B", false, false),
        ws("3", 3, "B", true, false),
    ];
    let name = "2".to_string();
    assert!(!needs_outputs(&name, &workspaces));
    // The outputs are not read where the workspace exists.
    let res = resolve(&name, &workspaces, &vec![]).unwrap();
    assert_eq!(res.output, "B");
    assert_eq!(res.current, 2);
    assert_eq!(res.current_num, 3);
}

#[test]
fn falls_back_to_first_output_and_focused_workspace() {
    let workspaces = vec![ws("1", 1, "C", false, false), ws("4", 4, "C", true, true)];
    let outputs = vec![out("A", false), out("C", false)];
    let name = "9".to_string();
    let res = resolve(&name, &workspaces, &outputs).unwrap();
    assert_eq!(res.output, "A");
    assert_eq!(res.current, 1);
}

#[test]
fn visible_destination_only_switches() {
    let workspaces = vec![ws("1", 1, "A", true, true), ws("2", 2, "B", true, false)];
    let name = "2".to_string();
    let plan = fade_workspace(&name, &workspaces, &vec![], 10).unwrap();
    assert_eq!(plan, vec![Step::Run(Command::Switch)]);
}

#[test]
fn hidden_destination_crossfades() {
    let workspaces = vec![ws("1", 1, "A", true, true), ws("2", 2, "A", false, false)];
    let name = "2".to_string();
    let res = resolve(&name, &workspaces, &vec![]).unwrap();
    let plan = switch_steps(&res, 3);
    assert_eq!(plan.len(), 16);
    for i in 0..3 {
        assert_eq!(plan[2 * i], Step::Run(Command::Lower { target: Target::Workspace(1), steps: 3 }));
        assert_eq!(plan[2 * i + 1], Step::Pause(6));
    }
    assert_eq!(plan[6], Step::Run(Command::SetTransparent(Target::Destination)));
    assert_eq!(plan[7], Step::Run(Command::Switch));
    assert_eq!(plan[8], Step::Run(Command::SetOpaque(Target::Workspace(1))));
    for i in 0..3 {
        assert_eq!(plan[9 + 2 * i], Step::Run(Command::Raise { target: Target::Focused, steps: 3 }));
        assert_eq!(plan[10 + 2 * i], Step::Pause(6));
    }
    assert_eq!(plan[15], Step::Run(Command::SetOpaque(Target::Focused)));
    let deltas = plan
        .iter()
        .filter(|s| matches!(s, Step::Run(Command::Raise { .. } | Command::Lower { .. })))
        .count();
    assert_eq!(deltas, 6);
    assert_eq!(fade_workspace(&name, &workspaces, &vec![], 3).unwrap(), plan);
}
