//! The commands a fade issues, and their text in sway's command language.

use vstd::prelude::*;

verus! {

/// The mark that the window-creation or window-closing policy has put on a
/// window before this tool runs.
#[derive(Clone, Copy, Debug, PartialEq, Eq, Structural)]
pub enum Sentinel {
    /// `fade`: a window that was just created.
    Fade,
    /// `quit`: a window that is about to be closed.
    Quit,
}

/// What a command applies to.
#[derive(Clone, Copy, Debug, PartialEq, Eq, Structural)]
pub enum Target {
    /// The window that carries this numeric mark.
    Token(u32),
    /// The workspace with this number.
    Workspace(i32),
    /// The workspace named by the switch request.
    Destination,
    /// The workspace that has focus.
    Focused,
}

/// One command to the window manager.
#[derive(Clone, Copy, Debug, PartialEq, Eq, Structural)]
pub enum Command {
    /// Move the sentinel mark over to a fresh numeric token.
    Claim { sentinel: Sentinel, token: u32 },
    /// Raise the opacity by one `steps`-th.
    Raise { target: Target, steps: u32 },
    /// Lower the opacity by one `steps`-th.
    Lower { target: Target, steps: u32 },
    /// Set the opacity to 1.
    SetOpaque(Target),
    /// Set the opacity to 0.
    SetTransparent(Target),
    /// Remove the numeric mark from the window that carries it.
    Unmark(u32),
    /// Close the window that carries the numeric mark.
    Kill(u32),
    /// Switch to the workspace named by the request.
    Switch,
}

/// One element of a fade: a command, or a pause of `duration / parts`.
#[derive(Clone, Copy, Debug, PartialEq, Eq, Structural)]
pub enum Step {
    Run(Command),
    Pause(u64),
}

pub open spec fn digit_char(d: nat) -> char {
    seq!['0', '1', '2', '3', '4', '5', '6', '7', '8', '9'][d as int]
}

/// The decimal digits of `n`, without leading zeros.
pub open spec fn decimal(n: nat) -> Seq<char>
    decreases n,
{
    if n < 10 {
        seq![digit_char(n)]
    } else {
        decimal(n / 10).push(digit_char(n % 10))
    }
}

/// `n` in decimal, with a leading `-` when it is negative.
pub open spec fn signed_decimal(n: int) -> Seq<char> {
    if n < 0 {
        seq!['-'] + decimal((-n) as nat)
    } else {
        decimal(n as nat)
    }
}

pub open spec fn sentinel_text(s: Sentinel) -> Seq<char> {
    match s {
        Sentinel::Fade => "fade"@,
        Sentinel::Quit => "quit"@,
    }
}

/// The criteria in brackets that select what a command applies to.
pub open spec fn selector_text(t: Target, destination: Seq<char>) -> Seq<char> {
    match t {
        Target::Token(m) => "[con_mark="@ + decimal(m as nat) + "] "@,
        Target::Workspace(n) => "[workspace="@ + signed_decimal(n as int) + "] "@,
        Target::Destination => "[workspace="@ + destination + "] "@,
        Target::Focused => "[workspace=__focused__] "@,
    }
}

/// The text of `c`, where `stride` is the text of one `steps`-th and
/// `destination` the name of the workspace that a switch goes to.
pub open spec fn command_text(c: Command, stride: Seq<char>, destination: Seq<char>) -> Seq<char> {
    match c {
        Command::Claim { sentinel, token } => "[con_mark="@ + sentinel_text(sentinel) + "] mark "@
            + decimal(token as nat) + "; unmark "@ + sentinel_text(sentinel),
        Command::Raise { target, steps: _ } => selector_text(target, destination) + "opacity plus "@
            + stride,
        Command::Lower { target, steps: _ } => selector_text(target, destination) + "opacity minus "@
            + stride,
        Command::SetOpaque(t) => selector_text(t, destination) + "opacity 1"@,
        Command::SetTransparent(t) => selector_text(t, destination) + "opacity 0"@,
        Command::Unmark(m) => "[con_mark="@ + decimal(m as nat) + "] unmark "@ + decimal(m as nat),
        Command::Kill(m) => "[con_mark="@ + decimal(m as nat) + "] kill"@,
        Command::Switch => "workspace "@ + destination,
    }
}

fn digit_str(d: u64) -> (r: &'static str)
    requires
        d < 10,
    ensures
        r@ == seq![digit_char(d as nat)],
{
    proof {
        reveal_strlit("0");
        reveal_strlit("1");
        reveal_strlit("2");
        reveal_strlit("3");
        reveal_strlit("4");
        reveal_strlit("5");
        reveal_strlit("6");
        reveal_strlit("7");
        reveal_strlit("8");
        reveal_strlit("9");
    }
    if d == 0 {
        "0"
    } else if d == 1 {
        "1"
    } else if d == 2 {
        "2"
    } else if d == 3 {
        "3"
    } else if d == 4 {
        "4"
    } else if d == 5 {
        "5"
    } else if d == 6 {
        "6"
    } else if d == 7 {
        "7"
    } else if d == 8 {
        "8"
    } else {
        "9"
    }
}

/// Appends the decimal digits of `n` to `s`.
pub fn push_decimal(s: &mut String, n: u64)
    ensures
        final(s)@ == old(s)@ + decimal(n as nat),
    decreases n,
{
    if n >= 10 {
        push_decimal(s, n / 10);
    }
    s.append(digit_str(n % 10));
    assert(s@ =~= old(s)@ + decimal(n as nat));
}

/// Appends `n` in decimal to `s`, with a leading `-` when it is negative.
pub fn push_signed_decimal(s: &mut String, n: i32)
    ensures
        final(s)@ == old(s)@ + signed_decimal(n as int),
{
    if n < 0 {
        s.append("-");
        proof {
            reveal_strlit("-");
        }
        let m: i64 = n as i64;
        push_decimal(s, (-m) as u64);
        assert(s@ =~= old(s)@ + signed_decimal(n as int));
    } else {
        push_decimal(s, n as u64);
    }
}

fn push_sentinel(s: &mut String, sentinel: Sentinel)
    ensures
        final(s)@ == old(s)@ + sentinel_text(sentinel),
{
    match sentinel {
        Sentinel::Fade => s.append("fade"),
        Sentinel::Quit => s.append("quit"),
    }
}

fn push_selector(s: &mut String, t: Target, destination: &str)
    ensures
        final(s)@ == old(s)@ + selector_text(t, destination@),
{
    let ghost start = s@;
    match t {
        Target::Token(m) => {
            s.append("[con_mark=");
            push_decimal(s, m as u64);
            s.append("] ");
        },
        Target::Workspace(n) => {
            s.append("[workspace=");
            push_signed_decimal(s, n);
            s.append("] ");
        },
        Target::Destination => {
            s.append("[workspace=");
            s.append(destination);
            s.append("] ");
        },
        Target::Focused => {
            s.append("[workspace=__focused__] ");
        },
    }
    assert(s@ =~= start + selector_text(t, destination@));
}

/// The text of `c` in sway's command language. `stride` is the text of
/// one `steps`-th, and `destination` the name of the workspace that a
/// switch goes to.
pub fn render(c: Command, stride: &str, destination: &str) -> (r: String)
    ensures
        r@ == command_text(c, stride@, destination@),
{
    let mut s = String::new();
    match c {
        Command::Claim { sentinel, token } => {
            s.append("[con_mark=");
            push_sentinel(&mut s, sentinel);
            s.append("] mark ");
            push_decimal(&mut s, token as u64);
            s.append("; unmark ");
            push_sentinel(&mut s, sentinel);
        },
        Command::Raise { target, steps: _ } => {
            push_selector(&mut s, target, destination);
            s.append("opacity plus ");
            s.append(stride);
        },
        Command::Lower { target, steps: _ } => {
            push_selector(&mut s, target, destination);
            s.append("opacity minus ");
            s.append(stride);
        },
        Command::SetOpaque(t) => {
            push_selector(&mut s, t, destination);
            s.append("opacity 1");
        },
        Command::SetTransparent(t) => {
            push_selector(&mut s, t, destination);
            s.append("opacity 0");
        },
        Command::Unmark(m) => {
            s.append("[con_mark=");
            push_decimal(&mut s, m as u64);
            s.append("] unmark ");
            push_decimal(&mut s, m as u64);
        },
        Command::Kill(m) => {
            s.append("[con_mark=");
            push_decimal(&mut s, m as u64);
            s.append("] kill");
        },
        Command::Switch => {
            s.append("workspace ");
            s.append(destination);
        },
    }
    assert(s@ =~= command_text(c, stride@, destination@));
    s
}

} // verus!
