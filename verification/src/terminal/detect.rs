//! Which terminal multiplexer is in use, and the command that opens the
//! dashboard in a new pane of it.

use crate::text::join_text;
use crate::text::owned;
use vstd::prelude::*;

verus! {

/// A terminal in which a pane can be split off.
#[derive(Debug, Clone, Copy, PartialEq, Eq, Structural)]
pub enum TerminalKind {
    Zellij,
    WezTerm,
    Kitty,
    Tmux,
    Unknown,
}

impl TerminalKind {
    /// The name of the terminal.
    pub open spec fn label_text(self) -> Seq<char> {
        match self {
            TerminalKind::Zellij => "Zellij"@,
            TerminalKind::WezTerm => "WezTerm"@,
            TerminalKind::Kitty => "Kitty"@,
            TerminalKind::Tmux => "tmux"@,
            TerminalKind::Unknown => "Unknown"@,
        }
    }

    pub fn label(&self) -> (label: &'static str)
        ensures
            label@ == self.label_text(),
    {
        match self {
            TerminalKind::Zellij => "Zellij",
            TerminalKind::WezTerm => "WezTerm",
            TerminalKind::Kitty => "Kitty",
            TerminalKind::Tmux => "tmux",
            TerminalKind::Unknown => "Unknown",
        }
    }
}

/// The terminal that the signs found in the environment point to. Where
/// several are found, Zellij goes before WezTerm, WezTerm before Kitty and
/// Kitty before tmux.
pub open spec fn detected_terminal(zellij: bool, wezterm: bool, kitty: bool, tmux: bool) -> TerminalKind {
    if zellij {
        TerminalKind::Zellij
    } else if wezterm {
        TerminalKind::WezTerm
    } else if kitty {
        TerminalKind::Kitty
    } else if tmux {
        TerminalKind::Tmux
    } else {
        TerminalKind::Unknown
    }
}

/// The terminal in use, given for each kind whether the environment shows
/// a sign of it.
pub fn detect_terminal(zellij: bool, wezterm: bool, kitty: bool, tmux: bool) -> (kind: TerminalKind)
    ensures
        kind == detected_terminal(zellij, wezterm, kitty, tmux),
{
    if zellij {
        TerminalKind::Zellij
    } else if wezterm {
        TerminalKind::WezTerm
    } else if kitty {
        TerminalKind::Kitty
    } else if tmux {
        TerminalKind::Tmux
    } else {
        TerminalKind::Unknown
    }
}

/// A program and the arguments to start it with.
#[derive(Debug, PartialEq, Eq)]
pub struct SplitCommand {
    pub program: String,
    pub args: Vec<String>,
}

/// The mathematical value of a [`SplitCommand`].
pub struct SplitCommandView {
    pub program: Seq<char>,
    pub args: Seq<Seq<char>>,
}

impl View for SplitCommand {
    type V = SplitCommandView;

    open spec fn view(&self) -> SplitCommandView {
        SplitCommandView { program: self.program@, args: self.args.deep_view() }
    }
}

/// The model of an optional command.
pub open spec fn command_view_of(command: Option<SplitCommand>) -> Option<SplitCommandView> {
    match command {
        Some(c) => Some(c@),
        None => None,
    }
}

/// The command that opens `binary` with `--attach` in a new pane of a
/// terminal, or `None` for a terminal that is not known.
pub open spec fn split_command(kind: TerminalKind, binary: Seq<char>) -> Option<SplitCommandView> {
    match kind {
        TerminalKind::WezTerm => Some(
            SplitCommandView {
                program: "wezterm"@,
                args: seq![
                    "cli"@,
                    "split-pane"@,
                    "--right"@,
                    "--percent"@,
                    "35"@,
                    "--"@,
                    binary,
                    "--attach"@,
                ],
            },
        ),
        TerminalKind::Zellij => Some(
            SplitCommandView {
                program: "zellij"@,
                args: seq![
                    "action"@,
                    "new-pane"@,
                    "--direction"@,
                    "right"@,
                    "--"@,
                    binary,
                    "--attach"@,
                ],
            },
        ),
        TerminalKind::Tmux => Some(
            SplitCommandView {
                program: "tmux"@,
                args: seq!["split-window"@, "-h"@, "-l"@, "35%"@, binary + " --attach"@],
            },
        ),
        TerminalKind::Kitty => Some(
            SplitCommandView {
                program: "kitty"@,
                args: seq!["@"@, "launch"@, "--location=vsplit"@, binary, "--attach"@],
            },
        ),
        TerminalKind::Unknown => None,
    }
}

/// The command that opens `binary` with `--attach` in a window of its own:
/// through `open` on macOS, through `xterm` elsewhere.
pub open spec fn fallback_command(binary: Seq<char>, macos: bool) -> SplitCommandView {
    if macos {
        SplitCommandView {
            program: "open"@,
            args: seq!["-a"@, "Terminal"@, binary, "--args"@, "--attach"@],
        }
    } else {
        SplitCommandView { program: "xterm"@, args: seq!["-e"@, binary + " --attach"@] }
    }
}

/// A command from a program's name and its arguments.
fn command(program: &str, args: Vec<String>) -> (command: SplitCommand)
    ensures
        command@ == (SplitCommandView { program: program@, args: args.deep_view() }),
{
    SplitCommand { program: owned(program), args }
}

/// The command that opens `binary_path` with `--attach` in a new pane.
pub fn build_split_command(kind: TerminalKind, binary_path: &str) -> (command: Option<SplitCommand>)
    ensures
        command_view_of(command) == split_command(kind, binary_path@),
{
    match kind {
        TerminalKind::WezTerm => {
            let mut args: Vec<String> = Vec::new();
            args.push(owned("cli"));
            args.push(owned("split-pane"));
            args.push(owned("--right"));
            args.push(owned("--percent"));
            args.push(owned("35"));
            args.push(owned("--"));
            args.push(owned(binary_path));
            args.push(owned("--attach"));
            assert(args.deep_view() =~= split_command(kind, binary_path@)->0.args);
            Some(command("wezterm", args))
        },
        TerminalKind::Zellij => {
            let mut args: Vec<String> = Vec::new();
            args.push(owned("action"));
            args.push(owned("new-pane"));
            args.push(owned("--direction"));
            args.push(owned("right"));
            args.push(owned("--"));
            args.push(owned(binary_path));
            args.push(owned("--attach"));
            assert(args.deep_view() =~= split_command(kind, binary_path@)->0.args);
            Some(command("zellij", args))
        },
        TerminalKind::Tmux => {
            let mut args: Vec<String> = Vec::new();
            args.push(owned("split-window"));
            args.push(owned("-h"));
            args.push(owned("-l"));
            args.push(owned("35%"));
            args.push(join_text(binary_path, " --attach"));
            assert(args.deep_view() =~= split_command(kind, binary_path@)->0.args);
            Some(command("tmux", args))
        },
        TerminalKind::Kitty => {
            let mut args: Vec<String> = Vec::new();
            args.push(owned("@"));
            args.push(owned("launch"));
            args.push(owned("--location=vsplit"));
            args.push(owned(binary_path));
            args.push(owned("--attach"));
            assert(args.deep_view() =~= split_command(kind, binary_path@)->0.args);
            Some(command("kitty", args))
        },
        TerminalKind::Unknown => None,
    }
}

/// The command that opens `binary_path` with `--attach` in a window of
/// its own, on macOS or elsewhere.
pub fn build_fallback_command(binary_path: &str, macos: bool) -> (command: SplitCommand)
    ensures
        command@ == fallback_command(binary_path@, macos),
{
    if macos {
        let mut args: Vec<String> = Vec::new();
        args.push(owned("-a"));
        args.push(owned("Terminal"));
        args.push(owned(binary_path));
        args.push(owned("--args"));
        args.push(owned("--attach"));
        assert(args.deep_view() =~= fallback_command(binary_path@, macos).args);
        command("open", args)
    } else {
        let mut args: Vec<String> = Vec::new();
        args.push(owned("-e"));
        args.push(join_text(binary_path, " --attach"));
        assert(args.deep_view() =~= fallback_command(binary_path@, macos).args);
        command("xterm", args)
    }
}

} // verus!
