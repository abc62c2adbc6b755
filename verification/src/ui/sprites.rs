//! The little figure at each desk: its frames and its colour.

use vstd::prelude::*;

verus! {

/// What the figure of an agent is doing.
#[derive(Debug, Clone, Copy, PartialEq, Eq, Structural)]
pub enum AnimState {
    Idle,
    Typing,
    Reading,
    Walking,
}

/// A colour of the dashboard's palette.
#[derive(Debug, Clone, Copy, PartialEq, Eq, Structural)]
pub enum Color {
    Cyan,
    Magenta,
    Yellow,
    Green,
    Blue,
    Red,
    DarkGray,
}

/// The desk at which a figure sits, top line first.
pub const DESK: [&'static str; 2] = ["╔═══╗", "╚═══╝"];

impl AnimState {
    /// The number of frames after which the animation starts over.
    pub open spec fn frame_count(self) -> nat {
        match self {
            AnimState::Typing => 3,
            _ => 2,
        }
    }
}

/// The three lines of the frame `step` of an animation.
pub open spec fn frame_lines(state: AnimState, step: nat) -> Seq<Seq<char>> {
    match state {
        AnimState::Idle => if step == 0 {
            seq![" ◉ "@, "╔║╗"@, "╚╩╝"@]
        } else {
            seq![" ◉ "@, "╔║╗"@, " ║ "@]
        },
        AnimState::Typing => if step == 0 {
            seq![" ◉ "@, "╔║╗"@, "╚╩╝"@]
        } else if step == 1 {
            seq![" ◉ "@, "╔║~"@, "╚╩╝"@]
        } else {
            seq![" ◉ "@, "~║╗"@, "╚╩╝"@]
        },
        AnimState::Reading => seq![" ◉ "@, "╔║▐"@, "╚╩╝"@],
        AnimState::Walking => if step == 0 {
            seq![" ◉ "@, "╔║╗"@, "╝ ╚"@]
        } else {
            seq![" ◉ "@, "╔║╗"@, "╚ ╝"@]
        },
    }
}

/// The characters of each of three lines.
pub open spec fn lines_of(frame: [&'static str; 3]) -> Seq<Seq<char>> {
    seq![frame[0]@, frame[1]@, frame[2]@]
}

/// The frame of an animation at the counter `frame`; the animation starts
/// over after its last frame.
pub fn sprite_frame(state: AnimState, frame: usize) -> (lines: [&'static str; 3])
    ensures
        lines_of(lines) == frame_lines(state, (frame as nat) % state.frame_count()),
{
    match state {
        AnimState::Idle => if frame % 2 == 0 {
            [" ◉ ", "╔║╗", "╚╩╝"]
        } else {
            [" ◉ ", "╔║╗", " ║ "]
        },
        AnimState::Typing => if frame % 3 == 0 {
            [" ◉ ", "╔║╗", "╚╩╝"]
        } else if frame % 3 == 1 {
            [" ◉ ", "╔║~", "╚╩╝"]
        } else {
            [" ◉ ", "~║╗", "╚╩╝"]
        },
        AnimState::Reading => [" ◉ ", "╔║▐", "╚╩╝"],
        AnimState::Walking => if frame % 2 == 0 {
            [" ◉ ", "╔║╗", "╝ ╚"]
        } else {
            [" ◉ ", "╔║╗", "╚ ╝"]
        },
    }
}

/// The colour with the number `n` of the six that agents take in turn.
pub open spec fn palette(n: nat) -> Color {
    if n == 0 {
        Color::Cyan
    } else if n == 1 {
        Color::Magenta
    } else if n == 2 {
        Color::Yellow
    } else if n == 3 {
        Color::Green
    } else if n == 4 {
        Color::Blue
    } else {
        Color::Red
    }
}

/// The place of an agent's colour in the palette: agents take the six
/// colours in turn, agent 1 the first; agent 0 takes the first too.
pub open spec fn palette_index(id: u32) -> nat {
    if id == 0 {
        0
    } else {
        ((id - 1) % 6) as nat
    }
}

/// The colour of the agent `id`.
pub fn agent_color(id: u32) -> (color: Color)
    ensures
        color == palette(palette_index(id)),
{
    let place: u32 = if id == 0 {
        0
    } else {
        (id - 1) % 6
    };
    if place == 0 {
        Color::Cyan
    } else if place == 1 {
        Color::Magenta
    } else if place == 2 {
        Color::Yellow
    } else if place == 3 {
        Color::Green
    } else if place == 4 {
        Color::Blue
    } else {
        Color::Red
    }
}

/// The colour of the sub-agents of any agent.
pub fn sub_agent_color(_parent_id: u32) -> (color: Color)
    ensures
        color == Color::DarkGray,
{
    Color::DarkGray
}

} // verus!
