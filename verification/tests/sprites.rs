use pixel_agents_tui::ui::sprites::agent_color;
use pixel_agents_tui::ui::sprites::sprite_frame;
use pixel_agents_tui::ui::sprites::sub_agent_color;
use pixel_agents_tui::ui::sprites::AnimState;
use pixel_agents_tui::ui::sprites::Color;
use pixel_agents_tui::ui::sprites::DESK;

#[test]
fn sprite_frames_have_3_lines() {
    for state in [AnimState::Idle, AnimState::Typing, AnimState::Reading, AnimState::Walking] {
        let frame = sprite_frame(state, 0);
        assert_eq!(frame.len(), 3);
    }
}

#[test]
fn sprite_frames_cycle() {
    let f0 = sprite_frame(AnimState::Typing, 0);
    let f3 = sprite_frame(AnimState::Typing, 3);
    assert_eq!(f0, f3);
}

#[test]
fn agent_colors_cycle() {
    assert_eq!(agent_color(1), Color::Cyan);
    assert_eq!(agent_color(7), Color::Cyan);
}

#[test]
fn desk_has_correct_dimensions() {
    assert_eq!(DESK.len(), 2);
    assert_eq!(DESK[0].chars().count(), 5);
}

#[test]
fn every_frame_of_every_animation() {
    assert_eq!(sprite_frame(AnimState::Idle, 0), [" ◉ ", "╔║╗", "╚╩╝"]);
    assert_eq!(sprite_frame(AnimState::Idle, 1), [" ◉ ", "╔║╗", " ║ "]);
    assert_eq!(sprite_frame(AnimState::Idle, 2), [" ◉ ", "╔║╗", "╚╩╝"]);
    assert_eq!(sprite_frame(AnimState::Typing, 0), [" ◉ ", "╔║╗", "╚╩╝"]);
    assert_eq!(sprite_frame(AnimState::Typing, 1), [" ◉ ", "╔║~", "╚╩╝"]);
    assert_eq!(sprite_frame(AnimState::Typing, 2), [" ◉ ", "~║╗", "╚╩╝"]);
    assert_eq!(sprite_frame(AnimState::Typing, 4), [" ◉ ", "╔║~", "╚╩╝"]);
    assert_eq!(sprite_frame(AnimState::Reading, 0), [" ◉ ", "╔║▐", "╚╩╝"]);
    assert_eq!(sprite_frame(AnimState::Reading, 1), [" ◉ ", "╔║▐", "╚╩╝"]);
    assert_eq!(sprite_frame(AnimState::Walking, 0), [" ◉ ", "╔║╗", "╝ ╚"]);
    assert_eq!(sprite_frame(AnimState::Walking, 1), [" ◉ ", "╔║╗", "╚ ╝"]);
    assert_eq!(sprite_frame(AnimState::Walking, usize::MAX), [" ◉ ", "╔║╗", "╚ ╝"]);
}

#[test]
fn desk_lines() {
    assert_eq!(DESK, ["╔═══╗", "╚═══╝"]);
}

#[test]
fn the_six_agent_colors_in_turn() {
    assert_eq!(agent_color(0), Color::Cyan);
    assert_eq!(agent_color(2), Color::Magenta);
    assert_eq!(agent_color(3), Color::Yellow);
    assert_eq!(agent_color(4), Color::Green);
    assert_eq!(agent_color(5), Color::Blue);
    assert_eq!(agent_color(6), Color::Red);
    assert_eq!(agent_color(8), Color::Magenta);
    assert_eq!(agent_color(u32::MAX), Color::Yellow);
    assert_eq!(sub_agent_color(1), Color::DarkGray);
    assert_eq!(sub_agent_color(9), Color::DarkGray);
}
