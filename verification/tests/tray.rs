use sglaz::tray::{icon_rgba, react, Console, Reaction, TrayEvent, WindowCommand, ICON_SIZE};

#[test]
fn the_icon_is_a_teal_dot() {
    let rgba = icon_rgba();
    assert_eq!(rgba.len(), (ICON_SIZE * ICON_SIZE * 4) as usize);
    let (cx, cy, r) = (16.0f32, 16.0f32, 14.0f32);
    for y in 0..ICON_SIZE {
        for x in 0..ICON_SIZE {
            let dx = x as f32 + 0.5 - cx;
            let dy = y as f32 + 0.5 - cy;
            let idx = ((y * ICON_SIZE + x) * 4) as usize;
            let want: [u8; 4] = if dx * dx + dy * dy <= r * r {
                [0x2d, 0xb0, 0x9c, 0xff]
            } else {
                [0, 0, 0, 0]
            };
            assert_eq!(&rgba[idx..idx + 4], &want, "{} {}", x, y);
        }
    }
}

#[test]
fn toggling_twice_restores_the_console() {
    let mut console = Console { visible: false };
    assert_eq!(console.toggle_console(true), Some(WindowCommand::Show));
    assert!(console.visible);
    assert_eq!(console.toggle_console(true), Some(WindowCommand::Hide));
    assert!(!console.visible);
}

#[test]
fn without_a_window_nothing_changes() {
    for visible in [false, true] {
        let mut console = Console { visible };
        assert_eq!(console.show_console(false), None);
        assert_eq!(console.hide_console(false), None);
        assert_eq!(console.toggle_console(false), None);
        assert_eq!(console.visible, visible);
    }
}

#[test]
fn showing_and_hiding() {
    let mut console = Console { visible: false };
    assert_eq!(console.show_console(true), Some(WindowCommand::Show));
    assert_eq!(console.show_console(true), Some(WindowCommand::Show));
    assert!(console.visible);
    assert_eq!(console.hide_console(true), Some(WindowCommand::Hide));
    assert!(!console.visible);
}

#[test]
fn only_quit_ends_the_daemon() {
    assert_eq!(react(TrayEvent::QuitItem), Reaction::Quit);
    assert_eq!(react(TrayEvent::ShowItem), Reaction::Toggle);
    assert_eq!(react(TrayEvent::OtherItem), Reaction::Nothing);
    assert_eq!(react(TrayEvent::Other), Reaction::Nothing);
    assert_eq!(react(TrayEvent::Click { left: true, up: true }), Reaction::Toggle);
    assert_eq!(react(TrayEvent::Click { left: true, up: false }), Reaction::Nothing);
    assert_eq!(react(TrayEvent::Click { left: false, up: true }), Reaction::Nothing);
}
