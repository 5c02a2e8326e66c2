//! The tray icon that gives the daemon a face where it has no terminal: a hidden
//! log console that a click shows or hides, and a menu to quit.
use vstd::prelude::*;

verus! {

/// What is done to the console's window.
#[derive(Debug, PartialEq, Eq, Structural, Clone, Copy)]
pub enum WindowCommand {
    /// Show it and bring it to the foreground.
    Show,
    Hide,
}

/// The log console.
#[derive(Debug, PartialEq, Eq, Structural, Clone, Copy)]
pub struct Console {
    /// Whether it is currently visible.
    pub visible: bool,
}

impl Console {
    /// Shows the console, if there is a window for it.
    pub fn show_console(&mut self, has_window: bool) -> (r: Option<WindowCommand>)
        ensures
            final(self).visible == (old(self).visible || has_window),
            r == (if has_window {
                Some(WindowCommand::Show)
            } else {
                None
            }),
    {
        if has_window {
            self.visible = true;
            Some(WindowCommand::Show)
        } else {
            None
        }
    }

    /// Hides the console, if there is a window for it.
    pub fn hide_console(&mut self, has_window: bool) -> (r: Option<WindowCommand>)
        ensures
            final(self).visible == (old(self).visible && !has_window),
            r == (if has_window {
                Some(WindowCommand::Hide)
            } else {
                None
            }),
    {
        if has_window {
            self.visible = false;
            Some(WindowCommand::Hide)
        } else {
            None
        }
    }

    /// Shows a hidden console and hides a visible one, if there is a window for it.
    pub fn toggle_console(&mut self, has_window: bool) -> (r: Option<WindowCommand>)
        ensures
            final(self).visible == (old(self).visible != has_window),
            r == (if !has_window {
                None
            } else if old(self).visible {
                Some(WindowCommand::Hide)
            } else {
                Some(WindowCommand::Show)
            }),
    {
        if self.visible {
            self.hide_console(has_window)
        } else {
            self.show_console(has_window)
        }
    }
}

/// What happened at the tray icon.
#[derive(Debug, PartialEq, Eq, Structural, Clone, Copy)]
pub enum TrayEvent {
    /// The menu item "Show / hide logs" was chosen.
    ShowItem,
    /// The menu item "Quit sglaz" was chosen.
    QuitItem,
    /// Another menu item was chosen.
    OtherItem,
    /// A mouse button changed on the icon.
    Click { left: bool, up: bool },
    /// Anything else.
    Other,
}

/// What follows from an event at the tray icon.
#[derive(Debug, PartialEq, Eq, Structural, Clone, Copy)]
pub enum Reaction {
    /// Stop the agent.
    Quit,
    /// Toggle the console.
    Toggle,
    Nothing,
}

/// What follows from an event at the tray icon: only "Quit" ends the daemon, and a
/// left click toggles the console when the button comes up.
pub fn react(event: TrayEvent) -> (r: Reaction)
    ensures
        r is Quit <==> event is QuitItem,
        r is Toggle <==> event is ShowItem || event == (TrayEvent::Click { left: true, up: true }),
{
    match event {
        TrayEvent::QuitItem => Reaction::Quit,
        TrayEvent::ShowItem => Reaction::Toggle,
        TrayEvent::Click { left, up } => {
            if left && up {
                Reaction::Toggle
            } else {
                Reaction::Nothing
            }
        },
        TrayEvent::OtherItem => Reaction::Nothing,
        TrayEvent::Other => Reaction::Nothing,
    }
}

/// The width and height of the icon, in pixels.
pub const ICON_SIZE: u32 = 32;

/// Whether the center of a pixel lies in the dot: within 14 pixels of the center of
/// the icon. In half pixels, the center of pixel `i` is `2 * i - 31` away from it.
pub open spec fn in_dot(x: int, y: int) -> bool {
    (2 * x - 31) * (2 * x - 31) + (2 * y - 31) * (2 * y - 31) <= 28 * 28
}

/// The color of a pixel: red, green, blue and alpha.
pub open spec fn pixel(x: int, y: int) -> Seq<u8> {
    if in_dot(x, y) {
        seq![0x2du8, 0xb0u8, 0x9cu8, 0xffu8]
    } else {
        seq![0u8, 0u8, 0u8, 0u8]
    }
}

fn dot_covers(x: u32, y: u32) -> (r: bool)
    requires
        x < ICON_SIZE,
        y < ICON_SIZE,
    ensures
        r == in_dot(x as int, y as int),
{
    let dx: i32 = 2 * (x as i32) - 31;
    let dy: i32 = 2 * (y as i32) - 31;
    assert(0 <= dx * dx <= 31 * 31) by (nonlinear_arith)
        requires
            -31 <= dx <= 31,
    ;
    assert(0 <= dy * dy <= 31 * 31) by (nonlinear_arith)
        requires
            -31 <= dy <= 31,
    ;
    dx * dx + dy * dy <= 28 * 28
}

/// The pixels of a simple teal dot, row by row, generated in code so that no image
/// has to be shipped.
pub fn icon_rgba() -> (r: Vec<u8>)
    ensures
        r@.len() == ICON_SIZE * ICON_SIZE * 4,
        forall|x: int, y: int|
            0 <= x < ICON_SIZE && 0 <= y < ICON_SIZE ==> #[trigger] r@.subrange(
                (y * ICON_SIZE + x) * 4,
                (y * ICON_SIZE + x) * 4 + 4,
            ) == pixel(x, y),
{
    let mut out: Vec<u8> = Vec::new();
    let mut n: u32 = 0;
    while n < 1024
        invariant
            n <= 1024,
            out@.len() == n * 4,
            forall|k: int|
                0 <= k < n ==> #[trigger] out@.subrange(k * 4, k * 4 + 4) == pixel(
                    k % (ICON_SIZE as int),
                    k / (ICON_SIZE as int),
                ),
        decreases 1024 - n,
    {
        let ghost before = out@;
        let covered = dot_covers(n % ICON_SIZE, n / ICON_SIZE);
        if covered {
            out.push(0x2d);
            out.push(0xb0);
            out.push(0x9c);
            out.push(0xff);
        } else {
            out.push(0);
            out.push(0);
            out.push(0);
            out.push(0);
        }
        proof {
            let px = pixel((n % ICON_SIZE) as int, (n / ICON_SIZE) as int);
            assert(out@ == before + px);
            assert forall|k: int| 0 <= k < n + 1 implies #[trigger] out@.subrange(k * 4, k * 4 + 4)
                == pixel(k % (ICON_SIZE as int), k / (ICON_SIZE as int)) by {
                if k < n {
                    assert(out@.subrange(k * 4, k * 4 + 4) == before.subrange(k * 4, k * 4 + 4));
                } else {
                    assert(out@.subrange(k * 4, k * 4 + 4) == px);
                }
            }
        }
        n = n + 1;
    }
    assert forall|x: int, y: int|
        0 <= x < ICON_SIZE && 0 <= y < ICON_SIZE implies #[trigger] out@.subrange(
        (y * ICON_SIZE + x) * 4,
        (y * ICON_SIZE + x) * 4 + 4,
    ) == pixel(x, y) by {
        let k = y * ICON_SIZE + x;
        assert(k % 32 == x && k / 32 == y);
        assert(out@.subrange(k * 4, k * 4 + 4) == pixel(k % 32, k / 32));
    }
    out
}

/// The dot is round and lies in the middle of the icon: its mirror images are the dot
/// itself, with every pixel it has all those nearer to the middle of the row, and the
/// rows in the middle have all pixels but two at each end.
pub proof fn law_dot_is_round(x: int, y: int, nearer: int)
    ensures
        in_dot(x, y) == in_dot(31 - x, y),
        in_dot(x, y) == in_dot(x, 31 - y),
        in_dot(x, y) == in_dot(y, x),
        in_dot(x, y) && x <= nearer <= 31 - x ==> in_dot(nearer, y),
        in_dot(x, 15) <==> 2 <= x <= 29,
        in_dot(x, x) <==> 6 <= x <= 25,
{
    let a = 2 * x - 31;
    let b = 2 * nearer - 31;
    assert((2 * (31 - x) - 31) * (2 * (31 - x) - 31) == a * a) by (nonlinear_arith)
        requires
            a == 2 * x - 31,
    ;
    assert((2 * (31 - y) - 31) * (2 * (31 - y) - 31) == (2 * y - 31) * (2 * y - 31))
        by (nonlinear_arith);
    assert((2 * 15 - 31) * (2 * 15 - 31) == 1) by (nonlinear_arith);
    if x <= nearer <= 31 - x {
        assert(b * b <= a * a) by (nonlinear_arith)
            requires
                a <= b <= -a,
        ;
    }
    if 2 <= x <= 29 {
        assert(a * a <= 27 * 27) by (nonlinear_arith)
            requires
                -27 <= a <= 27,
        ;
    } else {
        assert(a * a >= 29 * 29) by (nonlinear_arith)
            requires
                a <= -29 || a >= 29,
        ;
    }
    if 6 <= x <= 25 {
        assert(a * a <= 19 * 19) by (nonlinear_arith)
            requires
                -19 <= a <= 19,
        ;
    } else {
        assert(a * a >= 21 * 21) by (nonlinear_arith)
            requires
                a <= -21 || a >= 21,
        ;
    }
}

/// A pixel is either opaque and of the one color, or transparent.
pub proof fn law_pixels(x: int, y: int)
    ensures
        pixel(x, y).len() == 4,
        in_dot(x, y) ==> pixel(x, y) == seq![0x2du8, 0xb0, 0x9c, 0xff],
        !in_dot(x, y) ==> pixel(x, y) == seq![0u8, 0, 0, 0],
{
}

} // verus!
