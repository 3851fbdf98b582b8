//! The icon in the tray, its menu, and what a click does.

use vstd::prelude::*;
use vstd::string::*;

use crate::net::Ipv4Addr;
use crate::number;
use crate::number::decimal;

verus! {

// ---------------------------------------------------------------------------------------------
// The icon
// ---------------------------------------------------------------------------------------------
/// The width and the height of the icon.
pub const ICON_SIZE: u32 = 32;

/// A colour: red, green, blue and opacity.
pub type Colour = (u8, u8, u8, u8);

pub open spec fn opaque(r: u8, g: u8, b: u8) -> Colour {
    (r, g, b, 255)
}

/// On one of the antennas, which run from (13, 7) to (6, 0) and from (18, 7) to (25, 0).
pub open spec fn on_antenna(x: int, y: int) -> bool {
    0 <= y <= 7 && (x - y == 6 || x + y == 25)
}

/// On the tip of an antenna.
pub open spec fn on_tip(x: int, y: int) -> bool {
    y == 0 && (x == 5 || x == 6 || x == 25 || x == 26)
}

/// On one of the legs below the body.
pub open spec fn on_leg(x: int, y: int) -> bool {
    ||| y == 27 && (x == 6 || x == 7 || x == 24 || x == 25)
    ||| y == 28 && (x == 5 || x == 6 || x == 25 || x == 26)
    ||| y == 29 && (x == 4 || x == 5 || x == 26 || x == 27)
}

/// On the body, which is a rectangle with its corners cut off.
pub open spec fn on_body(x: int, y: int) -> bool {
    2 <= x <= 29 && 8 <= y <= 26 && !((x <= 3 || x >= 28) && (y == 8 || y == 26))
}

/// On the border of the body.
pub open spec fn on_border(x: int, y: int) -> bool {
    x == 2 || x == 29 || y == 8 || y == 26 || ((x == 3 || x == 28) && (y == 9 || y == 25))
}

/// In the rectangle of the screen with its bezel, but not in its corners.
pub open spec fn on_screen(x: int, y: int) -> bool {
    5 <= x <= 22 && 10 <= y <= 24 && !((x == 5 || x == 22) && (y == 10 || y == 24))
}

pub open spec fn on_bezel(x: int, y: int) -> bool {
    x == 5 || x == 22 || y == 10 || y == 24
}

/// In the middle of a knob.
pub open spec fn on_knob(x: int, y: int) -> bool {
    x == 26 && (y == 12 || y == 16)
}

/// Beside the middle of a knob.
pub open spec fn on_rim(x: int, y: int) -> bool {
    ||| (x == 25 || x == 27) && (y == 12 || y == 16)
    ||| x == 26 && (y == 11 || y == 13 || y == 15 || y == 17)
}

/// On a line of the grille.
pub open spec fn on_grille(x: int, y: int) -> bool {
    24 <= x <= 27 && (y == 20 || y == 22)
}

/// The colour of the screen: a reflection at the top left, and darker towards the bottom.
pub open spec fn screen_colour(x: int, y: int) -> Colour {
    if y == 11 && 7 <= x <= 15 {
        opaque(160, 225, 255)
    } else if y == 12 && 7 <= x <= 12 {
        opaque(110, 195, 255)
    } else if y >= 21 {
        opaque(25, 120, 210)
    } else {
        opaque(40, 155, 240)
    }
}

/// The colour of a point of the icon, a television set.
pub open spec fn pixel(x: int, y: int) -> Colour {
    if on_tip(x, y) {
        opaque(220, 225, 235)
    } else if on_antenna(x, y) {
        opaque(190, 195, 205)
    } else if on_leg(x, y) {
        opaque(80, 85, 95)
    } else if on_knob(x, y) {
        opaque(240, 245, 255)
    } else if on_rim(x, y) {
        opaque(185, 190, 200)
    } else if on_grille(x, y) {
        opaque(20, 22, 26)
    } else if on_screen(x, y) {
        if on_bezel(x, y) {
            opaque(22, 24, 28)
        } else {
            screen_colour(x, y)
        }
    } else if on_body(x, y) {
        if on_border(x, y) {
            opaque(70, 75, 85)
        } else {
            opaque(42, 45, 52)
        }
    } else {
        (0, 0, 0, 0)
    }
}

fn paint(x: u32, y: u32) -> (r: Colour)
    requires
        x < 32,
        y < 32,
    ensures
        r == pixel(x as int, y as int),
{
    // Antennas.
    if y == 0 && (x == 5 || x == 6 || x == 25 || x == 26) {
        return (220, 225, 235, 255);
    }
    if y <= 7 && (x == y + 6 || x + y == 25) {
        return (190, 195, 205, 255);
    }
    // Legs.
    if (y == 27 && (x == 6 || x == 7 || x == 24 || x == 25)) || (y == 28 && (x == 5 || x == 6 || x
        == 25 || x == 26)) || (y == 29 && (x == 4 || x == 5 || x == 26 || x == 27)) {
        return (80, 85, 95, 255);
    }
    // Knobs and grille.
    if x == 26 && (y == 12 || y == 16) {
        return (240, 245, 255, 255);
    }
    if ((x == 25 || x == 27) && (y == 12 || y == 16)) || (x == 26 && (y == 11 || y == 13 || y == 15
        || y == 17)) {
        return (185, 190, 200, 255);
    }
    if 24 <= x && x <= 27 && (y == 20 || y == 22) {
        return (20, 22, 26, 255);
    }
    // Screen.
    if 5 <= x && x <= 22 && 10 <= y && y <= 24 && !((x == 5 || x == 22) && (y == 10 || y == 24)) {
        if x == 5 || x == 22 || y == 10 || y == 24 {
            return (22, 24, 28, 255);
        }
        return if y == 11 && 7 <= x && x <= 15 {
            (160, 225, 255, 255)
        } else if y == 12 && 7 <= x && x <= 12 {
            (110, 195, 255, 255)
        } else if y >= 21 {
            (25, 120, 210, 255)
        } else {
            (40, 155, 240, 255)
        };
    }
    // Body.
    if 2 <= x && x <= 29 && 8 <= y && y <= 26 && !((x <= 3 || x >= 28) && (y == 8 || y == 26)) {
        if x == 2 || x == 29 || y == 8 || y == 26 || ((x == 3 || x == 28) && (y == 9 || y == 25)) {
            return (70, 75, 85, 255);
        }
        return (42, 45, 52, 255);
    }
    (0, 0, 0, 0)
}

/// The bytes of the point with the number `i`, row by row.
pub open spec fn is_painted(rgba: Seq<u8>, i: int) -> bool {
    let c = pixel(i % 32, i / 32);
    rgba[4 * i] == c.0 && rgba[4 * i + 1] == c.1 && rgba[4 * i + 2] == c.2 && rgba[4 * i + 3] == c.3
}

/// The icon: for each point, row by row, its red, green, blue and opacity.
pub fn icon_rgba() -> (r: Vec<u8>)
    ensures
        r@.len() == 4096,
        forall|i: int| 0 <= i < 1024 ==> #[trigger] is_painted(r@, i),
{
    let mut rgba: Vec<u8> = Vec::new();
    for i in 0..1024u32
        invariant
            rgba@.len() == 4 * i,
            forall|k: int| 0 <= k < i ==> #[trigger] is_painted(rgba@, k),
    {
        let (r, g, b, a) = paint(i % 32, i / 32);
        let ghost before = rgba@;
        rgba.push(r);
        rgba.push(g);
        rgba.push(b);
        rgba.push(a);
        assert(is_painted(rgba@, i as int));
        assert forall|k: int| 0 <= k < i + 1 implies #[trigger] is_painted(rgba@, k) by {
            if k < i {
                assert(is_painted(before, k));
            }
        }
    }
    rgba
}

// ---------------------------------------------------------------------------------------------
// The menu
// ---------------------------------------------------------------------------------------------
/// What is shown over the icon.
pub const HOVER_TEXT: &'static str = "PlayPnP - DLNA MediaRenderer";

/// The items of the menu that can be clicked.
#[derive(Debug, Clone, Copy, PartialEq, Eq, Structural)]
pub enum MenuItem {
    Show,
    Stop,
    Quit,
}

/// What a turn of the event loop leads to.
#[derive(Debug)]
pub enum TrayAction {
    Nothing,
    /// The URL has to be opened.
    Open(String),
    /// The renderer has to shut down and the loop ends.
    Shutdown,
    /// The renderer shuts down already; the loop ends.
    Exit,
}

/// The text of the item that shows the status.
pub fn status_text(friendly_name: &str, ip: Ipv4Addr, http_port: u16) -> (r: String)
    ensures
        r@ == friendly_name@ + " - "@ + ip.dotted() + ":"@ + number::decimal_of(http_port as nat),
{
    let mut s = friendly_name.to_owned();
    s.append(" - ");
    s.append(ip.to_text().as_str());
    s.append(":");
    s.append(decimal(http_port as u64).as_str());
    s
}

/// The text of an item.
pub fn item_text(item: MenuItem) -> (r: &'static str)
    ensures
        item == MenuItem::Show ==> r@ == "Show Status"@,
        item == MenuItem::Stop ==> r@ == "Stop"@,
        item == MenuItem::Quit ==> r@ == "Quit"@,
{
    match item {
        MenuItem::Show => "Show Status",
        MenuItem::Stop => "Stop",
        MenuItem::Quit => "Quit",
    }
}

/// The URL of the dashboard.
pub open spec fn dashboard_url(ip: Ipv4Addr, http_port: u16) -> Seq<char> {
    "http://"@ + ip.dotted() + ":"@ + number::decimal_of(http_port as nat) + "/"@
}

/// What a turn of the event loop leads to, given whether the renderer shuts down and the item that
/// was clicked, if one was.
pub fn tray_action(
    shutting_down: bool,
    clicked: Option<MenuItem>,
    ip: Ipv4Addr,
    http_port: u16,
) -> (r: TrayAction)
    ensures
        shutting_down ==> r is Exit,
        !shutting_down && clicked is None ==> r is Nothing,
        !shutting_down && clicked == Some(MenuItem::Show) ==> (r matches TrayAction::Open(u) && u@
            == dashboard_url(ip, http_port)),
        !shutting_down && (clicked == Some(MenuItem::Stop) || clicked == Some(MenuItem::Quit)) ==> r
            is Shutdown,
{
    if shutting_down {
        return TrayAction::Exit;
    }
    match clicked {
        Some(MenuItem::Show) => {
            let mut s = "http://".to_owned();
            s.append(ip.to_text().as_str());
            s.append(":");
            s.append(decimal(http_port as u64).as_str());
            s.append("/");
            TrayAction::Open(s)
        },
        Some(_) => TrayAction::Shutdown,
        None => TrayAction::Nothing,
    }
}

} // verus!
