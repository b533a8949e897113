//! The system tray: the icon with its badges, the texts, and when to notify.
use image::imageops::FilterType;
use vstd::prelude::*;

use crate::number::{decimal, decimal_is_one_word, decimal_is_unique, decimal_parses, decimal_text,
    digit_char, digit_value, parse_u32, parsed_u32};
use crate::text::{is_space, opt_str, own, to_chars, trim, trimmed, trimming_takes_outer_space};

verus! {

// ---------------------------------------------------------------------------
// The icon

/// The length of the pixels of the icon: 32 rows of 32 pixels of 4 bytes.
pub const ICON_BYTES: usize = 4096;

/// A character of the badge, five rows of three bits each: the digits, and a plus sign.
pub open spec fn glyph_bits(ch: int) -> u64 {
    if ch == 0 {
        0b111_101_101_101_111
    } else if ch == 1 {
        0b010_110_010_010_111
    } else if ch == 2 {
        0b111_001_011_100_111
    } else if ch == 3 {
        0b111_001_011_001_111
    } else if ch == 4 {
        0b101_101_111_001_001
    } else if ch == 5 {
        0b111_100_111_001_111
    } else if ch == 6 {
        0b111_100_111_101_111
    } else if ch == 7 {
        0b111_001_010_010_010
    } else if ch == 8 {
        0b111_101_111_101_111
    } else if ch == 9 {
        0b111_101_111_001_111
    } else {
        0b000_010_111_010_000
    }
}

/// The arrow of the badge, a row of seven bits.
pub open spec fn arrow_bits(row: int) -> u64 {
    if row == 1 {
        0b0011100
    } else if row == 2 {
        0b0111110
    } else {
        0b0001000
    }
}

/// Whether a bit is set.
pub open spec fn bit_set(bits: u64, place: u64) -> bool {
    (bits >> place) & 1 == 1
}

/// The characters of the badge: the count, or `99+`.
pub open spec fn badge_chars(count: u32) -> Seq<int> {
    if count <= 9 {
        seq![count as int]
    } else if count <= 99 {
        seq![count as int / 10, count as int % 10]
    } else {
        seq![9int, 9int, 10int]
    }
}

/// How large a dot of a character is drawn.
pub open spec fn badge_scale(count: u32) -> int {
    if count <= 99 {
        2
    } else {
        1
    }
}

/// The width of the badge: its characters, a dot between them, and two pixels on either side.
pub open spec fn badge_width(count: u32) -> int {
    let n = badge_chars(count).len();
    n * 3 * badge_scale(count) + (n - 1) * badge_scale(count) + 4
}

/// The height of the badge: five dots and two pixels on either side.
pub open spec fn badge_height(count: u32) -> int {
    5 * badge_scale(count) + 4
}

/// Whether a place lies in a rectangle without its corners.
pub open spec fn in_rounded(x: int, y: int, w: int, h: int) -> bool {
    0 <= x < w && 0 <= y < h && !((x == 0 || x == w - 1) && (y == 0 || y == h - 1))
}

/// Whether a pixel belongs to the red badge, top right.
pub open spec fn in_count_badge(count: u32, x: int, y: int) -> bool {
    in_rounded(x - (32 - badge_width(count)), y, badge_width(count), badge_height(count))
}

/// Whether a pixel belongs to a character of the count.
pub open spec fn in_count(count: u32, x: int, y: int) -> bool {
    let scale = badge_scale(count);
    let dx = x - (32 - badge_width(count)) - 2;
    let dy = y - 2;
    let k = dx / (4 * scale);
    let col = dx % (4 * scale) / scale;
    let row = dy / scale;
    &&& 0 <= dx && 0 <= dy
    &&& k < badge_chars(count).len() && col < 3 && row < 5
    &&& bit_set(glyph_bits(badge_chars(count)[k]), (14 - 3 * row - col) as u64)
}

/// Whether a pixel belongs to the amber badge, bottom left.
pub open spec fn in_arrow_badge(x: int, y: int) -> bool {
    in_rounded(x, y - 22, 10, 10)
}

/// Whether a pixel belongs to the arrow.
pub open spec fn in_arrow(x: int, y: int) -> bool {
    let col = x - 1;
    let row = y - 23;
    0 <= col < 7 && 0 <= row < 7 && bit_set(arrow_bits(row), (6 - col) as u64)
}

/// A part of the icon.
#[derive(Debug, Clone, Copy, PartialEq, Eq, Structural)]
pub enum Paint {
    Base,
    Red,
    Amber,
    White,
}

/// What is painted at a pixel of the icon; what comes later covers what comes before.
pub open spec fn paint_at(count: u32, x: int, y: int) -> Paint {
    if count == 0 {
        Paint::Base
    } else if in_arrow(x, y) {
        Paint::White
    } else if in_arrow_badge(x, y) {
        Paint::Amber
    } else if in_count(count, x, y) {
        Paint::White
    } else if in_count_badge(count, x, y) {
        Paint::Red
    } else {
        Paint::Base
    }
}

/// The red, green, blue or alpha value of a paint over a base.
pub open spec fn channel_of(paint: Paint, channel: int, base: u8) -> u8 {
    match paint {
        Paint::Base => base,
        Paint::Red => if channel == 0 {
            220
        } else if channel == 3 {
            255
        } else {
            45
        },
        Paint::Amber => if channel == 0 {
            220
        } else if channel == 1 {
            140
        } else if channel == 2 {
            20
        } else {
            255
        },
        Paint::White => 255,
    }
}

/// The pixels of the icon, given those of the plain icon.
pub open spec fn icon_of(base: Seq<u8>, count: u32) -> Seq<u8> {
    Seq::new(
        base.len(),
        |i: int| channel_of(paint_at(count, i / 4 % 32, i / 4 / 32), i % 4, base[i]),
    )
}

fn glyph(ch: u64) -> (bits: u64)
    ensures
        bits == glyph_bits(ch as int),
{
    match ch {
        0 => 0b111_101_101_101_111,
        1 => 0b010_110_010_010_111,
        2 => 0b111_001_011_100_111,
        3 => 0b111_001_011_001_111,
        4 => 0b101_101_111_001_001,
        5 => 0b111_100_111_001_111,
        6 => 0b111_100_111_101_111,
        7 => 0b111_001_010_010_010,
        8 => 0b111_101_111_101_111,
        9 => 0b111_101_111_001_111,
        _ => 0b000_010_111_010_000,
    }
}

fn badge_char(count: u32, k: u64) -> (ch: u64)
    requires
        k < badge_chars(count).len(),
    ensures
        ch == badge_chars(count)[k as int],
{
    if count <= 9 {
        count as u64
    } else if count <= 99 {
        if k == 0 {
            count as u64 / 10
        } else {
            count as u64 % 10
        }
    } else if k < 2 {
        9
    } else {
        10
    }
}

fn rounded(x: u64, y: u64, w: u64, h: u64) -> (r: bool)
    requires
        w > 0,
        h > 0,
    ensures
        r == in_rounded(x as int, y as int, w as int, h as int),
{
    x < w && y < h && !((x == 0 || x == w - 1) && (y == 0 || y == h - 1))
}

fn paint(count: u32, x: u64, y: u64) -> (p: Paint)
    requires
        x < 32,
        y < 32,
    ensures
        p == paint_at(count, x as int, y as int),
{
    if count == 0 {
        return Paint::Base;
    }
    if x >= 1 && x < 8 && y >= 23 && y < 30 {
        let row: u64 = y - 23;
        let bits: u64 = if row == 1 {
            0b0011100
        } else if row == 2 {
            0b0111110
        } else {
            0b0001000
        };
        let place: u64 = 6 - (x - 1);
        if (bits >> place) & 1 == 1 {
            return Paint::White;
        }
    }
    if y >= 22 && rounded(x, y - 22, 10, 10) {
        return Paint::Amber;
    }
    let scale: u64 = if count <= 99 {
        2
    } else {
        1
    };
    let n: u64 = if count <= 9 {
        1
    } else if count <= 99 {
        2
    } else {
        3
    };
    let w: u64 = n * 3 * scale + (n - 1) * scale + 4;
    let h: u64 = 5 * scale + 4;
    proof {
        assert(n == badge_chars(count).len());
        assert(scale == badge_scale(count));
        assert(w == badge_width(count)) by {
            assert(n == 1 || n == 2 || n == 3);
            assert(scale == 1 || scale == 2);
        }
        assert(w == 10 || w == 18 || w == 15);
    }
    let left: u64 = 32 - w;
    if x >= left + 2 && y >= 2 {
        let dx: u64 = x - left - 2;
        let dy: u64 = y - 2;
        let k: u64 = dx / (4 * scale);
        let col: u64 = dx % (4 * scale) / scale;
        let row: u64 = dy / scale;
        if k < n && col < 3 && row < 5 {
            let place: u64 = 14 - 3 * row - col;
            if (glyph(badge_char(count, k)) >> place) & 1 == 1 {
                return Paint::White;
            }
        }
    }
    if x >= left && rounded(x - left, y, w, h) {
        Paint::Red
    } else {
        Paint::Base
    }
}

fn channel(p: Paint, c: u64, base: u8) -> (v: u8)
    ensures
        v == channel_of(p, c as int, base),
{
    match p {
        Paint::Base => base,
        Paint::Red => if c == 0 {
            220
        } else if c == 3 {
            255
        } else {
            45
        },
        Paint::Amber => if c == 0 {
            220
        } else if c == 1 {
            140
        } else if c == 2 {
            20
        } else {
            255
        },
        Paint::White => 255,
    }
}

/// The icon as red, green, blue and alpha values, given those of the plain icon. With updates
/// there is a red badge with their count, top right, and an amber badge with an arrow, bottom left.
pub fn make_tray_icon(base: &[u8], count: u32) -> (out: Vec<u8>)
    requires
        base@.len() == ICON_BYTES,
    ensures
        out@ == icon_of(base@, count),
{
    let mut out: Vec<u8> = Vec::new();
    for i in 0..base.len()
        invariant
            base@.len() == ICON_BYTES,
            out@ == icon_of(base@, count).take(i as int),
    {
        let at: u64 = i as u64 / 4;
        let p = paint(count, at % 32, at / 32);
        out.push(channel(p, i as u64 % 4, base[i]));
        proof {
            assert(icon_of(base@, count).take(i + 1) =~= icon_of(base@, count).take(i as int).push(
                icon_of(base@, count)[i as int],
            ));
        }
    }
    proof {
        assert(icon_of(base@, count).take(base@.len() as int) =~= icon_of(base@, count));
    }
    out
}

/// The width, the height and the red, green, blue and alpha values that `image::load_from_memory`
/// decodes from a picture; nothing where it cannot.
pub uninterp spec fn picture_pixels(picture: Seq<u8>) -> Option<(nat, nat, Seq<u8>)>;

/// Whether a picture decodes to 32 by 32 pixels with these red, green, blue and alpha values.
pub open spec fn is_icon_of(picture: Seq<u8>, values: Seq<u8>) -> bool {
    picture_pixels(picture) == Some((32nat, 32nat, values))
}

/// Decodes a picture with `image::load_from_memory` and scales it to 32 by 32 pixels with
/// `DynamicImage::resize_exact`; nothing where it cannot be decoded. A picture of that size is copied
/// as it is. Of the others only the number of values is stated: scaling takes floating-point sines,
/// whose precision differs from machine to machine.
#[verifier::external_body]
fn decode_icon(picture: &[u8]) -> (r: Option<Vec<u8>>)
    ensures
        r is Some == picture_pixels(picture@) is Some,
        r matches Some(pixels) ==> pixels@.len() == ICON_BYTES,
        r matches Some(pixels) ==> forall|values: Seq<u8>| #[trigger]
            is_icon_of(picture@, values) ==> pixels@ == values,
{
    image::load_from_memory(picture).ok().map(
        |p| p.resize_exact(32, 32, FilterType::Lanczos3).to_rgba8().into_raw(),
    )
}

/// The pixels of the plain icon: those that were decoded, or transparent ones.
pub fn icon_or_blank(decoded: Option<Vec<u8>>) -> (out: Vec<u8>)
    requires
        decoded matches Some(pixels) ==> pixels@.len() == ICON_BYTES,
    ensures
        out@ == (match decoded {
            Some(pixels) => pixels@,
            None => Seq::new(ICON_BYTES as nat, |i: int| 0u8),
        }),
{
    match decoded {
        Some(pixels) => pixels,
        None => {
            let mut out: Vec<u8> = Vec::new();
            for i in 0..ICON_BYTES
                invariant
                    out@ == Seq::new(i as nat, |j: int| 0u8),
            {
                out.push(0);
                proof {
                    assert(out@ =~= Seq::new((i + 1) as nat, |j: int| 0u8));
                }
            }
            out
        },
    }
}

/// The pixels of the plain icon from an encoded picture: those of a picture of the icon's size, and
/// transparent ones where it cannot be decoded. Of a picture that has to be scaled, only the number
/// of pixels is stated.
pub fn base_icon(picture: &[u8]) -> (out: Vec<u8>)
    ensures
        out@.len() == ICON_BYTES,
        picture_pixels(picture@) is None ==> out@ == Seq::new(ICON_BYTES as nat, |i: int| 0u8),
        forall|values: Seq<u8>| #[trigger] is_icon_of(picture@, values) ==> out@ == values,
{
    icon_or_blank(decode_icon(picture))
}

/// Whole pixels with the alpha value moved to the front.
pub open spec fn alpha_first(data: Seq<u8>) -> Seq<u8> {
    Seq::new(
        data.len(),
        |i: int|
            if i / 4 < data.len() / 4 {
                data[i / 4 * 4 + (i % 4 + 3) % 4]
            } else {
                data[i]
            },
    )
}

/// Turns red, green, blue, alpha into alpha, red, green, blue.
pub fn to_argb(data: &[u8]) -> (out: Vec<u8>)
    ensures
        out@ == alpha_first(data@),
{
    let mut out: Vec<u8> = Vec::new();
    let n: usize = data.len() / 4;
    for i in 0..data.len()
        invariant
            n == data@.len() / 4,
            out@ == alpha_first(data@).take(i as int),
    {
        let q: usize = i / 4;
        let v: u8 = if q < n {
            data[q * 4 + (i % 4 + 3) % 4]
        } else {
            data[i]
        };
        out.push(v);
        proof {
            assert(alpha_first(data@).take(i + 1) =~= alpha_first(data@).take(i as int).push(
                alpha_first(data@)[i as int],
            ));
        }
    }
    proof {
        assert(alpha_first(data@).take(data@.len() as int) =~= alpha_first(data@));
    }
    out
}

// ---------------------------------------------------------------------------
// Counting updates

/// The number that a command printed, or none at all where it did not print one.
pub open spec fn printed_count(output: Option<Seq<char>>) -> u32 {
    match output {
        Some(s) => match parsed_u32(trimmed(s)) {
            Some(n) => n,
            None => 0,
        },
        None => 0,
    }
}

fn count_in(output: Option<&str>) -> (n: u32)
    ensures
        n == printed_count(
            match output {
                Some(s) => Some(s@),
                None => None,
            },
        ),
{
    match output {
        Some(s) => {
            let chars = to_chars(s);
            match parse_u32(trim(chars.as_slice())) {
                Some(n) => n,
                None => 0,
            }
        },
        None => 0,
    }
}

/// The number of updates, native and Flatpak, from what the two commands printed. The sum wraps
/// around.
pub fn check_update_count(native: Option<&str>, flatpak: Option<&str>) -> (n: u32)
    ensures
        n == printed_count(opt_str(native)).wrapping_add(printed_count(opt_str(flatpak))),
{
    count_in(native).wrapping_add(count_in(flatpak))
}

/// Whether a periodic check notifies the user: only where updates are newly found.
pub fn notifies(previous: u32, found: u32) -> (r: bool)
    ensures
        r == (found > 0 && previous == 0),
{
    found > 0 && previous == 0
}

// ---------------------------------------------------------------------------
// Texts

/// The title of the tray icon.
pub fn tray_title(n: u32) -> (out: String)
    ensures
        out@ == (if n > 0 {
            "XeroLinux Package Manager ("@ + decimal(n as nat) + " updates)"@
        } else {
            "XeroLinux Package Manager"@
        }),
{
    if n > 0 {
        let mut out = own("XeroLinux Package Manager (");
        out.append(decimal_text(n as u64).as_str());
        out.append(" updates)");
        out
    } else {
        own("XeroLinux Package Manager")
    }
}

/// How many updates there are, in words.
pub open spec fn updates_available(n: nat) -> Seq<char> {
    decimal(n) + " update"@ + (if n == 1 {
        ""@
    } else {
        "s"@
    }) + " available (native + flatpak)"@
}

/// How many updates there are, in words.
pub fn updates_text(n: u32) -> (out: String)
    ensures
        out@ == updates_available(n as nat),
{
    let mut out = decimal_text(n as u64);
    out.append(" update");
    out.append(
        if n == 1 {
            ""
        } else {
            "s"
        },
    );
    out.append(" available (native + flatpak)");
    out
}

/// The description in the tool tip.
pub fn tool_tip(n: u32) -> (out: String)
    ensures
        out@ == (if n > 0 {
            updates_available(n as nat)
        } else {
            "System is up to date"@
        }),
{
    if n > 0 {
        updates_text(n)
    } else {
        own("System is up to date")
    }
}

/// The label of the menu item that starts the update.
pub fn update_label(n: u32) -> (out: String)
    ensures
        out@ == (if n > 0 {
            "Update System ("@ + decimal(n as nat) + " available)"@
        } else {
            "Update System"@
        }),
{
    if n > 0 {
        let mut out = own("Update System (");
        out.append(decimal_text(n as u64).as_str());
        out.append(" available)");
        out
    } else {
        own("Update System")
    }
}

/// A notification on the desktop. Without a time it stays until the user acts.
#[derive(Debug, Clone)]
pub struct Notice {
    pub summary: String,
    pub body: String,
    pub icon: String,
    pub timeout_ms: Option<u32>,
    /// Whether it offers to update.
    pub offers_update: bool,
}

/// The notification after a search for updates.
pub fn update_notice(n: u32) -> (notice: Notice)
    ensures
        n == 0 ==> {
            &&& notice.summary@ == "System is up to date"@
            &&& notice.body@ == "No updates available."@
            &&& notice.icon@ == "system-software-install"@
            &&& notice.timeout_ms == Some(5000u32)
            &&& !notice.offers_update
        },
        n > 0 ==> {
            &&& notice.summary@ == "Updates Available"@
            &&& notice.body@ == updates_available(n as nat)
            &&& notice.icon@ == "system-software-update"@
            &&& notice.timeout_ms is None
            &&& notice.offers_update
        },
{
    if n == 0 {
        Notice {
            summary: own("System is up to date"),
            body: own("No updates available."),
            icon: own("system-software-install"),
            timeout_ms: Some(5000),
            offers_update: false,
        }
    } else {
        Notice {
            summary: own("Updates Available"),
            body: updates_text(n),
            icon: own("system-software-update"),
            timeout_ms: None,
            offers_update: true,
        }
    }
}

/// The file of the autostart entry.
pub fn autostart_path(home: &str) -> (out: String)
    ensures
        out@ == home@ + "/.config/autostart/xpackagemanager.desktop"@,
{
    let mut out = own(home);
    out.append("/.config/autostart/xpackagemanager.desktop");
    out
}

/// The contents of the autostart entry that starts the program in the tray.
pub fn autostart_entry(program: &str) -> (out: String)
    ensures
        out@
            == "[Desktop Entry]\nType=Application\nName=xPackageManager Tray\nComment=xPackageManager update notifier\nExec="@
            + program@
            + " --tray\nIcon=xpackagemanager\nStartupNotify=false\nTerminal=false\nX-KDE-autostart-after=panel\n"@,
{
    let mut out = own(
        "[Desktop Entry]\nType=Application\nName=xPackageManager Tray\nComment=xPackageManager update notifier\nExec=",
    );
    out.append(program);
    out.append(
        " --tray\nIcon=xpackagemanager\nStartupNotify=false\nTerminal=false\nX-KDE-autostart-after=panel\n",
    );
    out
}

/// The file whose lock only one instance of a user holds.
pub fn instance_lock_path(uid: u32) -> (out: String)
    ensures
        out@ == "/tmp/xpackagemanager-"@ + decimal(uid as nat) + ".lock"@,
{
    let mut out = own("/tmp/xpackagemanager-");
    out.append(decimal_text(uid as u64).as_str());
    out.append(".lock");
    out
}

/// The socket at which the instance of a user listens.
pub fn instance_socket_path(uid: u32) -> (out: String)
    ensures
        out@ == "/tmp/xpackagemanager-"@ + decimal(uid as nat) + ".sock"@,
{
    let mut out = own("/tmp/xpackagemanager-");
    out.append(decimal_text(uid as u64).as_str());
    out.append(".sock");
    out
}

// ---------------------------------------------------------------------------
// Laws

/// Without updates the icon is the plain one.
pub proof fn no_updates_no_badge(base: Seq<u8>)
    ensures
        icon_of(base, 0) == base,
{
    assert(icon_of(base, 0) =~= base);
}

/// Every painted pixel is opaque.
pub proof fn badges_are_opaque(base: Seq<u8>, count: u32, x: int, y: int)
    requires
        base.len() == ICON_BYTES,
        0 <= x < 32,
        0 <= y < 32,
        paint_at(count, x, y) != Paint::Base,
    ensures
        icon_of(base, count)[(y * 32 + x) * 4 + 3] == 255,
{
    let i = (y * 32 + x) * 4 + 3;
    assert(i / 4 == y * 32 + x && i % 4 == 3);
    assert((y * 32 + x) % 32 == x && (y * 32 + x) / 32 == y);
}

/// The instances of different users do not get into each other's way.
pub proof fn instances_stay_apart(a: u32, b: u32)
    requires
        a != b,
    ensures
        "/tmp/xpackagemanager-"@ + decimal(a as nat) + ".lock"@ != "/tmp/xpackagemanager-"@
            + decimal(b as nat) + ".lock"@,
        "/tmp/xpackagemanager-"@ + decimal(a as nat) + ".sock"@ != "/tmp/xpackagemanager-"@
            + decimal(b as nat) + ".sock"@,
{
    between_is_unique("/tmp/xpackagemanager-"@, decimal(a as nat), decimal(b as nat), ".lock"@);
    between_is_unique("/tmp/xpackagemanager-"@, decimal(a as nat), decimal(b as nat), ".sock"@);
    if decimal(a as nat) == decimal(b as nat) {
        decimal_is_unique(a as nat, b as nat);
    }
}

proof fn between_is_unique(front: Seq<char>, a: Seq<char>, b: Seq<char>, behind: Seq<char>)
    ensures
        front + a + behind == front + b + behind ==> a == b,
{
    let (x, y) = (front + a + behind, front + b + behind);
    if x == y {
        assert(x.len() == y.len());
        let n = front.len() as int;
        assert(x.subrange(n, n + a.len()) =~= a);
        assert(y.subrange(n, n + b.len()) =~= b);
    }
}

/// The badge spells the count in decimal digits up to ninety-nine, and `99+` beyond.
pub proof fn badges_spell_the_count(count: u32)
    ensures
        count <= 99 ==> badge_chars(count).len() == decimal(count as nat).len() && forall|i: int|
            0 <= i < badge_chars(count).len() ==> #[trigger] badge_chars(count)[i] == digit_value(
                decimal(count as nat)[i],
            ),
        count > 99 ==> badge_chars(count) == seq![9int, 9int, 10int],
{
    if count <= 9 {
        assert(decimal(count as nat) =~= seq![digit_char(count as int)]);
    } else if count <= 99 {
        let n = count as nat;
        assert(decimal(n / 10) =~= seq![digit_char((n / 10) as int)]);
        assert(decimal(n) =~= seq![digit_char((n / 10) as int), digit_char((n % 10) as int)]);
    }
}

/// Different characters of the badge look different.
pub proof fn glyphs_differ(a: int, b: int)
    requires
        0 <= a <= 10,
        0 <= b <= 10,
        a != b,
    ensures
        glyph_bits(a) != glyph_bits(b),
{
}

/// The red badge lies in the top right corner, the amber one in the bottom left corner, and they do not
/// touch; nothing is painted outside of them.
pub proof fn badges_lie_in_their_corners(count: u32, x: int, y: int)
    requires
        count > 0,
        0 <= x < 32,
        0 <= y < 32,
    ensures
        in_count_badge(count, x, y) ==> y < 14 && x >= 10,
        in_arrow_badge(x, y) ==> y >= 22 && x < 10,
        paint_at(count, x, y) == Paint::Red ==> in_count_badge(count, x, y),
        paint_at(count, x, y) == Paint::Amber ==> in_arrow_badge(x, y),
        x >= 10 && y >= 14 ==> paint_at(count, x, y) == Paint::Base,
{
    let w = badge_width(count);
    let h = badge_height(count);
    assert(w <= 18 && h <= 14) by {
        let n = badge_chars(count).len() as int;
        let k = badge_scale(count);
        if count <= 9 {
            assert(n * 3 * k == 6 && (n - 1) * k == 0) by (nonlinear_arith)
                requires
                    n == 1,
                    k == 2,
            ;
        } else if count <= 99 {
            assert(n * 3 * k == 12 && (n - 1) * k == 2) by (nonlinear_arith)
                requires
                    n == 2,
                    k == 2,
            ;
        } else {
            assert(n * 3 * k == 9 && (n - 1) * k == 2) by (nonlinear_arith)
                requires
                    n == 3,
                    k == 1,
            ;
        }
    }
    if in_count(count, x, y) {
        let scale = badge_scale(count);
        let dy = y - 2;
        assert(dy / scale < 5);
        assert(dy < 10) by {
            if scale == 2 {
                assert(dy / 2 < 5);
            }
        }
    }
}

/// Every pixel keeps its colours when its alpha value moves to the front.
pub proof fn pixels_keep_their_colours(data: Seq<u8>, p: int)
    requires
        0 <= p,
        4 * p + 3 < data.len(),
    ensures
        alpha_first(data).len() == data.len(),
        alpha_first(data)[4 * p] == data[4 * p + 3],
        alpha_first(data)[4 * p + 1] == data[4 * p],
        alpha_first(data)[4 * p + 2] == data[4 * p + 1],
        alpha_first(data)[4 * p + 3] == data[4 * p + 2],
{
}

/// A number that was printed is the count, with white space around it or not.
pub proof fn printed_numbers_count(n: nat)
    requires
        n <= u32::MAX,
    ensures
        printed_count(Some(decimal(n).push('\n'))) == n,
        printed_count(None) == 0,
{
    let d = decimal(n);
    decimal_is_one_word(n);
    assert(is_space('\n'));
    trimming_takes_outer_space(seq![], d, seq!['\n']);
    assert(Seq::<char>::empty() + d + seq!['\n'] =~= d.push('\n'));
    decimal_parses(n, u32::MAX as int);
}

/// The number of updates is told in words, in the plural unless it is one.
pub proof fn updates_are_told(n: nat)
    ensures
        n == 1 ==> updates_available(n) == decimal(1) + " update"@ + " available (native + flatpak)"@,
        n != 1 ==> updates_available(n) == (decimal(n) + " update"@).push('s')
            + " available (native + flatpak)"@,
{
    reveal_strlit("");
    reveal_strlit("s");
    if n == 1 {
        assert(decimal(1) + " update"@ + ""@ =~= decimal(1) + " update"@);
    } else {
        assert(decimal(n) + " update"@ + "s"@ =~= (decimal(n) + " update"@).push('s'));
    }
}

/// The badge of the count is red with white characters, and the one with the arrow amber with a white
/// arrow.
pub proof fn badges_have_their_colours(base: Seq<u8>, count: u32, x: int, y: int)
    requires
        base.len() == ICON_BYTES,
        0 <= x < 32,
        0 <= y < 32,
        count > 0,
    ensures
        ({
            let i = (y * 32 + x) * 4;
            let icon = icon_of(base, count);
            let colour = (icon[i], icon[i + 1], icon[i + 2]);
            &&& in_arrow(x, y) ==> colour == (255u8, 255u8, 255u8)
            &&& in_arrow_badge(x, y) && !in_arrow(x, y) ==> colour == (220u8, 140u8, 20u8)
            &&& in_count_badge(count, x, y) && !in_arrow_badge(x, y) && !in_arrow(x, y)
                && !in_count(count, x, y) ==> colour == (220u8, 45u8, 45u8)
            &&& in_count(count, x, y) && !in_arrow_badge(x, y) && !in_arrow(x, y) ==> colour == (
                255u8,
                255u8,
                255u8,
            )
            &&& !in_count_badge(count, x, y) && !in_count(count, x, y) && !in_arrow_badge(x, y)
                && !in_arrow(x, y) ==> colour == (base[i], base[i + 1], base[i + 2])
        }),
{
    let i = (y * 32 + x) * 4;
    assert(i / 4 == y * 32 + x && i % 4 == 0);
    assert((i + 1) / 4 == y * 32 + x && (i + 1) % 4 == 1);
    assert((i + 2) / 4 == y * 32 + x && (i + 2) % 4 == 2);
    assert((y * 32 + x) % 32 == x && (y * 32 + x) / 32 == y);
}

/// The arrow points up: a stem of one dot in the middle of its rows, under a head that widens by a
/// dot to either side from row to row.
pub proof fn arrow_points_up(x: int, y: int)
    ensures
        23 <= y < 30 ==> in_arrow(4, y),
        in_arrow(x, y) ==> 2 <= x <= 6 && 23 <= y < 30,
        in_arrow(2, 25) && in_arrow(6, 25) && in_arrow(3, 24) && in_arrow(5, 24),
        y == 23 || 26 <= y < 30 ==> (in_arrow(x, y) <==> x == 4),
{
    assert((0b0011100u64 >> 0u64) & 1 == 0 && (0b0011100u64 >> 1u64) & 1 == 0 && (0b0011100u64
        >> 2u64) & 1 == 1 && (0b0011100u64 >> 3u64) & 1 == 1 && (0b0011100u64 >> 4u64) & 1 == 1 && (
    0b0011100u64 >> 5u64) & 1 == 0 && (0b0011100u64 >> 6u64) & 1 == 0) by (bit_vector);
    assert((0b0111110u64 >> 0u64) & 1 == 0 && (0b0111110u64 >> 1u64) & 1 == 1 && (0b0111110u64
        >> 2u64) & 1 == 1 && (0b0111110u64 >> 3u64) & 1 == 1 && (0b0111110u64 >> 4u64) & 1 == 1 && (
    0b0111110u64 >> 5u64) & 1 == 1 && (0b0111110u64 >> 6u64) & 1 == 0) by (bit_vector);
    assert((0b0001000u64 >> 0u64) & 1 == 0 && (0b0001000u64 >> 1u64) & 1 == 0 && (0b0001000u64
        >> 2u64) & 1 == 0 && (0b0001000u64 >> 3u64) & 1 == 1 && (0b0001000u64 >> 4u64) & 1 == 0 && (
    0b0001000u64 >> 5u64) & 1 == 0 && (0b0001000u64 >> 6u64) & 1 == 0) by (bit_vector);
    let col = x - 1;
    let row = y - 23;
    if 0 <= col < 7 && 0 <= row < 7 {
        let k = 6 - col;
        assert(k == 0 || k == 1 || k == 2 || k == 3 || k == 4 || k == 5 || k == 6);
    }
}

/// The characters of the count lie within its badge, two pixels away from its edges.
pub proof fn characters_lie_within_the_badge(count: u32, x: int, y: int)
    requires
        in_count(count, x, y),
    ensures
        2 <= y < badge_height(count) - 2,
        32 - badge_width(count) + 2 <= x < 30,
{
    let scale = badge_scale(count);
    let n = badge_chars(count).len();
    assert(n == 1 || n == 2 || n == 3);
    assert(scale == 1 || scale == 2);
    let dx = x - (32 - badge_width(count)) - 2;
    let dy = y - 2;
    if scale == 1 {
        assert(dx / 4 < n && dx % 4 / 1 < 3);
        assert(dy / 1 < 5);
    } else {
        assert(dx / 8 < n && dx % 8 / 2 < 3);
        assert(dy / 2 < 5);
    }
}

} // verus!
