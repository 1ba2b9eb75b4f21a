//! The integer parts of the tray icon: severity colours, the 3x5 digit
//! font and the label layout, disk and ring membership of a pixel, and
//! "source over" alpha compositing. The ring's angles are computed in
//! floating point by the caller, which also owns the image.

use vstd::prelude::*;

verus! {

/// Width and height of the tray icon, in pixels.
pub const TRAY_ICON_SIZE: u32 = 32;
/// Inner radius of the usage ring.
pub const RING_INNER: i32 = 9;
/// Outer radius of the usage ring.
pub const RING_OUTER: i32 = 14;
/// Column of the icon's centre.
pub const CENTER_X: i32 = 16;
/// Row of the icon's centre.
pub const CENTER_Y: i32 = 16;
/// Radius of the light background disk.
pub const DISK_RADIUS: i32 = 15;

/// How close to its limit the primary quota window is.
#[derive(Debug, Clone, Copy, PartialEq, Eq, Structural)]
pub enum Severity {
    Normal,
    Warn,
    Danger,
}

/// The RGBA colour of a severity: green, amber, red.
pub open spec fn spec_severity_color(sev: Severity) -> Seq<u8> {
    match sev {
        Severity::Normal => seq![52u8, 199u8, 89u8, 255u8],
        Severity::Warn => seq![255u8, 179u8, 64u8, 255u8],
        Severity::Danger => seq![255u8, 59u8, 48u8, 255u8],
    }
}

/// The RGBA colour of a severity (#34c759, #ffb340, #ff3b30).
pub fn severity_color(sev: Severity) -> (r: [u8; 4])
    ensures
        r@ == spec_severity_color(sev),
{
    let r: [u8; 4] = match sev {
        Severity::Normal => [52, 199, 89, 255],
        Severity::Warn => [255, 179, 64, 255],
        Severity::Danger => [255, 59, 48, 255],
    };
    assert(r@ =~= spec_severity_color(sev));
    r
}

/// The 3x5 bitmap of a digit or `%`: five rows of three bits, leftmost
/// pixel in the highest bit.
pub open spec fn spec_glyph(c: u8) -> Option<Seq<u8>> {
    if c == 48 {
        Some(seq![7u8, 5u8, 5u8, 5u8, 7u8])
    } else if c == 49 {
        Some(seq![2u8, 6u8, 2u8, 2u8, 7u8])
    } else if c == 50 {
        Some(seq![7u8, 1u8, 7u8, 4u8, 7u8])
    } else if c == 51 {
        Some(seq![7u8, 1u8, 7u8, 1u8, 7u8])
    } else if c == 52 {
        Some(seq![5u8, 5u8, 7u8, 1u8, 1u8])
    } else if c == 53 {
        Some(seq![7u8, 4u8, 7u8, 1u8, 7u8])
    } else if c == 54 {
        Some(seq![7u8, 4u8, 7u8, 5u8, 7u8])
    } else if c == 55 {
        Some(seq![7u8, 1u8, 2u8, 2u8, 2u8])
    } else if c == 56 {
        Some(seq![7u8, 5u8, 7u8, 5u8, 7u8])
    } else if c == 57 {
        Some(seq![7u8, 5u8, 7u8, 1u8, 7u8])
    } else if c == 37 {
        Some(seq![5u8, 5u8, 2u8, 5u8, 5u8])
    } else {
        None
    }
}

/// The bitmap of a digit or `%` (`48u8..=57u8`, `37u8`); `None` otherwise.
pub fn glyph(c: u8) -> (r: Option<[u8; 5]>)
    ensures
        match r {
            Some(g) => spec_glyph(c) == Some(g@),
            None => spec_glyph(c) is None,
        },
{
    let g: [u8; 5] = if c == 48u8 {
        [0b111, 0b101, 0b101, 0b101, 0b111]
    } else if c == 49u8 {
        [0b010, 0b110, 0b010, 0b010, 0b111]
    } else if c == 50u8 {
        [0b111, 0b001, 0b111, 0b100, 0b111]
    } else if c == 51u8 {
        [0b111, 0b001, 0b111, 0b001, 0b111]
    } else if c == 52u8 {
        [0b101, 0b101, 0b111, 0b001, 0b001]
    } else if c == 53u8 {
        [0b111, 0b100, 0b111, 0b001, 0b111]
    } else if c == 54u8 {
        [0b111, 0b100, 0b111, 0b101, 0b111]
    } else if c == 55u8 {
        [0b111, 0b001, 0b010, 0b010, 0b010]
    } else if c == 56u8 {
        [0b111, 0b101, 0b111, 0b101, 0b111]
    } else if c == 57u8 {
        [0b111, 0b101, 0b111, 0b001, 0b111]
    } else if c == 37u8 {
        [0b101, 0b101, 0b010, 0b101, 0b101]
    } else {
        return None;
    };
    assert(spec_glyph(c) matches Some(s) && s =~= g@);
    Some(g)
}

/// The characters of the centre label for a rounded percentage: `100` at
/// 100 and above, else its one or two decimal digits.
pub open spec fn spec_label_text(percent: u8) -> Seq<u8> {
    if percent >= 100 {
        seq![49u8, 48u8, 48u8]
    } else if percent >= 10 {
        seq![(48 + percent / 10) as u8, (48 + percent % 10) as u8]
    } else {
        seq![(48 + percent) as u8]
    }
}

/// The characters of the centre label; see `spec_label_text`.
pub fn label_text(percent: u8) -> (r: Vec<u8>)
    ensures
        r@ == spec_label_text(percent),
{
    let mut v: Vec<u8> = Vec::new();
    if percent >= 100 {
        v.push(49u8);
        v.push(48u8);
        v.push(48u8);
    } else if percent >= 10 {
        v.push(48u8 + percent / 10);
        v.push(48u8 + percent % 10);
    } else {
        v.push(48u8 + percent);
    }
    assert(v@ =~= spec_label_text(percent));
    v
}

/// Whether bit `col` (from the left) of a 3-bit glyph row is set.
pub open spec fn bit_on(bits: u8, col: int) -> bool {
    (bits >> ((2 - col) as u8)) & 1u8 == 1u8
}

/// The pixel at `(x, y)` when it lies inside the icon.
pub open spec fn pixel_in_icon(x: int, y: int) -> Seq<(u32, u32)> {
    if 0 <= x < TRAY_ICON_SIZE && 0 <= y < TRAY_ICON_SIZE {
        seq![(x as u32, y as u32)]
    } else {
        Seq::empty()
    }
}

/// The lit pixels of the first `ncols` columns of a glyph row drawn at
/// `(x0, y)`, left to right.
pub open spec fn row_pixels(bits: u8, x0: int, y: int, ncols: int) -> Seq<(u32, u32)>
    decreases ncols,
{
    if ncols <= 0 {
        Seq::empty()
    } else {
        row_pixels(bits, x0, y, ncols - 1) + if bit_on(bits, ncols - 1) {
            pixel_in_icon(x0 + ncols - 1, y)
        } else {
            Seq::empty()
        }
    }
}

/// The lit pixels of the first `nrows` rows of a glyph drawn with its top
/// left corner at `(x0, y0)`, top to bottom.
pub open spec fn glyph_pixels(g: Seq<u8>, x0: int, y0: int, nrows: int) -> Seq<(u32, u32)>
    decreases nrows,
{
    if nrows <= 0 {
        Seq::empty()
    } else {
        glyph_pixels(g, x0, y0, nrows - 1) + row_pixels(g[nrows - 1], x0, y0 + nrows - 1, 3)
    }
}

/// The lit pixels of the first `n` characters of a label starting at
/// `(x0, y0)`, each character 3 pixels wide and 1 pixel apart.
pub open spec fn text_pixels(text: Seq<u8>, x0: int, y0: int, n: int) -> Seq<(u32, u32)>
    decreases n,
{
    if n <= 0 {
        Seq::empty()
    } else {
        text_pixels(text, x0, y0, n - 1) + match spec_glyph(text[n - 1]) {
            Some(g) => glyph_pixels(g, x0 + (n - 1) * 4, y0, 5),
            None => Seq::empty(),
        }
    }
}

/// Left column of a label of `n` characters centred on the icon.
pub open spec fn label_left(n: int) -> int {
    CENTER_X - (n * 3 + (n - 1)) / 2
}

/// The pixels the centre label lights for a rounded percentage, in the
/// order they are drawn: each character in turn, row by row, left to right,
/// the label centred on the icon (its top row 2 above the centre).
pub open spec fn spec_label_pixels(percent: u8) -> Seq<(u32, u32)> {
    let t = spec_label_text(percent);
    text_pixels(t, label_left(t.len() as int), CENTER_Y - 2, t.len() as int)
}

fn row_into(out: &mut Vec<(u32, u32)>, bits: u8, x0: i32, y: i32)
    requires
        -100 <= x0 <= 100,
        -100 <= y <= 100,
    ensures
        final(out)@ == old(out)@ + row_pixels(bits, x0 as int, y as int, 3),
{
    let ghost start = old(out)@;
    let mut col: i32 = 0;
    while col < 3
        invariant
            0 <= col <= 3,
            -100 <= x0 <= 100,
            -100 <= y <= 100,
            out@ == start + row_pixels(bits, x0 as int, y as int, col as int),
        decreases 3 - col,
    {
        let shift: u8 = (2 - col) as u8;
        let on = (bits >> shift) & 1 == 1;
        if on {
            let x = x0 + col;
            if x >= 0 && y >= 0 && (x as u32) < TRAY_ICON_SIZE && (y as u32) < TRAY_ICON_SIZE {
                out.push((x as u32, y as u32));
            }
        }
        assert(out@ =~= start + row_pixels(bits, x0 as int, y as int, col + 1));
        col = col + 1;
    }
}

/// The pixels the centre label lights; see `spec_label_pixels`.
pub fn label_pixels(percent: u8) -> (r: Vec<(u32, u32)>)
    ensures
        r@ == spec_label_pixels(percent),
{
    let text = label_text(percent);
    let n: i32 = text.len() as i32;
    let total_w: i32 = n * 3 + (n - 1);
    let start_x: i32 = CENTER_X - total_w / 2;
    let start_y: i32 = CENTER_Y - 5 / 2;
    let mut out: Vec<(u32, u32)> = Vec::new();
    let mut i: usize = 0;
    while i < text.len()
        invariant
            i <= text.len(),
            text@ == spec_label_text(percent),
            n == text@.len(),
            start_x == label_left(n as int),
            start_y == CENTER_Y - 2,
            out@ == text_pixels(text@, start_x as int, start_y as int, i as int),
        decreases text.len() - i,
    {
        let x0: i32 = start_x + (i as i32) * 4;
        match glyph(text[i]) {
            Some(g) => {
                let ghost before = out@;
                let mut row: usize = 0;
                while row < 5
                    invariant
                        row <= 5,
                        -100 <= x0 <= 100,
                        start_y == CENTER_Y - 2,
                        out@ == before + glyph_pixels(g@, x0 as int, start_y as int, row as int),
                    decreases 5 - row,
                {
                    row_into(&mut out, g[row], x0, start_y + row as i32);
                    assert(out@ =~= before + glyph_pixels(g@, x0 as int, start_y as int, row + 1));
                    row = row + 1;
                }
            },
            None => {},
        }
        assert(out@ =~= text_pixels(text@, start_x as int, start_y as int, i + 1));
        i = i + 1;
    }
    out
}

/// Squared distance of `(x, y)` from `(cx, cy)`.
pub open spec fn dist2(x: int, y: int, cx: int, cy: int) -> int {
    (x - cx) * (x - cx) + (y - cy) * (y - cy)
}

/// Whether a pixel of the icon lies in the disk of `radius` around the
/// centre.
pub fn in_disk(x: u32, y: u32, radius: i32) -> (r: bool)
    requires
        x < TRAY_ICON_SIZE,
        y < TRAY_ICON_SIZE,
        0 <= radius <= 1000,
    ensures
        r == (dist2(x as int, y as int, CENTER_X as int, CENTER_Y as int) <= radius * radius),
{
    let dx: i32 = x as i32 - CENTER_X;
    let dy: i32 = y as i32 - CENTER_Y;
    assert(0 <= radius * radius <= 1_000_000) by (nonlinear_arith)
        requires
            0 <= radius <= 1000,
    ;
    assert(0 <= dx * dx <= 256 && 0 <= dy * dy <= 256) by (nonlinear_arith)
        requires
            -16 <= dx <= 16,
            -16 <= dy <= 16,
    ;
    dx * dx + dy * dy <= radius * radius
}

/// Whether a pixel of the icon lies on the usage ring (between the inner
/// and outer radius, both included); its angle is for the caller to test.
pub fn in_ring(x: u32, y: u32) -> (r: bool)
    requires
        x < TRAY_ICON_SIZE,
        y < TRAY_ICON_SIZE,
    ensures
        r == (RING_INNER * RING_INNER <= dist2(x as int, y as int, CENTER_X as int, CENTER_Y as int)
            <= RING_OUTER * RING_OUTER),
{
    let dx: i32 = x as i32 - CENTER_X;
    let dy: i32 = y as i32 - CENTER_Y;
    assert(0 <= dx * dx <= 256 && 0 <= dy * dy <= 256) by (nonlinear_arith)
        requires
            -16 <= dx <= 16,
            -16 <= dy <= 16,
    ;
    let r2 = dx * dx + dy * dy;
    !(r2 < RING_INNER * RING_INNER || r2 > RING_OUTER * RING_OUTER)
}

/// One colour channel of `color` composited over `dst` ("source over"),
/// with the result alpha `out_a`.
pub open spec fn blend_channel(sc: u8, sa: u8, dc: u8, da: u8, out_a: int) -> u8 {
    ((sc * sa + dc * da * (255 - sa) / 255) / out_a) as u8
}

/// `color` composited over `dst` with integer "source over": the result
/// alpha is `sa + da * (255 - sa) / 255`; when it is 0 the pixel is left
/// alone (`None`), else each colour channel is
/// `(sc * sa + dc * da * (255 - sa) / 255) / out_a`, cut to a byte.
pub open spec fn spec_blend(dst: Seq<u8>, color: Seq<u8>) -> Option<Seq<u8>> {
    let sa = color[3];
    let da = dst[3];
    let out_a = sa + da * (255 - sa) / 255;
    if out_a == 0 {
        None
    } else {
        Some(seq![
            blend_channel(color[0], sa, dst[0], da, out_a),
            blend_channel(color[1], sa, dst[1], da, out_a),
            blend_channel(color[2], sa, dst[2], da, out_a),
            out_a as u8,
        ])
    }
}

proof fn lemma_blend_bounds(sa: u32, da: u32, sc: u32, dc: u32)
    requires
        sa <= 255,
        da <= 255,
        sc <= 255,
        dc <= 255,
    ensures
        da * (255 - sa) <= 65025,
        sa + da * (255 - sa) / 255 <= 510,
        sc * sa <= 65025,
        dc * da <= 65025,
        dc * da * (255 - sa) <= 16581375,
        sc * sa + dc * da * (255 - sa) / 255 <= 130050,
{
    assert(da * (255 - sa) <= 65025) by (nonlinear_arith)
        requires
            sa <= 255,
            da <= 255,
    ;
    assert(sc * sa <= 65025) by (nonlinear_arith)
        requires
            sa <= 255,
            sc <= 255,
    ;
    assert(dc * da <= 65025) by (nonlinear_arith)
        requires
            dc <= 255,
            da <= 255,
    ;
    assert(dc * da * (255 - sa) <= 16581375) by (nonlinear_arith)
        requires
            dc * da <= 65025,
            sa <= 255,
    ;
}

fn blend_channel_exec(sc: u8, sa: u8, dc: u8, da: u8, out_a: u32) -> (r: u8)
    requires
        out_a > 0,
    ensures
        r == blend_channel(sc, sa, dc, da, out_a as int),
{
    let sa32 = sa as u32;
    let da32 = da as u32;
    let sc32 = sc as u32;
    let dc32 = dc as u32;
    proof {
        lemma_blend_bounds(sa32, da32, sc32, dc32);
    }
    let blended = (sc32 * sa32 + dc32 * da32 * (255 - sa32) / 255) / out_a;
    blended as u8
}

/// Composites `color` over the pixel `dst`; see `spec_blend`.
pub fn blend(dst: [u8; 4], color: [u8; 4]) -> (r: Option<[u8; 4]>)
    ensures
        match r {
            Some(p) => spec_blend(dst@, color@) == Some(p@),
            None => spec_blend(dst@, color@) is None,
        },
{
    let sa = color[3] as u32;
    let da = dst[3] as u32;
    proof {
        lemma_blend_bounds(sa, da, 0, 0);
    }
    let out_a = sa + da * (255 - sa) / 255;
    if out_a == 0 {
        return None;
    }
    let out: [u8; 4] = [
        blend_channel_exec(color[0], color[3], dst[0], dst[3], out_a),
        blend_channel_exec(color[1], color[3], dst[1], dst[3], out_a),
        blend_channel_exec(color[2], color[3], dst[2], dst[3], out_a),
        out_a as u8,
    ];
    assert(spec_blend(dst@, color@) matches Some(s) && s =~= out@);
    Some(out)
}

/// Width of the popover window, in physical pixels.
pub const POPOVER_WIDTH: i32 = 380;
/// Height of the popover window, in physical pixels.
pub const POPOVER_HEIGHT: i32 = 560;

/// Half of `a`, rounded toward zero (integer division by 2).
pub open spec fn half_toward_zero(a: i32) -> i32 {
    if a >= 0 { (a / 2) as i32 } else { (-((-a) / 2)) as i32 }
}

fn half_toward_zero_exec(a: i32) -> (r: i32)
    ensures
        r == half_toward_zero(a),
{
    let d: i64 = a as i64;
    let h: i64 = if d >= 0 { d / 2 } else { -((-d) / 2) };
    h as i32
}

/// Where the popover opens on a monitor at `(mon_x, mon_y)` of the given
/// size: centred horizontally, and 40 pixels above the bottom edge (never
/// above the top), with `i32` arithmetic wrapping as in a release build.
pub open spec fn spec_popover_position(mon_x: i32, mon_y: i32, width: u32, height: u32) -> (i32, i32) {
    let x = mon_x.wrapping_add(half_toward_zero((width as i32).wrapping_sub(POPOVER_WIDTH)));
    let dy = (height as i32).wrapping_sub(POPOVER_HEIGHT).wrapping_sub(40);
    let y = mon_y.wrapping_add(if dy < 0 { 0 } else { dy });
    (x, y)
}

/// Where the popover opens on a monitor; see `spec_popover_position`.
pub fn popover_position(mon_x: i32, mon_y: i32, width: u32, height: u32) -> (r: (i32, i32))
    ensures
        r == spec_popover_position(mon_x, mon_y, width, height),
{
    let w: i32 = width as i32;
    let h: i32 = height as i32;
    let x = mon_x.wrapping_add(half_toward_zero_exec(w.wrapping_sub(POPOVER_WIDTH)));
    let dy = h.wrapping_sub(POPOVER_HEIGHT).wrapping_sub(40);
    let y = mon_y.wrapping_add(if dy < 0 { 0 } else { dy });
    (x, y)
}

/// An opaque colour composited over any pixel replaces it.
pub proof fn lemma_opaque_blend(dst: Seq<u8>, color: Seq<u8>)
    requires
        dst.len() == 4,
        color.len() == 4,
        color[3] == 255,
    ensures
        spec_blend(dst, color) == Some(color),
{
    let da = dst[3];
    assert(da * (255 - 255int) / 255 == 0);
    let out_a: int = 255;
    assert forall|k: int| 0 <= k < 3 implies blend_channel(#[trigger] color[k], 255, dst[k], da, out_a) == color[k] by {
        let sc = color[k];
        assert(dst[k] * da * (255 - 255int) == 0) by (nonlinear_arith);
        assert((sc * 255 + 0) / 255 == sc) by (nonlinear_arith)
            requires
                0 <= sc <= 255,
        ;
    }
    assert(spec_blend(dst, color) matches Some(p) && p =~= color);
}

/// The centre label spells the rounded percentage in decimal, capped at 100.
pub proof fn lemma_label_spells_percent(percent: u8)
    ensures
        spec_label_text(percent).map_values(|b: u8| b as char)
            == crate::text::decimal(if percent >= 100 { 100nat } else { percent as nat }),
{
    reveal_with_fuel(crate::text::decimal, 4);
    let t = spec_label_text(percent).map_values(|b: u8| b as char);
    if percent >= 100 {
        assert(crate::text::decimal(100) =~= seq!['1', '0', '0']);
        assert(t =~= seq!['1', '0', '0']);
    } else if percent >= 10 {
        let p = percent as nat;
        assert(crate::text::decimal(p) == crate::text::decimal(p / 10) + seq![crate::text::digit_char(p % 10)]);
        assert(t =~= crate::text::decimal(p));
    } else {
        assert(t =~= crate::text::decimal(percent as nat));
    }
}


/// The digit font: the 3x5 bitmap of each digit and of `%`, row by row
/// from the top, leftmost pixel in the highest of three bits.
pub proof fn lemma_digit_font()
    ensures
        spec_glyph(48u8) == Some(seq![0b111u8, 0b101u8, 0b101u8, 0b101u8, 0b111u8]),  // '0'
        spec_glyph(49u8) == Some(seq![0b010u8, 0b110u8, 0b010u8, 0b010u8, 0b111u8]),  // '1'
        spec_glyph(50u8) == Some(seq![0b111u8, 0b001u8, 0b111u8, 0b100u8, 0b111u8]),  // '2'
        spec_glyph(51u8) == Some(seq![0b111u8, 0b001u8, 0b111u8, 0b001u8, 0b111u8]),  // '3'
        spec_glyph(52u8) == Some(seq![0b101u8, 0b101u8, 0b111u8, 0b001u8, 0b001u8]),  // '4'
        spec_glyph(53u8) == Some(seq![0b111u8, 0b100u8, 0b111u8, 0b001u8, 0b111u8]),  // '5'
        spec_glyph(54u8) == Some(seq![0b111u8, 0b100u8, 0b111u8, 0b101u8, 0b111u8]),  // '6'
        spec_glyph(55u8) == Some(seq![0b111u8, 0b001u8, 0b010u8, 0b010u8, 0b010u8]),  // '7'
        spec_glyph(56u8) == Some(seq![0b111u8, 0b101u8, 0b111u8, 0b101u8, 0b111u8]),  // '8'
        spec_glyph(57u8) == Some(seq![0b111u8, 0b101u8, 0b111u8, 0b001u8, 0b111u8]),  // '9'
        spec_glyph(37u8) == Some(seq![0b101u8, 0b101u8, 0b010u8, 0b101u8, 0b101u8]),  // '%'
{
}

/// The font draws exactly the digits and `%`, each as five rows of three
/// pixels, and no two of them alike: a label's glyphs can be told apart.
pub proof fn lemma_glyphs_distinct(c: u8, d: u8)
    ensures
        spec_glyph(c) is Some <==> ((48 <= c && c <= 57) || c == 37),
        spec_glyph(c) matches Some(g) ==> g.len() == 5 && forall|k: int| 0 <= k < 5 ==> g[k] < 8,
        c != d && spec_glyph(c) is Some && spec_glyph(d) is Some ==> spec_glyph(c) != spec_glyph(d),
{
    lemma_digit_font();
    if c != d && spec_glyph(c) is Some && spec_glyph(d) is Some {
        let g = spec_glyph(c)->0;
        let h = spec_glyph(d)->0;
        assert(g != h) by {
            if g == h {
                assert(g[0] == h[0] && g[1] == h[1] && g[2] == h[2] && g[3] == h[3] && g[4] == h[4]);
            }
        }
    }
}

} // verus!
