//! What user space reads of the framebuffer, field by field, and what the console shows,
//! pixel by pixel.

use vstd::prelude::*;
use crate::bootfb::splice;
use crate::bytes::{le32, le64, u16_at, u32_at, u64_at, word16, word32, word64};
use crate::console_font::{cell_row, law_the_top_bit_is_the_leftmost_pixel, pixel_lit};
use crate::error::Error;
use crate::fb::{channel_image, channel_values, color_map_at, current_mode, damage_after,
    damage_covers, damage_word_parts, default_palette, entry_alpha, fb_ioctl, fix_image,
    law_marking_never_loses_damage, palette_channel, palette_entry, palette_request_valid,
    span_of_read, span_of_write, surface_fix, transparency, var_words, widened, word_at,
    words_image, ColorMap, DisplayCore, FbIoctl, FbconFrame, FixScreenInfo, Geometry, VarScreenInfo,
    DAMAGE_CLEAN};
use crate::scanout::PixelLayout;

verus! {

/// Every field of a mode has a place of its own in the 160 bytes that user space reads.
pub proof fn law_every_field_of_a_mode_is_in_its_place(v: VarScreenInfo)
    ensures
        ({
            let image = words_image(var_words(v));
            &&& image.len() == 160
            &&& u32_at(image, 0) == v.xres
            &&& u32_at(image, 4) == v.yres
            &&& u32_at(image, 8) == v.xres_virtual
            &&& u32_at(image, 12) == v.yres_virtual
            &&& u32_at(image, 16) == v.xoffset
            &&& u32_at(image, 20) == v.yoffset
            &&& u32_at(image, 24) == v.bits_per_pixel
            &&& u32_at(image, 28) == v.grayscale
            &&& u32_at(image, 32) == v.red.offset
            &&& u32_at(image, 36) == v.red.length
            &&& u32_at(image, 40) == v.red.msb_right
            &&& u32_at(image, 44) == v.green.offset
            &&& u32_at(image, 48) == v.green.length
            &&& u32_at(image, 52) == v.green.msb_right
            &&& u32_at(image, 56) == v.blue.offset
            &&& u32_at(image, 60) == v.blue.length
            &&& u32_at(image, 64) == v.blue.msb_right
            &&& u32_at(image, 68) == v.transp.offset
            &&& u32_at(image, 72) == v.transp.length
            &&& u32_at(image, 76) == v.transp.msb_right
            &&& u32_at(image, 80) == v.nonstd
            &&& u32_at(image, 84) == v.activate
            &&& u32_at(image, 88) == v.height
            &&& u32_at(image, 92) == v.width
            &&& u32_at(image, 96) == v.accel_flags
            &&& u32_at(image, 100) == v.pixclock
            &&& u32_at(image, 104) == v.left_margin
            &&& u32_at(image, 108) == v.right_margin
            &&& u32_at(image, 112) == v.upper_margin
            &&& u32_at(image, 116) == v.lower_margin
            &&& u32_at(image, 120) == v.hsync_len
            &&& u32_at(image, 124) == v.vsync_len
            &&& u32_at(image, 128) == v.sync
            &&& u32_at(image, 132) == v.vmode
            &&& u32_at(image, 136) == v.rotate
            &&& u32_at(image, 140) == v.colorspace
            &&& u32_at(image, 144) == v.reserved@[0]
            &&& u32_at(image, 148) == v.reserved@[1]
            &&& u32_at(image, 152) == v.reserved@[2]
            &&& u32_at(image, 156) == v.reserved@[3]
        }),
{
    let words = var_words(v);
    word_at(words, 0);
    word_at(words, 1);
    word_at(words, 2);
    word_at(words, 3);
    word_at(words, 4);
    word_at(words, 5);
    word_at(words, 6);
    word_at(words, 7);
    word_at(words, 8);
    word_at(words, 9);
    word_at(words, 10);
    word_at(words, 11);
    word_at(words, 12);
    word_at(words, 13);
    word_at(words, 14);
    word_at(words, 15);
    word_at(words, 16);
    word_at(words, 17);
    word_at(words, 18);
    word_at(words, 19);
    word_at(words, 20);
    word_at(words, 21);
    word_at(words, 22);
    word_at(words, 23);
    word_at(words, 24);
    word_at(words, 25);
    word_at(words, 26);
    word_at(words, 27);
    word_at(words, 28);
    word_at(words, 29);
    word_at(words, 30);
    word_at(words, 31);
    word_at(words, 32);
    word_at(words, 33);
    word_at(words, 34);
    word_at(words, 35);
    word_at(words, 36);
    word_at(words, 37);
    word_at(words, 38);
    word_at(words, 39);
}

/// Every field of the fixed description has a place of its own in the 80 bytes that user space
/// reads, and what lies between them is zero.
#[verifier::rlimit(80)]
pub proof fn law_every_fixed_field_is_in_its_place(v: FixScreenInfo)
    ensures
        ({
            let image = fix_image(v);
            &&& image.len() == 80
            &&& image.subrange(0, 16) == v.id@
            &&& u64_at(image, 16) == v.smem_start
            &&& u32_at(image, 24) == v.smem_len
            &&& u32_at(image, 28) == v.type_
            &&& u32_at(image, 32) == v.type_aux
            &&& u32_at(image, 36) == v.visual
            &&& u16_at(image, 40) == v.xpanstep
            &&& u16_at(image, 42) == v.ypanstep
            &&& u16_at(image, 44) == v.ywrapstep
            &&& u32_at(image, 48) == v.line_length
            &&& u64_at(image, 56) == v.mmio_start
            &&& u32_at(image, 64) == v.mmio_len
            &&& u32_at(image, 68) == v.accel
            &&& u16_at(image, 72) == v.capabilities
            &&& u16_at(image, 74) == v.reserved@[0]
            &&& u16_at(image, 76) == v.reserved@[1]
            &&& image[46] == 0 && image[47] == 0
            &&& image[52] == 0 && image[53] == 0 && image[54] == 0 && image[55] == 0
            &&& image[78] == 0 && image[79] == 0
        }),
{
    let image = fix_image(v);
    assert(image.subrange(0, 16) =~= v.id@);
    word64(image, 16, v.smem_start);
    word32(image, 24, v.smem_len);
    word32(image, 28, v.type_);
    word32(image, 32, v.type_aux);
    word32(image, 36, v.visual);
    word16(image, 40, v.xpanstep);
    word16(image, 42, v.ypanstep);
    word16(image, 44, v.ywrapstep);
    word32(image, 48, v.line_length);
    word64(image, 56, v.mmio_start);
    word32(image, 64, v.mmio_len);
    word32(image, 68, v.accel);
    word16(image, 72, v.capabilities);
    word16(image, 74, v.reserved@[0]);
    word16(image, 76, v.reserved@[1]);
}

/// A palette request reads as user space wrote it.
pub proof fn law_a_palette_request_reads_back(cmap: ColorMap)
    ensures
        color_map_at(
            le32(cmap.start) + le32(cmap.len) + le64(cmap.red) + le64(cmap.green) + le64(cmap.blue)
                + le64(cmap.transp),
        ) == cmap,
{
    let image = le32(cmap.start) + le32(cmap.len) + le64(cmap.red) + le64(cmap.green) + le64(
        cmap.blue,
    ) + le64(cmap.transp);
    word32(image, 0, cmap.start);
    word32(image, 4, cmap.len);
    word64(image, 8, cmap.red);
    word64(image, 16, cmap.green);
    word64(image, 24, cmap.blue);
    word64(image, 32, cmap.transp);
}

/// The entries of a channel read as they were written, two bytes each.
pub proof fn law_channel_entries_read_back(values: Seq<u16>)
    ensures
        channel_image(values).len() == 2 * values.len(),
        channel_values(channel_image(values)) == values,
{
    let raw = channel_image(values);
    assert forall|i: int| 0 <= i < values.len() implies u16_at(raw, 2 * i) == #[trigger] values[i] by {
        word16(raw, 2 * i, values[i]);
    }
    assert(channel_values(raw) =~= values);
}

/// A palette entry holds transparency, red, green and blue from its highest byte down, each the
/// high byte of what was set.
pub proof fn law_a_palette_entry_is_four_bytes(red: u16, green: u16, blue: u16, alpha: u8)
    ensures
        palette_entry(red, green, blue, alpha) as int == alpha * 0x100_0000 + (red as int / 256)
            * 0x1_0000 + (green as int / 256) * 0x100 + blue as int / 256,
{
    assert((((alpha as u32) << 24) | (((red >> 8) as u8 as u32) << 16) | (((green
        >> 8) as u8 as u32) << 8) | ((blue >> 8) as u8 as u32)) == alpha as u32 * 0x100_0000 + (red
        / 256) as u32 * 0x1_0000 + (green / 256) as u32 * 0x100 + (blue / 256) as u32)
        by (bit_vector);
}

/// A channel of the palette is read from its own byte of every entry, in order, and that byte
/// stands in both halves of what user space gets.
pub proof fn law_a_palette_channel_is_one_byte_of_each_entry(
    palette: Seq<u32>,
    start: int,
    end: int,
    i: int,
)
    requires
        0 <= start,
        0 <= i,
        start + i < end <= palette.len(),
    ensures
        palette_channel(palette, start, end, 0)[i] == 257 * (palette[start + i] as int % 0x100),
        palette_channel(palette, start, end, 8)[i] == 257 * (palette[start + i] as int / 0x100
            % 0x100),
        palette_channel(palette, start, end, 16)[i] == 257 * (palette[start + i] as int / 0x1_0000
            % 0x100),
        palette_channel(palette, start, end, 24)[i] == 257 * (palette[start + i] as int
            / 0x100_0000),
        palette_channel(palette, start, end, 0).len() == end - start,
{
    let e = palette[start + i];
    assert((e >> 0) as u8 == e % 0x100 && (e >> 8) as u8 == e / 0x100 % 0x100 && (e >> 16) as u8
        == e / 0x1_0000 % 0x100 && (e >> 24) as u8 == e / 0x100_0000) by (bit_vector);
}

/// A palette request is good exactly if its entries lie among the sixteen and it says where all
/// three colours of them are.
pub proof fn law_a_palette_request_stays_inside(cmap: ColorMap, i: int)
    requires
        palette_request_valid(cmap),
        cmap.start <= i < cmap.start + cmap.len,
    ensures
        0 <= i < 16,
        cmap.red != 0 && cmap.green != 0 && cmap.blue != 0,
{
}

/// A mode says of the surface what it is: its size, the place and the width of each colour, and
/// the bits above the colours, which reach to the top of the pixel.
pub proof fn law_a_mode_describes_its_surface(g: Geometry)
    ensures
        ({
            let mode = current_mode(g);
            &&& mode.xres == g.width && mode.xres_virtual == g.width
            &&& mode.yres == g.height && mode.yres_virtual == g.virtual_height
            &&& mode.xoffset == 0 && mode.yoffset == g.yoffset
            &&& mode.bits_per_pixel == g.layout.bits
            &&& mode.red.offset == g.layout.red.position && mode.red.length == g.layout.red.size
            &&& mode.green.offset == g.layout.green.position && mode.green.length
                == g.layout.green.size
            &&& mode.blue.offset == g.layout.blue.position && mode.blue.length == g.layout.blue.size
            &&& mode.red.msb_right == 0 && mode.green.msb_right == 0 && mode.blue.msb_right == 0
            &&& mode.transp.length != 0 ==> {
                &&& mode.transp.offset + mode.transp.length == g.layout.bits
                &&& mode.transp.offset >= g.layout.red.position + g.layout.red.size
                &&& mode.transp.offset >= g.layout.green.position + g.layout.green.size
                &&& mode.transp.offset >= g.layout.blue.position + g.layout.blue.size
            }
            &&& mode.transp.length == 0 ==> g.layout.bits <= g.layout.red.position
                + g.layout.red.size || g.layout.bits <= g.layout.green.position
                + g.layout.green.size || g.layout.bits <= g.layout.blue.position
                + g.layout.blue.size
        }),
{
}

/// The fixed description says how large the surface is and how far its lines are apart, and
/// claims no address, no acceleration and no wrapping.
pub proof fn law_the_fixed_description_is_of_the_surface(size: usize, pitch: u32)
    ensures
        ({
            let fix = surface_fix(size, pitch);
            &&& size <= u32::MAX ==> fix.smem_len == size
            &&& fix.line_length == pitch
            &&& fix.smem_start == 0 && fix.mmio_start == 0 && fix.mmio_len == 0 && fix.accel == 0
            &&& fix.visual == 2 && fix.type_ == 0
            &&& fix.ypanstep == 1 && fix.xpanstep == 0 && fix.ywrapstep == 0
        }),
{
}

/// A read gives every byte of the surface that it asks for and none behind the end; a write takes
/// as many bytes as fit, and is refused where none can.
pub proof fn law_spans_stay_on_the_surface(offset: int, len: int, size: int, at: int)
    requires
        0 <= offset,
        0 <= len,
        0 <= size,
    ensures
        ({
            let (start, count) = span_of_read(offset, len, size);
            &&& 0 <= start && 0 <= count && start + count <= size
            &&& offset <= at < offset + len && at < size <==> start <= at < start + count
        }),
        match span_of_write(offset, len, size) {
            Some((start, count)) => start == offset && (offset <= at < offset + len && at < size
                <==> start <= at < start + count),
            None => offset >= size,
        },
{
}

/// A record that was clean covers exactly the bytes of the surface that were written.
pub proof fn law_a_first_mark_is_exact(start: int, len: int, size: int, at: int)
    requires
        0 <= start,
        0 <= len,
        0 <= size <= u32::MAX,
    ensures
        damage_covers(damage_after(DAMAGE_CLEAN, start, len, size), at) <==> start <= at < start
            + len && at < size,
{
    let end = if start + len < size {
        start + len
    } else {
        size
    };
    if len != 0 && start < size {
        damage_word_parts(start as u64, end as u64);
    }
}

/// A record that joins two writes covers nothing in front of both and nothing behind both.
pub proof fn law_joined_marks_stay_between(
    first: int,
    first_len: int,
    second: int,
    second_len: int,
    size: int,
    at: int,
)
    requires
        0 <= first,
        0 < first_len,
        first < size,
        0 <= second,
        0 < second_len,
        second < size,
        size <= u32::MAX,
    ensures
        damage_covers(
            damage_after(damage_after(DAMAGE_CLEAN, first, first_len, size), second, second_len, size),
            at,
        ) <==> (first <= at || second <= at) && (at < first + first_len || at < second + second_len)
            && at < size,
{
    let e1 = if first + first_len < size {
        first + first_len
    } else {
        size
    };
    let e2 = if second + second_len < size {
        second + second_len
    } else {
        size
    };
    let low = if first < second {
        first
    } else {
        second
    };
    let high = if e1 > e2 {
        e1
    } else {
        e2
    };
    damage_word_parts(first as u64, e1 as u64);
    damage_word_parts(low as u64, high as u64);
}

/// The command numbers are those of the framebuffer interface, and a display is blanked for every
/// known level but the first.
pub proof fn law_commands_have_their_numbers(arg: usize)
    ensures
        fb_ioctl(0x4600, arg) == Ok::<FbIoctl, Error>(FbIoctl::GetVar),
        fb_ioctl(0x4601, arg) == Ok::<FbIoctl, Error>(FbIoctl::PutVar),
        fb_ioctl(0x4602, arg) == Ok::<FbIoctl, Error>(FbIoctl::GetFix),
        fb_ioctl(0x4604, arg) == Ok::<FbIoctl, Error>(FbIoctl::GetCmap),
        fb_ioctl(0x4605, arg) == Ok::<FbIoctl, Error>(FbIoctl::PutCmap),
        fb_ioctl(0x4606, arg) == Ok::<FbIoctl, Error>(FbIoctl::Pan),
        fb_ioctl(0x4611, 0) == Ok::<FbIoctl, Error>(FbIoctl::Blank(false)),
        1 <= arg <= 4 ==> fb_ioctl(0x4611, arg) == Ok::<FbIoctl, Error>(FbIoctl::Blank(true)),
        arg > 4 ==> fb_ioctl(0x4611, arg) == Err::<FbIoctl, Error>(Error::OperationNotSupported),
{
}

impl FbconFrame {
    /// The frame's scan lines hold their pixels one behind the other, so that none overlap.
    pub open spec fn linear(self, layout: PixelLayout) -> bool {
        &&& layout.encodable()
        &&& self.bytes_per_pixel == layout.depth()
        &&& self.width * self.bytes_per_pixel <= self.pitch
    }

    /// Whether the pixel `(x, y)` lies inside the frame and inside a surface of `len` bytes.
    pub open spec fn shows(self, x: int, y: int, len: int) -> bool {
        &&& 0 <= x < self.width
        &&& 0 <= y < self.height
        &&& self.holds(x, y)
        &&& self.offset(x, y) + self.bytes_per_pixel <= len
    }

    /// The bytes of the pixel `(x, y)`.
    pub open spec fn pixel(self, surface: Seq<u8>, x: int, y: int) -> Seq<u8> {
        surface.subrange(self.offset(x, y), self.offset(x, y) + self.bytes_per_pixel)
    }
}

proof fn frame_pixel_in_line(frame: FbconFrame, layout: PixelLayout, x: int, y: int)
    requires
        frame.linear(layout),
        0 <= x < frame.width,
        0 <= y < frame.height,
    ensures
        0 <= y * frame.pitch,
        0 <= x * frame.bytes_per_pixel,
        x * frame.bytes_per_pixel + frame.bytes_per_pixel <= frame.pitch,
        0 <= frame.offset(x, y),
{
    let depth = frame.bytes_per_pixel as int;
    let pitch = frame.pitch as int;
    let width = frame.width as int;
    assert(0 <= y * pitch) by (nonlinear_arith)
        requires
            0 <= y,
            0 <= pitch,
    ;
    assert(0 <= x * depth) by (nonlinear_arith)
        requires
            0 <= x,
            0 <= depth,
    ;
    assert(x * depth + depth <= width * depth) by (nonlinear_arith)
        requires
            x + 1 <= width,
            0 <= depth,
    ;
}

/// Writing one pixel of a frame changes that pixel and no other.
pub proof fn law_a_console_pixel_is_local(
    frame: FbconFrame,
    layout: PixelLayout,
    surface: Seq<u8>,
    x: int,
    y: int,
    color: u32,
    u: int,
    v: int,
)
    requires
        frame.linear(layout),
        0 <= x < frame.width,
        0 <= y < frame.height,
        frame.shows(u, v, surface.len() as int),
    ensures
        frame.pixel_written(layout, surface, x, y, color).len() == surface.len(),
        frame.pixel(frame.pixel_written(layout, surface, x, y, color), u, v) == (if (u, v) == (x, y) {
            layout.pattern(color)
        } else {
            frame.pixel(surface, u, v)
        }),
{
    let depth = frame.bytes_per_pixel as int;
    let pitch = frame.pitch as int;
    frame_pixel_in_line(frame, layout, x, y);
    frame_pixel_in_line(frame, layout, u, v);
    let after = frame.pixel_written(layout, surface, x, y, color);
    assert(after == splice(surface, frame.offset(x, y), layout.pattern(color)) || after == surface);
    if (u, v) == (x, y) {
        assert(frame.pixel(after, u, v) =~= layout.pattern(color));
    } else {
        if y < v {
            assert(y * pitch + pitch <= v * pitch) by (nonlinear_arith)
                requires
                    y + 1 <= v,
                    0 <= pitch,
            ;
        } else if v < y {
            assert(v * pitch + pitch <= y * pitch) by (nonlinear_arith)
                requires
                    v + 1 <= y,
                    0 <= pitch,
            ;
        } else if x < u {
            assert(x * depth + depth <= u * depth) by (nonlinear_arith)
                requires
                    x + 1 <= u,
                    0 <= depth,
            ;
        } else {
            assert(u * depth + depth <= x * depth) by (nonlinear_arith)
                requires
                    u + 1 <= x,
                    0 <= depth,
            ;
        }
        assert(frame.pixel(after, u, v) =~= frame.pixel(surface, u, v));
    }
}

proof fn glyph_shows(
    frame: FbconFrame,
    layout: PixelLayout,
    surface: Seq<u8>,
    x: int,
    y: int,
    byte: u8,
    count: nat,
    u: int,
    v: int,
)
    requires
        frame.linear(layout),
        0 <= x,
        0 <= y,
        count <= 128,
        frame.shows(u, v, surface.len() as int),
    ensures
        frame.glyph_pixels(layout, surface, x, y, byte, count).len() == surface.len(),
        frame.pixel(frame.glyph_pixels(layout, surface, x, y, byte, count), u, v) == (if x <= u < x
            + 8 && y <= v < y + 16 && (v - y) * 8 + (u - x) < count {
            layout.pattern(
                if pixel_lit(cell_row(byte, v - y), (u - x) as u8) {
                    0x00d0_d0d0
                } else {
                    0
                },
            )
        } else {
            frame.pixel(surface, u, v)
        }),
    decreases count,
{
    if count > 0 {
        let less = (count - 1) as nat;
        glyph_shows(frame, layout, surface, x, y, byte, less, u, v);
        let before = frame.glyph_pixels(layout, surface, x, y, byte, less);
        let dx = less as int % 8;
        let dy = less as int / 8;
        if x + dx < frame.width && y + dy < frame.height {
            let color: u32 = if pixel_lit(cell_row(byte, dy), dx as u8) {
                0x00d0_d0d0
            } else {
                0
            };
            law_a_console_pixel_is_local(frame, layout, before, x + dx, y + dy, color, u, v);
        }
    }
}

/// A character of the console shows its glyph: pixel `dx` of row `dy`, counted from the left and
/// from the top, has the ink where bit `7 - dx` of that row is set, and is black where it is not.
/// No pixel outside the character changes.
pub proof fn law_a_console_character_shows_its_glyph(
    frame: FbconFrame,
    layout: PixelLayout,
    surface: Seq<u8>,
    x: int,
    y: int,
    byte: u8,
    u: int,
    v: int,
)
    requires
        frame.linear(layout),
        0 <= x,
        0 <= y,
        frame.shows(u, v, surface.len() as int),
    ensures
        ({
            let after = frame.glyph_pixels(layout, surface, x, y, byte, 128);
            let dx = (u - x) as u8;
            let dy = v - y;
            &&& after.len() == surface.len()
            &&& x <= u < x + 8 && y <= v < y + 16 && (cell_row(byte, dy) >> ((7 - dx) as u8)) % 2 == 1
                ==> frame.pixel(after, u, v) == layout.pattern(0x00d0_d0d0)
            &&& x <= u < x + 8 && y <= v < y + 16 && (cell_row(byte, dy) >> ((7 - dx) as u8)) % 2 == 0
                ==> frame.pixel(after, u, v) == layout.pattern(0)
            &&& !(x <= u < x + 8 && y <= v < y + 16) ==> frame.pixel(after, u, v) == frame.pixel(
                surface,
                u,
                v,
            )
        }),
{
    glyph_shows(frame, layout, surface, x, y, byte, 128, u, v);
    if x <= u < x + 8 && y <= v < y + 16 {
        law_the_top_bit_is_the_leftmost_pixel(cell_row(byte, v - y), (u - x) as u8);
    }
}

proof fn clear_shows(
    frame: FbconFrame,
    layout: PixelLayout,
    surface: Seq<u8>,
    color: u32,
    count: nat,
    u: int,
    v: int,
)
    requires
        frame.linear(layout),
        count <= frame.width * frame.height,
        frame.shows(u, v, surface.len() as int),
    ensures
        frame.cleared(layout, surface, color, count).len() == surface.len(),
        frame.pixel(frame.cleared(layout, surface, color, count), u, v) == (if v * frame.width + u
            < count {
            layout.pattern(color)
        } else {
            frame.pixel(surface, u, v)
        }),
    decreases count,
{
    assert(0 <= v * frame.width) by (nonlinear_arith)
        requires
            0 <= v,
            0 <= frame.width,
    ;
    if count > 0 {
        let less = (count - 1) as nat;
        clear_shows(frame, layout, surface, color, less, u, v);
        let before = frame.cleared(layout, surface, color, less);
        let width = frame.width as int;
        let height = frame.height as int;
        let x = less as int % width;
        let y = less as int / width;
        vstd::arithmetic::div_mod::lemma_fundamental_div_mod(less as int, width);
        assert(0 <= x < width && 0 <= y < height) by (nonlinear_arith)
            requires
                0 < width,
                0 <= less,
                less < width * height,
                x == less as int % width,
                y == less as int / width,
        ;
        assert(width * y == y * width) by (nonlinear_arith);
        if (u, v) == (x, y) {
        } else if v * width + u == less {
            vstd::arithmetic::div_mod::lemma_fundamental_div_mod_converse(less as int, width, v, u);
        }
        law_a_console_pixel_is_local(frame, layout, before, x, y, color, u, v);
    }
}

/// Clearing a frame gives every one of its pixels the colour.
pub proof fn law_a_cleared_frame_has_one_colour(
    frame: FbconFrame,
    layout: PixelLayout,
    surface: Seq<u8>,
    color: u32,
    u: int,
    v: int,
)
    requires
        frame.linear(layout),
        frame.shows(u, v, surface.len() as int),
    ensures
        ({
            let after = frame.cleared(layout, surface, color, (frame.width * frame.height) as nat);
            &&& after.len() == surface.len()
            &&& frame.pixel(after, u, v) == layout.pattern(color)
        }),
{
    let width = frame.width as int;
    let height = frame.height as int;
    assert(v * width + u < width * height) by (nonlinear_arith)
        requires
            0 <= u < width,
            0 <= v,
            v + 1 <= height,
    ;
    clear_shows(frame, layout, surface, color, (frame.width * frame.height) as nat, u, v);
}

/// The sixteen colours: the lowest three bits of a number are red, green and blue, the fourth is
/// brightness, and the dark yellow is brown.
pub proof fn law_the_sixteen_colours(i: int)
    requires
        0 <= i < 16,
    ensures
        default_palette().len() == 16,
        ({
            let bright = 85 * (i / 8);
            let red = 170 * (i % 2) + bright;
            let green = if i == 3 {
                85
            } else {
                170 * ((i / 2) % 2) + bright
            };
            let blue = 170 * ((i / 4) % 2) + bright;
            default_palette()[i] == 0xff00_0000 + 0x1_0000 * red + 0x100 * green + blue
        }),
{
}

/// An entry is opaque where no transparency is given, and has else the high byte of what is.
pub proof fn law_an_entry_is_opaque_by_itself(values: Vec<u16>, i: int)
    ensures
        entry_alpha(None, i) == 255,
        entry_alpha(Some(values), i) as int == values@[i] as int / 256,
{
    let value = values@[i];
    assert((value >> 8) as u8 == value / 256) by (bit_vector);
}

/// A component is in both bytes of its wide form, so that nothing stays nothing and full stays
/// full.
pub proof fn law_a_wide_component_has_it_twice(value: u8)
    ensures
        widened(value) / 256 == value,
        widened(value) % 256 == value,
        0 <= widened(value) <= 65535,
{
}

/// Whether a word is a record of damage: of none, of all, or of a stretch.
pub open spec fn is_record(state: u64) -> bool {
    state == 0 || state == u64::MAX || (state >> 32) < (state as u32)
}

/// What was written is presented: while presentation is allowed a write makes the display owe the
/// bytes that it changed and announces them; what is taken for a presentation that fails is owed
/// again, with everything else.
pub proof fn law_a_write_is_presented(core: DisplayCore, offset: int, len: int, at: int)
    requires
        0 <= offset <= at < offset + len,
        at < core.size,
        core.refresh_enabled,
        is_record(core.damage.state),
    ensures
        ({
            let then = core.written(offset, len);
            &&& damage_covers(then.damage.state, at)
            &&& then.presents()
            &&& then.pending
            &&& !then.wakes()
            &&& core.wakes() == !core.pending
            &&& then.presenting().damage.state == 0
            &&& !then.presenting().presents()
            &&& damage_covers(then.presenting().concluded(false).damage.state, at)
            &&& then.presenting().concluded(false).presents()
            &&& then.presenting().concluded(true) == then.presenting()
            &&& then.size == core.size
        }),
{
    law_marking_never_loses_damage(core.damage.state, offset, len, core.size as int, at);
}

/// While presentation is suspended nothing is presented and nobody is woken, but what is written is
/// remembered; afterwards everything is presented anew.
pub proof fn law_a_suspended_display_waits(core: DisplayCore, offset: int, len: int, at: int)
    requires
        0 <= offset <= at < offset + len,
        at < core.size,
        is_record(core.damage.state),
    ensures
        ({
            let then = core.suspended().written(offset, len);
            &&& !then.presents()
            &&& !then.pending
            &&& !core.suspended().wakes()
            &&& damage_covers(then.damage.state, at)
            &&& then.presenting() == then
            &&& then.resumed().presents()
            &&& then.resumed().pending
            &&& damage_covers(then.resumed().damage.state, at)
            &&& core.suspended().damage == core.damage
        }),
{
    law_marking_never_loses_damage(core.damage.state, offset, len, core.size as int, at);
}

} // verus!
