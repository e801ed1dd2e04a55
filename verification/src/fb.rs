//! The framebuffer device: its user-visible descriptions, its damage record and
//! the console that draws into it.

pub mod laws;

use vstd::prelude::*;
use vstd::utf8::encode_utf8;
use core::ops::Range;
use crate::bootfb::{copy_into, splice};
use crate::bytes::{get_u16, get_u32, get_u64, law_u32_round_trip, le16, le32, le64, push_u16, put_u16,
    put_u32, put_u64, u16_at, u32_at, u64_at};
use crate::console_font::{cell_row, glyph, glyph_row, has_glyph, pixel_lit};
use crate::error::Error;
use crate::registration::{attribute_views, text, DeviceAttribute, Registration, RegistrationView};
use crate::scanout::{ColorChannel, PixelLayout};

verus! {

/// The bits of a pixel that one component occupies, as user space sees them.
#[derive(Clone, Copy, Debug, Default, PartialEq, Eq, Structural)]
pub struct FrameBufferBitfield {
    /// The beginning of bitfield.
    pub offset: u32,
    /// The length of bitfield.
    pub length: u32,
    /// Most significant bit is right(!= 0).
    pub msb_right: u32,
}

/// The mode of the device, as user space sees it.
#[derive(Clone, Copy, Debug)]
pub struct VarScreenInfo {
    pub xres: u32,
    pub yres: u32,
    pub xres_virtual: u32,
    pub yres_virtual: u32,
    pub xoffset: u32,
    pub yoffset: u32,
    pub bits_per_pixel: u32,
    /// 0 = colour, 1 = grayscale, above = a format code.
    pub grayscale: u32,
    pub red: FrameBufferBitfield,
    pub green: FrameBufferBitfield,
    pub blue: FrameBufferBitfield,
    pub transp: FrameBufferBitfield,
    pub nonstd: u32,
    pub activate: u32,
    /// Height of picture in mm.
    pub height: u32,
    /// Width of picture in mm.
    pub width: u32,
    pub accel_flags: u32,
    /// Pixel clock in picoseconds.
    pub pixclock: u32,
    pub left_margin: u32,
    pub right_margin: u32,
    pub upper_margin: u32,
    pub lower_margin: u32,
    pub hsync_len: u32,
    pub vsync_len: u32,
    pub sync: u32,
    pub vmode: u32,
    pub rotate: u32,
    pub colorspace: u32,
    pub reserved: [u32; 4],
}

/// What does not change with the mode.
#[derive(Clone, Copy, Debug)]
pub struct FixScreenInfo {
    pub id: [u8; 16],
    pub smem_start: u64,
    pub smem_len: u32,
    pub type_: u32,
    pub type_aux: u32,
    pub visual: u32,
    pub xpanstep: u16,
    pub ypanstep: u16,
    pub ywrapstep: u16,
    pub line_length: u32,
    pub mmio_start: u64,
    pub mmio_len: u32,
    pub accel: u32,
    pub capabilities: u16,
    pub reserved: [u16; 2],
}

/// The 32-bit words of a mode's image, in order.
pub open spec fn var_words(v: VarScreenInfo) -> Seq<u32> {
    seq![
        v.xres,
        v.yres,
        v.xres_virtual,
        v.yres_virtual,
        v.xoffset,
        v.yoffset,
        v.bits_per_pixel,
        v.grayscale,
        v.red.offset,
        v.red.length,
        v.red.msb_right,
        v.green.offset,
        v.green.length,
        v.green.msb_right,
        v.blue.offset,
        v.blue.length,
        v.blue.msb_right,
        v.transp.offset,
        v.transp.length,
        v.transp.msb_right,
        v.nonstd,
        v.activate,
        v.height,
        v.width,
        v.accel_flags,
        v.pixclock,
        v.left_margin,
        v.right_margin,
        v.upper_margin,
        v.lower_margin,
        v.hsync_len,
        v.vsync_len,
        v.sync,
        v.vmode,
        v.rotate,
        v.colorspace,
        v.reserved@[0],
        v.reserved@[1],
        v.reserved@[2],
        v.reserved@[3],
    ]
}

/// The byte image of a list of words.
pub open spec fn words_image(words: Seq<u32>) -> Seq<u8> {
    Seq::new((4 * words.len()) as nat, |i: int| le32(words[i / 4])[i % 4])
}

/// The 160 bytes that user space reads for a mode.
pub fn var_screen_info_to_user_bytes(v: VarScreenInfo) -> (bytes: [u8; 160])
    ensures
        bytes@ == words_image(var_words(v)),
{
    let words: [u32; 40] = [
        v.xres,
        v.yres,
        v.xres_virtual,
        v.yres_virtual,
        v.xoffset,
        v.yoffset,
        v.bits_per_pixel,
        v.grayscale,
        v.red.offset,
        v.red.length,
        v.red.msb_right,
        v.green.offset,
        v.green.length,
        v.green.msb_right,
        v.blue.offset,
        v.blue.length,
        v.blue.msb_right,
        v.transp.offset,
        v.transp.length,
        v.transp.msb_right,
        v.nonstd,
        v.activate,
        v.height,
        v.width,
        v.accel_flags,
        v.pixclock,
        v.left_margin,
        v.right_margin,
        v.upper_margin,
        v.lower_margin,
        v.hsync_len,
        v.vsync_len,
        v.sync,
        v.vmode,
        v.rotate,
        v.colorspace,
        v.reserved[0],
        v.reserved[1],
        v.reserved[2],
        v.reserved[3],
    ];
    assert(words@ =~= var_words(v));
    let mut bytes: [u8; 160] = [0;160];
    let mut index: usize = 0;
    while index < 40
        invariant
            index <= 40,
            words@ == var_words(v),
            words@.len() == 40,
            forall|i: int| 0 <= i < 4 * index ==> #[trigger] bytes@[i] == le32(words@[i / 4])[i % 4],
        decreases 40 - index,
    {
        let ghost before = bytes@;
        put_u32(&mut bytes, 4 * index, words[index]);
        assert forall|i: int| 0 <= i < 4 * (index + 1) implies #[trigger] bytes@[i] == le32(
            words@[i / 4],
        )[i % 4] by {
            if i < 4 * index {
                assert(bytes@[i] == before[i]);
            }
        }
        index = index + 1;
    }
    assert(bytes@ =~= words_image(var_words(v)));
    bytes
}

/// The 80 bytes of the fixed description: every field at its own place, and
/// zeroes between and after them.
pub open spec fn fix_image(v: FixScreenInfo) -> Seq<u8> {
    let zero = Seq::new(80, |i: int| 0u8);
    let a = splice(zero, 0, v.id@);
    let b = splice(a, 16, le64(v.smem_start));
    let c = splice(b, 24, le32(v.smem_len));
    let d = splice(c, 28, le32(v.type_));
    let e = splice(d, 32, le32(v.type_aux));
    let f = splice(e, 36, le32(v.visual));
    let g = splice(f, 40, le16(v.xpanstep));
    let h = splice(g, 42, le16(v.ypanstep));
    let i = splice(h, 44, le16(v.ywrapstep));
    let j = splice(i, 48, le32(v.line_length));
    let k = splice(j, 56, le64(v.mmio_start));
    let l = splice(k, 64, le32(v.mmio_len));
    let m = splice(l, 68, le32(v.accel));
    let n = splice(m, 72, le16(v.capabilities));
    let o = splice(n, 74, le16(v.reserved@[0]));
    splice(o, 76, le16(v.reserved@[1]))
}

/// The 80 bytes that user space reads for the fixed description.
pub fn fix_screen_info_to_user_bytes(v: FixScreenInfo) -> (bytes: [u8; 80])
    ensures
        bytes@ == fix_image(v),
{
    let mut bytes: [u8; 80] = [0;80];
    assert(bytes@ =~= Seq::new(80, |i: int| 0u8));
    copy_into(&mut bytes, 0, v.id.as_slice());
    put_u64(&mut bytes, 16, v.smem_start);
    put_u32(&mut bytes, 24, v.smem_len);
    put_u32(&mut bytes, 28, v.type_);
    put_u32(&mut bytes, 32, v.type_aux);
    put_u32(&mut bytes, 36, v.visual);
    put_u16(&mut bytes, 40, v.xpanstep);
    put_u16(&mut bytes, 42, v.ypanstep);
    put_u16(&mut bytes, 44, v.ywrapstep);
    put_u32(&mut bytes, 48, v.line_length);
    put_u64(&mut bytes, 56, v.mmio_start);
    put_u32(&mut bytes, 64, v.mmio_len);
    put_u32(&mut bytes, 68, v.accel);
    put_u16(&mut bytes, 72, v.capabilities);
    put_u16(&mut bytes, 74, v.reserved[0]);
    put_u16(&mut bytes, 76, v.reserved[1]);
    bytes
}

/// The part of a mode that a client may ask for.
#[derive(Clone, Copy, Debug, PartialEq, Eq, Structural)]
pub struct RequestedVarScreenInfo {
    pub xres: u32,
    pub yres: u32,
    pub xres_virtual: u32,
    pub yres_virtual: u32,
    pub xoffset: u32,
    pub yoffset: u32,
    pub bits_per_pixel: u32,
    pub grayscale: u32,
    pub nonstd: u32,
    pub rotate: u32,
}

/// What a mode's image asks for.
pub open spec fn requested(image: Seq<u8>) -> RequestedVarScreenInfo {
    RequestedVarScreenInfo {
        xres: u32_at(image, 0),
        yres: u32_at(image, 4),
        xres_virtual: u32_at(image, 8),
        yres_virtual: u32_at(image, 12),
        xoffset: u32_at(image, 16),
        yoffset: u32_at(image, 20),
        bits_per_pixel: u32_at(image, 24),
        grayscale: u32_at(image, 28),
        nonstd: u32_at(image, 80),
        rotate: u32_at(image, 136),
    }
}

pub fn var_screen_info_from_user_bytes(bytes: &[u8; 160]) -> (request: RequestedVarScreenInfo)
    ensures
        request == requested(bytes@),
{
    let bytes: &[u8] = bytes.as_slice();
    RequestedVarScreenInfo {
        xres: get_u32(bytes, 0),
        yres: get_u32(bytes, 4),
        xres_virtual: get_u32(bytes, 8),
        yres_virtual: get_u32(bytes, 12),
        xoffset: get_u32(bytes, 16),
        yoffset: get_u32(bytes, 20),
        bits_per_pixel: get_u32(bytes, 24),
        grayscale: get_u32(bytes, 28),
        nonstd: get_u32(bytes, 80),
        rotate: get_u32(bytes, 136),
    }
}

/// The request that repeats a mode.
pub open spec fn request_of(v: VarScreenInfo) -> RequestedVarScreenInfo {
    RequestedVarScreenInfo {
        xres: v.xres,
        yres: v.yres,
        xres_virtual: v.xres_virtual,
        yres_virtual: v.yres_virtual,
        xoffset: v.xoffset,
        yoffset: v.yoffset,
        bits_per_pixel: v.bits_per_pixel,
        grayscale: v.grayscale,
        nonstd: v.nonstd,
        rotate: v.rotate,
    }
}

proof fn word_at(words: Seq<u32>, k: int)
    requires
        0 <= k < words.len(),
    ensures
        u32_at(words_image(words), 4 * k) == words[k],
{
    let image = words_image(words);
    assert(image.subrange(4 * k, 4 * k + 4) =~= le32(words[k]));
    law_u32_round_trip(image, 4 * k, words[k]);
}

/// A mode that a client read and hands back asks for that very mode.
pub proof fn law_a_mode_read_back_is_requested(v: VarScreenInfo)
    ensures
        requested(words_image(var_words(v))) == request_of(v),
{
    let words = var_words(v);
    word_at(words, 0);
    word_at(words, 1);
    word_at(words, 2);
    word_at(words, 3);
    word_at(words, 4);
    word_at(words, 5);
    word_at(words, 6);
    word_at(words, 7);
    word_at(words, 20);
    word_at(words, 34);
}

/// Translate one surface channel into the framebuffer bitfield form.
pub fn color_bitfield(channel: ColorChannel) -> (field: FrameBufferBitfield)
    ensures
        field == bitfield(channel),
{
    FrameBufferBitfield {
        offset: channel.position as u32,
        length: channel.size as u32,
        msb_right: 0,
    }
}

pub open spec fn bitfield(channel: ColorChannel) -> FrameBufferBitfield {
    FrameBufferBitfield {
        offset: channel.position as u32,
        length: channel.size as u32,
        msb_right: 0,
    }
}

/// What the platform says of the surface that is scanned out.
#[derive(Clone, Copy, Debug)]
pub struct Geometry {
    pub width: u32,
    pub height: u32,
    pub pitch: u32,
    pub virtual_height: u32,
    pub yoffset: u32,
    pub layout: PixelLayout,
}

/// The field above the colours, or an empty field where they fill the pixel.
pub open spec fn transparency(layout: PixelLayout) -> FrameBufferBitfield {
    if layout.colour_end() < layout.bits {
        FrameBufferBitfield {
            offset: layout.colour_end() as u32,
            length: (layout.bits - layout.colour_end()) as u32,
            msb_right: 0,
        }
    } else {
        FrameBufferBitfield { offset: 0, length: 0, msb_right: 0 }
    }
}

/// The current mode: the surface's own geometry and layout, and no fabricated
/// timing.
pub open spec fn current_mode(g: Geometry) -> VarScreenInfo {
    VarScreenInfo {
        xres: g.width,
        yres: g.height,
        xres_virtual: g.width,
        yres_virtual: g.virtual_height,
        xoffset: 0,
        yoffset: g.yoffset,
        bits_per_pixel: g.layout.bits as u32,
        grayscale: 0,
        red: bitfield(g.layout.red),
        green: bitfield(g.layout.green),
        blue: bitfield(g.layout.blue),
        transp: transparency(g.layout),
        nonstd: 0,
        activate: 0,
        height: 0,
        width: 0,
        accel_flags: 0,
        pixclock: 0,
        left_margin: 0,
        right_margin: 0,
        upper_margin: 0,
        lower_margin: 0,
        hsync_len: 0,
        vsync_len: 0,
        sync: 0,
        vmode: 0,
        rotate: 0,
        colorspace: 0,
        reserved: [0, 0, 0, 0],
    }
}

/// Describe the surface's own layout rather than a fixed one: calling a 16-bit
/// mode 32 bits deep would make every client render noise.
pub fn current_var_screen_info(g: &Geometry) -> (v: VarScreenInfo)
    ensures
        v == current_mode(*g),
{
    let transp = match g.layout.spare_field() {
        Some(channel) => color_bitfield(channel),
        None => FrameBufferBitfield { offset: 0, length: 0, msb_right: 0 },
    };
    VarScreenInfo {
        xres: g.width,
        yres: g.height,
        xres_virtual: g.width,
        yres_virtual: g.virtual_height,
        xoffset: 0,
        yoffset: g.yoffset,
        bits_per_pixel: g.layout.bits as u32,
        grayscale: 0,
        red: color_bitfield(g.layout.red),
        green: color_bitfield(g.layout.green),
        blue: color_bitfield(g.layout.blue),
        transp,
        nonstd: 0,
        activate: 0,
        height: 0,
        width: 0,
        accel_flags: 0,
        pixclock: 0,
        left_margin: 0,
        right_margin: 0,
        upper_margin: 0,
        lower_margin: 0,
        hsync_len: 0,
        vsync_len: 0,
        sync: 0,
        vmode: 0,
        rotate: 0,
        colorspace: 0,
        reserved: [0, 0, 0, 0],
    }
}

/// Whether a request keeps everything but the pan offset.
pub open spec fn keeps_mode(r: RequestedVarScreenInfo, current: VarScreenInfo) -> bool {
    &&& r.xres == current.xres
    &&& r.yres == current.yres
    &&& r.xres_virtual == current.xres_virtual
    &&& r.yres_virtual == current.yres_virtual
    &&& r.bits_per_pixel == current.bits_per_pixel
    &&& r.grayscale == 0
    &&& r.nonstd == 0
    &&& r.rotate == 0
}

pub fn fixed_mode_matches(request: RequestedVarScreenInfo, current: VarScreenInfo) -> (matches: bool)
    ensures
        matches == (keeps_mode(request, current) && request.xoffset == current.xoffset
            && request.yoffset == current.yoffset),
{
    request.xres == current.xres && request.yres == current.yres && request.xres_virtual
        == current.xres_virtual && request.yres_virtual == current.yres_virtual && request.xoffset
        == current.xoffset && request.yoffset == current.yoffset && request.bits_per_pixel
        == current.bits_per_pixel && request.grayscale == 0 && request.nonstd == 0 && request.rotate
        == 0
}

pub fn pan_mode_matches(request: &RequestedVarScreenInfo, current: VarScreenInfo) -> (matches: bool)
    ensures
        matches == keeps_mode(*request, current),
{
    request.xres == current.xres && request.yres == current.yres && request.xres_virtual
        == current.xres_virtual && request.yres_virtual == current.yres_virtual
        && request.bits_per_pixel == current.bits_per_pixel && request.grayscale == 0
        && request.nonstd == 0 && request.rotate == 0
}

/// A client may always set the mode that it read.
pub proof fn law_the_current_mode_can_be_set(g: Geometry)
    ensures
        keeps_mode(requested(words_image(var_words(current_mode(g)))), current_mode(g)),
        requested(words_image(var_words(current_mode(g)))).xoffset == current_mode(g).xoffset,
        requested(words_image(var_words(current_mode(g)))).yoffset == current_mode(g).yoffset,
{
    law_a_mode_read_back_is_requested(current_mode(g));
}

/// The fixed description of a surface of `size` bytes and `pitch` bytes a line.
///
/// No linear physical base is reported: the memory behind the surface need not
/// be contiguous.
pub open spec fn surface_fix(size: usize, pitch: u32) -> FixScreenInfo {
    FixScreenInfo {
        id: [68, 82, 77, 32, 102, 98, 100, 101, 118, 0, 0, 0, 0, 0, 0, 0],
        smem_start: 0,
        smem_len: size as u32,
        type_: 0,
        type_aux: 0,
        visual: 2,
        xpanstep: 0,
        ypanstep: 1,
        ywrapstep: 0,
        line_length: pitch,
        mmio_start: 0,
        mmio_len: 0,
        accel: 0,
        capabilities: 0,
        reserved: [0, 0],
    }
}

pub fn fix_screen_info(size: usize, pitch: u32) -> (v: FixScreenInfo)
    ensures
        v == surface_fix(size, pitch),
{
    FixScreenInfo {
        // "DRM fbdev"
        id: [68, 82, 77, 32, 102, 98, 100, 101, 118, 0, 0, 0, 0, 0, 0, 0],
        smem_start: 0,
        smem_len: #[verifier::truncate]
        (size as u32),
        type_: 0,
        type_aux: 0,
        visual: 2,
        xpanstep: 0,
        ypanstep: 1,
        ywrapstep: 0,
        line_length: pitch,
        mmio_start: 0,
        mmio_len: 0,
        accel: 0,
        capabilities: 0,
        reserved: [0, 0],
    }
}

/// A request on the palette: the entries it names and where its channels are in
/// user memory.  Truecolour devices use this only for their 16-entry software
/// palette; it is never advertised as a hardware table.
#[derive(Clone, Copy, Debug, PartialEq, Eq, Structural)]
pub struct ColorMap {
    pub start: u32,
    pub len: u32,
    pub red: u64,
    pub green: u64,
    pub blue: u64,
    pub transp: u64,
}

/// The request that an image holds.
pub open spec fn color_map_at(image: Seq<u8>) -> ColorMap {
    ColorMap {
        start: u32_at(image, 0),
        len: u32_at(image, 4),
        red: u64_at(image, 8),
        green: u64_at(image, 16),
        blue: u64_at(image, 24),
        transp: u64_at(image, 32),
    }
}

pub fn color_map_from_user_bytes(bytes: &[u8; 40]) -> (cmap: ColorMap)
    ensures
        cmap == color_map_at(bytes@),
{
    let bytes: &[u8] = bytes.as_slice();
    ColorMap {
        start: get_u32(bytes, 0),
        len: get_u32(bytes, 4),
        red: get_u64(bytes, 8),
        green: get_u64(bytes, 16),
        blue: get_u64(bytes, 24),
        transp: get_u64(bytes, 32),
    }
}

/// Whether a palette request names entries that exist and has the channels for
/// them.
pub open spec fn palette_request_valid(cmap: ColorMap) -> bool {
    &&& cmap.start + cmap.len <= 16
    &&& cmap.len != 0 ==> cmap.red != 0 && cmap.green != 0 && cmap.blue != 0
}

/// The entries that a palette request names.
pub fn pseudo_palette_range(cmap: ColorMap) -> (range: Result<Range<usize>, Error>)
    ensures
        range is Ok <==> palette_request_valid(cmap),
        range matches Ok(r) ==> r.start == cmap.start && r.end == cmap.start + cmap.len,
        range matches Err(error) ==> error == Error::InvalidInput,
{
    let end: u64 = cmap.start as u64 + cmap.len as u64;
    if end > 16 || (cmap.len != 0 && (cmap.red == 0 || cmap.green == 0 || cmap.blue == 0)) {
        return Err(Error::InvalidInput);
    }
    Ok(cmap.start as usize..end as usize)
}

/// Where a channel of `len` entries is read from, and how many bytes it has.
pub fn cmap_channel_source(pointer: u64, len: usize) -> (source: Result<(usize, usize), Error>)
    requires
        len <= 16,
    ensures
        source is Ok <==> pointer != 0 && pointer <= usize::MAX,
        source matches Ok(s) ==> s.0 == pointer && s.1 == 2 * len,
        source matches Err(error) ==> error == Error::InvalidInput,
{
    if pointer == 0 || pointer > usize::MAX as u64 {
        return Err(Error::InvalidInput);
    }
    Ok((pointer as usize, 2 * len))
}

/// The entries of a channel's byte image.
pub open spec fn channel_values(raw: Seq<u8>) -> Seq<u16> {
    Seq::new((raw.len() / 2) as nat, |i: int| u16_at(raw, 2 * i))
}

/// The byte image of a channel.
pub open spec fn channel_image(values: Seq<u16>) -> Seq<u8> {
    Seq::new((2 * values.len()) as nat, |i: int| le16(values[i / 2])[i % 2])
}

/// The entries of a channel's byte image.
pub fn cmap_channel_values(raw: &[u8]) -> (values: Vec<u16>)
    ensures
        values@ == channel_values(raw@),
{
    let mut values: Vec<u16> = Vec::new();
    let count: usize = raw.len() / 2;
    let mut index: usize = 0;
    while index < count
        invariant
            index <= count == raw@.len() / 2,
            raw@.len() <= usize::MAX,
            values@ == Seq::new(index as nat, |i: int| u16_at(raw@, 2 * i)),
        decreases count - index,
    {
        values.push(get_u16(raw, 2 * index));
        index = index + 1;
        assert(values@ =~= Seq::new(index as nat, |i: int| u16_at(raw@, 2 * i)));
    }
    assert(values@ =~= Seq::new((raw@.len() / 2) as nat, |i: int| u16_at(raw@, 2 * i)));
    values
}

/// The byte image of a channel.
pub fn cmap_channel_bytes(values: &Vec<u16>) -> (raw: Vec<u8>)
    ensures
        raw@ == channel_image(values@),
{
    let mut raw: Vec<u8> = Vec::new();
    let mut index: usize = 0;
    while index < values.len()
        invariant
            index <= values@.len(),
            raw@ == Seq::new((2 * index) as nat, |i: int| le16(values@[i / 2])[i % 2]),
        decreases values@.len() - index,
    {
        push_u16(&mut raw, values[index]);
        index = index + 1;
        assert(raw@ =~= Seq::new((2 * index) as nat, |i: int| le16(values@[i / 2])[i % 2]));
    }
    raw
}

/// An eight-bit component as a 16-bit one.
pub open spec fn widened(value: u8) -> int {
    value * 257
}

/// An eight-bit component as a 16-bit one: 0 stays 0 and 255 becomes 65535.
pub fn rgb8_to_u16(value: u8) -> (wide: u16)
    ensures
        wide == widened(value),
{
    value as u16 * 257
}

/// The sixteen colours that a device starts with.
pub open spec fn default_palette() -> Seq<u32> {
    seq![
        0xff00_0000u32,
        0xffaa_0000u32,
        0xff00_aa00u32,
        0xffaa_5500u32,
        0xff00_00aau32,
        0xffaa_00aau32,
        0xff00_aaaau32,
        0xffaa_aaaau32,
        0xff55_5555u32,
        0xffff_5555u32,
        0xff55_ff55u32,
        0xffff_ff55u32,
        0xff55_55ffu32,
        0xffff_55ffu32,
        0xff55_ffffu32,
        0xffff_ffffu32,
    ]
}

/// The palette that a device starts with.
pub fn default_pseudo_palette() -> (palette: [u32; 16])
    ensures
        palette@ == default_palette(),
{
    let palette: [u32; 16] = [
        0xff00_0000,
        0xffaa_0000,
        0xff00_aa00,
        0xffaa_5500,
        0xff00_00aa,
        0xffaa_00aa,
        0xff00_aaaa,
        0xffaa_aaaa,
        0xff55_5555,
        0xffff_5555,
        0xff55_ff55,
        0xffff_ff55,
        0xff55_55ff,
        0xffff_55ff,
        0xff55_ffff,
        0xffff_ffff,
    ];
    assert(palette@ =~= default_palette());
    palette
}

/// A palette entry of the high bytes of four channel values.
pub open spec fn palette_entry(red: u16, green: u16, blue: u16, alpha: u8) -> u32 {
    ((alpha as u32) << 24) | (((red >> 8) as u8 as u32) << 16) | (((green >> 8) as u8 as u32) << 8) | ((
    blue >> 8) as u8 as u32)
}

/// The alpha of entry `i`: opaque where the request carries no transparency.
pub open spec fn entry_alpha(transp: Option<Vec<u16>>, i: int) -> u8 {
    match transp {
        Some(values) => (values@[i] >> 8) as u8,
        None => 0xff,
    }
}

/// Replace the entries `start..start + red.len()` of the palette.
pub fn set_pseudo_palette(
    palette: &mut [u32; 16],
    start: usize,
    red: &Vec<u16>,
    green: &Vec<u16>,
    blue: &Vec<u16>,
    transp: &Option<Vec<u16>>,
)
    requires
        start + red@.len() <= 16,
        green@.len() == red@.len(),
        blue@.len() == red@.len(),
        *transp matches Some(values) ==> values@.len() == red@.len(),
    ensures
        forall|i: int|
            0 <= i < 16 ==> #[trigger] final(palette)@[i] == (if start <= i < start + red@.len() {
                palette_entry(
                    red@[i - start],
                    green@[i - start],
                    blue@[i - start],
                    entry_alpha(*transp, i - start),
                )
            } else {
                old(palette)@[i]
            }),
{
    let mut index: usize = 0;
    while index < red.len()
        invariant
            index <= red@.len(),
            start + red@.len() <= 16,
            green@.len() == red@.len(),
            blue@.len() == red@.len(),
            *transp matches Some(values) ==> values@.len() == red@.len(),
            forall|i: int|
                0 <= i < 16 ==> #[trigger] palette@[i] == (if start <= i < start + index {
                    palette_entry(
                        red@[i - start],
                        green@[i - start],
                        blue@[i - start],
                        entry_alpha(*transp, i - start),
                    )
                } else {
                    old(palette)@[i]
                }),
        decreases red@.len() - index,
    {
        let alpha: u8 = match transp {
            Some(values) => #[verifier::truncate]
            ((values[index] >> 8) as u8),
            None => 0xff,
        };
        let r: u8 = #[verifier::truncate]
        ((red[index] >> 8) as u8);
        let g: u8 = #[verifier::truncate]
        ((green[index] >> 8) as u8);
        let b: u8 = #[verifier::truncate]
        ((blue[index] >> 8) as u8);
        palette[start + index] = ((alpha as u32) << 24) | ((r as u32) << 16) | ((g as u32) << 8) | (
        b as u32);
        index = index + 1;
    }
}

/// The channel of the entries `start..end` that starts at bit `shift` of an
/// entry, widened to 16 bits.
pub open spec fn palette_channel(palette: Seq<u32>, start: int, end: int, shift: u32) -> Seq<u16> {
    Seq::new((end - start) as nat, |i: int| ((palette[start + i] >> shift) as u8 * 257) as u16)
}

/// One channel of the palette entries `start..end`, as it is handed to user
/// space: red is at bit 16, green at bit 8, blue at bit 0 and transparency at
/// bit 24.
pub fn get_pseudo_palette(palette: &[u32; 16], start: usize, end: usize, shift: u32) -> (channel: Vec<
    u16,
>)
    requires
        start <= end <= 16,
        shift < 32,
    ensures
        channel@ == palette_channel(palette@, start as int, end as int, shift),
{
    let mut channel: Vec<u16> = Vec::new();
    let mut index: usize = start;
    while index < end
        invariant
            start <= index <= end <= 16,
            shift < 32,
            channel@ == palette_channel(palette@, start as int, index as int, shift),
        decreases end - index,
    {
        let value: u8 = #[verifier::truncate]
        ((palette[index] >> shift) as u8);
        channel.push(rgb8_to_u16(value));
        index = index + 1;
        assert(channel@ =~= palette_channel(palette@, start as int, index as int, shift));
    }
    channel
}

/// A palette entry that was set is read back with each component's high byte
/// repeated in its low byte.
pub proof fn law_palette_entries_read_back(red: u16, green: u16, blue: u16, alpha: u8)
    ensures
        (palette_entry(red, green, blue, alpha) >> 16) as u8 == (red >> 8) as u8,
        (palette_entry(red, green, blue, alpha) >> 8) as u8 == (green >> 8) as u8,
        (palette_entry(red, green, blue, alpha) >> 0) as u8 == (blue >> 8) as u8,
        (palette_entry(red, green, blue, alpha) >> 24) as u8 == alpha,
{
    assert({
        let entry = ((alpha as u32) << 24) | (((red >> 8) as u8 as u32) << 16) | (((green
            >> 8) as u8 as u32) << 8) | ((blue >> 8) as u8 as u32);
        &&& (entry >> 16) as u8 == (red >> 8) as u8
        &&& (entry >> 8) as u8 == (green >> 8) as u8
        &&& (entry >> 0) as u8 == (blue >> 8) as u8
        &&& (entry >> 24) as u8 == alpha
    }) by (bit_vector);
}

/// A record of no damage.
pub const DAMAGE_CLEAN: u64 = 0;

/// A record of damage anywhere.
pub const DAMAGE_FULL: u64 = 0xffff_ffff_ffff_ffff;

/// The record of the byte range `start..end`.
pub open spec fn damage_word(start: int, end: int) -> u64 {
    ((start as u64) << 32) | (end as u64)
}

/// The record after another write: one bounded record that coalesces all writes
/// between commits instead of an unbounded list of rectangles.
pub open spec fn damage_after(state: u64, start: int, len: int, size: int) -> u64 {
    let end = if start + len < size {
        start + len
    } else {
        size
    };
    if len == 0 || start >= size {
        state
    } else if end > u32::MAX {
        DAMAGE_FULL
    } else if state == DAMAGE_CLEAN {
        damage_word(start, end)
    } else if state == DAMAGE_FULL {
        DAMAGE_FULL
    } else {
        let old_start = (state >> 32) as int;
        let old_end = (state as u32) as int;
        damage_word(
            if old_start < start {
                old_start
            } else {
                start
            },
            if old_end > end {
                old_end
            } else {
                end
            },
        )
    }
}

/// Whether a record covers byte `at`.
pub open spec fn damage_covers(state: u64, at: int) -> bool {
    state == DAMAGE_FULL || (state != DAMAGE_CLEAN && (state >> 32) <= at < (state as u32) as int)
}

/// A single, bounded damage record.
pub struct DamageTracker {
    pub state: u64,
}

impl DamageTracker {
    pub fn new() -> (tracker: DamageTracker)
        ensures
            tracker.state == DAMAGE_CLEAN,
    {
        DamageTracker { state: DAMAGE_CLEAN }
    }

    /// Record a write of `len` bytes from `start` on, on a surface of `size`
    /// bytes.
    pub fn mark(&mut self, start: usize, len: usize, size: usize)
        ensures
            final(self).state == damage_after(
                old(self).state,
                start as int,
                len as int,
                size as int,
            ),
    {
        if len == 0 || start >= size {
            return ;
        }
        let end: usize = if len < size - start {
            start + len
        } else {
            size
        };
        if end as u64 > 0xffff_ffff {
            self.state = DAMAGE_FULL;
            return ;
        }
        if self.state == DAMAGE_CLEAN {
            self.state = ((start as u64) << 32) | (end as u64);
        } else if self.state == DAMAGE_FULL {
            return ;
        } else {
            let old_start: u64 = self.state >> 32;
            let old_end: u64 = #[verifier::truncate]
            (self.state as u32) as u64;
            let first: u64 = if old_start < start as u64 {
                old_start
            } else {
                start as u64
            };
            let last: u64 = if old_end > end as u64 {
                old_end
            } else {
                end as u64
            };
            self.state = (first << 32) | last;
        }
    }

    /// Record that everything has to be shown again.
    pub fn mark_full(&mut self)
        ensures
            final(self).state == DAMAGE_FULL,
    {
        self.state = DAMAGE_FULL;
    }

    /// Take the record and leave a clean one.
    pub fn take(&mut self) -> (state: u64)
        ensures
            state == old(self).state,
            final(self).state == DAMAGE_CLEAN,
    {
        let state: u64 = self.state;
        self.state = DAMAGE_CLEAN;
        state
    }
}

proof fn damage_word_parts(start: u64, end: u64)
    requires
        start < end <= 0xffff_ffff,
    ensures
        ((start << 32) | end) >> 32 == start,
        ((start << 32) | end) as u32 == end,
        ((start << 32) | end) != DAMAGE_CLEAN,
        ((start << 32) | end) != DAMAGE_FULL,
{
    assert(((start << 32) | end) >> 32 == start && (((start << 32) | end) as u32) as u64 == end && ((
    start << 32) | end) != 0 && ((start << 32) | end) != 0xffff_ffff_ffff_ffff) by (bit_vector)
        requires
            start < end,
            end <= 0xffff_ffff,
    ;
}

/// A record covers the write that was just marked, and everything that it
/// covered before.
pub proof fn law_marking_never_loses_damage(state: u64, start: int, len: int, size: int, at: int)
    requires
        0 <= start,
        0 <= len,
        0 <= size <= u64::MAX,
        damage_covers(state, at) || (start <= at < start + len && at < size),
        state == DAMAGE_CLEAN || state == DAMAGE_FULL || (state >> 32) < (state as u32),
    ensures
        damage_covers(damage_after(state, start, len, size), at),
{
    let end = if start + len < size {
        start + len
    } else {
        size
    };
    if len != 0 && start < size && end <= u32::MAX && state != DAMAGE_FULL {
        damage_word_parts(start as u64, end as u64);
        if state != DAMAGE_CLEAN {
            let os = (state >> 32) as int;
            let oe = (state as u32) as int;
            let first = if os < start {
                os
            } else {
                start
            };
            let last = if oe > end {
                oe
            } else {
                end
            };
            damage_word_parts(first as u64, last as u64);
        }
    }
}

/// The state that every framebuffer client shares.
pub struct DisplayCore {
    /// Bytes of the surface.
    pub size: usize,
    /// The software palette.  It is never a hardware table.
    pub pseudo_palette: [u32; 16],
    pub damage: DamageTracker,
    /// Set after a writer publishes damage; the refresh task clears it before it
    /// takes the damage, so a concurrent writer cannot lose its wakeup.
    pub pending: bool,
    /// The framebuffer device owns the display only while the active terminal is
    /// in text mode.  Damage may accumulate while this is false, but nothing may
    /// be presented.
    pub refresh_enabled: bool,
}

/// What a terminal mode change asks of the display.
#[derive(Clone, Copy, Debug, PartialEq, Eq, Structural)]
pub enum MasterChange {
    /// Give the display up to a graphics client.
    Yield,
    /// Take the display back and restore the text.
    Restore,
}

impl DisplayCore {
    pub open spec fn with_damage(self, state: u64) -> DisplayCore {
        DisplayCore { damage: DamageTracker { state }, ..self }
    }

    /// Whether damage that is announced wakes the refresh task.
    pub open spec fn wakes(self) -> bool {
        self.refresh_enabled && !self.pending
    }

    /// The display after damage was announced.
    pub open spec fn announced(self) -> DisplayCore {
        DisplayCore { pending: self.pending || self.refresh_enabled, ..self }
    }

    /// The display after a write.
    pub open spec fn written(self, offset: int, len: int) -> DisplayCore {
        self.with_damage(
            damage_after(self.damage.state, offset, len, self.size as int),
        ).announced()
    }

    /// The display after everything was owed.
    pub open spec fn owed(self) -> DisplayCore {
        self.with_damage(DAMAGE_FULL).announced()
    }

    /// The display while nothing may be presented.
    pub open spec fn suspended(self) -> DisplayCore {
        DisplayCore { pending: false, refresh_enabled: false, ..self }
    }

    /// The display after presentation was allowed again.
    pub open spec fn resumed(self) -> DisplayCore {
        DisplayCore { pending: true, refresh_enabled: true, ..self.with_damage(DAMAGE_FULL) }
    }

    /// Whether there is something to present.
    pub open spec fn presents(self) -> bool {
        self.refresh_enabled && self.damage.state != DAMAGE_CLEAN
    }

    /// The display after the damage was taken for a presentation.
    pub open spec fn presenting(self) -> DisplayCore {
        if self.refresh_enabled {
            self.with_damage(DAMAGE_CLEAN)
        } else {
            self
        }
    }

    /// The display after a presentation.
    pub open spec fn concluded(self, presented: bool) -> DisplayCore {
        if presented {
            self
        } else {
            self.owed()
        }
    }

    pub fn new(size: usize) -> (core: DisplayCore)
        ensures
            core.size == size,
            core.damage.state == DAMAGE_CLEAN,
            !core.pending,
            core.refresh_enabled,
            core.pseudo_palette@ == default_palette(),
    {
        DisplayCore {
            size,
            pseudo_palette: default_pseudo_palette(),
            damage: DamageTracker::new(),
            pending: false,
            refresh_enabled: true,
        }
    }

    /// Announce damage; the result says whether the refresh task has to be woken.
    pub fn schedule_refresh(&mut self) -> (wake: bool)
        ensures
            wake == old(self).wakes(),
            *final(self) == old(self).announced(),
    {
        if !self.refresh_enabled {
            return false;
        }
        let wake = !self.pending;
        self.pending = true;
        wake
    }

    pub fn mark_write(&mut self, offset: usize, len: usize) -> (wake: bool)
        ensures
            wake == old(self).wakes(),
            *final(self) == old(self).written(offset as int, len as int),
    {
        self.damage.mark(offset, len, self.size);
        self.schedule_refresh()
    }

    pub fn mark_full(&mut self) -> (wake: bool)
        ensures
            wake == old(self).wakes(),
            *final(self) == old(self).owed(),
    {
        self.damage.mark_full();
        self.schedule_refresh()
    }

    pub fn take_scheduled(&mut self) -> (scheduled: bool)
        ensures
            scheduled == old(self).pending,
            *final(self) == (DisplayCore { pending: false, ..*old(self) }),
    {
        let scheduled = self.pending;
        self.pending = false;
        scheduled
    }

    /// Forbid presentation; the damage record stays as it is.
    pub fn suspend_refresh(&mut self)
        ensures
            *final(self) == old(self).suspended(),
    {
        self.refresh_enabled = false;
        self.pending = false;
    }

    /// Allow presentation again: all writes made meanwhile become one full
    /// repaint.
    pub fn resume_refresh(&mut self) -> (wake: bool)
        ensures
            wake == !old(self).pending,
            *final(self) == old(self).resumed(),
    {
        self.refresh_enabled = true;
        self.damage.mark_full();
        self.schedule_refresh()
    }

    /// Take the damage for a presentation.  Nothing is presented without damage,
    /// and while the refresh is suspended the damage is kept.
    pub fn begin_commit(&mut self) -> (present: bool)
        ensures
            present == old(self).presents(),
            *final(self) == old(self).presenting(),
    {
        if !self.refresh_enabled {
            return false;
        }
        let damage: u64 = self.damage.take();
        damage != DAMAGE_CLEAN
    }

    /// Record the outcome of a presentation: a failed one is owed again in full.
    pub fn end_commit(&mut self, presented: bool) -> (wake: bool)
        ensures
            wake == (!presented && old(self).wakes()),
            *final(self) == old(self).concluded(presented),
    {
        if presented {
            return false;
        }
        self.mark_full()
    }

    /// Begin a change between text and graphics: graphics suspends the refresh
    /// before the display is given up.
    pub fn vt_graphics_changed(&mut self, graphics: bool) -> (change: MasterChange)
        ensures
            graphics ==> change == MasterChange::Yield && *final(self) == old(self).suspended(),
            !graphics ==> change == MasterChange::Restore && *final(self) == *old(self),
    {
        if graphics {
            self.suspend_refresh();
            MasterChange::Yield
        } else {
            MasterChange::Restore
        }
    }

    /// End the change: text is refreshed again only once the display was taken
    /// back and its text restored.
    pub fn vt_master_changed(&mut self, change: MasterChange, done: bool) -> (wake: bool)
        ensures
            change == MasterChange::Restore && done ==> wake == !old(self).pending && *final(self)
                == old(self).resumed(),
            !(change == MasterChange::Restore && done) ==> !wake && *final(self) == *old(self),
    {
        if done && change == MasterChange::Restore {
            self.resume_refresh()
        } else {
            false
        }
    }
}

/// Where a read starts and how many bytes it gives.
pub open spec fn span_of_read(offset: int, len: int, size: int) -> (int, int) {
    let start = if offset < size {
        offset
    } else {
        size
    };
    (
        start,
        if len < size - start {
            len
        } else {
            size - start
        },
    )
}

/// Where a write starts and how many bytes it takes, if it may start there.
pub open spec fn span_of_write(offset: int, len: int, size: int) -> Option<(int, int)> {
    if offset < size {
        Some(
            (
                offset,
                if len < size - offset {
                    len
                } else {
                    size - offset
                },
            ),
        )
    } else {
        None
    }
}

/// The span of a read: reads past the end of the surface are empty.
pub fn read_span(offset: u64, len: usize, size: usize) -> (span: (usize, usize))
    ensures
        (span.0 as int, span.1 as int) == span_of_read(offset as int, len as int, size as int),
{
    let start: usize = if offset < size as u64 {
        offset as usize
    } else {
        size
    };
    let count: usize = if len < size - start {
        len
    } else {
        size - start
    };
    (start, count)
}

/// The span of a write: a write that starts past the end of the surface is
/// refused, and one that runs over it is cut.
pub fn write_span(offset: u64, len: usize, size: usize) -> (span: Result<(usize, usize), Error>)
    ensures
        match span {
            Ok(s) => span_of_write(offset as int, len as int, size as int) == Some(
                (s.0 as int, s.1 as int),
            ),
            Err(error) => span_of_write(offset as int, len as int, size as int) is None && error
                == Error::StorageFull,
        },
{
    if offset >= size as u64 {
        return Err(Error::StorageFull);
    }
    let start: usize = offset as usize;
    Ok(
        (
            start,
            if len < size - start {
                len
            } else {
                size - start
            },
        ),
    )
}

/// The device's number.
pub const FB_DEVICE_ID: (u32, u32) = (29, 0);

/// The device as the device registry shows it.
pub open spec fn framebuffer_view() -> RegistrationView {
    RegistrationView {
        root: encode_utf8("virtual"@),
        subsystem: encode_utf8("graphics"@),
        name: encode_utf8("fb0"@),
        parent: None,
        node: Some((FB_DEVICE_ID, encode_utf8("fb0"@))),
        device_type: encode_utf8("graphics"@),
        attributes: Seq::empty(),
        bus: None,
    }
}

pub fn fb_sysfs_registration() -> (registration: Registration)
    ensures
        registration@ == framebuffer_view(),
{
    let attributes: Vec<DeviceAttribute> = Vec::new();
    assert(attribute_views(attributes@) =~= Seq::empty());
    Registration {
        root: text("virtual"),
        subsystem: text("graphics"),
        name: text("fb0"),
        parent: None,
        node: Some((FB_DEVICE_ID, text("fb0"))),
        device_type: text("graphics"),
        attributes,
        bus: None,
    }
}

/// What an ioctl on the device asks for.
#[derive(Clone, Copy, Debug, PartialEq, Eq, Structural)]
pub enum FbIoctl {
    GetVar,
    PutVar,
    GetFix,
    GetCmap,
    PutCmap,
    Pan,
    Blank(bool),
}

/// The request that a command number stands for.
pub open spec fn fb_ioctl(cmd: u32, arg: usize) -> Result<FbIoctl, Error> {
    if cmd == 0x4600 {
        Ok(FbIoctl::GetVar)
    } else if cmd == 0x4601 {
        Ok(FbIoctl::PutVar)
    } else if cmd == 0x4602 {
        Ok(FbIoctl::GetFix)
    } else if cmd == 0x4604 {
        Ok(FbIoctl::GetCmap)
    } else if cmd == 0x4605 {
        Ok(FbIoctl::PutCmap)
    } else if cmd == 0x4606 {
        Ok(FbIoctl::Pan)
    } else if cmd == 0x4611 {
        if arg <= 4 {
            Ok(FbIoctl::Blank(arg != 0))
        } else {
            Err(Error::OperationNotSupported)
        }
    } else {
        Err(Error::NotATty)
    }
}

pub fn decode_ioctl(cmd: u32, arg: usize) -> (request: Result<FbIoctl, Error>)
    ensures
        request == fb_ioctl(cmd, arg),
{
    match cmd {
        0x4600 => Ok(FbIoctl::GetVar),
        0x4601 => Ok(FbIoctl::PutVar),
        0x4602 => Ok(FbIoctl::GetFix),
        0x4604 => Ok(FbIoctl::GetCmap),
        0x4605 => Ok(FbIoctl::PutCmap),
        0x4606 => Ok(FbIoctl::Pan),
        0x4611 => if arg <= 4 {
            Ok(FbIoctl::Blank(arg != 0))
        } else {
            Err(Error::OperationNotSupported)
        },
        _ => Err(Error::NotATty),
    }
}

/// Set the mode: the only one is the current one, and its image is returned.
pub fn put_var_screen_info(bytes: &[u8; 160], g: &Geometry) -> (applied: Result<[u8; 160], Error>)
    ensures
        applied is Ok <==> keeps_mode(requested(bytes@), current_mode(*g)) && requested(
            bytes@,
        ).xoffset == 0 && requested(bytes@).yoffset == g.yoffset,
        applied matches Ok(image) ==> image@ == words_image(var_words(current_mode(*g))),
        applied matches Err(error) ==> error == Error::InvalidInput,
{
    let request = var_screen_info_from_user_bytes(bytes);
    let current = current_var_screen_info(g);
    if !fixed_mode_matches(request, current) {
        return Err(Error::InvalidInput);
    }
    Ok(var_screen_info_to_user_bytes(current))
}

/// The line to pan to: everything but the line must be as it is.
pub fn pan_request(bytes: &[u8; 160], g: &Geometry) -> (line: Result<u32, Error>)
    ensures
        line is Ok <==> keeps_mode(requested(bytes@), current_mode(*g)) && requested(bytes@).xoffset
            == 0,
        line matches Ok(y) ==> y == requested(bytes@).yoffset,
        line matches Err(error) ==> error == Error::InvalidInput,
{
    let request = var_screen_info_from_user_bytes(bytes);
    let current = current_var_screen_info(g);
    if !pan_mode_matches(&request, current) || request.xoffset != 0 {
        return Err(Error::InvalidInput);
    }
    Ok(request.yoffset)
}

/// Ink of the framebuffer console.
pub const CONSOLE_INK: u32 = 0x00d0_d0d0;

/// A short-lived view of the surface, used by the framebuffer console.
#[derive(Clone, Copy, Debug)]
pub struct FbconFrame {
    pub size: usize,
    pub width: usize,
    pub height: usize,
    pub pitch: usize,
    /// Bytes one pixel occupies on this surface, which is not always four.
    pub bytes_per_pixel: usize,
}

impl FbconFrame {
    /// Where the pixel `(x, y)` starts.
    pub open spec fn offset(self, x: int, y: int) -> int {
        y * self.pitch + x * self.bytes_per_pixel
    }

    /// Whether the surface holds the whole pixel `(x, y)`.
    pub open spec fn holds(self, x: int, y: int) -> bool {
        self.offset(x, y) + self.bytes_per_pixel <= self.size
    }

    /// The surface after the pixel `(x, y)` was written.
    pub open spec fn pixel_written(
        self,
        layout: PixelLayout,
        surface: Seq<u8>,
        x: int,
        y: int,
        color: u32,
    ) -> Seq<u8> {
        if self.holds(x, y) && self.offset(x, y) + layout.depth() <= surface.len() {
            splice(surface, self.offset(x, y), layout.pattern(color))
        } else {
            surface
        }
    }

    /// The surface after the first `count` pixels were cleared, line by line.
    pub open spec fn cleared(
        self,
        layout: PixelLayout,
        surface: Seq<u8>,
        color: u32,
        count: nat,
    ) -> Seq<u8>
        decreases count,
    {
        if count == 0 {
            surface
        } else {
            self.pixel_written(
                layout,
                self.cleared(layout, surface, color, (count - 1) as nat),
                (count - 1) % self.width as int,
                (count - 1) / self.width as int,
                color,
            )
        }
    }

    /// The surface after the first `count` pixels of a glyph were drawn with its
    /// top left corner at `(x, y)`; a pixel outside the frame is skipped.
    pub open spec fn glyph_pixels(
        self,
        layout: PixelLayout,
        surface: Seq<u8>,
        x: int,
        y: int,
        byte: u8,
        count: nat,
    ) -> Seq<u8>
        decreases count,
    {
        if count == 0 {
            surface
        } else {
            let before = self.glyph_pixels(layout, surface, x, y, byte, (count - 1) as nat);
            let dx = (count - 1) % 8;
            let dy = (count - 1) / 8;
            if x + dx < self.width && y + dy < self.height {
                self.pixel_written(
                    layout,
                    before,
                    x + dx,
                    y + dy,
                    if pixel_lit(cell_row(byte, dy), dx as u8) {
                        CONSOLE_INK
                    } else {
                        0
                    },
                )
            } else {
                before
            }
        }
    }

    /// Where the pixel `(x, y)` starts, if the surface holds it.
    pub fn pixel_offset(&self, x: usize, y: usize) -> (offset: Option<usize>)
        ensures
            offset is Some <==> self.holds(x as int, y as int),
            offset matches Some(at) ==> at == self.offset(x as int, y as int),
    {
        assert(0 <= y * self.pitch) by (nonlinear_arith)
            requires
                0 <= y,
                0 <= self.pitch,
        ;
        assert(0 <= x * self.bytes_per_pixel) by (nonlinear_arith)
            requires
                0 <= x,
                0 <= self.bytes_per_pixel,
        ;
        let line: usize = match y.checked_mul(self.pitch) {
            Some(line) => line,
            None => {
                return None;
            },
        };
        let column: usize = match x.checked_mul(self.bytes_per_pixel) {
            Some(column) => column,
            None => {
                return None;
            },
        };
        let offset: usize = match line.checked_add(column) {
            Some(offset) => offset,
            None => {
                return None;
            },
        };
        match offset.checked_add(self.bytes_per_pixel) {
            Some(end) => if end <= self.size {
                Some(offset)
            } else {
                None
            },
            None => None,
        }
    }

    /// Write one pixel at the surface's own depth.  A pixel that the surface does
    /// not hold is dropped: the console clips its own output and must never be
    /// able to fault the kernel.
    pub fn write_pixel(
        &self,
        layout: &PixelLayout,
        surface: &mut [u8],
        x: usize,
        y: usize,
        color: u32,
    )
        requires
            layout.encodable(),
        ensures
            final(surface)@ == self.pixel_written(
                *layout,
                old(surface)@,
                x as int,
                y as int,
                color,
            ),
    {
        let offset: usize = match self.pixel_offset(x, y) {
            Some(offset) => offset,
            None => {
                return ;
            },
        };
        let mut pixel: [u8; 4] = [0;4];
        let width: usize = layout.encode_into(color, &mut pixel);
        let bytes: &[u8] = &pixel[0..width];
        assert(bytes@ =~= layout.pattern(color));
        if offset > surface.len() || surface.len() - offset < width {
            return ;
        }
        copy_into(surface, offset, bytes);
    }

    /// Give every pixel of the frame one colour.
    pub fn clear(&self, layout: &PixelLayout, surface: &mut [u8], color: u32)
        requires
            layout.encodable(),
        ensures
            final(surface)@ == self.cleared(
                *layout,
                old(surface)@,
                color,
                (self.width * self.height) as nat,
            ),
    {
        assert(0int * self.width == 0) by (nonlinear_arith);
        let mut y: usize = 0;
        while y < self.height
            invariant
                layout.encodable(),
                y <= self.height,
                surface@ == self.cleared(
                    *layout,
                    old(surface)@,
                    color,
                    (y * self.width) as nat,
                ),
            decreases self.height - y,
        {
            let mut x: usize = 0;
            while x < self.width
                invariant
                    layout.encodable(),
                    y < self.height,
                    x <= self.width,
                    0 <= y * self.width,
                    surface@ == self.cleared(
                        *layout,
                        old(surface)@,
                        color,
                        (y * self.width + x) as nat,
                    ),
                decreases self.width - x,
            {
                self.write_pixel(layout, surface, x, y, color);
                proof {
                    let at = y * self.width + x;
                    assert(at == y as int * self.width as int + x as int);
                    vstd::arithmetic::div_mod::lemma_fundamental_div_mod_converse(
                        at,
                        self.width as int,
                        y as int,
                        x as int,
                    );
                }
                x = x + 1;
            }
            assert(y * self.width + self.width == (y + 1) * self.width) by (nonlinear_arith);
            assert(0 <= (y + 1) * self.width) by (nonlinear_arith)
                requires
                    0 <= y,
                    0 <= self.width,
            ;
            y = y + 1;
        }
        assert(self.height * self.width == self.width * self.height) by (nonlinear_arith);
    }

    /// Draw one character with its top left corner at `(x, y)`.
    ///
    /// A byte with no glyph is drawn blank rather than as a substitute character:
    /// the console shows control bytes, UTF-8 continuation bytes and bytes
    /// outside the font's range, and a full screen of replacement boxes would
    /// hide the text around them.
    pub fn glyph(&self, layout: &PixelLayout, surface: &mut [u8], x: usize, y: usize, byte: u8)
        requires
            layout.encodable(),
            x + 8 <= usize::MAX,
            y + 16 <= usize::MAX,
        ensures
            final(surface)@ == self.glyph_pixels(
                *layout,
                old(surface)@,
                x as int,
                y as int,
                byte,
                128,
            ),
    {
        let rows = glyph(byte);
        let mut dy: usize = 0;
        while dy < 16
            invariant
                layout.encodable(),
                dy <= 16,
                x + 8 <= usize::MAX,
                y + 16 <= usize::MAX,
                rows is Some <==> has_glyph(byte),
                rows matches Some(bits) ==> forall|r: int|
                    0 <= r < 16 ==> #[trigger] bits@[r] == glyph_row(byte, r),
                surface@ == self.glyph_pixels(
                    *layout,
                    old(surface)@,
                    x as int,
                    y as int,
                    byte,
                    (dy * 8) as nat,
                ),
            decreases 16 - dy,
        {
            let line: u8 = match &rows {
                Some(bits) => bits[dy],
                None => 0,
            };
            assert(line == cell_row(byte, dy as int));
            let mut dx: usize = 0;
            while dx < 8
                invariant
                    layout.encodable(),
                    dx <= 8,
                    dy < 16,
                    x + 8 <= usize::MAX,
                    y + 16 <= usize::MAX,
                    line == cell_row(byte, dy as int),
                    surface@ == self.glyph_pixels(
                        *layout,
                        old(surface)@,
                        x as int,
                        y as int,
                        byte,
                        (dy * 8 + dx) as nat,
                    ),
                decreases 8 - dx,
            {
                let px: usize = x + dx;
                let py: usize = y + dy;
                if px < self.width && py < self.height {
                    let color: u32 = if line & (0x80u8 >> (dx as u8)) != 0 {
                        CONSOLE_INK
                    } else {
                        0
                    };
                    self.write_pixel(layout, surface, px, py, color);
                }
                proof {
                    let count = dy * 8 + dx + 1;
                    assert((count - 1) % 8 == dx as int);
                    assert((count - 1) / 8 == dy as int);
                }
                dx = dx + 1;
            }
            dy = dy + 1;
        }
    }
}

} // verus!
