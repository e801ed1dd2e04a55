//! The firmware's linear framebuffer, as a scanout surface.
//!
//! A machine whose display was programmed by its own firmware before the kernel
//! started has no display device for the kernel to drive.  The pixels already
//! live in a linear aperture and the display controller already scans them out;
//! this module decides which apertures can be written and where.

use vstd::prelude::*;
use core::ops::Range;
use crate::error::Error;
use crate::scanout::{ColorChannel, PixelLayout};

verus! {

/// What the boot loader says of the display that the firmware programmed.
#[derive(Clone, Copy, Debug)]
pub struct BootFramebuffer {
    pub address: u64,
    pub width: u32,
    pub height: u32,
    /// Bytes between the starts of two consecutive scan lines.
    pub pitch: u32,
    /// Bits per pixel.
    pub bpp: u8,
    pub red: ColorChannel,
    pub green: ColorChannel,
    pub blue: ColorChannel,
    /// Bytes the surface occupies, where that is representable.
    pub byte_len: Option<usize>,
}

impl BootFramebuffer {
    /// The layout that the description names, accepted or not.
    pub open spec fn layout(self) -> PixelLayout {
        PixelLayout { bits: self.bpp, red: self.red, green: self.green, blue: self.blue }
    }

    /// Whether the console can write pixels of this description.
    pub open spec fn writable(self) -> bool {
        &&& self.bpp == 15 || self.bpp == 16 || self.bpp == 24 || self.bpp == 32
        &&& self.red.fits(self.bpp as int)
        &&& self.green.fits(self.bpp as int)
        &&& self.blue.fits(self.bpp as int)
        &&& 8 * self.pitch >= self.width * self.bpp
    }

    /// Whether the description names a surface with any pixel in it.
    pub open spec fn drawable(self) -> bool {
        &&& self.writable()
        &&& self.byte_len is Some
        &&& self.byte_len->0 != 0
        &&& self.width != 0
        &&& self.height != 0
        &&& self.address <= usize::MAX
    }
}

/// The byte range `offset..offset + len`, or `None` if it leaves `size`.
///
/// Both byte operations share this so a surface can never be read or written
/// past the length it was mapped with, whatever the arithmetic in a caller.
pub fn range_within(offset: usize, len: usize, size: usize) -> (range: Option<Range<usize>>)
    ensures
        range is Some <==> offset + len <= size,
        range matches Some(r) ==> r.start == offset && r.end == offset + len,
{
    let end: usize = match offset.checked_add(len) {
        Some(end) => end,
        None => {
            return None;
        },
    };
    if end <= size {
        Some(offset..end)
    } else {
        None
    }
}

fn channel_fits(channel: ColorChannel, bits: u8) -> (fits: bool)
    ensures
        fits == channel.fits(bits as int),
{
    channel.size != 0 && channel.position as u16 + channel.size as u16 <= bits as u16
}

/// Convert the boot loader's channel description into the surface layout form.
///
/// The pixel is rejected rather than approximated when it describes something
/// the console cannot write: a wrong stride or a wrong field would paint a
/// garbled screen, and on a machine whose only output device that screen is, a
/// garbled console is indistinguishable from a kernel that never booted.
pub fn pixel_layout(framebuffer: &BootFramebuffer) -> (layout: Result<PixelLayout, Error>)
    ensures
        framebuffer.writable() ==> layout == Ok::<PixelLayout, Error>(framebuffer.layout()),
        !framebuffer.writable() ==> layout == Err::<PixelLayout, Error>(Error::InvalidInput),
{
    if framebuffer.bpp != 15 && framebuffer.bpp != 16 && framebuffer.bpp != 24 && framebuffer.bpp
        != 32 {
        return Err(Error::InvalidInput);
    }
    let layout = PixelLayout {
        bits: framebuffer.bpp,
        red: framebuffer.red,
        green: framebuffer.green,
        blue: framebuffer.blue,
    };
    if !channel_fits(layout.red, layout.bits) || !channel_fits(layout.green, layout.bits)
        || !channel_fits(layout.blue, layout.bits) {
        return Err(Error::InvalidInput);
    }
    // A scan line has to hold its pixels at this depth as well as at the depth
    // the boot parser checked, because a caller could have built this
    // description without going through that parser.
    assert(framebuffer.width * layout.bits <= 0xffff_ffff * 255) by (nonlinear_arith)
        requires
            framebuffer.width <= 0xffff_ffff,
            layout.bits <= 255,
    ;
    let minimum_pitch: u64 = (framebuffer.width as u64 * layout.bits as u64 + 7) / 8;
    if (framebuffer.pitch as u64) < minimum_pitch {
        return Err(Error::InvalidInput);
    }
    Ok(layout)
}

/// A linear framebuffer owned by firmware rather than by a kernel driver.
///
/// The aperture's memory itself is handed to the operations that touch it.
#[derive(Clone, Copy, Debug)]
pub struct BootFb {
    /// Physical address of the aperture's first byte.
    pub physical: usize,
    pub width: u32,
    pub height: u32,
    pub pitch: u32,
    pub size: usize,
    /// How the firmware packs a pixel, as the boot loader reported it.
    pub layout: PixelLayout,
}

impl BootFb {
    /// Take the aperture described by `framebuffer` as a scanout.
    ///
    /// The caller maps `physical..physical + size` at the point the surface is
    /// chosen, so that a failure is reported once instead of turning the first
    /// console character into a fault.
    pub fn new(framebuffer: &BootFramebuffer) -> (surface: Result<BootFb, Error>)
        ensures
            surface is Ok <==> framebuffer.drawable(),
            surface matches Err(error) ==> error == Error::InvalidInput,
            surface matches Ok(fb) ==> {
                &&& fb.physical == framebuffer.address
                &&& fb.width == framebuffer.width
                &&& fb.height == framebuffer.height
                &&& fb.pitch == framebuffer.pitch
                &&& Some(fb.size) == framebuffer.byte_len
                &&& fb.layout == framebuffer.layout()
            },
    {
        let layout = match pixel_layout(framebuffer) {
            Ok(layout) => layout,
            Err(error) => {
                return Err(error);
            },
        };
        let size: usize = match framebuffer.byte_len {
            Some(size) => size,
            None => {
                return Err(Error::InvalidInput);
            },
        };
        if size == 0 || framebuffer.width == 0 || framebuffer.height == 0 {
            return Err(Error::InvalidInput);
        }
        if framebuffer.address > usize::MAX as u64 {
            return Err(Error::InvalidInput);
        }
        Ok(
            BootFb {
                physical: framebuffer.address as usize,
                width: framebuffer.width,
                height: framebuffer.height,
                pitch: framebuffer.pitch,
                size,
                layout,
            },
        )
    }

    /// Rows a client can scroll through: one screen, because the firmware
    /// programmed where the surface starts and no second page lies behind it.
    pub fn virtual_height(&self) -> (height: u32)
        ensures
            height == self.height,
    {
        self.height
    }

    /// Copy surface bytes from `offset` on into `dst`.
    pub fn read_bytes(&self, aperture: &[u8], offset: usize, dst: &mut [u8]) -> (result: Result<
        (),
        Error,
    >)
        requires
            aperture@.len() == self.size,
        ensures
            result is Ok <==> offset + old(dst)@.len() <= self.size,
            result matches Err(error) ==> error == Error::InvalidInput && final(dst)@ == old(dst)@,
            result is Ok ==> final(dst)@ == aperture@.subrange(
                offset as int,
                offset + old(dst)@.len(),
            ),
    {
        let range = match range_within(offset, dst.len(), self.size) {
            Some(range) => range,
            None => {
                return Err(Error::InvalidInput);
            },
        };
        let count: usize = dst.len();
        let size: usize = aperture.len();
        let mut index: usize = 0;
        while index < count
            invariant
                index <= count == dst@.len(),
                dst@.len() == old(dst)@.len(),
                range.start == offset,
                offset + count <= size == aperture@.len(),
                forall|i: int| 0 <= i < index ==> #[trigger] dst@[i] == aperture@[offset + i],
            decreases count - index,
        {
            dst[index] = aperture[range.start + index];
            index = index + 1;
        }
        assert(dst@ =~= aperture@.subrange(offset as int, offset + count));
        Ok(())
    }

    /// Copy `src` into the surface from `offset` on.
    pub fn write_bytes(&self, aperture: &mut [u8], offset: usize, src: &[u8]) -> (result: Result<
        (),
        Error,
    >)
        requires
            old(aperture)@.len() == self.size,
        ensures
            result is Ok <==> offset + src@.len() <= self.size,
            result matches Err(error) ==> error == Error::InvalidInput && final(aperture)@ == old(
                aperture,
            )@,
            result is Ok ==> final(aperture)@ == splice(old(aperture)@, offset as int, src@),
    {
        if range_within(offset, src.len(), self.size).is_none() {
            return Err(Error::InvalidInput);
        }
        copy_into(aperture, offset, src);
        Ok(())
    }

    /// Write one pixel at the surface's own depth: a 16-bit surface must not
    /// receive four bytes.  A pixel that leaves the surface is dropped.
    pub fn write_pixel(&self, aperture: &mut [u8], offset: usize, color: u32)
        requires
            old(aperture)@.len() == self.size,
            self.layout.encodable(),
        ensures
            offset + self.layout.depth() <= self.size ==> final(aperture)@ == splice(
                old(aperture)@,
                offset as int,
                self.layout.pattern(color),
            ),
            offset + self.layout.depth() > self.size ==> final(aperture)@ == old(aperture)@,
    {
        let mut pixel: [u8; 4] = [0; 4];
        let width: usize = self.layout.encode_into(color, &mut pixel);
        let bytes: &[u8] = &pixel[0..width];
        assert(bytes@ =~= self.layout.pattern(color));
        let _ = self.write_bytes(aperture, offset, bytes);
    }

    /// The physical range a client may map, where its end is an address.
    pub fn mmap(&self) -> (range: Option<(usize, usize)>)
        ensures
            range is Some <==> self.physical + self.size <= usize::MAX,
            range matches Some(r) ==> r.0 == self.physical && r.1 == self.physical + self.size,
    {
        match self.physical.checked_add(self.size) {
            Some(end) => Some((self.physical, end)),
            None => None,
        }
    }

    /// Move the displayed window.  The firmware chose where this surface
    /// starts, so the request is refused rather than silently ignored: a caller
    /// that believes a pan happened would show the wrong page.
    pub fn pan(&self, _yoffset: u32) -> (result: Result<(), Error>)
        ensures
            result == Err::<(), Error>(Error::Unsupported),
    {
        Err(Error::Unsupported)
    }
}

/// `bytes` with `part` laid over it from `offset` on.
pub open spec fn splice(bytes: Seq<u8>, offset: int, part: Seq<u8>) -> Seq<u8> {
    Seq::new(
        bytes.len(),
        |i: int|
            if offset <= i < offset + part.len() {
                part[i - offset]
            } else {
                bytes[i]
            },
    )
}

/// Lay `src` over `dst` from `offset` on.
pub fn copy_into(dst: &mut [u8], offset: usize, src: &[u8])
    requires
        offset + src@.len() <= old(dst)@.len(),
    ensures
        final(dst)@ == splice(old(dst)@, offset as int, src@),
{
    let count: usize = src.len();
    let size: usize = dst.len();
    let mut index: usize = 0;
    while index < count
        invariant
            index <= count == src@.len(),
            dst@.len() == old(dst)@.len(),
            offset + count <= size == dst@.len(),
            forall|i: int|
                0 <= i < dst@.len() ==> #[trigger] dst@[i] == (if offset <= i < offset + index {
                    src@[i - offset]
                } else {
                    old(dst)@[i]
                }),
        decreases count - index,
    {
        dst[offset + index] = src[index];
        index = index + 1;
    }
    assert(dst@ =~= splice(old(dst)@, offset as int, src@));
}

/// What was written to a range of the surface is read back from it, and no
/// byte outside the range changes.
pub proof fn law_a_read_gives_back_what_was_written(surface: Seq<u8>, offset: int, src: Seq<u8>)
    requires
        0 <= offset,
        offset + src.len() <= surface.len(),
    ensures
        splice(surface, offset, src).subrange(offset, offset + src.len()) == src,
        splice(surface, offset, src).len() == surface.len(),
        forall|i: int|
            0 <= i < surface.len() && !(offset <= i < offset + src.len()) ==> #[trigger] splice(
                surface,
                offset,
                src,
            )[i] == surface[i],
{
    assert(splice(surface, offset, src).subrange(offset, offset + src.len()) =~= src);
}

/// A surface that can be written holds every pixel of a line in the line: the bits of the last
/// pixel end before the next line starts.  Each colour has bits of its own inside the pixel.
pub proof fn law_a_line_holds_its_pixels(fb: BootFramebuffer, x: int)
    requires
        fb.writable(),
        0 <= x < fb.width,
    ensures
        (x + 1) * fb.bpp <= 8 * fb.pitch,
        fb.red.size > 0 && fb.red.position + fb.red.size <= fb.bpp,
        fb.green.size > 0 && fb.green.position + fb.green.size <= fb.bpp,
        fb.blue.size > 0 && fb.blue.position + fb.blue.size <= fb.bpp,
        15 <= fb.bpp <= 32,
        fb.bpp % 8 == 0 || fb.bpp == 15,
{
    assert((x + 1) * fb.bpp <= fb.width * fb.bpp) by (nonlinear_arith)
        requires
            x + 1 <= fb.width,
            0 <= fb.bpp,
    ;
}

/// A surface is refused for nothing but a depth, a colour or a line that cannot be written: where
/// the lines are long enough and the colours lie in the pixel, it can be.
pub proof fn law_what_can_be_written_is_taken(fb: BootFramebuffer)
    requires
        fb.bpp == 15 || fb.bpp == 16 || fb.bpp == 24 || fb.bpp == 32,
        fb.red.size > 0 && fb.red.position + fb.red.size <= fb.bpp,
        fb.green.size > 0 && fb.green.position + fb.green.size <= fb.bpp,
        fb.blue.size > 0 && fb.blue.position + fb.blue.size <= fb.bpp,
        fb.width * fb.bpp <= 8 * fb.pitch,
    ensures
        fb.writable(),
        fb.layout().bits == fb.bpp,
        fb.layout().red == fb.red,
        fb.layout().green == fb.green,
        fb.layout().blue == fb.blue,
        fb.byte_len is Some && fb.byte_len->0 > 0 && fb.width > 0 && fb.height > 0 && fb.address
            <= usize::MAX ==> fb.drawable(),
        fb.width == 0 || fb.height == 0 || fb.byte_len is None || fb.byte_len == Some(0usize)
            ==> !fb.drawable(),
{
}

} // verus!
