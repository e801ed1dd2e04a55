//! Who may paint, and through which mapping.

use vstd::prelude::*;
use vstd::string::StringSliceAdditionalSpecFns;
use crate::bootfb::{pixel_layout, BootFramebuffer};
use crate::early_screen::bounded_text::{boundary_floor, smaller, BoundedText};
use crate::early_screen::view::TextView;
use crate::early_screen::Painted;
use crate::scanout::{ColorChannel, PixelLayout};

verus! {

/// Bytes of the kernel log tail one frame reads.
pub const TAIL_BYTES: usize = 4096;

/// Bytes of panic message text one frame formats.
pub const MESSAGE_BYTES: usize = 2048;

/// Bytes of backtrace text one frame formats.
pub const TRACE_BYTES: usize = 2048;

/// Longest status line one frame composes.
pub const STATUS_BYTES: usize = 128;

/// Highest physical address the boot page table's linear map covers.
///
/// The low 512 GiB are mapped twice at boot: once as an identity map and once at
/// the linear-map offset, both with 1 GiB pages.  A framebuffer above this would
/// be reachable only through the kernel page table, so the boot claim refuses it
/// rather than faulting on the first glyph.
pub const BOOT_LINEAR_LIMIT: u64 = 0x80_0000_0000;

/// The word that holds a layout: the depth in the low byte, and above it the
/// position and the size of the red, the green and the blue field.
pub open spec fn packed(layout: PixelLayout) -> u64 {
    (layout.bits as u64) | ((layout.red.position as u64) << 8) | ((layout.red.size as u64) << 16) | ((
    layout.green.position as u64) << 24) | ((layout.green.size as u64) << 32) | ((
    layout.blue.position as u64) << 40) | ((layout.blue.size as u64) << 48)
}

/// The layout that a word holds.
pub open spec fn unpacked(word: u64) -> PixelLayout {
    PixelLayout {
        bits: word as u8,
        red: ColorChannel { position: (word >> 8) as u8, size: (word >> 16) as u8 },
        green: ColorChannel { position: (word >> 24) as u8, size: (word >> 32) as u8 },
        blue: ColorChannel { position: (word >> 40) as u8, size: (word >> 48) as u8 },
    }
}

pub fn pack_layout(layout: PixelLayout) -> (word: u64)
    ensures
        word == packed(layout),
{
    (layout.bits as u64) | ((layout.red.position as u64) << 8) | ((layout.red.size as u64) << 16) | ((
    layout.green.position as u64) << 24) | ((layout.green.size as u64) << 32) | ((
    layout.blue.position as u64) << 40) | ((layout.blue.size as u64) << 48)
}

pub fn unpack_layout(packed: u64) -> (layout: PixelLayout)
    ensures
        layout == unpacked(packed),
{
    PixelLayout {
        bits: #[verifier::truncate]
        (packed as u8),
        red: ColorChannel {
            position: #[verifier::truncate]
            ((packed >> 8) as u8),
            size: #[verifier::truncate]
            ((packed >> 16) as u8),
        },
        green: ColorChannel {
            position: #[verifier::truncate]
            ((packed >> 24) as u8),
            size: #[verifier::truncate]
            ((packed >> 32) as u8),
        },
        blue: ColorChannel {
            position: #[verifier::truncate]
            ((packed >> 40) as u8),
            size: #[verifier::truncate]
            ((packed >> 48) as u8),
        },
    }
}

/// Packing a layout into a word loses nothing.
pub proof fn law_packing_keeps_the_layout(layout: PixelLayout)
    ensures
        unpacked(packed(layout)) == layout,
{
    let a = layout.bits;
    let b = layout.red.position;
    let c = layout.red.size;
    let d = layout.green.position;
    let e = layout.green.size;
    let f = layout.blue.position;
    let g = layout.blue.size;
    assert({
        let word = (a as u64) | ((b as u64) << 8) | ((c as u64) << 16) | ((d as u64) << 24) | ((
        e as u64) << 32) | ((f as u64) << 40) | ((g as u64) << 48);
        &&& word as u8 == a
        &&& (word >> 8) as u8 == b
        &&& (word >> 16) as u8 == c
        &&& (word >> 24) as u8 == d
        &&& (word >> 32) as u8 == e
        &&& (word >> 40) as u8 == f
        &&& (word >> 48) as u8 == g
    }) by (bit_vector);
}

/// An aperture that the painter may use.
#[derive(Clone, Copy, Debug)]
pub struct Claim {
    pub address: usize,
    pub width: u32,
    pub height: u32,
    pub pitch: u32,
    pub len: usize,
    pub layout: PixelLayout,
}

/// Whether the boot page table's linear map reaches a drawable surface.
pub open spec fn claimable(framebuffer: BootFramebuffer) -> bool {
    &&& framebuffer.drawable()
    &&& framebuffer.address != 0
    &&& framebuffer.address + framebuffer.byte_len->0 <= BOOT_LINEAR_LIMIT
    &&& framebuffer.address + framebuffer.byte_len->0 <= usize::MAX
}

impl Claim {
    /// Check a description of the firmware's surface against the boot page
    /// table's window, and refuse the screen entirely if it does not fit rather
    /// than faulting on the first frame.
    ///
    /// The console's own surface applies the identical validation of the pixel
    /// layout; sharing it is what keeps the two descriptions of one aperture from
    /// diverging.
    pub fn of(framebuffer: &BootFramebuffer) -> (claim: Option<Claim>)
        ensures
            claim is Some <==> claimable(*framebuffer),
            claim matches Some(c) ==> {
                &&& c.address == framebuffer.address
                &&& c.width == framebuffer.width
                &&& c.height == framebuffer.height
                &&& c.pitch == framebuffer.pitch
                &&& Some(c.len) == framebuffer.byte_len
                &&& c.layout == framebuffer.layout()
            },
    {
        let layout = match pixel_layout(framebuffer) {
            Ok(layout) => layout,
            Err(_) => {
                return None;
            },
        };
        let len: usize = match framebuffer.byte_len {
            Some(len) => len,
            None => {
                return None;
            },
        };
        if framebuffer.address > usize::MAX as u64 {
            return None;
        }
        let address: usize = framebuffer.address as usize;
        if address == 0 || len == 0 || framebuffer.width == 0 || framebuffer.height == 0 {
            return None;
        }
        let end: usize = match address.checked_add(len) {
            Some(end) => end,
            None => {
                return None;
            },
        };
        if end as u64 > BOOT_LINEAR_LIMIT {
            return None;
        }
        Some(
            Claim {
                address,
                width: framebuffer.width,
                height: framebuffer.height,
                pitch: framebuffer.pitch,
                len,
                layout,
            },
        )
    }
}

/// What the painter knows between two frames.
///
/// Exactly one mapping is trusted at a time: the claim draws through the boot
/// page table's linear map, the rebind draws through the kernel page table, and
/// the freeze sits between them so the painter can never write through a mapping
/// the running page table does not have.
#[derive(Clone, Copy, Debug)]
pub struct EarlyScreen {
    /// The aperture's physical address, kept so the kernel page table can map the
    /// same surface after the boot page table is gone.
    pub physical: usize,
    /// Virtual address of the aperture's first byte.
    pub base: usize,
    pub width: u32,
    pub height: u32,
    pub pitch: u32,
    pub len: usize,
    /// The pixel layout as one word.
    pub layout: u64,
    /// Whether the aperture has been claimed and described.
    pub claimed: bool,
    /// Whether the mapping the painter writes through is live right now.
    pub mapped: bool,
    /// Whether that mapping is cacheable, so a frame must be flushed after it.
    pub cacheable: bool,
    /// Whether a paint is in progress, which is also the re-entrancy guard.
    pub painting: bool,
    /// Rows the last frame used.
    pub painted_rows: usize,
    /// Whether any frame has been drawn yet.
    pub painted_once: bool,
}

/// A frame that may be drawn now.
#[derive(Clone, Copy, Debug)]
pub struct Frame {
    pub view: TextView,
    pub base: usize,
    pub previous: Option<usize>,
}

impl EarlyScreen {
    /// The surface that the painter would write into.
    pub open spec fn view(self) -> TextView {
        TextView {
            width: self.width,
            height: self.height,
            pitch: self.pitch,
            len: self.len,
            layout: unpacked(self.layout),
        }
    }

    /// The last frame lies inside the surface.
    pub open spec fn wf(self) -> bool {
        self.painted_rows <= self.view().row_count()
    }

    /// Whether the page table the painter would write through is the one the CPU
    /// is running on.
    pub open spec fn is_live(self) -> bool {
        self.claimed && self.mapped
    }

    pub fn new() -> (screen: EarlyScreen)
        ensures
            screen.wf(),
            !screen.claimed,
            !screen.mapped,
            !screen.painting,
            !screen.painted_once,
    {
        EarlyScreen {
            physical: 0,
            base: 0,
            width: 0,
            height: 0,
            pitch: 0,
            len: 0,
            layout: 0,
            claimed: false,
            mapped: false,
            cacheable: false,
            painting: false,
            painted_rows: 0,
            painted_once: false,
        }
    }

    /// Take a claimed aperture whose first byte is mapped at `base`.  A second
    /// claim changes nothing.
    pub fn claim_boot_linear_map(&mut self, claim: Claim, base: usize)
        requires
            old(self).wf(),
            !old(self).claimed ==> old(self).painted_rows == 0,
        ensures
            final(self).wf(),
            old(self).claimed ==> *final(self) == *old(self),
            !old(self).claimed ==> *final(self) == (EarlyScreen {
                physical: claim.address,
                base,
                width: claim.width,
                height: claim.height,
                pitch: claim.pitch,
                len: claim.len,
                layout: packed(claim.layout),
                claimed: true,
                mapped: true,
                cacheable: true,
                ..*old(self)
            }),
    {
        if self.claimed {
            return ;
        }
        self.physical = claim.address;
        self.width = claim.width;
        self.height = claim.height;
        self.pitch = claim.pitch;
        self.len = claim.len;
        self.layout = pack_layout(claim.layout);
        self.base = base;
        self.mapped = true;
        self.cacheable = true;
        self.claimed = true;
    }

    /// Stop painting because the mapping the painter uses is about to go away.
    pub fn boot_freeze(&mut self)
        ensures
            *final(self) == (EarlyScreen { mapped: false, ..*old(self) }),
    {
        self.mapped = false;
    }

    /// The physical range that the kernel page table has to map, if an aperture
    /// was claimed.
    pub fn rebind_range(&self) -> (range: Option<(usize, usize)>)
        ensures
            range == (if self.claimed {
                Some((self.physical, self.len))
            } else {
                None
            }),
    {
        if !self.claimed {
            return None;
        }
        Some((self.physical, self.len))
    }

    /// Start painting again once the kernel page table maps the aperture, at the
    /// same linear address as before and device-uncached, so frames need no
    /// flush.  A failed mapping leaves the screen frozen: the frame painted before
    /// the switch stays on the display, which is more use than a fault inside the
    /// memory-management path.
    pub fn paging_rebind(&mut self, aperture_mapped: bool)
        ensures
            *final(self) == (if old(self).claimed && aperture_mapped {
                EarlyScreen { cacheable: false, mapped: true, ..*old(self) }
            } else {
                *old(self)
            }),
    {
        if !self.claimed || !aperture_mapped {
            return ;
        }
        self.cacheable = false;
        self.mapped = true;
    }

    /// The surface the painter would write into, and where it starts.
    ///
    /// `None` means the frame must not be drawn at all: either nothing has been
    /// claimed, or the page table the painter would write through is not the one
    /// the CPU is running on.
    pub fn live(&self) -> (surface: Option<(TextView, usize)>)
        ensures
            surface == (if self.is_live() {
                Some((self.view(), self.base))
            } else {
                None
            }),
    {
        if !self.claimed || !self.mapped {
            return None;
        }
        let view = TextView {
            width: self.width,
            height: self.height,
            pitch: self.pitch,
            len: self.len,
            layout: unpack_layout(self.layout),
        };
        Some((view, self.base))
    }

    /// Begin a frame, if one may be drawn.
    ///
    /// Repainting while another CPU is already painting is dropped rather than
    /// waited for: the frame in progress is at least as new as this one's inputs,
    /// and the panic path must never spin on a peer which may itself be stopped.
    pub fn begin_frame(&mut self) -> (frame: Option<Frame>)
        requires
            old(self).wf(),
        ensures
            final(self).wf(),
            frame is Some <==> old(self).is_live() && old(self).base != 0 && !old(self).painting,
            frame is None ==> *final(self) == *old(self),
            frame matches Some(f) ==> {
                &&& f.view == old(self).view()
                &&& f.base == old(self).base
                &&& f.previous == (if old(self).painted_once {
                    Some(old(self).painted_rows)
                } else {
                    None
                })
                &&& *final(self) == (EarlyScreen { painting: true, painted_once: true, ..*old(self) })
            },
    {
        let (view, base) = match self.live() {
            Some(surface) => surface,
            None => {
                return None;
            },
        };
        if base == 0 || self.painting {
            return None;
        }
        self.painting = true;
        let previous: Option<usize> = if self.painted_once {
            Some(self.painted_rows)
        } else {
            None
        };
        self.painted_once = true;
        Some(Frame { view, base, previous })
    }

    /// End a frame, and say how many bytes of the surface have to be flushed.
    pub fn end_frame(&mut self, frame: &Frame, painted: Painted) -> (flush: Option<u64>)
        requires
            old(self).wf(),
            frame.view == old(self).view(),
            painted.used <= frame.view.row_count(),
            painted.dirty <= u32::MAX,
        ensures
            final(self).wf(),
            *final(self) == (EarlyScreen {
                painting: false,
                painted_rows: painted.used,
                ..*old(self)
            }),
            flush is Some <==> old(self).cacheable,
            flush matches Some(bytes) ==> bytes == painted.dirty * frame.view.pitch,
    {
        self.painted_rows = painted.used;
        self.painting = false;
        if self.cacheable {
            assert(painted.dirty * frame.view.pitch <= 0xffff_ffff * 0xffff_ffff)
                by (nonlinear_arith)
                requires
                    painted.dirty <= 0xffff_ffff,
                    frame.view.pitch <= 0xffff_ffff,
            ;
            assert(0 <= painted.dirty * frame.view.pitch) by (nonlinear_arith)
                requires
                    0 <= painted.dirty,
                    0 <= frame.view.pitch,
            ;
            Some(painted.dirty as u64 * frame.view.pitch as u64)
        } else {
            None
        }
    }
}

/// What a status line holds after the heading and as much of a name as fits.
pub open spec fn status_text(name: Seq<u8>) -> Seq<u8> {
    "THEKERNEL  ".spec_bytes() + name.subrange(
        0,
        boundary_floor(name, smaller(name.len() as int, 116)),
    )
}

/// The status line for the step the runtime is about to run.
pub fn milestone_status(name: &str) -> (status: BoundedText<128>)
    ensures
        status.wf(),
        status.text() == status_text(name.spec_bytes()),
        status.truncated == (boundary_floor(
            name.spec_bytes(),
            smaller(name.spec_bytes().len() as int, 116),
        ) != name.spec_bytes().len()),
{
    let mut status = BoundedText::<128>::new();
    proof {
        heading_length();
    }
    status.write_str("THEKERNEL  ");
    proof {
        let heading = "THEKERNEL  ".spec_bytes();
        assert(heading.subrange(0, 11) =~= heading);
        assert(Seq::<u8>::empty() + heading =~= heading);
        assert(status.text().len() == 11);
    }
    status.write_str(name);
    status
}

proof fn heading_length()
    ensures
        "THEKERNEL  ".spec_bytes().len() == 11,
        boundary_floor("THEKERNEL  ".spec_bytes(), 11) == 11,
{
    reveal_strlit("THEKERNEL  ");
    vstd::utf8::is_ascii_chars_encode_utf8("THEKERNEL  "@);
    vstd::utf8::encode_utf8_valid_utf8("THEKERNEL  "@);
    vstd::utf8::is_char_boundary_start_end_of_seq("THEKERNEL  ".spec_bytes());
}

/// A frozen screen is never painted, and every frame that is painted goes
/// through the mapping that the claim or the rebind made live.
pub proof fn law_a_frozen_screen_is_not_painted(screen: EarlyScreen)
    ensures
        !(EarlyScreen { mapped: false, ..screen }).is_live(),
        screen.claimed ==> (EarlyScreen { cacheable: false, mapped: true, ..screen }).is_live(),
{
}

/// A surface can be claimed exactly where all of it lies within what the boot page table maps, and
/// not at address zero.
pub proof fn law_what_the_boot_map_reaches(fb: BootFramebuffer)
    requires
        fb.drawable(),
        fb.address + fb.byte_len->0 <= usize::MAX,
    ensures
        claimable(fb) == (fb.address != 0 && fb.address + fb.byte_len->0 <= 512 * 1024 * 1024
            * 1024),
{
}

/// A status line is the heading and a beginning of the name: all of it where it is short and its
/// end is that of a letter.
pub proof fn law_a_status_line_names_its_step(name: Seq<u8>, i: int)
    requires
        0 <= boundary_floor(name, smaller(name.len() as int, 116)) <= smaller(
            name.len() as int,
            116,
        ),
    ensures
        status_text(name).len() <= 127,
        status_text(name).subrange(0, 11) == seq![84u8, 72, 69, 75, 69, 82, 78, 69, 76, 32, 32],
        11 <= i < status_text(name).len() ==> status_text(name)[i] == name[i - 11],
        name.len() <= 116 && boundary_floor(name, name.len() as int) == name.len() ==> status_text(
            name,
        ).len() == 11 + name.len(),
{
    heading_length();
    reveal_strlit("THEKERNEL  ");
    vstd::utf8::is_ascii_chars_encode_utf8("THEKERNEL  "@);
    assert("THEKERNEL  ".spec_bytes() =~= seq![84u8, 72, 69, 75, 69, 82, 78, 69, 76, 32, 32]);
    assert(status_text(name).subrange(0, 11) =~= seq![84u8, 72, 69, 75, 69, 82, 78, 69, 76, 32, 32]);
}

} // verus!
