//! The framebuffer device and the console that draws into it.

use pseudofs::bootfb::{range_within, copy_into};
use pseudofs::error::Error;
use pseudofs::fb::{
    cmap_channel_bytes, cmap_channel_source, cmap_channel_values, color_map_from_user_bytes,
    current_var_screen_info, decode_ioctl, default_pseudo_palette, fb_sysfs_registration,
    fix_screen_info, fix_screen_info_to_user_bytes, get_pseudo_palette, pan_request,
    pseudo_palette_range, put_var_screen_info, read_span, rgb8_to_u16, set_pseudo_palette,
    var_screen_info_from_user_bytes, var_screen_info_to_user_bytes, write_span, ColorMap,
    DamageTracker, DisplayCore, FbIoctl, FbconFrame, FrameBufferBitfield, Geometry, MasterChange,
    CONSOLE_INK, DAMAGE_CLEAN, DAMAGE_FULL, FB_DEVICE_ID,
};
use pseudofs::scanout::{ColorChannel, PixelLayout};

/// The 16-bit RGB565 layout a firmware may report for a 16-bit GOP mode.
const RGB565: PixelLayout = PixelLayout {
    bits: 16,
    red: ColorChannel {
        position: 11,
        size: 5,
    },
    green: ColorChannel {
        position: 5,
        size: 6,
    },
    blue: ColorChannel {
        position: 0,
        size: 5,
    },
};

/// A scanout surface with no DRM device and no display hardware behind it.
///
/// It stands in for the linear aperture a firmware programs, which is the only
/// display a machine without a virtio-gpu device can have.
struct MemorySurface {
    bytes: Vec<u8>,
    geometry: Geometry,
    presents: u64,
    master: bool,
}

impl MemorySurface {
    /// A surface in the virtio-gpu layout, which is what the reference display
    /// device produces.
    fn new(width: u32, height: u32) -> Self {
        Self::with_layout(width, height, PixelLayout::b8g8r8a8())
    }

    /// A surface in an arbitrary layout, standing in for a firmware framebuffer
    /// whose GOP mode is not 32 bits deep.
    fn with_layout(width: u32, height: u32, layout: PixelLayout) -> Self {
        let pitch = width * layout.bytes_per_pixel();
        Self {
            bytes: vec![0; (pitch * height) as usize],
            geometry: Geometry {
                width,
                height,
                pitch,
                virtual_height: height,
                yoffset: 0,
                layout,
            },
            presents: 0,
            master: true,
        }
    }
}

fn geometry() -> Geometry {
    Geometry {
        width: 64,
        height: 48,
        pitch: 256,
        virtual_height: 96,
        yoffset: 5,
        layout: PixelLayout::b8g8r8a8(),
    }
}

#[test]
fn damage_tracker_coalesces_and_clears() {
    let mut damage = DamageTracker::new();
    damage.mark(32, 8, 128);
    damage.mark(8, 16, 128);
    assert_eq!(damage.take(), ((8u64) << 32) | 40);
    assert_eq!(damage.take(), DAMAGE_CLEAN);
}

#[test]
fn damage_tracker_clamps_and_marks_full() {
    let mut damage = DamageTracker::new();
    damage.mark(120, 32, 128);
    assert_eq!(damage.take(), ((120u64) << 32) | 128);
    damage.mark_full();
    assert_eq!(damage.take(), DAMAGE_FULL);
}

#[test]
fn damage_outside_the_surface_is_ignored() {
    let mut damage = DamageTracker::new();
    damage.mark(128, 1, 128);
    damage.mark(4, 0, 128);
    assert_eq!(damage.take(), DAMAGE_CLEAN);
}

#[test]
fn framebuffer_sysfs_registration_matches_the_fbdev_uevent_identity() {
    let registration = fb_sysfs_registration();
    assert_eq!(registration.root, b"virtual");
    assert_eq!(registration.subsystem, b"graphics");
    assert_eq!(registration.name, b"fb0");
    assert_eq!(registration.node, Some((FB_DEVICE_ID, b"fb0".to_vec())));
    assert_eq!(registration.device_type, b"graphics");
    assert_eq!(FB_DEVICE_ID, (29, 0));
    assert!(registration.attributes.is_empty());
    assert_eq!(registration.parent, None);
}

#[test]
fn fbdev_console_drives_a_surface_with_no_drm_device() {
    // `/dev/fb0` has to exist on a machine whose only display is a
    // firmware-programmed aperture, so the fbdev path is exercised here
    // over a surface with no DRM device anywhere behind it.  If this ever
    // needs a `DrmDevice` to pass, the seam has been closed again.
    let mut surface = MemorySurface::new(64, 48);
    let mut core = DisplayCore::new(surface.bytes.len());

    // Geometry comes from the surface, not from a DRM mode: a firmware
    // framebuffer has no refresh rate to report and must not be given one.
    let var = current_var_screen_info(&surface.geometry);
    assert_eq!((var.xres, var.yres), (64, 48));
    assert_eq!(var.xres_virtual, 64);
    assert_eq!(var.xres_virtual * 4, surface.geometry.pitch);
    assert_eq!(core.size, 64 * 4 * 48);

    // A write through the surface contract lands in the surface.
    let at = range_within(0, 4, core.size).unwrap();
    copy_into(&mut surface.bytes, at.start, &[0x11, 0x22, 0x33, 0x44]);
    assert_eq!(&surface.bytes[..4], &[0x11, 0x22, 0x33, 0x44]);
    let readback = surface.bytes[at].to_vec();
    assert_eq!(readback, [0x11, 0x22, 0x33, 0x44]);

    // Publication keeps one meaning across backends: damage accumulates and
    // the commit point is what asks the surface to present.
    assert_eq!(surface.presents, 0);
    core.mark_full();
    if core.begin_commit() {
        surface.presents += 1;
        core.end_commit(true);
    }
    assert_eq!(surface.presents, 1);
    assert!(!core.begin_commit());

    // The console's ownership of the seat follows the same contract.
    assert!(surface.master);
    surface.master = core.vt_graphics_changed(true) != MasterChange::Yield;
    assert!(!surface.master);
}

#[test]
fn console_writes_pixels_at_the_surfaces_own_depth() {
    // On a 16-bit framebuffer four bytes per pixel would walk the surface at
    // twice the correct stride and paint a garbled screen -- and on a machine
    // whose only output device is that screen, a garbled console is
    // indistinguishable from a kernel that never booted.
    let mut surface = MemorySurface::with_layout(4, 2, RGB565);
    let frame = FbconFrame {
        size: 16,
        width: 4,
        height: 2,
        pitch: 8,
        bytes_per_pixel: 2,
    };

    // White at column 3 of row 1 belongs in the last two bytes, and every
    // byte before it must stay untouched.
    frame.write_pixel(&RGB565, &mut surface.bytes, 3, 1, 0x00ff_ffff);
    let bytes = &surface.bytes;
    assert_eq!(&bytes[14..16], &[0xff, 0xff]);
    assert!(bytes[..14].iter().all(|byte| *byte == 0));
}

#[test]
fn console_pixel_write_stops_at_the_surface_end() {
    // A frame whose geometry claims a column beyond the surface must clip
    // rather than run past the mapping it was given.
    let mut surface = MemorySurface::with_layout(2, 1, RGB565);
    let frame = FbconFrame {
        size: 4,
        width: 2,
        height: 1,
        pitch: 4,
        bytes_per_pixel: 2,
    };
    frame.write_pixel(&RGB565, &mut surface.bytes, 2, 0, 0x00ff_ffff);
    assert!(surface.bytes.iter().all(|byte| *byte == 0));
}

#[test]
fn the_console_draws_a_glyph_in_its_ink() {
    let frame = FbconFrame {
        size: 8 * 16 * 4,
        width: 8,
        height: 16,
        pitch: 32,
        bytes_per_pixel: 4,
    };
    let layout = PixelLayout::b8g8r8a8();
    let mut bytes = vec![0xa5u8; 8 * 16 * 4];
    frame.clear(&layout, &mut bytes, 0);
    assert!(bytes.iter().all(|byte| *byte == 0));
    frame.glyph(&layout, &mut bytes, 0, 0, b'|');
    let inked = bytes.chunks(4).filter(|pixel| *pixel == CONSOLE_INK.to_le_bytes()).count();
    assert_eq!(inked, 14);
    // A byte with no glyph is drawn blank.
    frame.glyph(&layout, &mut bytes, 0, 0, 0x07);
    assert!(bytes.iter().all(|byte| *byte == 0));
}

#[test]
fn a_mode_survives_its_byte_image() {
    let g = geometry();
    let var = current_var_screen_info(&g);
    assert_eq!(var.yres_virtual, 96);
    assert_eq!(var.yoffset, 5);
    assert_eq!(var.bits_per_pixel, 32);
    assert_eq!(var.red, FrameBufferBitfield { offset: 16, length: 8, msb_right: 0 });
    assert_eq!(var.transp, FrameBufferBitfield { offset: 24, length: 8, msb_right: 0 });
    let image = var_screen_info_to_user_bytes(var);
    assert_eq!(&image[..8], &[64, 0, 0, 0, 48, 0, 0, 0]);
    assert_eq!(&image[32..36], &[16, 0, 0, 0]);
    let request = var_screen_info_from_user_bytes(&image);
    assert_eq!((request.xres, request.yres), (64, 48));
    assert_eq!((request.xres_virtual, request.yres_virtual), (64, 96));
    assert_eq!((request.xoffset, request.yoffset), (0, 5));
    assert_eq!(request.bits_per_pixel, 32);
}

#[test]
fn only_the_current_mode_can_be_set() {
    let g = geometry();
    let image = var_screen_info_to_user_bytes(current_var_screen_info(&g));
    assert_eq!(put_var_screen_info(&image, &g), Ok(image));
    let mut wider = image;
    wider[0] = 65;
    assert_eq!(put_var_screen_info(&wider, &g), Err(Error::InvalidInput));
    // A pan may change the line, and nothing else.
    let mut panned = image;
    panned[20] = 40;
    assert_eq!(put_var_screen_info(&panned, &g), Err(Error::InvalidInput));
    assert_eq!(pan_request(&panned, &g), Ok(40));
    panned[16] = 1;
    assert_eq!(pan_request(&panned, &g), Err(Error::InvalidInput));
}

#[test]
fn the_fixed_description_names_the_device() {
    let image = fix_screen_info_to_user_bytes(fix_screen_info(12288, 256));
    assert_eq!(&image[..10], b"DRM fbdev\0");
    assert_eq!(&image[24..28], &12288u32.to_le_bytes());
    assert_eq!(&image[36..40], &2u32.to_le_bytes());
    assert_eq!(&image[48..52], &256u32.to_le_bytes());
}

#[test]
fn palette_entries_are_read_back_with_their_high_bytes() {
    let mut palette = default_pseudo_palette();
    assert_eq!(palette[0], 0xff00_0000);
    assert_eq!(palette[15], 0xffff_ffff);
    set_pseudo_palette(
        &mut palette,
        3,
        &vec![0x1234, 0xffff],
        &vec![0x5678, 0],
        &vec![0x9abc, 0x8000],
        &None,
    );
    assert_eq!(palette[3], 0xff12_569a);
    assert_eq!(palette[4], 0xffff_0080);
    assert_eq!(palette[5], 0xffaa_00aa);
    assert_eq!(get_pseudo_palette(&palette, 3, 5, 16), vec![0x1212, 0xffff]);
    assert_eq!(get_pseudo_palette(&palette, 3, 5, 24), vec![0xffff, 0xffff]);
    set_pseudo_palette(
        &mut palette,
        0,
        &vec![0],
        &vec![0],
        &vec![0],
        &Some(vec![0x7fff]),
    );
    assert_eq!(palette[0], 0x7f00_0000);
    assert_eq!(rgb8_to_u16(0xab), 0xabab);
}

#[test]
fn palette_requests_name_entries_that_exist() {
    let mut image = [0u8; 40];
    image[0] = 14;
    image[4] = 2;
    image[8] = 1;
    image[16] = 2;
    image[24] = 3;
    let cmap = color_map_from_user_bytes(&image);
    assert_eq!(cmap, ColorMap { start: 14, len: 2, red: 1, green: 2, blue: 3, transp: 0 });
    assert_eq!(pseudo_palette_range(cmap), Ok(14..16));
    assert_eq!(pseudo_palette_range(ColorMap { len: 3, ..cmap }), Err(Error::InvalidInput));
    assert_eq!(pseudo_palette_range(ColorMap { blue: 0, ..cmap }), Err(Error::InvalidInput));
    assert_eq!(
        pseudo_palette_range(ColorMap { len: 0, red: 0, ..cmap }),
        Ok(14..14)
    );
    assert_eq!(cmap_channel_source(0x1000, 2), Ok((0x1000, 4)));
    assert_eq!(cmap_channel_source(0, 2), Err(Error::InvalidInput));
    assert_eq!(cmap_channel_values(&[0x34, 0x12, 0xff, 0]), vec![0x1234, 0xff]);
    assert_eq!(cmap_channel_bytes(&vec![0x1234, 0xff]), vec![0x34, 0x12, 0xff, 0]);
}

#[test]
fn a_suspended_display_keeps_its_damage() {
    let mut core = DisplayCore::new(128);
    assert!(core.mark_write(8, 4));
    assert!(!core.mark_write(16, 4), "a refresh is already scheduled");
    core.suspend_refresh();
    assert!(!core.take_scheduled());
    assert!(!core.begin_commit());
    assert!(!core.mark_full());
    assert!(core.resume_refresh());
    assert!(core.take_scheduled());
    assert!(core.begin_commit());
    // A presentation that failed is owed again.
    assert!(core.end_commit(false));
    assert!(core.begin_commit());
    assert!(!core.end_commit(true));
    assert!(!core.begin_commit());
    assert_eq!(core.vt_graphics_changed(false), MasterChange::Restore);
    assert!(!core.vt_master_changed(MasterChange::Restore, false));
    core.take_scheduled();
    assert!(core.vt_master_changed(MasterChange::Restore, true));
}

#[test]
fn spans_stay_inside_the_surface() {
    assert_eq!(read_span(4, 100, 16), (4, 12));
    assert_eq!(read_span(400, 100, 16), (16, 0));
    assert_eq!(write_span(4, 100, 16), Ok((4, 12)));
    assert_eq!(write_span(4, 2, 16), Ok((4, 2)));
    assert_eq!(write_span(16, 1, 16), Err(Error::StorageFull));
}

#[test]
fn commands_are_told_apart() {
    assert_eq!(decode_ioctl(0x4600, 0), Ok(FbIoctl::GetVar));
    assert_eq!(decode_ioctl(0x4601, 0), Ok(FbIoctl::PutVar));
    assert_eq!(decode_ioctl(0x4602, 0), Ok(FbIoctl::GetFix));
    assert_eq!(decode_ioctl(0x4604, 0), Ok(FbIoctl::GetCmap));
    assert_eq!(decode_ioctl(0x4605, 0), Ok(FbIoctl::PutCmap));
    assert_eq!(decode_ioctl(0x4606, 0), Ok(FbIoctl::Pan));
    assert_eq!(decode_ioctl(0x4611, 0), Ok(FbIoctl::Blank(false)));
    assert_eq!(decode_ioctl(0x4611, 4), Ok(FbIoctl::Blank(true)));
    assert_eq!(decode_ioctl(0x4611, 5), Err(Error::OperationNotSupported));
    assert_eq!(decode_ioctl(0x4603, 0), Err(Error::NotATty));
}
