//! The firmware's framebuffer and the pixels it holds.

use pseudofs::bootfb::{pixel_layout, range_within, BootFb, BootFramebuffer};
use pseudofs::error::Error;
use pseudofs::scanout::{ColorChannel, PixelLayout};

/// A 4 x 2 surface of 16-bit pixels with a padded scan line.
fn framebuffer() -> BootFramebuffer {
    BootFramebuffer {
        address: 0x8000_0000,
        width: 4,
        height: 2,
        pitch: 10,
        bpp: 16,
        red: ColorChannel { position: 11, size: 5 },
        green: ColorChannel { position: 5, size: 6 },
        blue: ColorChannel { position: 0, size: 5 },
        byte_len: Some(20),
    }
}

#[test]
fn byte_range_never_leaves_the_surface() {
    assert_eq!(range_within(0, 4, 8), Some(0..4));
    assert_eq!(range_within(4, 4, 8), Some(4..8));
    // A zero-length access at the very end is still inside the surface.
    assert_eq!(range_within(8, 0, 8), Some(8..8));
    // One byte past the end is not.
    assert_eq!(range_within(4, 5, 8), None);
    assert_eq!(range_within(9, 0, 8), None);
}

#[test]
fn byte_range_refuses_instead_of_wrapping() {
    // A caller which computed a huge length must get no range at all, not
    // a wrapped one that lands back inside the surface.
    assert_eq!(range_within(usize::MAX - 1, 4, 8), None);
    assert_eq!(range_within(usize::MAX, 1, 8), None);
}

#[test]
fn a_surface_takes_what_the_firmware_described() {
    let surface = BootFb::new(&framebuffer()).unwrap();
    assert_eq!(surface.physical, 0x8000_0000);
    assert_eq!((surface.width, surface.height, surface.pitch), (4, 2, 10));
    assert_eq!(surface.size, 20);
    assert_eq!(surface.layout.bits, 16);
    assert_eq!(surface.virtual_height(), 2);
    assert_eq!(surface.mmap(), Some((0x8000_0000, 0x8000_0014)));
    assert_eq!(surface.pan(1), Err(Error::Unsupported));
}

#[test]
fn a_surface_that_cannot_be_written_is_refused() {
    let refused = |change: fn(&mut BootFramebuffer)| {
        let mut description = framebuffer();
        change(&mut description);
        assert_eq!(BootFb::new(&description).err(), Some(Error::InvalidInput));
    };
    refused(|fb| fb.bpp = 12);
    refused(|fb| fb.red.position = 12);
    refused(|fb| fb.green.size = 0);
    refused(|fb| fb.pitch = 7);
    refused(|fb| fb.byte_len = None);
    refused(|fb| fb.byte_len = Some(0));
    refused(|fb| fb.width = 0);
    refused(|fb| fb.height = 0);
    assert!(pixel_layout(&framebuffer()).is_ok());
}

#[test]
fn bytes_written_are_read_back() {
    let surface = BootFb::new(&framebuffer()).unwrap();
    let mut aperture = vec![0u8; 20];
    surface.write_bytes(&mut aperture, 16, &[1, 2, 3, 4]).unwrap();
    let mut read = [0u8; 4];
    surface.read_bytes(&aperture, 16, &mut read).unwrap();
    assert_eq!(read, [1, 2, 3, 4]);
    assert_eq!(surface.write_bytes(&mut aperture, 17, &[9; 4]), Err(Error::InvalidInput));
    assert_eq!(surface.read_bytes(&aperture, 17, &mut read), Err(Error::InvalidInput));
    assert_eq!(&aperture[16..], &[1, 2, 3, 4]);
}

#[test]
fn a_pixel_takes_the_depth_of_the_surface() {
    let surface = BootFb::new(&framebuffer()).unwrap();
    let mut aperture = vec![0u8; 20];
    surface.write_pixel(&mut aperture, 2, 0x00ff_0000);
    assert_eq!(&aperture[..5], &[0, 0, 0x00, 0xf8, 0]);
    // The last pixel that fits, and one that does not.
    surface.write_pixel(&mut aperture, 18, 0x00ff_ffff);
    assert_eq!(&aperture[18..], &[0xff, 0xff]);
    let before = aperture.clone();
    surface.write_pixel(&mut aperture, 19, 0);
    assert_eq!(aperture, before);
}

#[test]
fn colours_are_packed_by_their_fields() {
    let rgb565 = pixel_layout(&framebuffer()).unwrap();
    assert_eq!(rgb565.encode(0x00ff_ffff), 0xffff);
    assert_eq!(rgb565.encode(0x00ff_0000), 0xf800);
    assert_eq!(rgb565.encode(0x0000_ff00), 0x07e0);
    assert_eq!(rgb565.encode(0x0000_00ff), 0x001f);
    assert_eq!(rgb565.encode(0x0080_8080), 0x8410);
    assert_eq!(rgb565.bytes_per_pixel(), 2);
    assert_eq!(rgb565.spare_field(), None);

    let b8g8r8a8 = PixelLayout::b8g8r8a8();
    assert_eq!(b8g8r8a8.encode(0x0012_3456), 0x0012_3456);
    assert_eq!(b8g8r8a8.bytes_per_pixel(), 4);
    assert_eq!(b8g8r8a8.spare_field(), Some(ColorChannel { position: 24, size: 8 }));
    let mut pixel = [0xee; 4];
    assert_eq!(rgb565.encode_into(0x00ff_0000, &mut pixel), 2);
    assert_eq!(pixel, [0x00, 0xf8, 0xee, 0xee]);

    // Ten-bit fields get their component's bits at the top.
    let wide = PixelLayout {
        bits: 32,
        red: ColorChannel { position: 20, size: 10 },
        green: ColorChannel { position: 10, size: 10 },
        blue: ColorChannel { position: 0, size: 10 },
    };
    assert_eq!(wide.encode(0x00ff_0001), (0x3fc << 20) | 4);
}
