//! How a display surface packs a pixel.

use vstd::prelude::*;

verus! {

/// The bits of a pixel that one colour component occupies.
#[derive(Clone, Copy, Debug, PartialEq, Eq, Structural)]
pub struct ColorChannel {
    /// The lowest bit of the field.
    pub position: u8,
    /// The number of bits in the field.
    pub size: u8,
}

/// The depth of a pixel and the place of its three colour components.
#[derive(Clone, Copy, Debug, PartialEq, Eq, Structural)]
pub struct PixelLayout {
    pub bits: u8,
    pub red: ColorChannel,
    pub green: ColorChannel,
    pub blue: ColorChannel,
}

/// The eight-bit component of a `0x00rrggbb` colour that starts at bit `shift`.
pub open spec fn component(color: u32, shift: u32) -> u32 {
    (color >> shift) & 0xff
}

/// An eight-bit component scaled to `size` bits: the high bits are kept, and a
/// wider field is filled with zeroes below.
pub open spec fn scaled(value: u32, size: u8) -> u32 {
    if size <= 8 {
        value >> ((8 - size) as u32)
    } else {
        value << ((size - 8) as u32)
    }
}

impl ColorChannel {
    /// Whether the field lies inside a pixel of `bits` bits and holds anything.
    pub open spec fn fits(self, bits: int) -> bool {
        self.size != 0 && self.position + self.size <= bits
    }

    /// The field's share of an encoded pixel.  A field that does not lie inside
    /// a 32-bit word has none.
    pub open spec fn field(self, value: u32) -> u32 {
        if self.fits(32) {
            scaled(value, self.size) << (self.position as u32)
        } else {
            0
        }
    }

    fn encode_field(self, value: u32) -> (field: u32)
        ensures
            field == self.field(value),
    {
        if self.size == 0 || self.position as u32 + self.size as u32 > 32 {
            return 0;
        }
        let wide: u32 = if self.size <= 8 {
            value >> ((8 - self.size) as u32)
        } else {
            value << ((self.size - 8) as u32)
        };
        wide << (self.position as u32)
    }
}

/// Bytes needed for `bits` bits.
pub open spec fn bytes_for_bits(bits: int) -> int {
    (bits + 7) / 8
}

/// Byte `index` of the little-endian form of `word`.
pub open spec fn le_byte(word: u32, index: int) -> u8 {
    (word >> ((8 * index) as u32)) as u8
}

impl PixelLayout {
    /// The 32-bit layout whose little-endian word is the colour value itself.
    pub fn b8g8r8a8() -> (layout: PixelLayout)
        ensures
            layout.bits == 32,
            layout.red == (ColorChannel { position: 16, size: 8 }),
            layout.green == (ColorChannel { position: 8, size: 8 }),
            layout.blue == (ColorChannel { position: 0, size: 8 }),
    {
        PixelLayout {
            bits: 32,
            red: ColorChannel { position: 16, size: 8 },
            green: ColorChannel { position: 8, size: 8 },
            blue: ColorChannel { position: 0, size: 8 },
        }
    }

    /// Bytes one pixel occupies on the surface.
    pub open spec fn depth(self) -> int {
        bytes_for_bits(self.bits as int)
    }

    /// The encoded form of a colour.
    pub open spec fn encoded(self, color: u32) -> u32 {
        self.red.field(component(color, 16)) | self.green.field(component(color, 8))
            | self.blue.field(component(color, 0))
    }

    /// The bytes of one encoded pixel, where a pixel fits in a word.
    pub open spec fn pattern(self, color: u32) -> Seq<u8> {
        Seq::new(self.depth() as nat, |i: int| le_byte(self.encoded(color), i))
    }

    /// Whether a pixel has a depth that can be written as part of one word.
    pub open spec fn encodable(self) -> bool {
        1 <= self.depth() <= 4
    }

    /// Bytes one pixel occupies on the surface.
    pub fn bytes_per_pixel(&self) -> (bytes: u32)
        ensures
            bytes == self.depth(),
    {
        (self.bits as u32 + 7) / 8
    }

    /// The pixel word of a colour.
    pub fn encode(&self, color: u32) -> (word: u32)
        ensures
            word == self.encoded(color),
    {
        self.red.encode_field((color >> 16) & 0xff) | self.green.encode_field((color >> 8) & 0xff)
            | self.blue.encode_field((color >> 0) & 0xff)
    }

    /// Writes the little-endian bytes of an encoded pixel into the front of
    /// `pixel` and returns how many there are: the surface's own depth, and
    /// never more than a word.
    pub fn encode_into(&self, color: u32, pixel: &mut [u8; 4]) -> (written: usize)
        ensures
            written == (if self.depth() <= 4 { self.depth() } else { 4 }),
            forall|i: int|
                0 <= i < 4 ==> #[trigger] final(pixel)@[i] == (if i < written {
                    le_byte(self.encoded(color), i)
                } else {
                    old(pixel)@[i]
                }),
    {
        let word: u32 = self.encode(color);
        let depth: usize = self.bytes_per_pixel() as usize;
        let count: usize = if depth <= 4 { depth } else { 4 };
        let mut index: usize = 0;
        while index < count
            invariant
                index <= count <= 4,
                word == self.encoded(color),
                forall|i: int|
                    0 <= i < 4 ==> #[trigger] pixel@[i] == (if i < index {
                        le_byte(word, i)
                    } else {
                        old(pixel)@[i]
                    }),
            decreases count - index,
        {
            pixel[index] = #[verifier::truncate]
            ((word >> ((8 * index) as u32)) as u8);
            index = index + 1;
        }
        count
    }

    /// The first bit above every colour field.
    pub open spec fn colour_end(self) -> int {
        let red = self.red.position + self.red.size;
        let green = self.green.position + self.green.size;
        let blue = self.blue.position + self.blue.size;
        if red >= green && red >= blue {
            red
        } else if green >= blue {
            green
        } else {
            blue
        }
    }

    /// The field above the colour components, if they leave one.
    pub fn spare_field(&self) -> (spare: Option<ColorChannel>)
        ensures
            spare is Some <==> self.colour_end() < self.bits,
            spare matches Some(channel) ==> channel.position == self.colour_end()
                && channel.position + channel.size == self.bits,
    {
        let red: u32 = self.red.position as u32 + self.red.size as u32;
        let green: u32 = self.green.position as u32 + self.green.size as u32;
        let blue: u32 = self.blue.position as u32 + self.blue.size as u32;
        let end: u32 = if red >= green && red >= blue {
            red
        } else if green >= blue {
            green
        } else {
            blue
        };
        if end < self.bits as u32 {
            Some(ColorChannel { position: end as u8, size: self.bits - end as u8 })
        } else {
            None
        }
    }
}

/// A component keeps its value in a field of eight bits; a field with one bit less loses the lowest
/// bit, and one with a bit more gets a zero below.
pub proof fn law_a_component_keeps_its_high_bits(value: u32, size: u8)
    requires
        value < 256,
        0 < size < 24,
    ensures
        scaled(value, 8) == value,
        scaled(value, size) == scaled(value, (size + 1) as u8) / 2,
        size >= 8 ==> scaled(value, (size + 1) as u8) % 2 == 0,
{
    if size < 8 {
        let more = (8 - size) as u32;
        let less = (8 - size - 1) as u32;
        assert(value >> more == (value >> less) / 2 && value >> 0 == value) by (bit_vector)
            requires
                more == less + 1,
                more <= 8u32,
        ;
    } else {
        let less = (size - 8) as u32;
        let more = (size - 8 + 1) as u32;
        assert(value << less == (value << more) / 2 && (value << more) % 2 == 0 && value >> 0
            == value && value << 0 == value) by (bit_vector)
            requires
                more == less + 1,
                more <= 16u32,
                value < 256u32,
        ;
    }
}

/// The three components of a colour are its red, green and blue bytes, from the highest down.
pub proof fn law_a_colour_has_three_bytes(red: u8, green: u8, blue: u8)
    ensures
        ({
            let color = (red * 0x1_0000 + green * 0x100 + blue) as u32;
            &&& component(color, 16) == red
            &&& component(color, 8) == green
            &&& component(color, 0) == blue
        }),
{
    let color = (red * 0x1_0000 + green * 0x100 + blue) as u32;
    assert((color >> 16) & 0xff == red as u32 && (color >> 8) & 0xff == green as u32 && (color >> 0)
        & 0xff == blue as u32) by (bit_vector)
        requires
            color == (red * 0x1_0000 + green * 0x100 + blue) as u32,
    ;
}

/// Whether two fields share no bit.
pub open spec fn apart(a: ColorChannel, b: ColorChannel) -> bool {
    a.position + a.size <= b.position || b.position + b.size <= a.position
}

proof fn field_reads_back(value: u32, position: u32, size: u32, a: u32, ap: u32, az: u32, b: u32, bp: u32, bz: u32)
    requires
        0 < size <= 8,
        position + size <= 32,
        0 < az <= 8,
        ap + az <= 32,
        0 < bz <= 8,
        bp + bz <= 32,
        position + size <= ap || ap + az <= position,
        position + size <= bp || bp + bz <= position,
        value < 256,
        a < 256,
        b < 256,
    ensures
        ((((value >> ((8 - size) as u32)) << position) | ((a >> ((8 - az) as u32)) << ap) | ((b >> ((8
            - bz) as u32)) << bp)) >> position) & (((1u32 << size) - 1) as u32) == value >> ((8
            - size) as u32),
{
    assert(((((value >> ((8 - size) as u32)) << position) | ((a >> ((8 - az) as u32)) << ap) | ((b
        >> ((8 - bz) as u32)) << bp)) >> position) & (((1u32 << size) - 1) as u32) == value >> ((8
        - size) as u32)) by (bit_vector)
        requires
            0 < size <= 8u32,
            position + size <= 32,
            0 < az <= 8u32,
            ap + az <= 32,
            0 < bz <= 8u32,
            bp + bz <= 32,
            position + size <= ap || ap + az <= position,
            position + size <= bp || bp + bz <= position,
            value < 256u32,
            a < 256u32,
            b < 256u32,
    ;
}

/// A pixel holds each component in its own field: what is read from the field of a colour is the
/// component of that colour, scaled to the field, whatever the others are.
pub proof fn law_each_field_holds_its_component(layout: PixelLayout, red: u8, green: u8, blue: u8)
    requires
        layout.red.fits(32) && layout.red.size <= 8,
        layout.green.fits(32) && layout.green.size <= 8,
        layout.blue.fits(32) && layout.blue.size <= 8,
        apart(layout.red, layout.green),
        apart(layout.red, layout.blue),
        apart(layout.green, layout.blue),
    ensures
        ({
            let word = layout.encoded((red * 0x1_0000 + green * 0x100 + blue) as u32);
            &&& (word >> (layout.red.position as u32)) & (((1u32 << (layout.red.size as u32))
                - 1) as u32) == scaled(red as u32, layout.red.size)
            &&& (word >> (layout.green.position as u32)) & (((1u32 << (layout.green.size as u32))
                - 1) as u32) == scaled(green as u32, layout.green.size)
            &&& (word >> (layout.blue.position as u32)) & (((1u32 << (layout.blue.size as u32))
                - 1) as u32) == scaled(blue as u32, layout.blue.size)
        }),
{
    law_a_colour_has_three_bytes(red, green, blue);
    let (r, g, b) = (layout.red, layout.green, layout.blue);
    let (rf, gf, bf) = (
        r.field(red as u32),
        g.field(green as u32),
        b.field(blue as u32),
    );
    assert((rf | gf) | bf == (gf | rf) | bf && (rf | gf) | bf == (bf | rf) | gf) by (bit_vector);
    field_reads_back(
        red as u32,
        r.position as u32,
        r.size as u32,
        green as u32,
        g.position as u32,
        g.size as u32,
        blue as u32,
        b.position as u32,
        b.size as u32,
    );
    field_reads_back(
        green as u32,
        g.position as u32,
        g.size as u32,
        red as u32,
        r.position as u32,
        r.size as u32,
        blue as u32,
        b.position as u32,
        b.size as u32,
    );
    field_reads_back(
        blue as u32,
        b.position as u32,
        b.size as u32,
        red as u32,
        r.position as u32,
        r.size as u32,
        green as u32,
        g.position as u32,
        g.size as u32,
    );
}

/// The bytes of a pixel start with the lowest of its word, and there are as many as its bits need.
pub proof fn law_a_pixel_starts_with_its_lowest_byte(layout: PixelLayout, color: u32)
    requires
        layout.encodable(),
    ensures
        ({
            let bytes = layout.pattern(color);
            let word = layout.encoded(color);
            &&& 8 * bytes.len() >= layout.bits && 8 * (bytes.len() - 1) < layout.bits
            &&& bytes[0] == word % 0x100
            &&& bytes.len() > 1 ==> bytes[1] == word / 0x100 % 0x100
            &&& bytes.len() > 2 ==> bytes[2] == word / 0x1_0000 % 0x100
            &&& bytes.len() > 3 ==> bytes[3] == word / 0x100_0000
        }),
{
    let word = layout.encoded(color);
    assert((word >> 0) as u8 == word % 0x100 && (word >> 8) as u8 == word / 0x100 % 0x100 && (word
        >> 16) as u8 == word / 0x1_0000 % 0x100 && (word >> 24) as u8 == word / 0x100_0000)
        by (bit_vector);
}

} // verus!
