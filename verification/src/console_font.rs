//! The 8x16 bitmap font that both text surfaces draw with.
//!
//! One cell is [`GLYPH_WIDTH`] by [`GLYPH_HEIGHT`] pixels, and a row byte carries
//! its leftmost pixel in the most significant bit.  The table holds each glyph as
//! seven rows of five pixels; [`glyph`] doubles every row and keeps one blank row
//! above and below, so no glyph can reach the border of its cell.

use vstd::prelude::*;

verus! {

/// Rows in one glyph cell.
pub const GLYPH_HEIGHT: usize = 16;

/// Columns in one glyph cell.
pub const GLYPH_WIDTH: usize = 8;

/// First byte the font has a glyph for.
pub const FIRST_BYTE: u8 = 0x20;

/// Last byte the font has a glyph for.
pub const LAST_BYTE: u8 = 0x7e;

/// The drawn part of every glyph, from [`FIRST_BYTE`] on: seven rows of five
/// pixels, the top left pixel in bit 34 and the bottom right one in bit 0.
pub const GLYPHS: [u64; 95] = [
    0x000000000, 0x108421004, 0x294a00000, 0x295f57d4a, 0x11f4717c4,
    0x632222263, 0x32544564d, 0x308800000, 0x088842082, 0x208210888,
    0x0144f9140, 0x0084f9080, 0x000003088, 0x0000f8000, 0x00000018c,
    0x002222200, 0x3a33ae62e, 0x11842108e, 0x3a211111f, 0x7c441062e,
    0x08ca97c42, 0x7e1e0862e, 0x1910f462e, 0x7c2222108, 0x3a317462e,
    0x3a317844c, 0x018c03180, 0x018c03088, 0x088882082, 0x001f07c00,
    0x208208888, 0x3a2111004, 0x3a216d6ae, 0x11518fe31, 0x7a31f463e,
    0x3a308422e, 0x72518c65c, 0x7e10f421f, 0x7e10f4210, 0x3a30bc62f,
    0x4631fc631, 0x38842108e, 0x1c4210a4c, 0x4654c5251, 0x42108421f,
    0x4775ac631, 0x4639ace31, 0x3a318c62e, 0x7a31f4210, 0x3a318d64d,
    0x7a31f5251, 0x3e107043e, 0x7c8421084, 0x46318c62e, 0x46318c544,
    0x4631ad6aa, 0x462a22a31, 0x463151084, 0x7c222221f, 0x39084210e,
    0x020820820, 0x38421084e, 0x115100000, 0x00000001f, 0x208200000,
    0x000e0be2f, 0x4216cc63e, 0x000e8422e, 0x042d9c62f, 0x000e8fe0e,
    0x1928e2108, 0x01f18bc2e, 0x4216cc631, 0x100c2108e, 0x080610a4c,
    0x4212a6292, 0x30842108e, 0x001aad631, 0x0016cc631, 0x000e8c62e,
    0x001e8fa10, 0x000d9bc21, 0x0016cc210, 0x000e8383e, 0x211c42126,
    0x00118c66d, 0x00118c544, 0x00118d6aa, 0x001151151, 0x00118bc2e,
    0x001f1111f, 0x088441082, 0x108421084, 0x208411088, 0x0008a8800,
];

/// Whether the font has a glyph for `byte`.
pub open spec fn has_glyph(byte: u8) -> bool {
    FIRST_BYTE <= byte <= LAST_BYTE
}

/// The bit of a table word at which drawn row `row` of a cell starts.
pub open spec fn row_shift(row: int) -> u64 {
    (30 - 5 * ((row - 1) / 2)) as u64
}

/// One expanded row of a table word: five pixels, one blank column before them
/// and two after.
pub open spec fn expand_row(word: u64, shift: u64) -> u8 {
    (((word >> shift) & 0x1f) << 2) as u8
}

/// Row `row` of the cell for `byte`, which [`has_glyph`].
pub open spec fn glyph_row(byte: u8, row: int) -> u8 {
    if 1 <= row <= 14 {
        expand_row(GLYPHS@[byte - FIRST_BYTE], row_shift(row))
    } else {
        0
    }
}

/// Row `row` of what is drawn for `byte`: blank where the font has no glyph.
pub open spec fn cell_row(byte: u8, row: int) -> u8 {
    if has_glyph(byte) {
        glyph_row(byte, row)
    } else {
        0
    }
}

/// Whether the pixel in column `dx` of a cell row is lit.
pub open spec fn pixel_lit(line: u8, dx: u8) -> bool {
    line & (0x80u8 >> dx) != 0
}

/// The row bitmap for `byte`, or `None` when the font has no glyph for it.
///
/// A caller which gets `None` draws nothing.  The console is handed control
/// bytes, UTF-8 continuation bytes and bytes outside the font's range, and a
/// substitute box for each of them would bury the text around them.
pub fn glyph(byte: u8) -> (rows: Option<[u8; 16]>)
    ensures
        rows is Some <==> has_glyph(byte),
        rows matches Some(bits) ==> forall|row: int|
            0 <= row < 16 ==> #[trigger] bits@[row] == glyph_row(byte, row),
{
    if byte < FIRST_BYTE || byte > LAST_BYTE {
        return None;
    }
    let word: u64 = GLYPHS[(byte - FIRST_BYTE) as usize];
    let mut rows: [u8; 16] = [0; 16];
    let mut row: usize = 1;
    while row < 15
        invariant
            1 <= row <= 15,
            word == GLYPHS@[byte - FIRST_BYTE],
            forall|r: int| 1 <= r < row ==> #[trigger] rows@[r] == glyph_row(byte, r),
            forall|r: int| row <= r < 16 ==> #[trigger] rows@[r] == 0,
            rows@[0] == 0,
        decreases 15 - row,
    {
        let shift: u64 = 30 - 5 * ((row as u64 - 1) / 2);
        rows[row] = #[verifier::truncate]
        ((((word >> shift) & 0x1f) << 2) as u8);
        row = row + 1;
    }
    Some(rows)
}

/// Every table word holds at most 35 pixels, and only the space holds none.
proof fn table_words(index: int)
    requires
        0 <= index < 95,
    ensures
        GLYPHS@[index] < 0x8_0000_0000u64,
        GLYPHS@[index] == 0 <==> index == 0,
{
}

/// The seven rows of a table word hold all of it.
proof fn rows_determine_word(a: u64, b: u64)
    requires
        a < 0x8_0000_0000u64,
        b < 0x8_0000_0000u64,
        a != b,
    ensures
        exists|row: int| 1 <= row <= 14 && expand_row(a, row_shift(row)) != #[trigger] expand_row(b, row_shift(row)),
{
    assert(((((a >> 30) & 0x1f) << 2) as u8) != ((((b >> 30) & 0x1f) << 2) as u8)
        || ((((a >> 25) & 0x1f) << 2) as u8) != ((((b >> 25) & 0x1f) << 2) as u8)
        || ((((a >> 20) & 0x1f) << 2) as u8) != ((((b >> 20) & 0x1f) << 2) as u8)
        || ((((a >> 15) & 0x1f) << 2) as u8) != ((((b >> 15) & 0x1f) << 2) as u8)
        || ((((a >> 10) & 0x1f) << 2) as u8) != ((((b >> 10) & 0x1f) << 2) as u8)
        || ((((a >> 5) & 0x1f) << 2) as u8) != ((((b >> 5) & 0x1f) << 2) as u8)
        || ((((a >> 0) & 0x1f) << 2) as u8) != ((((b >> 0) & 0x1f) << 2) as u8)) by (bit_vector)
        requires
            a < 0x8_0000_0000u64,
            b < 0x8_0000_0000u64,
            a != b,
    ;
    assert(row_shift(1) == 30 && row_shift(3) == 25 && row_shift(5) == 20 && row_shift(7) == 15
        && row_shift(9) == 10 && row_shift(11) == 5 && row_shift(13) == 0);
    assert(expand_row(a, row_shift(1)) != expand_row(b, row_shift(1))
        || expand_row(a, row_shift(3)) != expand_row(b, row_shift(3))
        || expand_row(a, row_shift(5)) != expand_row(b, row_shift(5))
        || expand_row(a, row_shift(7)) != expand_row(b, row_shift(7))
        || expand_row(a, row_shift(9)) != expand_row(b, row_shift(9))
        || expand_row(a, row_shift(11)) != expand_row(b, row_shift(11))
        || expand_row(a, row_shift(13)) != expand_row(b, row_shift(13)));
}

/// The most significant bit of a row is its leftmost pixel, and each pixel to the right is the
/// next lower bit.
pub proof fn law_the_top_bit_is_the_leftmost_pixel(line: u8, dx: u8)
    requires
        dx < 8,
    ensures
        pixel_lit(line, dx) <==> (line >> ((7 - dx) as u8)) % 2 == 1,
        pixel_lit(line, 0) <==> line >= 128,
        pixel_lit(line, 7) <==> line % 2 == 1,
{
    assert((line & (0x80u8 >> dx) != 0) == ((line >> ((7 - dx) as u8)) % 2 == 1)) by (bit_vector)
        requires
            dx < 8,
    ;
    assert((line & (0x80u8 >> 0) != 0) == (line >= 128) && (line & (0x80u8 >> 7) != 0) == (line % 2
        == 1)) by (bit_vector);
}

/// The pixels of a cell are those of the table: five columns behind the first, seven rows of two
/// lines each below the first line, the top left one in bit 34 of the table word and the bottom
/// right one in bit 0.  All others are blank.
pub proof fn law_a_cell_is_its_table_word(byte: u8, dx: u8, dy: int)
    requires
        dx < 8,
        0 <= dy < 16,
    ensures
        has_glyph(byte) && 1 <= dx <= 5 && 1 <= dy <= 14 ==> (pixel_lit(cell_row(byte, dy), dx)
            <==> (GLYPHS@[byte - 0x20] >> ((34 - 5 * ((dy - 1) / 2) - (dx - 1)) as u64)) % 2 == 1),
        !has_glyph(byte) || dx < 1 || dx > 5 || dy < 1 || dy > 14 ==> !pixel_lit(
            cell_row(byte, dy),
            dx,
        ),
        has_glyph(byte) <==> 0x20 <= byte <= 0x7e,
{
    if has_glyph(byte) && 1 <= dy <= 14 {
        let word = GLYPHS@[byte - FIRST_BYTE];
        let shift = row_shift(dy);
        assert(shift <= 30);
        assert({
            let row = (((word >> shift) & 0x1f) << 2) as u8;
            &&& 1 <= dx <= 5 ==> (row & (0x80u8 >> dx) != 0) == ((word >> ((shift + 5
                - dx) as u64)) % 2 == 1)
            &&& dx < 1 || dx > 5 ==> row & (0x80u8 >> dx) == 0
        }) by (bit_vector)
            requires
                dx < 8u8,
                shift <= 30u64,
        ;
    } else {
        assert(0u8 & (0x80u8 >> dx) == 0) by (bit_vector);
    }
}

/// Every printable glyph except the space has ink, and the space has none.
pub proof fn law_printable_glyphs_have_ink(byte: u8)
    requires
        has_glyph(byte),
    ensures
        byte != 0x20 ==> exists|row: int| 0 <= row < 16 && #[trigger] glyph_row(byte, row) != 0,
        byte == 0x20 ==> forall|row: int| 0 <= row < 16 ==> #[trigger] glyph_row(byte, row) == 0,
{
    let index = byte - FIRST_BYTE;
    table_words(index);
    assert forall|shift: u64| shift < 64 implies #[trigger] expand_row(0, shift) == 0 by {
        assert((((0u64 >> shift) & 0x1f) << 2) as u8 == 0) by (bit_vector)
            requires
                shift < 64,
        ;
    }
    if byte != 0x20 {
        rows_determine_word(GLYPHS@[index], 0);
        let row = choose|row: int|
            1 <= row <= 14 && expand_row(GLYPHS@[index], row_shift(row)) != #[trigger] expand_row(
                0,
                row_shift(row),
            );
        assert(glyph_row(byte, row) != 0);
    }
}

/// No glyph inks the top row, the bottom row or the rightmost column of its
/// cell, so neighbouring characters never run together.
pub proof fn law_no_glyph_touches_the_cell_border(byte: u8, row: int)
    requires
        has_glyph(byte),
        0 <= row < 16,
    ensures
        row == 0 || row == 15 ==> glyph_row(byte, row) == 0,
        !pixel_lit(glyph_row(byte, row), 7),
{
    let word = GLYPHS@[byte - FIRST_BYTE];
    let shift = row_shift(row);
    if 1 <= row <= 14 {
        assert(((((word >> shift) & 0x1f) << 2) as u8) & (0x80u8 >> 7) == 0) by (bit_vector)
            requires
                shift < 64,
        ;
    } else {
        assert(0u8 & (0x80u8 >> 7) == 0) by (bit_vector);
    }
}

/// Two different printable bytes never share a glyph; a lowercase letter in
/// particular is not drawn as its uppercase form.
pub proof fn law_glyphs_are_distinct(a: u8, b: u8)
    requires
        has_glyph(a),
        has_glyph(b),
        a != b,
    ensures
        exists|row: int| 0 <= row < 16 && glyph_row(a, row) != #[trigger] glyph_row(b, row),
{
    table_words(a - FIRST_BYTE);
    table_words(b - FIRST_BYTE);
    table_distinct(a - FIRST_BYTE, b - FIRST_BYTE);
    rows_determine_word(GLYPHS@[a - FIRST_BYTE], GLYPHS@[b - FIRST_BYTE]);
    let row = choose|row: int|
        1 <= row <= 14 && expand_row(GLYPHS@[a - FIRST_BYTE], row_shift(row)) != #[trigger] expand_row(
            GLYPHS@[b - FIRST_BYTE],
            row_shift(row),
        );
    assert(glyph_row(a, row) != glyph_row(b, row));
}

proof fn table_distinct(i: int, j: int)
    requires
        0 <= i < 95,
        0 <= j < 95,
        i != j,
    ensures
        GLYPHS@[i] != GLYPHS@[j],
{
}

} // verus!
