use vstd::prelude::*;

verus! {

use crate::ascii_bros::{Color, Ident};

/// Number of glyph cells in one square tile.
pub const TILE_AREA: usize = 4;

/// Side length of a square tile: the integer square root of `TILE_AREA`.
pub const STRIDE: usize = 2;

/// The glyph contents of one tile: `TILE_AREA` bytes in row-major order
/// (all glyphs of the tile's first row, then of its second row).
#[derive(Clone, Copy)]
pub struct PixBuf(pub [u8; TILE_AREA]);

impl View for PixBuf {
    type V = Seq<u8>;

    open spec fn view(&self) -> Seq<u8> {
        self.0@
    }
}

impl PixBuf {
    /// Wraps a row-major block of glyph bytes.
    pub fn new(bytes: [u8; TILE_AREA]) -> (buf: Self)
        ensures
            buf@ == bytes@,
    {
        PixBuf(bytes)
    }

    /// The glyph bytes in order, as a fresh vector.
    pub fn iter(&self) -> (bytes: Vec<u8>)
        ensures
            bytes@ == self@,
    {
        let mut bytes: Vec<u8> = Vec::new();
        bytes.push(self.0[0]);
        bytes.push(self.0[1]);
        bytes.push(self.0[2]);
        bytes.push(self.0[3]);
        proof {
            assert(bytes@ =~= self@);
        }
        bytes
    }

    /// The glyph at position `idx` of the row-major scan.
    pub fn get(&self, idx: usize) -> (byte: u8)
        requires
            idx < TILE_AREA,
        ensures
            byte == self@[idx as int],
    {
        self.0[idx]
    }
}

impl PartialEq for PixBuf {
    /// Byte-for-byte equality of the glyph contents.
    fn eq(&self, other: &Self) -> (r: bool) {
        let r = self.0[0] == other.0[0] && self.0[1] == other.0[1] && self.0[2] == other.0[2]
            && self.0[3] == other.0[3];
        proof {
            if r {
                assert(self.0@ =~= other.0@);
            }
        }
        r
    }
}

impl Eq for PixBuf {

}

impl vstd::std_specs::cmp::PartialEqSpecImpl for PixBuf {
    open spec fn obeys_eq_spec() -> bool {
        true
    }

    open spec fn eq_spec(&self, other: &PixBuf) -> bool {
        self@ == other@
    }
}

/// One deduplicated glyph/color block of the atlas.
#[derive(Clone, Copy)]
pub struct Tile {
    /// The tile's unique identifier, assigned by the atlas on insertion.
    pub id: Ident,
    /// The color attribute of each glyph cell, parallel to `pix_buf`.
    pub color_buf: [Color; TILE_AREA],
    /// The glyph contents, in row-major order.
    pub pix_buf: PixBuf,
}

impl Tile {
    pub fn new(id: Ident, color_buf: [Color; TILE_AREA], pix_buf: PixBuf) -> (tile: Self)
        ensures
            tile == (Tile { id, color_buf, pix_buf }),
    {
        Tile { id, color_buf, pix_buf }
    }
}

} // verus!
