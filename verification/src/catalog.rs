//! The tile catalog: the candidate images a mosaic is built from.

use vstd::prelude::*;
use crate::color::Rgb;
use crate::raster::Raster;

verus! {

/// One candidate image: its identity, where it came from, its average colour
/// and its thumbnail.
#[derive(Debug)]
pub struct Tile {
    index: usize,
    path: String,
    avg: Rgb,
    img: Raster,
}

impl Tile {
    /// The identity of the tile: its position in the catalog it belongs to.
    pub closed spec fn identity(&self) -> nat {
        self.index as nat
    }

    /// The locator of the file the tile was made from.
    pub closed spec fn locator(&self) -> Seq<char> {
        self.path@
    }

    /// The average colour of the tile.
    pub closed spec fn average(&self) -> Rgb {
        self.avg
    }

    /// The thumbnail of the tile.
    pub closed spec fn thumbnail(&self) -> Raster {
        self.img
    }

    /// The identity of the tile.
    pub fn index(&self) -> (id: usize)
        ensures
            id == self.identity(),
    {
        self.index
    }

    /// The locator of the file the tile was made from.
    pub fn path(&self) -> (p: &String)
        ensures
            p@ == self.locator(),
    {
        &self.path
    }

    /// The average colour of the tile.
    pub fn avg(&self) -> (c: Rgb)
        ensures
            c == self.average(),
    {
        self.avg
    }

    /// The thumbnail of the tile.
    pub fn img(&self) -> (t: &Raster)
        ensures
            *t == self.thumbnail(),
    {
        &self.img
    }
}

/// The tiles of one rebuild, in the order in which they were taken in. Every
/// thumbnail is a square of `side()` pixels, and the tile at position `i` has
/// identity `i`.
#[derive(Debug)]
pub struct Catalog {
    tile_size: u32,
    tiles: Vec<Tile>,
}

impl Catalog {
    /// The tiles, in catalog order.
    pub closed spec fn tiles(&self) -> Seq<Tile> {
        self.tiles@
    }

    /// The side length of every thumbnail.
    pub closed spec fn side(&self) -> nat {
        self.tile_size as nat
    }

    /// Whether `tile` can stand at position `at` of a catalog with
    /// thumbnails of the given side length.
    pub open spec fn fits_at(side: nat, at: int, tile: Tile) -> bool {
        &&& tile.identity() == at
        &&& tile.thumbnail().wf()
        &&& tile.thumbnail().columns() == side
        &&& tile.thumbnail().rows() == side
    }

    /// Identities are positions, and every thumbnail has the catalog's size.
    pub open spec fn wf(&self) -> bool {
        forall|i: int|
            0 <= i < self.tiles().len() ==> Self::fits_at(self.side(), i, #[trigger] self.tiles()[i])
    }

    /// The average colours of the tiles, in catalog order.
    pub open spec fn colors(&self) -> Seq<Rgb> {
        Seq::new(self.tiles().len(), |i: int| self.tiles()[i].average())
    }

    /// An empty catalog for thumbnails of `tile_size * tile_size` pixels.
    pub fn new(tile_size: u32) -> (catalog: Catalog)
        ensures
            catalog.wf(),
            catalog.side() == tile_size,
            catalog.tiles().len() == 0,
    {
        Catalog { tile_size, tiles: Vec::new() }
    }

    /// The number of tiles.
    pub fn len(&self) -> (n: usize)
        ensures
            n == self.tiles().len(),
    {
        self.tiles.len()
    }

    /// The side length of every thumbnail.
    pub fn tile_size(&self) -> (side: u32)
        ensures
            side == self.side(),
    {
        self.tile_size
    }

    /// The tile with identity `id`, if the catalog has one.
    pub fn get(&self, id: usize) -> (found: Option<&Tile>)
        ensures
            found.is_some() <==> id < self.tiles().len(),
            found matches Some(tile) ==> *tile == self.tiles()[id as int],
    {
        if id < self.tiles.len() {
            Some(&self.tiles[id])
        } else {
            None
        }
    }

    /// The average colour of the tile with identity `id`.
    pub fn color(&self, id: usize) -> (c: Rgb)
        requires
            id < self.tiles().len(),
        ensures
            c == self.colors()[id as int],
    {
        self.tiles[id].avg
    }

    /// Appends a tile made of the given parts, under the next free identity.
    /// A thumbnail of the wrong size is refused and the catalog stays as it
    /// was.
    pub fn push(&mut self, path: String, avg: Rgb, thumbnail: Raster) -> (id: Option<usize>)
        requires
            old(self).wf(),
            thumbnail.wf(),
        ensures
            final(self).wf(),
            final(self).side() == old(self).side(),
            id.is_some() <==> thumbnail.columns() == old(self).side() && thumbnail.rows() == old(
                self,
            ).side(),
            id.is_none() ==> final(self).tiles() == old(self).tiles(),
            id matches Some(at) ==> {
                &&& at == old(self).tiles().len()
                &&& final(self).tiles().len() == old(self).tiles().len() + 1
                &&& final(self).tiles().drop_last() == old(self).tiles()
                &&& final(self).tiles().last().identity() == at
                &&& final(self).tiles().last().locator() == path@
                &&& final(self).tiles().last().average() == avg
                &&& final(self).tiles().last().thumbnail() == thumbnail
                &&& final(self).colors() == old(self).colors().push(avg)
            },
    {
        if thumbnail.width() != self.tile_size || thumbnail.height() != self.tile_size {
            return None;
        }
        let at: usize = self.tiles.len();
        self.tiles.push(Tile { index: at, path, avg, img: thumbnail });
        proof {
            assert(self.tiles().drop_last() =~= old(self).tiles());
            assert(self.colors() =~= old(self).colors().push(avg));
        }
        Some(at)
    }

    /// Takes in one file of a rebuild. The file becomes the next tile when
    /// both its average colour and a thumbnail of the catalog's size are at
    /// hand; otherwise it is passed over and the catalog stays as it was.
    pub fn enroll(&mut self, path: String, average: Option<Rgb>, thumbnail: Option<Raster>) -> (id:
        Option<usize>)
        requires
            old(self).wf(),
            thumbnail matches Some(t) ==> t.wf(),
        ensures
            final(self).wf(),
            final(self).side() == old(self).side(),
            id.is_some() <==> average.is_some() && (thumbnail matches Some(t) && t.columns() == old(
                self,
            ).side() && t.rows() == old(self).side()),
            id.is_none() ==> final(self).tiles() == old(self).tiles(),
            id matches Some(at) ==> {
                &&& at == old(self).tiles().len()
                &&& final(self).tiles().len() == old(self).tiles().len() + 1
                &&& final(self).tiles().drop_last() == old(self).tiles()
                &&& final(self).tiles().last().identity() == at
                &&& final(self).tiles().last().locator() == path@
                &&& Some(final(self).tiles().last().average()) == average
                &&& Some(final(self).tiles().last().thumbnail()) == thumbnail
                &&& final(self).colors() == old(self).colors().push(average.unwrap())
            },
    {
        match (average, thumbnail) {
            (Some(avg), Some(t)) => self.push(path, avg, t),
            _ => None,
        }
    }
}

} // verus!
