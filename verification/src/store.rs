//! The session: the catalog, the grid image, the canvas and the settings,
//! passed from one operation to the next.

use vstd::prelude::*;
use crate::catalog::Catalog;
use crate::codec::{base64_text, png_encoding};
use crate::color::Rgb;
use crate::config::Config;
use crate::mosaic::{assemble, is_canvas_of, match_cells, pass_outcomes};
use crate::raster::{rgba_bytes, Raster};
use crate::response::{answer_for, response_text, ResponseError};

verus! {

/// Why an operation of the session could not be carried out.
#[derive(Debug, PartialEq, Eq)]
pub enum StoreError {
    /// There is no grid image to match against.
    NoIntermediateImage,
    /// There is no canvas yet.
    NoOutputImage,
    /// The catalog was built for another block size than the settings ask
    /// for.
    StaleLibrary,
    /// The canvas would be larger than an image can be on this machine.
    CanvasTooLarge,
    /// The canvas was composed but could not be put into text.
    Response(ResponseError),
}

impl StoreError {
    /// The message for the caller.
    pub fn message(&self) -> (text: String)
        ensures
            self is NoIntermediateImage ==> text@ == "Intermediate image does not exist"@,
            self is NoOutputImage ==> text@ == "Output image does not exist"@,
            self is StaleLibrary ==> text@ == "Library was built for another tile size"@,
            self is CanvasTooLarge ==> text@ == "Output image is too large"@,
            self matches StoreError::Response(ResponseError::TooLarge) ==> text@
                == "Output image is too large to encode"@,
            self matches StoreError::Response(ResponseError::Codec(m)) ==> text@ == m@,
    {
        match self {
            StoreError::NoIntermediateImage => "Intermediate image does not exist".to_owned(),
            StoreError::NoOutputImage => "Output image does not exist".to_owned(),
            StoreError::StaleLibrary => "Library was built for another tile size".to_owned(),
            StoreError::CanvasTooLarge => "Output image is too large".to_owned(),
            StoreError::Response(ResponseError::TooLarge) => {
                "Output image is too large to encode".to_owned()
            },
            StoreError::Response(ResponseError::Codec(m)) => m.clone(),
        }
    }
}

/// Whether a canvas for a grid of `columns * rows` cells with blocks of
/// `size * size` pixels can be held: both sides fit an image, and its bytes,
/// four for each pixel, fit in memory.
pub open spec fn canvas_fits(columns: nat, rows: nat, size: nat) -> bool {
    &&& columns * size <= u32::MAX
    &&& rows * size <= u32::MAX
    &&& 4 * ((columns * size) * (rows * size)) <= usize::MAX
}

/// Decides whether a canvas of the given layout can be held.
pub fn does_canvas_fit(columns: u32, rows: u32, size: u32) -> (fits: bool)
    ensures
        fits == canvas_fits(columns as nat, rows as nat, size as nat),
{
    assert(columns * size <= u32::MAX * u32::MAX && rows * size <= u32::MAX * u32::MAX
        && columns * size >= 0 && rows * size >= 0) by (nonlinear_arith)
        requires
            0 <= columns <= u32::MAX,
            0 <= rows <= u32::MAX,
            0 <= size <= u32::MAX,
    ;
    let width: u64 = (columns as u64) * (size as u64);
    let height: u64 = (rows as u64) * (size as u64);
    if width > u32::MAX as u64 || height > u32::MAX as u64 {
        return false;
    }
    assert(width * height <= u32::MAX * u32::MAX) by (nonlinear_arith)
        requires
            0 <= width <= u32::MAX,
            0 <= height <= u32::MAX,
    ;
    let area: u64 = width * height;
    area <= (usize::MAX / 4) as u64
}

/// The state of one session.
#[derive(Debug)]
pub struct Store {
    library: Catalog,
    inter_img: Option<Raster>,
    output_img: Option<Raster>,
    config: Config,
}

impl Store {
    /// The catalog.
    pub closed spec fn library(&self) -> Catalog {
        self.library
    }

    /// The grid image: the source image brought down to the size of the
    /// grid.
    pub closed spec fn inter_img(&self) -> Option<Raster> {
        self.inter_img
    }

    /// The canvas of the last pass.
    pub closed spec fn output_img(&self) -> Option<Raster> {
        self.output_img
    }

    /// The settings.
    pub closed spec fn config(&self) -> Config {
        self.config
    }

    /// The catalog and both images are well formed.
    pub open spec fn wf(&self) -> bool {
        &&& self.library().wf()
        &&& self.inter_img() matches Some(grid) ==> grid.wf()
        &&& self.output_img() matches Some(canvas) ==> canvas.wf()
    }

    /// Whether the catalog holds tiles of another size than the settings
    /// ask for.
    pub open spec fn library_is_stale(&self) -> bool {
        self.library().tiles().len() > 0 && self.library().side() != self.config().subpixel_size
    }

    /// A session with the default settings, an empty catalog and no images.
    pub fn new() -> (store: Store)
        ensures
            store.wf(),
            store.config() == Config::initial(),
            store.library().tiles().len() == 0,
            store.library().side() == Config::initial().subpixel_size,
            store.inter_img().is_none(),
            store.output_img().is_none(),
    {
        let config = Config::default();
        Store {
            library: Catalog::new(config.subpixel_size),
            inter_img: None,
            output_img: None,
            config,
        }
    }

    /// The settings.
    pub fn get_config(&self) -> (config: Config)
        ensures
            config == self.config(),
    {
        self.config
    }

    /// Replaces the settings. The catalog and the images stay as they are.
    pub fn set_config(&mut self, new_config: Config)
        ensures
            final(self).config() == new_config,
            final(self).library() == old(self).library(),
            final(self).inter_img() == old(self).inter_img(),
            final(self).output_img() == old(self).output_img(),
    {
        self.config = new_config;
    }

    /// The catalog.
    pub fn catalog(&self) -> (catalog: &Catalog)
        ensures
            *catalog == self.library(),
    {
        &self.library
    }

    /// Starts a rebuild: drops every tile and gives the side length that the
    /// thumbnails of the new catalog must have, which is the block size of
    /// the settings.
    pub fn reset_library(&mut self) -> (side: u32)
        requires
            old(self).wf(),
        ensures
            final(self).wf(),
            side == old(self).config().subpixel_size,
            final(self).library().tiles().len() == 0,
            final(self).library().side() == side,
            final(self).config() == old(self).config(),
            final(self).inter_img() == old(self).inter_img(),
            final(self).output_img() == old(self).output_img(),
    {
        let side: u32 = self.config.subpixel_size;
        self.library = Catalog::new(side);
        side
    }

    /// Takes in one file of a rebuild, as `Catalog::enroll` does.
    pub fn enroll(&mut self, path: String, average: Option<Rgb>, thumbnail: Option<Raster>) -> (id:
        Option<usize>)
        requires
            old(self).wf(),
            thumbnail matches Some(t) ==> t.wf(),
        ensures
            final(self).wf(),
            final(self).config() == old(self).config(),
            final(self).inter_img() == old(self).inter_img(),
            final(self).output_img() == old(self).output_img(),
            final(self).library().side() == old(self).library().side(),
            id.is_some() <==> average.is_some() && (thumbnail matches Some(t) && t.columns() == old(
                self,
            ).library().side() && t.rows() == old(self).library().side()),
            id.is_none() ==> final(self).library().tiles() == old(self).library().tiles(),
            id matches Some(at) ==> {
                &&& at == old(self).library().tiles().len()
                &&& final(self).library().tiles().len() == at + 1
                &&& final(self).library().tiles().drop_last() == old(self).library().tiles()
                &&& final(self).library().tiles().last().locator() == path@
                &&& Some(final(self).library().tiles().last().average()) == average
                &&& Some(final(self).library().tiles().last().thumbnail()) == thumbnail
            },
    {
        self.library.enroll(path, average, thumbnail)
    }

    /// Puts the grid image in place.
    pub fn set_intermediate(&mut self, grid: Raster)
        requires
            old(self).wf(),
            grid.wf(),
        ensures
            final(self).wf(),
            final(self).inter_img() == Some(grid),
            final(self).config() == old(self).config(),
            final(self).library() == old(self).library(),
            final(self).output_img() == old(self).output_img(),
    {
        self.inter_img = Some(grid);
    }

    /// The grid image, or the reason why there is none.
    pub fn intermediate(&self) -> (grid: Result<&Raster, StoreError>)
        ensures
            match grid {
                Ok(g) => self.inter_img() == Some(*g),
                Err(e) => e is NoIntermediateImage && self.inter_img().is_none(),
            },
    {
        match &self.inter_img {
            Some(g) => Ok(g),
            None => Err(StoreError::NoIntermediateImage),
        }
    }

    /// The canvas of the last pass, or the reason why there is none.
    pub fn output(&self) -> (canvas: Result<&Raster, StoreError>)
        ensures
            match canvas {
                Ok(c) => self.output_img() == Some(*c),
                Err(e) => e is NoOutputImage && self.output_img().is_none(),
            },
    {
        match &self.output_img {
            Some(c) => Ok(c),
            None => Err(StoreError::NoOutputImage),
        }
    }

    /// Runs one pass over the grid image and composes the canvas.
    ///
    /// Without a grid image, with a catalog built for another block size, or
    /// for a canvas that cannot be held, nothing changes and the reason comes
    /// back. Otherwise the canvas of the pass becomes the output image, and
    /// the answer is that canvas in text, or the reason why it could not be
    /// put into text.
    pub fn refresh(&mut self) -> (answer: Result<String, StoreError>)
        requires
            old(self).wf(),
        ensures
            final(self).wf(),
            final(self).config() == old(self).config(),
            final(self).library() == old(self).library(),
            final(self).inter_img() == old(self).inter_img(),
            (answer matches Err(StoreError::NoIntermediateImage)) <==> old(
                self,
            ).inter_img().is_none(),
            (answer matches Err(StoreError::StaleLibrary)) <==> old(self).inter_img().is_some()
                && old(self).library_is_stale(),
            old(self).inter_img() matches Some(grid) ==> {
                let fits = canvas_fits(
                    grid.columns(),
                    grid.rows(),
                    old(self).config().subpixel_size as nat,
                );
                &&& (answer matches Err(StoreError::CanvasTooLarge)) <==> !old(
                    self,
                ).library_is_stale() && !fits
                &&& !old(self).library_is_stale() && fits ==> {
                    &&& final(self).output_img() matches Some(canvas)
                    &&& is_canvas_of(
                        canvas,
                        old(self).library().tiles(),
                        pass_outcomes(
                            old(self).library().colors(),
                            grid.pixels(),
                            old(self).config().unique_threshold as int,
                            old(self).config().prioritize_unique,
                        ),
                        grid.columns(),
                        grid.rows(),
                        old(self).config().subpixel_size as nat,
                    )
                    &&& (answer matches Ok(text) ==> text@ == response_text(
                        canvas.columns() as u32,
                        canvas.rows() as u32,
                        base64_text(
                            png_encoding(
                                canvas.columns() as u32,
                                canvas.rows() as u32,
                                rgba_bytes(canvas.pixels()),
                            ),
                        ),
                    ))
                    &&& (answer is Ok || answer matches Err(StoreError::Response(_)))
                }
            },
            final(self).output_img() == old(self).output_img() || answer is Ok
                || answer matches Err(StoreError::Response(_)),
    {
        let size: u32 = self.config.subpixel_size;
        let (results, columns, rows) = match &self.inter_img {
            None => {
                return Err(StoreError::NoIntermediateImage);
            },
            Some(grid) => {
                if self.library.len() > 0 && self.library.tile_size() != size {
                    return Err(StoreError::StaleLibrary);
                }
                if !does_canvas_fit(grid.width(), grid.height(), size) {
                    return Err(StoreError::CanvasTooLarge);
                }
                let results = match_cells(
                    &self.library,
                    grid,
                    self.config.unique_threshold,
                    self.config.prioritize_unique,
                );
                (results, grid.width(), grid.height())
            },
        };
        let canvas: Raster = assemble(&self.library, &results, columns, rows, size);
        let answer = answer_for(&canvas);
        self.output_img = Some(canvas);
        match answer {
            Ok(text) => Ok(text),
            Err(e) => Err(StoreError::Response(e)),
        }
    }
}

impl Default for Store {
    /// A session with the default settings, an empty catalog and no images.
    fn default() -> (store: Store)
        ensures
            store.wf(),
            store.config() == Config::initial(),
            store.library().tiles().len() == 0,
            store.library().side() == Config::initial().subpixel_size,
            store.inter_img().is_none(),
            store.output_img().is_none(),
    {
        Store::new()
    }
}

} // verus!
