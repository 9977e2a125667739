//! Bitmaps on the stage.

use crate::backend::{BitmapHandle, RenderBackend};
use crate::geometry::{BoundingBox, Twips};
use crate::movie_clip::CharacterId;
use vstd::prelude::*;

verus! {

/// The pixels that scripts draw into, and whether they changed since the
/// renderer last got them.
#[derive(Debug)]
pub struct BitmapData {
    pub width: u32,
    pub height: u32,
    pub pixels: Vec<u8>,
    pub dirty: bool,
}

/// A bitmap on the stage: a character, the bitmap that the renderer holds
/// for it, its size, and the pixels that scripts draw into, if there are any.
#[derive(Debug)]
pub struct Bitmap {
    pub id: CharacterId,
    pub bitmap_handle: BitmapHandle,
    pub width: u16,
    pub height: u16,
    pub bitmap_data: Option<BitmapData>,
}

impl Bitmap {
    pub fn new_with_bitmap_data(
        id: CharacterId,
        bitmap_handle: BitmapHandle,
        width: u16,
        height: u16,
        bitmap_data: Option<BitmapData>,
    ) -> (r: Bitmap)
        ensures
            r == (Bitmap { id, bitmap_handle, width, height, bitmap_data }),
    {
        Bitmap { id, bitmap_handle, width, height, bitmap_data }
    }

    pub fn new(id: CharacterId, bitmap_handle: BitmapHandle, width: u16, height: u16) -> (r: Bitmap)
        ensures
            r == (Bitmap { id, bitmap_handle, width, height, bitmap_data: None }),
    {
        Bitmap::new_with_bitmap_data(id, bitmap_handle, width, height, None)
    }

    pub fn id(&self) -> (r: CharacterId)
        ensures
            r == self.id,
    {
        self.id
    }

    pub fn bitmap_handle(&self) -> (r: BitmapHandle)
        ensures
            r == self.bitmap_handle,
    {
        self.bitmap_handle
    }

    pub fn width(&self) -> (r: u16)
        ensures
            r == self.width,
    {
        self.width
    }

    pub fn height(&self) -> (r: u16)
        ensures
            r == self.height,
    {
        self.height
    }

    /// The bounds of the bitmap: from the origin to its width and height.
    pub fn self_bounds(&self) -> (r: BoundingBox)
        ensures
            r == (BoundingBox {
                x_min: Twips(0),
                y_min: Twips(0),
                x_max: Twips(self.width as i32),
                y_max: Twips(self.height as i32),
                valid: true,
            }),
    {
        BoundingBox {
            x_min: Twips::new(0),
            y_min: Twips::new(0),
            x_max: Twips::new(self.width as i32),
            y_max: Twips::new(self.height as i32),
            valid: true,
        }
    }

    /// Whether a bitmap with the given bounds on the stage is drawn: it is
    /// unless it lies outside the view.
    pub fn is_in_view(world_bounds: &BoundingBox, view_bounds: &BoundingBox) -> (r: bool)
        ensures
            r == world_bounds.intersects_spec(*view_bounds),
    {
        world_bounds.intersects(view_bounds)
    }

    /// Runs a frame: hands the pixels to the renderer if they changed. After
    /// that they count as unchanged, whatever the renderer answered.
    pub fn run_frame<R: RenderBackend>(&mut self, renderer: &mut R)
        ensures
            final(self).id == old(self).id,
            final(self).bitmap_handle == old(self).bitmap_handle,
            final(self).width == old(self).width,
            final(self).height == old(self).height,
            match old(self).bitmap_data {
                Some(data) => final(self).bitmap_data matches Some(after) && !after.dirty
                    && after.width == data.width && after.height == data.height && after.pixels@
                    == data.pixels@,
                None => final(self).bitmap_data is None,
            },
    {
        let handle = self.bitmap_handle;
        match &mut self.bitmap_data {
            Some(data) => {
                if data.dirty {
                    let pixels = vstd::slice::slice_to_vec(data.pixels.as_slice());
                    let _ = renderer.update_texture(handle, data.width, data.height, pixels);
                    data.dirty = false;
                }
            },
            None => {},
        }
    }
}

} // verus!
