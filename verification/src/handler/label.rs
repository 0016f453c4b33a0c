use vstd::prelude::*;

use crate::handler::{DrawError, Handler, Orientation};
use crate::surface::{sp_draw_text, Raster, Surface, BLACK};

verus! {

/// A handler that draws a single text label onto the page: the smallest
/// useful content producer, and the shape most dashboard handlers take.
pub struct LabelHandler {
    pub x: i32,
    pub y: i32,
    pub text: String,
}

impl Handler for LabelHandler {
    type Data = ();

    open spec fn draw_spec(&self, s: Raster, data: ()) -> Result<Raster, Seq<char>> {
        Ok(sp_draw_text(s, self.x as int, self.y as int, self.text@, 2, BLACK))
    }

    open spec fn orientation_spec() -> Orientation {
        Orientation::Landscape
    }

    fn draw(&self, surface: &mut Surface, data: ()) -> (r: Result<(), DrawError>) {
        surface.draw_text(self.x, self.y, self.text.as_str(), 2, BLACK);
        Ok(())
    }

    fn orientation() -> (r: Orientation) {
        Orientation::Landscape
    }

    proof fn draw_spec_preserves_dims(&self, s: Raster, data: ()) {
        crate::surface::lemma_draw_text_wf(s, self.x as int, self.y as int, self.text@, 2, BLACK);
    }
}


/// A label-drawing handler whose content is composed in portrait: its
/// pages are never rotated, whatever the target device.
pub struct PortraitLabelHandler {
    pub x: i32,
    pub y: i32,
    pub text: String,
}

impl Handler for PortraitLabelHandler {
    type Data = ();

    open spec fn draw_spec(&self, s: Raster, data: ()) -> Result<Raster, Seq<char>> {
        Ok(sp_draw_text(s, self.x as int, self.y as int, self.text@, 2, BLACK))
    }

    open spec fn orientation_spec() -> Orientation {
        Orientation::Portrait
    }

    fn draw(&self, surface: &mut Surface, data: ()) -> (r: Result<(), DrawError>) {
        surface.draw_text(self.x, self.y, self.text.as_str(), 2, BLACK);
        Ok(())
    }

    fn orientation() -> (r: Orientation) {
        Orientation::Portrait
    }

    proof fn draw_spec_preserves_dims(&self, s: Raster, data: ()) {
        crate::surface::lemma_draw_text_wf(s, self.x as int, self.y as int, self.text@, 2, BLACK);
    }
}

} // verus!
