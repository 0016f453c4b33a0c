use vstd::prelude::*;

use crate::handler::{DrawError, Handler, Orientation};
use crate::surface::{sp_fill_rect, Raster, Surface};

verus! {

/// The built-in diagnostic handler: paints the whole page a solid
/// black, full bleed. Served as a device-calibration / screen-clear
/// image, through the identical pipeline as every other handler.
pub struct BlackoutHandler;

impl Handler for BlackoutHandler {
    type Data = ();

    open spec fn draw_spec(&self, s: Raster, data: ()) -> Result<Raster, Seq<char>> {
        Ok(sp_fill_rect(s, 0, 0, s.width, s.height, 0u8))
    }

    open spec fn orientation_spec() -> Orientation {
        Orientation::Landscape
    }

    fn draw(&self, surface: &mut Surface, data: ()) -> (r: Result<(), DrawError>) {
        let w: i32 = surface.width();
        let h: i32 = surface.height();
        surface.fill_rect(0, 0, w, h, 0u8);
        Ok(())
    }

    fn orientation() -> (r: Orientation) {
        Orientation::Landscape
    }

    proof fn draw_spec_preserves_dims(&self, s: Raster, data: ()) {
        crate::surface::lemma_fill_rect_pix(s, 0, 0, s.width, s.height, 0u8, 0, 0);
    }
}

} // verus!
