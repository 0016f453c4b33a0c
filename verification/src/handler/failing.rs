use vstd::prelude::*;

use crate::handler::{DrawError, Handler, Orientation};
use crate::surface::{Raster, Surface};

verus! {

/// A handler whose drawing phase always fails with a fixed cause:
/// exercises the pipeline's guarantee that every failure still ends in
/// a rendered diagnostic page.
pub struct FailingHandler {
    pub message: String,
}

impl Handler for FailingHandler {
    type Data = ();

    open spec fn draw_spec(&self, s: Raster, data: ()) -> Result<Raster, Seq<char>> {
        Err(self.message@)
    }

    open spec fn orientation_spec() -> Orientation {
        Orientation::Landscape
    }

    fn draw(&self, surface: &mut Surface, data: ()) -> (r: Result<(), DrawError>) {
        Err(DrawError { message: self.message.clone() })
    }

    fn orientation() -> (r: Orientation) {
        Orientation::Landscape
    }

    proof fn draw_spec_preserves_dims(&self, s: Raster, data: ()) {
    }
}

} // verus!
