use vstd::prelude::*;

use crate::surface::{Raster, Surface};

pub mod blackout;
pub mod error;
pub mod failing;
pub mod label;

verus! {

/// The natural content orientation a handler's drawing code assumes.
/// A static property of the handler type, not of a request.
#[derive(Clone, Copy, Debug, PartialEq, Eq, Structural)]
pub enum Orientation {
    Portrait,
    Landscape,
}

/// Failure of a handler's data-loading phase: an ordered chain of cause
/// strings, outermost first.
#[derive(Debug, Clone)]
pub struct LoadError {
    pub chain: Vec<String>,
}

/// Failure of a handler's drawing phase, with a descriptive cause.
#[derive(Debug, Clone)]
pub struct DrawError {
    pub message: String,
}

/// The capability every content producer implements: a synchronous,
/// CPU-bound drawing phase over data produced by a separate (possibly
/// suspending) loading phase, plus a declared natural orientation.
///
/// The loading phase lives with the caller: it may perform I/O and is
/// run exactly once per request before the pipeline is entered, and the
/// pipeline receives its outcome as a plain value.
///
/// `draw_spec` pins the exact effect of `draw`, so a handler's drawing
/// is a function of the page it is given and the loaded data alone;
/// rendering is therefore deterministic end to end.
pub trait Handler: Sized {
    /// The content produced by the loading phase and consumed by the
    /// drawing phase.
    type Data;

    /// The mathematical effect of `draw` on a page: the resulting
    /// raster, or the failure message.
    spec fn draw_spec(&self, s: Raster, data: Self::Data) -> Result<Raster, Seq<char>>;

    /// The orientation `draw` composes for.
    spec fn orientation_spec() -> Orientation;

    /// Write the page content for `data` into `surface`. Must leave the
    /// surface dimensions unchanged.
    fn draw(&self, surface: &mut Surface, data: Self::Data) -> (r: Result<(), DrawError>)
        requires
            old(surface)@.wf(),
        ensures
            final(surface)@.wf(),
            final(surface)@.width == old(surface)@.width,
            final(surface)@.height == old(surface)@.height,
            match r {
                Ok(()) => self.draw_spec(old(surface)@, data) == Ok::<Raster, Seq<char>>(
                    final(surface)@,
                ),
                Err(e) => self.draw_spec(old(surface)@, data) == Err::<Raster, Seq<char>>(
                    e.message@,
                ),
            },
    ;

    /// The declared natural orientation of this handler type, read once
    /// per request to decide whether post-render rotation applies.
    fn orientation() -> (r: Orientation)
        ensures
            r == Self::orientation_spec(),
    ;

    /// A handler's drawing never changes the page dimensions: the law
    /// every implementation proves of its own `draw_spec`, so that the
    /// pipeline's dimension guarantees hold for every handler.
    proof fn draw_spec_preserves_dims(&self, s: Raster, data: Self::Data)
        requires
            s.wf(),
        ensures
            match self.draw_spec(s, data) {
                Ok(t) => t.wf() && t.width == s.width && t.height == s.height,
                Err(_) => true,
            },
    ;
}

} // verus!
