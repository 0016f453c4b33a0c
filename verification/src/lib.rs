//! Kindling: a render pipeline for dashboard images aimed at constrained
//! display clients (e-reader devices that can only show images).
//!
//! Callers implement the [`Handler`] capability; the pipeline turns a
//! handler's drawing into PNG bytes, reconciling the handler's natural
//! content orientation with the requested physical device target, and
//! falling back to a rendered diagnostic image whenever a handler fails,
//! so that every request is answered with a well-formed PNG.

use vstd::prelude::*;

pub mod font;
pub mod handler;
pub mod laws;
pub mod png;
pub mod surface;

pub use crate::handler::blackout::BlackoutHandler;
pub use crate::handler::error::ErrorHandler;
pub use crate::handler::failing::FailingHandler;
pub use crate::handler::label::{LabelHandler, PortraitLabelHandler};
pub use crate::handler::{DrawError, Handler, LoadError, Orientation};
pub use crate::png::{png_handler, RenderTarget};
pub use crate::surface::Surface;

verus! {

/// Largest accepted width or height of a page, in pixels. Keeps every
/// coordinate and buffer-size computation comfortably inside machine
/// integer ranges.
pub const MAX_DIM: i32 = 10000;

pub fn default_render_target() -> (r: RenderTarget)
    ensures
        r == RenderTarget::Browser,
{
    RenderTarget::Browser
}

pub fn default_width() -> (r: i32)
    ensures
        r == 754,
{
    754
}

pub fn default_height() -> (r: i32)
    ensures
        r == 1058,
{
    1058
}

/// Per-request page configuration: the physical delivery profile and the
/// logical page size the handler draws at.
#[derive(Clone, Copy, Debug, PartialEq, Eq, Structural)]
pub struct ImageParams {
    pub target: RenderTarget,
    pub width: i32,
    pub height: i32,
}

/// Invalid request parameters: a dimension outside the accepted range.
#[derive(Clone, Copy, Debug, PartialEq, Eq, Structural)]
pub enum ConfigError {
    NonPositiveDimension,
    OversizeDimension,
}

impl ConfigError {
    /// The display text of this error, as rendered into the diagnostic
    /// image.
    pub open spec fn message_spec(self) -> Seq<char> {
        match self {
            ConfigError::NonPositiveDimension => "image dimensions must be positive"@,
            ConfigError::OversizeDimension => "image dimensions are too large"@,
        }
    }

    pub fn message(&self) -> (r: String)
        ensures
            r@ == self.message_spec(),
    {
        match self {
            ConfigError::NonPositiveDimension => String::from_str("image dimensions must be positive"),
            ConfigError::OversizeDimension => String::from_str("image dimensions are too large"),
        }
    }
}

impl ImageParams {
    /// Both dimensions positive and within the accepted range.
    pub open spec fn valid(self) -> bool {
        0 < self.width <= MAX_DIM && 0 < self.height <= MAX_DIM
    }

    /// Validated constructor: rejects non-positive or oversize dimensions.
    pub fn new(target: RenderTarget, width: i32, height: i32) -> (r: Result<ImageParams, ConfigError>)
        ensures
            r is Ok <==> (0 < width <= MAX_DIM && 0 < height <= MAX_DIM),
            r matches Ok(p) ==> p == (ImageParams { target, width, height }) && p.valid(),
            (width <= 0 || height <= 0) ==> r == Err::<ImageParams, ConfigError>(ConfigError::NonPositiveDimension),
            (width > 0 && height > 0 && (width > MAX_DIM || height > MAX_DIM))
                ==> r == Err::<ImageParams, ConfigError>(ConfigError::OversizeDimension),
    {
        if width <= 0 || height <= 0 {
            Err(ConfigError::NonPositiveDimension)
        } else if width > MAX_DIM || height > MAX_DIM {
            Err(ConfigError::OversizeDimension)
        } else {
            Ok(ImageParams { target, width, height })
        }
    }
}

impl Default for ImageParams {
    /// The default page: browser target at the default page size.
    fn default() -> (r: Self)
        ensures
            r.target == RenderTarget::Browser,
            r.width == 754,
            r.height == 1058,
            r.valid(),
    {
        Self { target: default_render_target(), width: default_width(), height: default_height() }
    }
}


/// The registered-route state shared with the HTTP collaborator: the
/// route list served on the index page and the base URL substituted
/// into the install script.
#[derive(Clone)]
pub struct Data {
    pub routes: Vec<String>,
    pub base_url: String,
}

impl Data {
    pub fn new(base_url: String) -> (r: Data)
        ensures
            r.routes@.len() == 0,
            r.base_url == base_url,
    {
        Data { routes: Vec::new(), base_url }
    }

    /// Record a newly registered route.
    pub fn add_route(&mut self, route: String)
        ensures
            final(self).routes@ == old(self).routes@.push(route),
            final(self).base_url == old(self).base_url,
    {
        self.routes.push(route);
    }
}

/// An HTTP response carrying a PNG body: the wire contract is that the
/// body is a complete PNG whatever the status.
pub struct PngResponse {
    /// 200 when the handler produced the page, 500 when the body is a
    /// rendered diagnostic image instead.
    pub status: u16,
    pub body: Vec<u8>,
}

/// The parameters every request falls back to.
pub open spec fn spec_default_params() -> ImageParams {
    ImageParams { target: RenderTarget::Browser, width: 754, height: 1058 }
}

/// The PNG of the diagnostic page for `chain`, rendered at `params`
/// through the same pipeline as any other page (rotation included; the
/// diagnostic handler composes in landscape).
pub open spec fn error_png(params: ImageParams, chain: Seq<Seq<char>>, ts: Seq<char>) -> Seq<u8> {
    let page = crate::handler::error::error_image(
        crate::surface::sp_const(params.width as int, params.height as int, crate::surface::WHITE),
        chain,
        ts,
    );
    let fin = if crate::png::rotate_applies(params.target, Orientation::Landscape) {
        crate::png::sp_rotate(page)
    } else {
        page
    };
    crate::png::encode::png_bytes(fin)
}

/// Render the diagnostic page for `chain` as a PNG. Total: the error
/// path always delivers a complete image, never an error body.
pub fn render_error_png(params: ImageParams, chain: Vec<String>, build_timestamp: &str) -> (r: Vec<
    u8,
>)
    requires
        params.valid(),
    ensures
        r@ == error_png(params, crate::handler::error::causes_view(chain@), build_timestamp@),
{
    let eh = ErrorHandler { chain, build_timestamp: build_timestamp.to_owned() };
    match crate::png::png_handler(params, &eh, ()) {
        Ok(b) => b,
        Err(e) => {
            proof {
                assert(false);
            }
            Vec::new()
        },
    }
}

/// Answer one request: resolve the parameter outcome, consume the one
/// load outcome, run the pipeline, and fall back to the rendered
/// diagnostic page on any failure. The response body is a complete PNG
/// in every case; the status is 200 exactly when parameters, loading
/// and drawing all succeeded. Invalid parameters are reported on a page
/// of the default size; the failure chain is always prefixed with the
/// route.
pub fn handle_request<H: Handler>(
    params: Result<ImageParams, ConfigError>,
    handler: &H,
    load_result: Result<H::Data, LoadError>,
    route: &str,
    build_timestamp: &str,
) -> (r: PngResponse)
    requires
        params matches Ok(p) ==> p.valid(),
    ensures
        r.status == 200 || r.status == 500,
        match params {
            Err(e) => r.status == 500 && r.body@ == error_png(
                spec_default_params(),
                seq![route@, e.message_spec()],
                build_timestamp@,
            ),
            Ok(p) => match load_result {
                Err(le) => r.status == 500 && r.body@ == error_png(
                    p,
                    seq![route@] + crate::handler::error::causes_view(le.chain@),
                    build_timestamp@,
                ),
                Ok(data) => match crate::png::render_result(*handler, p, data) {
                    Ok(bytes) => r.status == 200 && r.body@ == bytes,
                    Err(m) => r.status == 500 && r.body@ == error_png(
                        p,
                        seq![route@, m],
                        build_timestamp@,
                    ),
                },
            },
        },
{
    match params {
        Err(e) => {
            let p = ImageParams::default();
            let mut chain: Vec<String> = Vec::new();
            chain.push(route.to_owned());
            chain.push(e.message());
            proof {
                assert(crate::handler::error::causes_view(chain@) =~= seq![
                    route@,
                    e.message_spec(),
                ]);
            }
            let body = render_error_png(p, chain, build_timestamp);
            PngResponse { status: 500, body }
        },
        Ok(p) => match load_result {
            Err(le) => {
                let mut chain: Vec<String> = Vec::new();
                chain.push(route.to_owned());
                let mut causes: Vec<String> = le.chain;
                chain.append(&mut causes);
                proof {
                    assert(crate::handler::error::causes_view(chain@) =~= seq![route@]
                        + crate::handler::error::causes_view(le.chain@));
                }
                let body = render_error_png(p, chain, build_timestamp);
                PngResponse { status: 500, body }
            },
            Ok(data) => match crate::png::png_handler(p, handler, data) {
                Ok(b) => PngResponse { status: 200, body: b },
                Err(de) => {
                    let mut chain: Vec<String> = Vec::new();
                    chain.push(route.to_owned());
                    let ghost m: Seq<char> = de.message@;
                    chain.push(de.message);
                    proof {
                        assert(crate::handler::error::causes_view(chain@) =~= seq![route@, m]);
                    }
                    let body = render_error_png(p, chain, build_timestamp);
                    PngResponse { status: 500, body }
                },
            },
        },
    }
}


/// Resolve optional query inputs into validated request parameters:
/// each absent field falls back to its default, and the dimensions are
/// validated as a whole.
pub fn resolve_params(
    target: Option<RenderTarget>,
    width: Option<i32>,
    height: Option<i32>,
) -> (r: Result<ImageParams, ConfigError>)
    ensures
        ({
            let t = match target {
                Some(t) => t,
                None => RenderTarget::Browser,
            };
            let w = match width {
                Some(w) => w,
                None => 754,
            };
            let h = match height {
                Some(h) => h,
                None => 1058,
            };
            &&& (r is Ok <==> (0 < w <= MAX_DIM && 0 < h <= MAX_DIM))
            &&& (r matches Ok(p) ==> p == (ImageParams { target: t, width: w, height: h })
                && p.valid())
            &&& ((w <= 0 || h <= 0) ==> r == Err::<ImageParams, ConfigError>(
                ConfigError::NonPositiveDimension,
            ))
            &&& ((w > 0 && h > 0 && (w > MAX_DIM || h > MAX_DIM)) ==> r == Err::<
                ImageParams,
                ConfigError,
            >(ConfigError::OversizeDimension))
        }),
{
    let t: RenderTarget = match target {
        Some(t) => t,
        None => default_render_target(),
    };
    let w: i32 = match width {
        Some(w) => w,
        None => default_width(),
    };
    let h: i32 = match height {
        Some(h) => h,
        None => default_height(),
    };
    ImageParams::new(t, w, h)
}

} // verus!
