use kindling::{
    default_height, default_render_target, default_width, handle_request, png_handler,
    render_error_png, resolve_params, BlackoutHandler, ConfigError, Data, FailingHandler, Handler,
    ImageParams, LabelHandler, LoadError, Orientation, PortraitLabelHandler, RenderTarget, Surface,
};

fn decode(bytes: &[u8]) -> (u32, u32, Vec<u8>) {
    let decoder = png::Decoder::new(std::io::Cursor::new(bytes.to_vec()));
    let mut reader = decoder.read_info().expect("valid PNG");
    let n = reader.output_buffer_size().expect("buffer size");
    let mut buf = vec![0u8; n];
    let info = reader.next_frame(&mut buf).expect("decodable frame");
    assert_eq!(info.color_type, png::ColorType::Grayscale);
    assert_eq!(info.bit_depth, png::BitDepth::Eight);
    let w = info.width as usize;
    let h = info.height as usize;
    buf.truncate(w * h);
    (info.width, info.height, buf)
}

fn params(target: RenderTarget, width: i32, height: i32) -> ImageParams {
    ImageParams::new(target, width, height).expect("valid params")
}

#[test]
fn browser_label_page_is_decodable_at_requested_size() {
    let handler = LabelHandler { x: 40, y: 60, text: "Hello world!".to_string() };
    let p = params(RenderTarget::Browser, 1058, 754);
    let bytes = png_handler(p, &handler, ()).expect("render succeeds");
    assert!(!bytes.is_empty());
    let (w, h, pix) = decode(&bytes);
    assert_eq!((w, h), (1058, 754));
    // The 'H' glyph has its first set bit in column 1 of its top row:
    // at scale 2 that is two pixels right of the label position.
    assert_eq!(pix[60 * 1058 + 42], 0);
    // Far away from the label the page is still the white background.
    assert_eq!(pix[700 * 1058 + 1000], 255);
}

#[test]
fn kindle_landscape_output_is_the_rotated_browser_output() {
    let handler = LabelHandler { x: 30, y: 50, text: "Hello world!".to_string() };
    let browser = png_handler(params(RenderTarget::Browser, 600, 800), &handler, ())
        .expect("render succeeds");
    let kindle = png_handler(params(RenderTarget::Kindle, 600, 800), &handler, ())
        .expect("render succeeds");
    let (aw, ah, a) = decode(&browser);
    let (bw, bh, b) = decode(&kindle);
    assert_eq!((aw, ah), (600, 800));
    assert_eq!((bw, bh), (800, 600));
    for y in 0..600usize {
        for x in 0..800usize {
            assert_eq!(b[y * 800 + x], a[(799 - x) * 600 + y]);
        }
    }
}

#[test]
fn kindle_portrait_output_is_not_rotated() {
    let handler = PortraitLabelHandler { x: 30, y: 50, text: "Hello world!".to_string() };
    let kindle = png_handler(params(RenderTarget::Kindle, 600, 800), &handler, ())
        .expect("render succeeds");
    let (w, h, _) = decode(&kindle);
    assert_eq!((w, h), (600, 800));
    let browser = png_handler(params(RenderTarget::Browser, 600, 800), &handler, ())
        .expect("render succeeds");
    assert_eq!(kindle, browser);
}

#[test]
fn rendering_twice_gives_byte_identical_output() {
    let handler = LabelHandler { x: 25, y: 35, text: "stable output".to_string() };
    let p = params(RenderTarget::Kindle, 300, 400);
    let first = png_handler(p, &handler, ()).expect("render succeeds");
    let second = png_handler(p, &handler, ()).expect("render succeeds");
    assert_eq!(first, second);
}

#[test]
fn blackout_page_is_solid_black_through_the_same_pipeline() {
    let p = params(RenderTarget::Browser, 100, 80);
    let bytes = png_handler(p, &BlackoutHandler, ()).expect("render succeeds");
    let (w, h, pix) = decode(&bytes);
    assert_eq!((w, h), (100, 80));
    assert!(pix.iter().all(|&v| v == 0));
    // Rotation on the Kindle target is applied but unobservable on a
    // solid rectangle except for the transposed dimensions.
    let bytes = png_handler(params(RenderTarget::Kindle, 100, 80), &BlackoutHandler, ())
        .expect("render succeeds");
    let (w, h, pix) = decode(&bytes);
    assert_eq!((w, h), (80, 100));
    assert!(pix.iter().all(|&v| v == 0));
}

#[test]
fn one_by_one_page_decodes_to_a_single_white_pixel() {
    let handler = LabelHandler { x: 5, y: 5, text: String::new() };
    let bytes = png_handler(params(RenderTarget::Browser, 1, 1), &handler, ())
        .expect("render succeeds");
    let (w, h, pix) = decode(&bytes);
    assert_eq!((w, h), (1, 1));
    assert_eq!(pix, vec![255]);
    // The exact wire bytes of the smallest page: signature, header
    // chunk declaring 1x1 8-bit greyscale, one stored deflate block
    // holding the filter byte and the single white pixel with its
    // Adler-32 checksum, and the fixed end chunk with its CRC-32.
    assert_eq!(&bytes[0..8], &[137, 80, 78, 71, 13, 10, 26, 10]);
    assert_eq!(&bytes[8..16], &[0, 0, 0, 13, 0x49, 0x48, 0x44, 0x52]);
    assert_eq!(&bytes[16..24], &[0, 0, 0, 1, 0, 0, 0, 1]);
    assert_eq!(&bytes[24..29], &[8, 0, 0, 0, 0]);
    assert_eq!(&bytes[33..41], &[0, 0, 0, 13, 0x49, 0x44, 0x41, 0x54]);
    assert_eq!(
        &bytes[41..54],
        &[0x78, 0x01, 0x01, 0x02, 0x00, 0xFD, 0xFF, 0x00, 0xFF, 0x01, 0x01, 0x01, 0x00]
    );
    assert_eq!(
        &bytes[bytes.len() - 12..],
        &[0, 0, 0, 0, 0x49, 0x45, 0x4E, 0x44, 0xAE, 0x42, 0x60, 0x82]
    );
}

#[test]
fn orientation_defaults_are_declared_per_handler_type() {
    assert_eq!(LabelHandler::orientation(), Orientation::Landscape);
    assert_eq!(BlackoutHandler::orientation(), Orientation::Landscape);
    assert_eq!(PortraitLabelHandler::orientation(), Orientation::Portrait);
}

#[test]
fn load_failure_produces_500_with_error_page() {
    let handler = LabelHandler { x: 0, y: 0, text: "unused".to_string() };
    let p = ImageParams::default();
    let load: Result<(), LoadError> =
        Err(LoadError { chain: vec!["boom".to_string()] });
    let r = handle_request(Ok(p), &handler, load, "/demo", "2024-01-01 00:00:00 UTC");
    assert_eq!(r.status, 500);
    let (w, h, pix) = decode(&r.body);
    assert_eq!((w, h), (754, 1058));
    // Title bar is light grey, with a black separator line below it.
    assert_eq!(pix[0], 204);
    assert_eq!(pix[55 * 754], 0);
    assert_eq!(pix[56 * 754], 255);
    // "ERROR" is centred in the title bar: the 'E' glyph's top row is
    // set from column 1 on; at scale 4 and width 754 the text starts at
    // x = (754 - 160) / 2 = 297.
    assert_eq!(pix[11 * 754 + 297 + 4], 0);
    // First cause block is the route, bulleted at the left margin: the
    // '-' glyph's middle row at scale 2 is at (22, 96).
    assert_eq!(pix[96 * 754 + 22], 0);
    // Second cause block is the failure text "boom": its first glyph
    // starts at x = 52 on the next 20px line.
    assert_eq!(pix[110 * 754 + 54], 0);
    // Footer bar with separator line.
    assert_eq!(pix[1057 * 754], 204);
    assert_eq!(pix[(1058 - 30) * 754], 0);
}

#[test]
fn draw_failure_produces_500_with_cause_text() {
    let handler = FailingHandler { message: "boom".to_string() };
    let p = params(RenderTarget::Browser, 754, 1058);
    match png_handler(p, &handler, ()) {
        Ok(_) => panic!("draw failure must not produce a page"),
        Err(e) => assert_eq!(e.message, "boom"),
    }
    let r = handle_request(Ok(p), &handler, Ok(()), "/demo", "2024-01-01 00:00:00 UTC");
    assert_eq!(r.status, 500);
    let (w, h, pix) = decode(&r.body);
    assert_eq!((w, h), (754, 1058));
    // The cause "boom" is the second bulleted block: 'B' drawn at
    // (52, 110) has its top row set from column 1 on.
    assert_eq!(pix[110 * 754 + 54], 0);
    // Its bullet sits at the left margin of the same line.
    assert_eq!(pix[116 * 754 + 22], 0);
}

#[test]
fn load_is_not_retried_within_a_request() {
    let handler = LabelHandler { x: 0, y: 0, text: "page".to_string() };
    let p = params(RenderTarget::Browser, 200, 200);
    let attempts = std::cell::Cell::new(0u32);
    let load = |ok_from: u32| -> Result<(), LoadError> {
        attempts.set(attempts.get() + 1);
        if attempts.get() < ok_from {
            Err(LoadError { chain: vec!["transient".to_string()] })
        } else {
            Ok(())
        }
    };
    // The loading phase succeeds only on its second attempt. The first
    // request consumes exactly one load outcome and answers 500: the
    // pipeline never retries within a request.
    let r1 = handle_request(Ok(p), &handler, load(2), "/r", "ts");
    assert_eq!(r1.status, 500);
    assert_eq!(attempts.get(), 1);
    // The next request runs the loading phase anew and succeeds.
    let r2 = handle_request(Ok(p), &handler, load(2), "/r", "ts");
    assert_eq!(r2.status, 200);
    assert_eq!(attempts.get(), 2);
}

#[test]
fn config_error_is_rendered_at_default_size() {
    let handler = LabelHandler { x: 0, y: 0, text: "page".to_string() };
    let r = handle_request(
        Err(ConfigError::NonPositiveDimension),
        &handler,
        Ok(()),
        "/demo",
        "ts",
    );
    assert_eq!(r.status, 500);
    let (w, h, _) = decode(&r.body);
    assert_eq!((w, h), (754, 1058));
}

#[test]
fn params_validation_rejects_bad_dimensions() {
    assert_eq!(
        ImageParams::new(RenderTarget::Browser, 0, 100),
        Err(ConfigError::NonPositiveDimension)
    );
    assert_eq!(
        ImageParams::new(RenderTarget::Browser, 100, -5),
        Err(ConfigError::NonPositiveDimension)
    );
    assert_eq!(
        ImageParams::new(RenderTarget::Browser, 20000, 100),
        Err(ConfigError::OversizeDimension)
    );
    let p = ImageParams::new(RenderTarget::Kindle, 600, 800).expect("valid");
    assert_eq!(p.width, 600);
    assert_eq!(p.height, 800);
    assert_eq!(p.target, RenderTarget::Kindle);
    // The largest accepted dimension is inclusive.
    assert!(ImageParams::new(RenderTarget::Browser, 10000, 1).is_ok());
    assert_eq!(
        ImageParams::new(RenderTarget::Browser, 10001, 1),
        Err(ConfigError::OversizeDimension)
    );
}

#[test]
fn absent_query_fields_fall_back_to_defaults() {
    let p = resolve_params(None, None, None).expect("defaults are valid");
    assert_eq!(p, ImageParams::default());
    assert_eq!(p.target, RenderTarget::Browser);
    assert_eq!(p.width, 754);
    assert_eq!(p.height, 1058);
    assert_eq!(default_width(), 754);
    assert_eq!(default_height(), 1058);
    assert_eq!(default_render_target(), RenderTarget::Browser);
    let q = resolve_params(Some(RenderTarget::Kindle), Some(600), None).expect("valid");
    assert_eq!((q.target, q.width, q.height), (RenderTarget::Kindle, 600, 1058));
    assert_eq!(resolve_params(None, Some(-1), None), Err(ConfigError::NonPositiveDimension));
}

#[test]
fn error_page_renders_even_when_rendered_directly() {
    let chain = vec!["alpha".to_string(), "beta".to_string()];
    let bytes = render_error_png(params(RenderTarget::Browser, 300, 300), chain, "ts");
    let (w, h, pix) = decode(&bytes);
    assert_eq!((w, h), (300, 300));
    assert_eq!(pix[0], 204);
}

#[test]
fn surface_draws_scaled_glyphs_and_clips() {
    let mut s = Surface::new(50, 20, 255);
    s.draw_text(0, 0, "A", 2, 0);
    // The 'A' glyph's top row is 0b00011000: columns 3 and 4, which at
    // scale 2 are pixels 6 through 9.
    assert_eq!(s.pixel(5, 0), 255);
    assert_eq!(s.pixel(6, 0), 0);
    assert_eq!(s.pixel(9, 0), 0);
    assert_eq!(s.pixel(10, 0), 255);
    // Drawing off the right edge is clipped, not an error.
    s.draw_text(45, 0, "AAAA", 2, 0);
    // Drawing below the bottom edge is clipped too.
    s.draw_text(0, 100, "A", 2, 0);
    assert_eq!(s.width(), 50);
    assert_eq!(s.height(), 20);
}

#[test]
fn rotate_image_transposes_and_maps_pixels() {
    let mut s = Surface::new(2, 3, 255);
    s.set_pixel(0, 0, 1);
    s.set_pixel(1, 2, 7);
    let r = kindling::png::rotate_image(&s);
    assert_eq!(r.width(), 3);
    assert_eq!(r.height(), 2);
    // dst(x, y) = src(y, height - 1 - x) with the source 3 rows tall.
    assert_eq!(r.pixel(2, 0), 1);
    assert_eq!(r.pixel(0, 1), 7);
    assert_eq!(r.pixel(1, 1), 255);
}

#[test]
fn routes_are_recorded_in_registration_order() {
    let mut data = Data::new("http://example.invalid".to_string());
    data.add_route("/a.png".to_string());
    data.add_route("/b.png".to_string());
    assert_eq!(data.routes, vec!["/a.png".to_string(), "/b.png".to_string()]);
    assert_eq!(data.base_url, "http://example.invalid");
}
