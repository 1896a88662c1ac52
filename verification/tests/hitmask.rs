use desklings::hitmask::{HitMask, HitMaskCache, PngFrame, ALPHA_THRESHOLD};

fn encode(width: u32, height: u32, color: png::ColorType, depth: png::BitDepth, data: &[u8]) -> Vec<u8> {
    let mut out = Vec::new();
    {
        let mut enc = png::Encoder::new(&mut out, width, height);
        enc.set_color(color);
        enc.set_depth(depth);
        let mut w = enc.write_header().expect("header");
        w.write_image_data(data).expect("data");
        w.finish().expect("finish");
    }
    out
}

#[test]
fn decodes_rgba_alpha() {
    // 2x2: alpha 0, 64, 65, 255.
    let data = [
        1, 2, 3, 0, 1, 2, 3, 64, //
        1, 2, 3, 65, 1, 2, 3, 255,
    ];
    let bytes = encode(2, 2, png::ColorType::Rgba, png::BitDepth::Eight, &data);
    let m = HitMask::load(&bytes, "a.png").expect("decodes");
    assert_eq!(m.dimensions(), (2, 2));
    assert!(!m.is_opaque_at(0, 0, false));
    assert!(!m.is_opaque_at(1, 0, false));
    assert!(m.is_opaque_at(0, 1, false));
    assert!(m.is_opaque_at(1, 1, false));
    // Mirrored: column 0 reads column 1.
    assert!(!m.is_opaque_at(0, 0, true));
    assert!(m.is_opaque_at(1, 1, true));
    assert_eq!(ALPHA_THRESHOLD, 64);
}

#[test]
fn outside_pixels_are_never_opaque() {
    let data = [255u8; 4 * 3 * 2];
    let bytes = encode(3, 2, png::ColorType::Rgba, png::BitDepth::Eight, &data);
    let m = HitMask::load(&bytes, "b.png").expect("decodes");
    assert!(m.is_opaque_at(2, 1, false));
    assert!(!m.is_opaque_at(-1, 0, false));
    assert!(!m.is_opaque_at(0, -1, false));
    assert!(!m.is_opaque_at(3, 0, false));
    assert!(!m.is_opaque_at(0, 2, true));
}

#[test]
fn grey_alpha_and_opaque_types() {
    let bytes = encode(2, 1, png::ColorType::GrayscaleAlpha, png::BitDepth::Eight, &[9, 10, 9, 200]);
    let m = HitMask::load(&bytes, "g.png").expect("decodes");
    assert!(!m.is_opaque_at(0, 0, false));
    assert!(m.is_opaque_at(1, 0, false));

    let bytes = encode(2, 1, png::ColorType::Rgb, png::BitDepth::Eight, &[0, 0, 0, 0, 0, 0]);
    let m = HitMask::load(&bytes, "c.png").expect("decodes");
    assert!(m.is_opaque_at(0, 0, false) && m.is_opaque_at(1, 0, false));

    let bytes = encode(1, 1, png::ColorType::Grayscale, png::BitDepth::Eight, &[0]);
    assert!(HitMask::load(&bytes, "k.png").expect("decodes").is_opaque_at(0, 0, false));
}

#[test]
fn rejects_other_bit_depths_and_palettes() {
    let bytes = encode(1, 1, png::ColorType::Rgba, png::BitDepth::Sixteen, &[0; 8]);
    assert_eq!(
        HitMask::load(&bytes, "d.png").unwrap_err(),
        "d.png: only 8-bit PNGs are supported (got Sixteen)"
    );
}

#[test]
fn rejects_garbage_headers() {
    let err = HitMask::load(b"not a png", "x.png").unwrap_err();
    assert!(err.starts_with("png header x.png: "), "{err}");
    let err = HitMask::load(&[], "e.png").unwrap_err();
    assert!(err.starts_with("png header e.png: "), "{err}");
}

#[test]
fn rejects_truncated_image_data() {
    let data = [7u8; 4 * 8 * 8];
    let bytes = encode(8, 8, png::ColorType::Rgba, png::BitDepth::Eight, &data);
    let cut = &bytes[..bytes.len() - 20];
    match HitMask::load(cut, "t.png") {
        Err(e) => assert!(e.starts_with("png frame t.png: ") || e.starts_with("png header t.png: "), "{e}"),
        Ok(_) => panic!("a truncated image decoded"),
    }
}

#[test]
fn from_frame_checks_every_case() {
    let f = |color_type: u8, bit_depth: u8, width: u32, height: u32| PngFrame { width, height, color_type, bit_depth };
    assert_eq!(
        HitMask::from_frame(&f(3, 8, 1, 1), &vec![0], "p.png").unwrap_err(),
        "p.png: unsupported color type Indexed"
    );
    assert_eq!(
        HitMask::from_frame(&f(6, 4, 1, 1), &vec![0], "p.png").unwrap_err(),
        "p.png: only 8-bit PNGs are supported (got Four)"
    );
    assert_eq!(
        HitMask::from_frame(&f(6, 8, 2, 2), &vec![0; 12], "p.png").unwrap_err(),
        "p.png: decoded alpha length 3 != 2x2=4"
    );
    let m = HitMask::from_frame(&f(4, 8, 2, 1), &vec![1, 2, 3, 4], "p.png").expect("mask");
    assert_eq!(m.dimensions(), (2, 1));
    assert!(!m.is_opaque_at(0, 0, false));
    assert!(!m.is_opaque_at(1, 0, false));
    if usize::BITS == 32 {
        assert_eq!(
            HitMask::from_frame(&f(6, 8, 70000, 70000), &vec![], "p.png").unwrap_err(),
            "p.png: dimensions overflow"
        );
    }
}

#[test]
fn cache_records_masks_and_failures() {
    let mut c = HitMaskCache::new("/sprites".to_string());
    assert_eq!(c.sprites_dir(), "/sprites");
    assert!(!c.is_cached("a.png"));
    assert!(c.get("a.png").is_none());
    let bytes = encode(1, 1, png::ColorType::Rgba, png::BitDepth::Eight, &[0, 0, 0, 255]);
    c.insert("a.png", HitMask::load(&bytes, "a.png").ok());
    c.insert("bad.png", None);
    assert!(c.is_cached("a.png") && c.is_cached("bad.png"));
    assert!(c.get("a.png").expect("cached").is_opaque_at(0, 0, false));
    assert!(c.get("bad.png").is_none());
    c.invalidate();
    assert!(!c.is_cached("a.png"));
    assert_eq!(c.sprites_dir(), "/sprites");
    let d = HitMaskCache::default();
    assert_eq!(d.sprites_dir(), "");
}

#[test]
fn cache_loads_each_sprite_once() {
    let bytes = encode(1, 1, png::ColorType::Rgba, png::BitDepth::Eight, &[0, 0, 0, 255]);
    let mut c = HitMaskCache::new("/sprites".to_string());
    let reads = std::cell::Cell::new(0);
    let read = || {
        reads.set(reads.get() + 1);
        Ok(bytes.clone())
    };
    assert_eq!(c.load_missing("a.png", "/sprites/a.png", read), None);
    assert!(c.get("a.png").expect("loaded").is_opaque_at(0, 0, false));
    // Already recorded: nothing is read, nothing changes, whatever the file holds now.
    let read_again = || {
        reads.set(reads.get() + 1);
        Ok(b"garbage".to_vec())
    };
    assert_eq!(c.load_missing("a.png", "/sprites/a.png", read_again), None);
    assert_eq!(reads.get(), 1);
    assert!(c.get("a.png").expect("kept").is_opaque_at(0, 0, false));
}

#[test]
fn cache_records_failures_once() {
    let mut c = HitMaskCache::new("/sprites".to_string());
    let err = c.load_missing("x.png", "/sprites/x.png", || Err("open /sprites/x.png: missing".to_string()));
    assert_eq!(err.as_deref(), Some("open /sprites/x.png: missing"));
    assert!(c.is_cached("x.png"));
    assert!(c.get("x.png").is_none());
    let err = c.load_missing("y.png", "/sprites/y.png", || Ok(b"not a png".to_vec()));
    assert!(err.expect("fails").starts_with("png header /sprites/y.png: "));
    assert!(c.get("y.png").is_none());
    assert_eq!(c.load_missing("x.png", "/sprites/x.png", || Ok(Vec::new())), None);
}
