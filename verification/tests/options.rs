use rc8::options::{build_options, parse_rgb, parse_u32, parse_window_size, OptionsError, SizeField};

#[test]
fn number_parsing() {
    assert_eq!(parse_u32(b"123"), Some(123));
    assert_eq!(parse_u32(b"+123"), Some(123));
    assert_eq!(parse_u32(b"00042"), Some(42));
    assert_eq!(parse_u32(b"4294967295"), Some(u32::MAX));
    assert_eq!(parse_u32(b"4294967296"), None);
    assert_eq!(parse_u32(b"99999999999999999999"), None);
    assert_eq!(parse_u32(b""), None);
    assert_eq!(parse_u32(b"+"), None);
    assert_eq!(parse_u32(b"12a"), None);
    assert_eq!(parse_u32(b"-1"), None);
}

#[test]
fn color_parsing() {
    assert_eq!(parse_rgb(b"aabbcc"), Ok(0xaabbcc00));
    assert_eq!(parse_rgb(b"#AABBCC"), Ok(0xaabbcc00));
    assert_eq!(parse_rgb(b"010203"), Ok(0x01020300));
    assert_eq!(parse_rgb(b"abc"), Err(OptionsError::ColorLength(3)));
    assert_eq!(parse_rgb(b"#abcdef0"), Err(OptionsError::ColorLength(7)));
    assert_eq!(parse_rgb(b"zzzzzz"), Err(OptionsError::ColorDigit));
    assert_eq!(parse_rgb(b""), Err(OptionsError::ColorLength(0)));
}

#[test]
fn window_size_parsing() {
    assert_eq!(parse_window_size(b"800x600", 640, 320), Ok((800, 600)));
    assert_eq!(
        parse_window_size(b"800", 640, 320),
        Err(OptionsError::WindowSizeFormat)
    );
    assert_eq!(
        parse_window_size(b"800x600x2", 640, 320),
        Err(OptionsError::WindowSizeFormat)
    );
    // an unreadable dimension counts as zero, and zero is too small
    assert_eq!(
        parse_window_size(b"abcx600", 640, 320),
        Err(OptionsError::ResolutionTooSmall(SizeField::Width, 640))
    );
    assert_eq!(
        parse_window_size(b"100x600", 640, 320),
        Err(OptionsError::ResolutionTooSmall(SizeField::Width, 640))
    );
    assert_eq!(
        parse_window_size(b"800x100", 640, 320),
        Err(OptionsError::ResolutionTooSmall(SizeField::Height, 320))
    );
}

#[test]
fn options_defaults_and_complements() {
    let opts = build_options(None, false, None, None, 640, 320).unwrap();
    assert_eq!(opts.width, 640);
    assert_eq!(opts.height, 320);
    assert!(!opts.fullscreen);
    assert_eq!(opts.bgcolor, 0x00000000);
    assert_eq!(opts.fgcolor, 0xffffff00);

    let opts = build_options(None, true, Some(b"#112233"), None, 640, 320).unwrap();
    assert!(opts.fullscreen);
    assert_eq!(opts.bgcolor, 0x11223300);
    assert_eq!(opts.fgcolor, 0xffffff00 - 0x11223300);

    let opts = build_options(Some(b"700x400"), false, None, Some(b"445566"), 640, 320).unwrap();
    assert_eq!(opts.width, 700);
    assert_eq!(opts.height, 400);
    assert_eq!(opts.fgcolor, 0x44556600);
    assert_eq!(opts.bgcolor, 0xffffff00 - 0x44556600);

    let err = build_options(Some(b"oops"), false, Some(b"bad"), None, 640, 320);
    assert_eq!(err.unwrap_err(), OptionsError::WindowSizeFormat);
}
