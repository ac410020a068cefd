use bcon::terminal::sixel::SixelDecoder;

#[test]
fn test_simple_sixel() {
    let mut decoder = SixelDecoder::new();
    for b in b"#0;2;100;0;0~" {
        decoder.push(*b);
    }
    let img = decoder.finish(1).unwrap();
    assert_eq!(img.width, 1);
    assert_eq!(img.height, 6);
    assert_eq!(&img.data[0..4], &[255, 0, 0, 255]);
}

#[test]
fn test_rle() {
    let mut decoder = SixelDecoder::new();
    for b in b"#0;2;0;100;0!3~" {
        decoder.push(*b);
    }
    let img = decoder.finish(1).unwrap();
    assert_eq!(img.width, 3);
    assert_eq!(img.height, 6);
}

#[test]
fn test_color_selection() {
    let mut decoder = SixelDecoder::new();
    for b in b"#0;2;100;0;0~#1;2;0;0;100~" {
        decoder.push(*b);
    }
    let img = decoder.finish(1).unwrap();
    assert_eq!(img.width, 2);
    assert_eq!(&img.data[0..4], &[255, 0, 0, 255]);
    assert_eq!(&img.data[4..8], &[0, 0, 255, 255]);
}

#[test]
fn empty_decoder_gives_no_image() {
    assert!(SixelDecoder::new().finish(7).is_none());
}

#[test]
fn unpainted_pixels_are_transparent_and_newline_moves_down() {
    let mut decoder = SixelDecoder::new();
    // '@' paints only the top pixel of the column; '-' moves to the next sixel row
    for b in b"#1@-$@" {
        decoder.push(*b);
    }
    let img = decoder.finish(3).unwrap();
    assert_eq!(img.id, 3);
    assert_eq!((img.width, img.height), (1, 7));
    // row 0 painted with default palette colour 1 (blue)
    assert_eq!(&img.data[0..4], &[51, 51, 204, 255]);
    // row 1 unpainted
    assert_eq!(&img.data[4..8], &[0, 0, 0, 0]);
    // row 6 painted
    assert_eq!(&img.data[24..28], &[51, 51, 204, 255]);
}

#[test]
fn raster_attributes_preallocate() {
    let mut decoder = SixelDecoder::new();
    for b in b"\"1;1;4;2#0;2;0;100;0~" {
        decoder.push(*b);
    }
    let img = decoder.finish(1).unwrap();
    assert_eq!((img.width, img.height), (4, 6));
    assert_eq!(&img.data[4..8], &[0, 0, 0, 0]);
    assert_eq!(&img.data[0..4], &[0, 255, 0, 255]);
}

#[test]
fn hls_grey_is_resolved_in_integers_and_colour_is_pending() {
    let mut decoder = SixelDecoder::new();
    for b in b"#2;1;0;50;0#3;1;120;50;100#2~" {
        decoder.push(*b);
    }
    let pending = decoder.pending_hls();
    assert_eq!(pending, vec![(3, 120, 50, 100)]);
    decoder.resolve_hls(3, (0, 255, 0));
    let img = decoder.finish(1).unwrap();
    // 50% lightness grey: 50 * 255 / 100 = 127
    assert_eq!(&img.data[0..4], &[127, 127, 127, 255]);
}
