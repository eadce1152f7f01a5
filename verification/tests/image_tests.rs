use raytracer::image::{decode_pixels, encode_rows, ppm_document, Rgb};

fn px(r: u8, g: u8, b: u8) -> Rgb {
    Rgb { r, g, b }
}

#[test]
fn ppm_document_text() {
    let image = vec![vec![px(255, 0, 10), px(1, 2, 3)], vec![px(0, 0, 0), px(9, 99, 199)]];
    assert_eq!(ppm_document(&image), "P3\n2 2\n255\n255 0 10 1 2 3 \n0 0 0 9 99 199 \n");
}

#[test]
fn ppm_document_empty() {
    assert_eq!(ppm_document(&Vec::new()), "P3\n0 0\n255\n");
    assert_eq!(ppm_document(&vec![Vec::new()]), "P3\n0 1\n255\n\n");
}

#[test]
fn encode_rows_flattens_channels() {
    let rows = vec![vec![px(1, 2, 3)], vec![px(4, 5, 6), px(7, 8, 9)]];
    assert_eq!(encode_rows(&rows), vec![1, 2, 3, 4, 5, 6, 7, 8, 9]);
}

#[test]
fn decode_pixels_round_trip() {
    let rows = vec![vec![px(1, 2, 3), px(4, 5, 6)], vec![px(7, 8, 9), px(10, 11, 12)]];
    let bytes = encode_rows(&rows);
    let back = decode_pixels(&bytes, 4);
    assert_eq!(back, vec![px(1, 2, 3), px(4, 5, 6), px(7, 8, 9), px(10, 11, 12)]);
}

#[test]
fn decode_pixels_stops_at_limit_or_bytes() {
    let bytes = vec![1u8, 2, 3, 4, 5, 6, 7];
    assert_eq!(decode_pixels(&bytes, 1), vec![px(1, 2, 3)]);
    assert_eq!(decode_pixels(&bytes, 10), vec![px(1, 2, 3), px(4, 5, 6)]);
    assert_eq!(decode_pixels(&Vec::new(), 10), Vec::<Rgb>::new());
}
