use btcmap_api::rest::v4::areas::{
    area_search_result, check_area_id, check_image_args, content_type_for, filter_areas,
    fit_dimensions, get_by_id_res, image_response, looks_like_svg, AreaRecord,
};
use btcmap_api::rest::error::RestApiErrorCode;

#[test]
fn content_type_for_detects_png() {
    let png_bytes: Vec<u8> = vec![0x89, 0x50, 0x4E, 0x47, 0x0D, 0x0A, 0x1A, 0x0A];
    assert_eq!(Some("image/png".to_string()), content_type_for(&png_bytes));
}

#[test]
fn content_type_for_detects_jpeg() {
    let jpeg_bytes: Vec<u8> = vec![0xFF, 0xD8, 0xFF, 0xE0];
    assert_eq!(Some("image/jpeg".to_string()), content_type_for(&jpeg_bytes));
}

#[test]
fn content_type_for_detects_svg() {
    let svg = b"<svg xmlns=\"http://www.w3.org/2000/svg\"></svg>";
    assert_eq!(Some("image/svg+xml".to_string()), content_type_for(svg));
}

#[test]
fn content_type_for_returns_none_for_unknown() {
    let bytes = b"definitely not an image";
    assert_eq!(None, content_type_for(bytes));
}

#[test]
fn fit_dimensions_no_constraints_returns_source() {
    assert_eq!((100, 200), fit_dimensions(100, 200, None, None));
}

#[test]
fn fit_dimensions_only_w_scales_height() {
    assert_eq!((50, 100), fit_dimensions(100, 200, Some(50), None));
}

#[test]
fn fit_dimensions_only_h_scales_width() {
    assert_eq!((50, 100), fit_dimensions(100, 200, None, Some(100)));
}

#[test]
fn fit_dimensions_w_not_upsizing_returns_source() {
    assert_eq!((100, 200), fit_dimensions(100, 200, Some(200), None));
}

#[test]
fn fit_dimensions_box_fit_uses_smaller_ratio() {
    assert_eq!((100, 50), fit_dimensions(200, 100, Some(100), Some(100)));
}

#[test]
fn fit_dimensions_box_already_fits_returns_source() {
    assert_eq!((50, 50), fit_dimensions(50, 50, Some(200), Some(200)));
}

#[test]
fn fit_dimensions_rounds_to_nearest_and_keeps_one_pixel() {
    // 3 x 100 into 50 x 50: height bound, width 1.5 rounds up to 2.
    assert_eq!((2, 50), fit_dimensions(3, 100, Some(50), Some(50)));
    // 1 x 1000 into 10 x 10: width 0.01 is kept at 1 pixel.
    assert_eq!((1, 10), fit_dimensions(1, 1000, Some(10), Some(10)));
}

#[test]
fn svg_detection_skips_leading_whitespace_and_xml_prolog() {
    assert!(looks_like_svg(b"  \n<svg/>"));
    assert!(looks_like_svg(b"<?xml version=\"1.0\"?><svg/>"));
    assert!(!looks_like_svg(b"<html></html>"));
    assert!(!looks_like_svg(&[0xFF, 0xFE, 0x3C]));
}

#[test]
fn svg_head_cut_inside_a_character_is_not_svg() {
    // 511 spaces, then a two-byte character straddling the 512-byte head.
    let mut bytes = vec![b' '; 511];
    bytes.extend_from_slice("é<svg/>".as_bytes());
    assert!(!looks_like_svg(&bytes));
}

fn area(type_tag: Option<&str>) -> AreaRecord {
    AreaRecord {
        id: 7,
        name: "Bitcoin Country".to_string(),
        url_alias: "bitcoin-country".to_string(),
        type_tag: type_tag.map(|t| t.to_string()),
        icon_square: Some("icon.png".to_string()),
        icon_wide: None,
        description: None,
    }
}

#[test]
fn website_url_uses_singular_type() {
    assert_eq!(
        "https://btcmap.org/country/bitcoin-country",
        area_search_result(&area(Some("countries"))).website_url
    );
    assert_eq!(
        "https://btcmap.org/community/bitcoin-country",
        area_search_result(&area(Some("communities"))).website_url
    );
    assert_eq!(
        "https://btcmap.org/area/bitcoin-country",
        area_search_result(&area(Some("area"))).website_url
    );
    assert_eq!(
        "https://btcmap.org//bitcoin-country",
        area_search_result(&area(None)).website_url
    );
}

#[test]
fn get_by_id_res_fills_missing_tags_with_empty_text() {
    let res = get_by_id_res(&area(None));
    assert_eq!("", res.kind);
    assert_eq!("", res.description);
    assert_eq!(Some("icon.png".to_string()), res.icon);
    assert_eq!(None, res.icon_wide);
}

#[test]
fn type_filter_keeps_matching_areas_in_order() {
    let areas = vec![area(Some("country")), area(Some("community")), area(None)];
    let all = filter_areas(&areas, None);
    assert_eq!(3, all.len());
    let countries = filter_areas(&areas, Some("country"));
    assert_eq!(1, countries.len());
    assert_eq!("country", countries[0].kind);
    let untyped = filter_areas(&areas, Some(""));
    assert_eq!(1, untyped.len());
}

#[test]
fn long_ids_and_zero_sizes_are_rejected() {
    assert!(check_area_id(&"a".repeat(128)).is_ok());
    let e = check_area_id(&"a".repeat(129)).unwrap_err();
    assert_eq!(RestApiErrorCode::InvalidInput, e.code);
    assert_eq!("id too long", e.message);
    assert_eq!("w must be greater than 0", check_image_args("x", Some(0), None).unwrap_err().message);
    assert_eq!("h must be greater than 0", check_image_args("x", Some(5), Some(0)).unwrap_err().message);
    assert!(check_image_args("x", None, Some(5)).is_ok());
}

#[test]
fn image_response_serves_svg_and_unknown_bytes_unchanged() {
    let svg = b"<svg xmlns=\"http://www.w3.org/2000/svg\" width=\"200\" height=\"200\"></svg>".to_vec();
    let (body, ct) = image_response(svg.clone(), Some(50), Some(50)).unwrap();
    assert_eq!(svg, body);
    assert_eq!("image/svg+xml", ct);
    let junk = b"not an image".to_vec();
    let (body, ct) = image_response(junk.clone(), None, None).unwrap();
    assert_eq!(junk, body);
    assert_eq!("application/octet-stream", ct);
}

fn encode_png(width: u32, height: u32) -> Vec<u8> {
    let img = image::RgbImage::new(width, height);
    let mut out = std::io::Cursor::new(Vec::new());
    img.write_to(&mut out, image::ImageFormat::Png).unwrap();
    out.into_inner()
}

#[test]
fn image_response_resizes_png_into_the_box() {
    let png = encode_png(200, 100);
    let (body, ct) = image_response(png.clone(), Some(100), Some(100)).unwrap();
    assert_eq!("image/png", ct);
    assert_ne!(png, body);
    let decoded = image::load_from_memory(&body).unwrap();
    assert_eq!(100, decoded.width());
    assert_eq!(50, decoded.height());
}

#[test]
fn image_response_keeps_png_that_already_fits() {
    let png = encode_png(40, 40);
    let (body, ct) = image_response(png.clone(), Some(100), None).unwrap();
    assert_eq!("image/png", ct);
    assert_eq!(png, body);
}
