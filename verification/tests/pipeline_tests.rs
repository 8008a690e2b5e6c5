use icon_cache::bitmap::bgra_to_rgba;
use icon_cache::bitmap::flip_rows;
use icon_cache::bitmap::normalize_bitmap;
use icon_cache::encode::base64_of_str;
use icon_cache::encode::bitmap_to_png;
use icon_cache::encode::icon_to_base64;
use icon_cache::hash::get_file_hash;
use icon_cache::model::FileMeta;
use icon_cache::text::sanitize_filename;
use icon_cache::text::u64_to_hex;

fn b64_decode(s: &str) -> Vec<u8> {
    base64::Engine::decode(&base64::engine::general_purpose::STANDARD, s).unwrap()
}

#[test]
fn bgra_swap_reorders_channels() {
    let bgra = vec![1u8, 2, 3, 4, 10, 20, 30, 40];
    let rgba = bgra_to_rgba(&bgra);
    assert_eq!(rgba, vec![3u8, 2, 1, 4, 30, 20, 10, 40]);
}

#[test]
fn flip_rows_reverses_row_order() {
    // One pixel per row, three rows.
    let buf = vec![1u8, 1, 1, 1, 2, 2, 2, 2, 3, 3, 3, 3];
    let flipped = flip_rows(&buf, 1, 3);
    assert_eq!(flipped, vec![3u8, 3, 3, 3, 2, 2, 2, 2, 1, 1, 1, 1]);
}

#[test]
fn flip_rows_twice_is_identity() {
    let buf: Vec<u8> = (0u8..24).collect();
    let once = flip_rows(&buf, 2, 3);
    let twice = flip_rows(&once, 2, 3);
    assert_eq!(twice, buf);
}

#[test]
fn orientation_bottom_up_and_top_down_normalize_identically() {
    // A 2x2 top-down BGRA image and its bottom-up storage (rows swapped).
    let top_down = vec![
        1u8, 2, 3, 4, 5, 6, 7, 8, // row 0
        9, 10, 11, 12, 13, 14, 15, 16, // row 1
    ];
    let bottom_up = vec![
        9u8, 10, 11, 12, 13, 14, 15, 16, // row 1 stored first
        1, 2, 3, 4, 5, 6, 7, 8,
    ];
    let from_top = normalize_bitmap(top_down, 2, 2, true);
    let from_bottom = normalize_bitmap(bottom_up, 2, 2, false);
    assert_eq!(from_top, from_bottom);
    assert_eq!(from_top[0], 3); // BGRA -> RGBA on the first pixel
}

#[test]
fn bitmap_to_png_rejects_wrong_buffer_size() {
    let err = bitmap_to_png(vec![0u8; 10], 2, 2, true).unwrap_err();
    assert_eq!(err, "Failed to create image buffer");
}

#[test]
fn bitmap_to_png_round_trips_through_a_decoder() {
    let bgra = vec![
        10u8, 20, 30, 255, 40, 50, 60, 255, // row 0
        70, 80, 90, 255, 100, 110, 120, 255, // row 1
    ];
    let expected_rgba = normalize_bitmap(bgra.clone(), 2, 2, true);
    let png = bitmap_to_png(bgra, 2, 2, true).unwrap();
    let decoded = image::load_from_memory(&png).unwrap().to_rgba8();
    assert_eq!(decoded.width(), 2);
    assert_eq!(decoded.height(), 2);
    assert_eq!(decoded.into_raw(), expected_rgba);
}

#[test]
fn bottom_up_png_decodes_with_first_row_on_top() {
    // Bottom-up storage: the buffer starts with the image's last row.
    let bgra = vec![
        0u8, 0, 255, 255, 0, 0, 255, 255, // red row, stored first
        255, 0, 0, 255, 255, 0, 0, 255, // blue row
    ];
    let png = bitmap_to_png(bgra, 2, 2, false).unwrap();
    let decoded = image::load_from_memory(&png).unwrap().to_rgba8();
    // Top row of the decoded image is the blue one.
    assert_eq!(decoded.get_pixel(0, 0).0, [0, 0, 255, 255]);
    assert_eq!(decoded.get_pixel(0, 1).0, [255, 0, 0, 255]);
}

#[test]
fn icon_to_base64_builds_a_png_data_uri() {
    let bgra = vec![10u8, 20, 30, 255, 40, 50, 60, 255];
    let uri = icon_to_base64(bgra.clone(), 2, 1, true).unwrap();
    assert!(uri.starts_with("data:image/png;base64,"));
    let payload = &uri["data:image/png;base64,".len()..];
    let png = bitmap_to_png(bgra, 2, 1, true).unwrap();
    assert_eq!(b64_decode(payload), png);
}

#[test]
fn icon_to_base64_rejects_wrong_buffer_size() {
    let err = icon_to_base64(vec![0u8; 3], 2, 1, true).unwrap_err();
    assert_eq!(err, "Failed to create image buffer");
}

#[test]
fn png_encoder_rejects_zero_dimensions() {
    assert!(bitmap_to_png(Vec::new(), 0, 0, true).is_err());
}

#[test]
fn base64_matches_the_reference_vectors() {
    assert_eq!(base64_of_str(""), "");
    assert_eq!(base64_of_str("f"), "Zg==");
    assert_eq!(base64_of_str("fo"), "Zm8=");
    assert_eq!(base64_of_str("foo"), "Zm9v");
    assert_eq!(base64_of_str("foob"), "Zm9vYg==");
    assert_eq!(base64_of_str("fooba"), "Zm9vYmE=");
    assert_eq!(base64_of_str("foobar"), "Zm9vYmFy");
}

#[test]
fn hex_rendering_matches_the_standard_formatter() {
    assert_eq!(u64_to_hex(0), "0");
    assert_eq!(u64_to_hex(15), "f");
    assert_eq!(u64_to_hex(255), "ff");
    assert_eq!(u64_to_hex(0xdeadbeef), "deadbeef");
    assert_eq!(u64_to_hex(u64::MAX), "ffffffffffffffff");
}

#[test]
fn file_hash_has_the_expected_value() {
    let h = get_file_hash("a", &FileMeta { size: 1, modified: 2 });
    assert_eq!(h, "e5d65b190429e62f");
    let h2 = get_file_hash("C:\\apps\\tool.exe", &FileMeta { size: 10, modified: 500 });
    assert_eq!(h2, "2e875b9744877c02");
}

#[test]
fn file_hash_changes_with_any_input() {
    let base = get_file_hash("a", &FileMeta { size: 1, modified: 2 });
    assert_ne!(get_file_hash("b", &FileMeta { size: 1, modified: 2 }), base);
    assert_ne!(get_file_hash("a", &FileMeta { size: 2, modified: 2 }), base);
    assert_ne!(get_file_hash("a", &FileMeta { size: 1, modified: 3 }), base);
    assert_eq!(get_file_hash("a", &FileMeta { size: 1, modified: 2 }), base);
}

#[test]
fn sanitize_filename_replaces_reserved_characters() {
    assert_eq!(sanitize_filename("a<b>c:d\"e/f\\g|h?i*j"), "a_b_c_d_e_f_g_h_i_j");
    assert_eq!(sanitize_filename("plain-name.txt"), "plain-name.txt");
    assert_eq!(sanitize_filename(""), "");
}
