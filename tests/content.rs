use anicla::digest::{fnv1a_128, hash_bytes, to_hex};
use anicla::layout::{
    file_extension, hash_dir, library_dir, model_dir, original_path, thumbnail_path,
};
use anicla::thumbnail::{decimal_text, media_info, resolution_text, thumbnail_size, ProbeError};

#[test]
fn digest_of_empty_input_is_offset_basis() {
    assert_eq!(hash_bytes(&[]), "6c62272e07bb014262b821756295c58d");
}

#[test]
fn digest_matches_known_vector() {
    assert_eq!(hash_bytes(b"a"), "d228cb696f1a8caf78912b704e4a8964");
    assert_eq!(hash_bytes(b"0123456789"), "0b7df68bb60da90266201c9330963d52");
}

#[test]
fn digest_is_stable_across_calls() {
    let bytes = vec![1u8, 2, 3];
    let first = hash_bytes(&bytes);
    let second = hash_bytes(&bytes);
    assert_eq!(first, second);
    assert_eq!(first, "a68baf0d6c8b5822836dbc78c568559b");
    assert_ne!(first, hash_bytes(&[1u8, 2, 4]));
}

#[test]
fn digest_has_fixed_length() {
    assert_eq!(hash_bytes(&[0u8; 1000]).len(), 32);
    assert_eq!(to_hex(0), "00000000000000000000000000000000");
    assert_eq!(to_hex(0xab), "000000000000000000000000000000ab");
    assert_eq!(fnv1a_128(&[]), 0x6c62272e07bb014262b821756295c58d);
}

#[test]
fn extension_after_last_dot() {
    assert_eq!(file_extension("photo.JPG"), "JPG");
    assert_eq!(file_extension("archive.tar.gz"), "gz");
    assert_eq!(file_extension("clip.mp4"), "mp4");
}

#[test]
fn extension_falls_back_to_bin() {
    assert_eq!(file_extension("noext"), "bin");
    assert_eq!(file_extension(".hidden"), "bin");
    assert_eq!(file_extension("trailing."), "bin");
    assert_eq!(file_extension(""), "bin");
}

#[test]
fn layout_paths() {
    assert_eq!(library_dir("/d"), "/d/library");
    assert_eq!(hash_dir("/d", "ab12"), "/d/library/ab12");
    assert_eq!(original_path("/d", "ab12", "png"), "/d/library/ab12/ab12.png");
    assert_eq!(thumbnail_path("/d", "ab12"), "/d/library/ab12/thumbnail.webp");
    assert_eq!(model_dir("/d", "0.1.0"), "/d/models/0.1.0");
}

#[test]
fn landscape_preview_has_longer_edge_256() {
    assert_eq!(thumbnail_size(1024, 768, 256), Some((256, 192)));
    assert_eq!(thumbnail_size(1920, 1080, 256), Some((256, 144)));
}

#[test]
fn portrait_preview_rounds_shorter_side() {
    // 100 * 256 / 300 = 85.33
    assert_eq!(thumbnail_size(100, 300, 256), Some((85, 256)));
    // 2 * 256 / 3 = 170.67
    assert_eq!(thumbnail_size(2, 3, 256), Some((171, 256)));
}

#[test]
fn square_and_extreme_previews() {
    assert_eq!(thumbnail_size(512, 512, 256), Some((256, 256)));
    assert_eq!(thumbnail_size(10, 10, 256), Some((256, 256)));
    assert_eq!(thumbnail_size(1, 10000, 256), Some((1, 256)));
    assert_eq!(thumbnail_size(u32::MAX, u32::MAX - 1, u32::MAX), Some((u32::MAX, u32::MAX - 1)));
}

#[test]
fn preview_of_empty_picture_is_refused() {
    assert_eq!(thumbnail_size(0, 10, 256), None);
    assert_eq!(thumbnail_size(10, 0, 256), None);
    assert_eq!(thumbnail_size(10, 10, 0), None);
}

#[test]
fn decimal_and_resolution_text() {
    assert_eq!(decimal_text(0), "0");
    assert_eq!(decimal_text(7), "7");
    assert_eq!(decimal_text(1080), "1080");
    assert_eq!(decimal_text(u64::MAX), "18446744073709551615");
    assert_eq!(resolution_text(1920, 1080), "1920x1080");
}

#[test]
fn media_info_of_image_has_no_duration() {
    let info = media_info(640, 480, false, Some(5)).unwrap();
    assert_eq!(info.resolution, "640x480");
    assert_eq!(info.duration_ms, None);
}

#[test]
fn media_info_of_video_keeps_duration() {
    let info = media_info(1280, 720, true, Some(61500)).unwrap();
    assert_eq!(info.resolution, "1280x720");
    assert_eq!(info.duration_ms, Some(61500));
}

#[test]
fn media_info_errors() {
    assert!(matches!(media_info(1280, 720, true, None), Err(ProbeError::Unreadable)));
    assert!(matches!(media_info(0, 720, false, None), Err(ProbeError::Unreadable)));
}
