use image::{DynamicImage, ImageFormat};
use rinse::api::profile::{
    avatar_path, check_avatar_size, check_avatar_type, check_profile, finish_processing,
    pack_picture, process_avatar, store_picture, stored_at, Processed, MAX_AVATAR_BYTES,
};
use rinse::api::Refusal;
use std::io::Cursor;

fn said(r: Refusal) -> (u16, String) {
    (r.status, r.error)
}

#[test]
fn profiles_are_trimmed() {
    let profile = check_profile(Some(" Ann "), Some("  ")).unwrap();
    assert_eq!(profile.display_name, Some("Ann".to_string()));
    assert_eq!(profile.bio, None);
    let profile = check_profile(None, Some("hello")).unwrap();
    assert_eq!(profile.display_name, None);
    assert_eq!(profile.bio, Some("hello".to_string()));
}

#[test]
fn profiles_are_bounded() {
    assert!(check_profile(Some(&"a".repeat(50)), Some(&"b".repeat(500))).is_ok());
    assert_eq!(
        said(check_profile(Some(&"a".repeat(51)), Some(&"b".repeat(501))).unwrap_err()),
        (400, "Display name must be 50 characters or fewer".to_string())
    );
    assert_eq!(
        said(check_profile(None, Some(&"b".repeat(501))).unwrap_err()),
        (400, "Bio must be 500 characters or fewer".to_string())
    );
    assert_eq!(said(check_profile(Some(&"ä".repeat(26)), None).unwrap_err()).0, 400);
}

#[test]
fn avatars_have_an_accepted_type() {
    for t in ["image/jpeg", "image/png", "image/webp"] {
        assert!(check_avatar_type(Some(t)).is_ok());
    }
    let refusal = (400, "Invalid file type. Accepted: JPEG, PNG, WebP".to_string());
    assert_eq!(said(check_avatar_type(Some("image/gif")).unwrap_err()), refusal);
    assert_eq!(said(check_avatar_type(None).unwrap_err()), refusal);
}

#[test]
fn avatars_are_bounded() {
    assert!(check_avatar_size(MAX_AVATAR_BYTES).is_ok());
    let refusal = (400, "File too large. Maximum size is 2MB".to_string());
    assert_eq!(said(check_avatar_size(MAX_AVATAR_BYTES + 1).unwrap_err()), refusal);
    assert_eq!(said(process_avatar(&vec![0; MAX_AVATAR_BYTES + 1]).unwrap_err()), refusal);
}

#[test]
fn avatars_are_scaled_and_stored_as_webp() {
    let mut png = Cursor::new(Vec::new());
    DynamicImage::new_rgb8(1024, 256).write_to(&mut png, ImageFormat::Png).unwrap();
    let stored = process_avatar(&png.into_inner()).unwrap();
    assert_eq!(&stored[..4], b"RIFF");
    assert_eq!(&stored[8..12], b"WEBP");
    let picture = image::load_from_memory(&stored).unwrap();
    assert_eq!((picture.width(), picture.height()), (512, 128));
}

/// The width and the height that a WebP file without loss announces.
fn announced(file: &[u8]) -> (u32, u32) {
    assert_eq!(&file[..4], b"RIFF");
    assert_eq!(&file[8..16], b"WEBPVP8L");
    assert_eq!(file[20], 0x2f);
    let n = u32::from_le_bytes([file[21], file[22], file[23], file[24]]);
    (n % 16384 + 1, n / 16384 % 16384 + 1)
}

#[test]
fn pictures_of_any_size_and_depth_fit_an_avatar() {
    let pictures = [
        (DynamicImage::new_rgb8(1024, 256), (512, 128)),
        (DynamicImage::new_luma8(3, 1), (512, 171)),
        (DynamicImage::new_rgba16(1, 3), (171, 512)),
        (DynamicImage::new_rgb32f(512, 512), (512, 512)),
        (DynamicImage::new_luma_a8(2000, 1), (512, 1)),
    ];
    for (picture, size) in pictures {
        match store_picture(Ok(picture)) {
            Processed::Encoded(file) => assert_eq!(announced(&file), size),
            other => panic!("{:?}", other),
        }
    }
    assert!(matches!(
        store_picture(Err("broken".to_string())),
        Processed::Undecodable(reason) if reason == "broken"
    ));
}

#[test]
fn the_formats_that_are_read_make_avatars() {
    for format in [ImageFormat::Png, ImageFormat::Jpeg, ImageFormat::Gif, ImageFormat::WebP] {
        let mut file = Cursor::new(Vec::new());
        DynamicImage::new_rgb8(20, 10).write_to(&mut file, format).unwrap();
        assert_eq!(announced(&process_avatar(&file.into_inner()).unwrap()), (512, 256));
    }
    for other in [&b""[..], &b"BM\x00\x00"[..], &b"P6 1 1 255 abc"[..], &b"\x89PN"[..]] {
        assert!(process_avatar(other).is_err());
    }
}

/// A picture with many colours, some of them transparent.
fn colourful(width: u32, height: u32) -> DynamicImage {
    let mut picture = DynamicImage::new_rgba8(width, height).to_rgba8();
    for (x, y, pixel) in picture.enumerate_pixels_mut() {
        let n = x * 7919 + y * 104_729;
        pixel.0 = [n as u8, (n / 3) as u8, (n / 5) as u8, (x ^ y) as u8];
    }
    picture.into()
}

#[test]
fn stored_files_are_whole_and_hold_the_picture() {
    for picture in [colourful(1, 1), colourful(3, 2), colourful(40, 25), colourful(513, 7)] {
        match pack_picture(&picture) {
            Processed::Encoded(file) => {
                let length = u32::from_le_bytes([file[4], file[5], file[6], file[7]]);
                assert_eq!(file.len(), 8 + length as usize);
                let back = image::load_from_memory_with_format(&file, ImageFormat::WebP).unwrap();
                assert_eq!(back.to_rgba8(), picture.to_rgba8());
            }
            other => panic!("{:?}", other),
        }
    }
    assert!(matches!(
        pack_picture(&DynamicImage::new_luma8(16385, 1)),
        Processed::Unencodable(reason) if !reason.is_empty()
    ));
    assert!(matches!(pack_picture(&DynamicImage::new_luma8(0, 0)), Processed::Unencodable(_)));
}

#[test]
fn deeper_colours_are_stored_in_eight_bits() {
    let picture = DynamicImage::from(colourful(20, 10).to_rgba16());
    match pack_picture(&picture) {
        Processed::Encoded(file) => {
            let back = image::load_from_memory_with_format(&file, ImageFormat::WebP).unwrap();
            assert_eq!(back.to_rgba8(), picture.to_rgba8());
        }
        other => panic!("{:?}", other),
    }
}

#[test]
fn avatars_of_the_full_size_keep_their_pixels() {
    let picture = colourful(512, 512);
    for format in [ImageFormat::WebP, ImageFormat::Png] {
        let mut file = Cursor::new(Vec::new());
        picture.write_to(&mut file, format).unwrap();
        let stored = process_avatar(&file.into_inner()).unwrap();
        let back = image::load_from_memory_with_format(&stored, ImageFormat::WebP).unwrap();
        assert_eq!(back.to_rgba8(), picture.to_rgba8());
    }
}

#[test]
fn registered_formats_do_not_change_avatars() {
    image::hooks::register_format_detection_hook("bmp".into(), b"\x89PNG", None);
    let mut png = Cursor::new(Vec::new());
    DynamicImage::new_rgb8(20, 10).write_to(&mut png, ImageFormat::Png).unwrap();
    let png = png.into_inner();
    assert!(image::load_from_memory(&png).is_err());
    assert_eq!(announced(&process_avatar(&png).unwrap()), (512, 256));
}

#[test]
fn broken_pictures_are_refused() {
    let (status, error) = said(process_avatar(b"no picture").unwrap_err());
    assert_eq!(status, 400);
    assert!(error.starts_with("Failed to decode image: "));
    assert!(error.len() > "Failed to decode image: ".len());
}

#[test]
fn processing_is_answered() {
    assert_eq!(finish_processing(Processed::Encoded(vec![1, 2])).unwrap(), vec![1, 2]);
    assert_eq!(
        said(finish_processing(Processed::Undecodable("x".to_string())).unwrap_err()),
        (400, "Failed to decode image: x".to_string())
    );
    assert_eq!(
        said(finish_processing(Processed::Unencodable("x".to_string())).unwrap_err()),
        (400, "Failed to encode image: x".to_string())
    );
}

#[test]
fn avatars_have_their_place() {
    assert_eq!(avatar_path(7), "avatars/7.webp");
    assert_eq!(stored_at("storage", "avatars/7.webp"), "storage/avatars/7.webp");
}
