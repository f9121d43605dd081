//! Profiles: display names, biographies and avatars.

use crate::api::{refusal, refuse, refused, Refusal, RefusalView};
use crate::text::{
    law_only_negative_numbers_have_a_sign, law_whitespace_around_a_text_goes, opt_str, opt_text,
    push_signed, push_text, same_text, signed_decimal, trim, trimmed, whitespace,
};
use crate::wire::u32_value;
use image::imageops::FilterType;
use image::{DynamicImage, ImageFormat};
use vstd::prelude::*;
use vstd::string::StringSliceAdditionalSpecFns;
use vstd::utf8::encode_utf8;

verus! {

/// Query params for avatar GET (uses token query param since <img> can't set headers)
pub struct AvatarQuery {
    pub token: String,
}

// ---------------------------------------------------------------------------
// Names and biographies
// ---------------------------------------------------------------------------
/// A field of a profile as it is stored: without the whitespace around it, and not at all
/// where nothing is left.
pub open spec fn stored_field(field: Option<Seq<char>>) -> Option<Seq<char>> {
    match field {
        Some(s) => if trimmed(s).len() == 0 {
            None
        } else {
            Some(trimmed(s))
        },
        None => None,
    }
}

/// Whether a field has more bytes than it may have.
pub open spec fn too_long(field: Option<Seq<char>>, limit: nat) -> bool {
    match field {
        Some(s) => encode_utf8(s).len() > limit,
        None => false,
    }
}

/// What is wrong with a profile, if anything: a name has up to 50 bytes, a biography up to
/// 500.
pub open spec fn profile_fault(
    display_name: Option<Seq<char>>,
    bio: Option<Seq<char>>,
) -> Option<RefusalView> {
    if too_long(stored_field(display_name), 50) {
        Some(refusal(400, "Display name must be 50 characters or fewer"@))
    } else if too_long(stored_field(bio), 500) {
        Some(refusal(400, "Bio must be 500 characters or fewer"@))
    } else {
        None
    }
}

/// A profile as it is stored.
#[derive(Debug)]
pub struct Profile {
    pub display_name: Option<String>,
    pub bio: Option<String>,
}

/// Brings a field into the form in which it is stored.
fn clean_field(field: Option<&str>) -> (r: Option<String>)
    ensures
        opt_text(r) == stored_field(opt_str(field)),
{
    match field {
        Some(s) => {
            let t = trim(s);
            if t.as_str().is_empty() {
                None
            } else {
                Some(t)
            }
        },
        None => None,
    }
}

/// Whether a field has more bytes than it may have.
fn exceeds(field: &Option<String>, limit: usize) -> (r: bool)
    ensures
        r == too_long(opt_text(*field), limit as nat),
{
    match field {
        Some(s) => s.as_str().as_bytes().len() > limit,
        None => false,
    }
}

/// Checks a profile, and brings it into the form in which it is stored.
pub fn check_profile(display_name: Option<&str>, bio: Option<&str>) -> (r: Result<
    Profile,
    Refusal,
>)
    ensures
        match r {
            Ok(profile) => {
                &&& profile_fault(opt_str(display_name), opt_str(bio)) is None
                &&& opt_text(profile.display_name) == stored_field(opt_str(display_name))
                &&& opt_text(profile.bio) == stored_field(opt_str(bio))
            },
            Err(e) => profile_fault(opt_str(display_name), opt_str(bio)) == Some(e@),
        },
{
    let display_name = clean_field(display_name);
    if exceeds(&display_name, 50) {
        return Err(refuse(400, "Display name must be 50 characters or fewer"));
    }
    let bio = clean_field(bio);
    if exceeds(&bio, 500) {
        return Err(refuse(400, "Bio must be 500 characters or fewer"));
    }
    Ok(Profile { display_name, bio })
}

// ---------------------------------------------------------------------------
// Avatars
// ---------------------------------------------------------------------------
/// The largest avatar that is accepted: 2 MB.
pub const MAX_AVATAR_BYTES: usize = 2_097_152;

/// The width and the height within which an avatar is stored.
pub const AVATAR_SIDE: u32 = 512;

/// Whether pictures of a type are accepted.
pub open spec fn accepted_type(content_type: Seq<char>) -> bool {
    content_type == "image/jpeg"@ || content_type == "image/png"@ || content_type == "image/webp"@
}

/// Checks the type of an upload. One without a type is not accepted.
pub fn check_avatar_type(content_type: Option<&str>) -> (r: Result<(), Refusal>)
    ensures
        if content_type matches Some(t) && accepted_type(t@) {
            r is Ok
        } else {
            refused(r, 400, "Invalid file type. Accepted: JPEG, PNG, WebP"@)
        },
{
    match content_type {
        Some(t) => {
            if same_text(t, "image/jpeg") || same_text(t, "image/png") || same_text(
                t,
                "image/webp",
            ) {
                return Ok(());
            }
        },
        None => {},
    }
    Err(refuse(400, "Invalid file type. Accepted: JPEG, PNG, WebP"))
}

/// Checks the size of an upload.
pub fn check_avatar_size(length: usize) -> (r: Result<(), Refusal>)
    ensures
        if length <= MAX_AVATAR_BYTES {
            r is Ok
        } else {
            refused(r, 400, "File too large. Maximum size is 2MB"@)
        },
{
    if length > MAX_AVATAR_BYTES {
        Err(refuse(400, "File too large. Maximum size is 2MB"))
    } else {
        Ok(())
    }
}

/// A decoded picture of the `image` crate.
#[verifier::external_type_specification]
#[verifier::external_body]
pub struct ExDynamicImage(image::DynamicImage);

/// The pixels that a picture holds, row by row from the top, as red, green, blue and alpha
/// of 8 bits each; colours of a greater depth as the `image` crate converts them to 8 bits.
pub uninterp spec fn pixels(picture: DynamicImage) -> Seq<Seq<(u8, u8, u8, u8)>>;

/// The width and the height of rows of pixels.
pub open spec fn grid_size(rows: Seq<Seq<(u8, u8, u8, u8)>>) -> (nat, nat) {
    if rows.len() == 0 {
        (0, 0)
    } else {
        (rows[0].len(), rows.len())
    }
}

/// The width and the height of the picture that `image::load_from_memory_with_format` finds
/// in some bytes, in the format that `image::guess_format` sees in them.
pub uninterp spec fn picture_size(data: Seq<u8>) -> (nat, nat);

/// The pixels that a WebP file without loss holds, row by row from the top: those that
/// `image::load_from_memory_with_format` reads in it.
pub uninterp spec fn webp_rows(data: Seq<u8>) -> Seq<Seq<(u8, u8, u8, u8)>>;

/// The bytes begin like those of a picture in one of the formats that are read: PNG, JPEG,
/// GIF or WebP.
pub open spec fn begins_a_picture(data: Seq<u8>) -> bool {
    ||| seq![0x89u8, 0x50, 0x4e, 0x47, 0x0d, 0x0a, 0x1a, 0x0a].is_prefix_of(data)
    ||| seq![0xffu8, 0xd8, 0xff].is_prefix_of(data)
    ||| seq![0x47u8, 0x49, 0x46, 0x38, 0x37, 0x61].is_prefix_of(data)
    ||| seq![0x47u8, 0x49, 0x46, 0x38, 0x39, 0x61].is_prefix_of(data)
    ||| begins_a_webp(data)
}

/// The bytes begin like those of a WebP file: `RIFF`, a length, `WEBP`.
pub open spec fn begins_a_webp(data: Seq<u8>) -> bool {
    &&& data.len() >= 12
    &&& data.take(4) == seq![0x52u8, 0x49, 0x46, 0x46]
    &&& data.subrange(8, 12) == seq![0x57u8, 0x45, 0x42, 0x50]
}

/// The bytes begin like those of a WebP file without loss: the first chunk is `VP8L`, with
/// the signature of its picture.
pub open spec fn begins_a_lossless_webp(data: Seq<u8>) -> bool {
    &&& begins_a_webp(data)
    &&& data.len() >= 25
    &&& data.subrange(12, 16) == seq![0x56u8, 0x50, 0x38, 0x4c]
    &&& data[20] == 0x2f
}

/// The width and the height that such a file announces: one less than each is written in 14
/// bits, the lower ones first.
pub open spec fn announced_size(data: Seq<u8>) -> (nat, nat) {
    let n = u32_value(data.skip(21)) as nat;
    (n % 16384 + 1, n / 16384 % 16384 + 1)
}

/// A file is as long as its head says: the length that follows `RIFF` counts what comes
/// after it.
pub open spec fn is_whole(data: Seq<u8>) -> bool {
    data.len() == 8 + u32_value(data.skip(4))
}

/// The bytes are a whole WebP file without loss, which holds pixels for just the size that it
/// announces.
pub open spec fn is_lossless_webp(data: Seq<u8>) -> bool {
    &&& begins_a_lossless_webp(data)
    &&& is_whole(data)
    &&& grid_size(webp_rows(data)) == announced_size(data)
}

/// The largest side of a picture in a WebP file.
pub const MAX_WEBP_SIDE: u32 = 16384;

/// A picture of this size can stand in a WebP file.
pub open spec fn webp_sized(size: (nat, nat)) -> bool {
    1 <= size.0 <= MAX_WEBP_SIDE && 1 <= size.1 <= MAX_WEBP_SIDE
}

/// The two numbers differ by no more than a third one.
pub open spec fn differ_by(a: int, b: int, most: int) -> bool {
    -most <= a - b <= most
}

/// A size is the largest one within a width and a height in the proportions of another: one
/// of its sides is the width or the height itself, and the other one is no more than a pixel off
/// the proportions. No side vanishes.
pub open spec fn fitted(size: (nat, nat), width: nat, height: nat, r: (nat, nat)) -> bool {
    &&& 1 <= r.0 <= width
    &&& 1 <= r.1 <= height
    &&& size.0 > 0 && size.1 > 0 ==> if width * size.1 <= height * size.0 {
        r.0 == width && differ_by(
            (r.1 * size.0) as int,
            (width * size.1) as int,
            size.0 as int,
        )
    } else {
        r.1 == height && differ_by(
            (r.0 * size.1) as int,
            (height * size.0) as int,
            size.1 as int,
        )
    }
}

/// `image::guess_format` and `image::load_from_memory_with_format`: decodes a picture whose
/// format is guessed from its first bytes, or gives the text of the error. Neither call looks
/// at the decoders that a program may have registered besides those that are built in, so a
/// picture comes of PNG, JPEG, GIF and WebP alone, and has the size that its bytes announce.
/// Of a WebP file without loss it has the pixels that the file holds. Nothing is said of the
/// pixels of another picture, nor of when decoding fails otherwise: the decoders go by the
/// instructions, the sizes and the memory of the machine.
#[verifier::external_body]
fn decode_image(data: &[u8]) -> (r: Result<DynamicImage, String>)
    ensures
        r matches Ok(picture) ==> begins_a_picture(data@) && grid_size(pixels(picture))
            == picture_size(data@),
        r matches Ok(picture) ==> begins_a_lossless_webp(data@) ==> pixels(picture) == webp_rows(
            data@,
        ),
{
    match image::guess_format(data) {
        Ok(format) => match image::load_from_memory_with_format(data, format) {
            Ok(picture) => Ok(picture),
            Err(e) => Err(e.to_string()),
        },
        Err(e) => Err(e.to_string()),
    }
}

/// `DynamicImage::resize` with the Lanczos filter: scales a picture to the largest size
/// that fits, and keeps its proportions. A picture that has this size stays as it is. Of
/// any other nothing is said of the colours of the pixels: they rest on floating-point sines
/// of the machine.
#[verifier::external_body]
fn resize_image(picture: &DynamicImage, width: u32, height: u32) -> (r: DynamicImage)
    requires
        width >= 1,
        height >= 1,
    ensures
        fitted(
            grid_size(pixels(*picture)),
            width as nat,
            height as nat,
            grid_size(pixels(r)),
        ),
        grid_size(pixels(*picture)) == (width as nat, height as nat) ==> pixels(r) == pixels(
            *picture,
        ),
{
    picture.resize(width, height, FilterType::Lanczos3)
}

/// `DynamicImage::write_to` with the WebP format: the bytes of a WebP file without loss that
/// announces the size of the picture, or the text of the error. The encoder takes every
/// picture whose sides are from 1 to 16384, and no other. The file is as long as it says and
/// holds the pixels of the picture in 8 bits per colour. Nothing else is said of the bytes
/// after the announced size: how the pixels are packed rests on a heap and on an unstable
/// sort, which leave the order of equal items open.
#[verifier::external_body]
fn encode_webp(picture: &DynamicImage) -> (r: Result<Vec<u8>, String>)
    ensures
        r is Ok <==> webp_sized(grid_size(pixels(*picture))),
        r matches Ok(bytes) ==> is_lossless_webp(bytes@) && webp_rows(bytes@) == pixels(*picture),
{
    let mut buf = std::io::Cursor::new(Vec::new());
    match picture.write_to(&mut buf, ImageFormat::WebP) {
        Ok(_) => Ok(buf.into_inner()),
        Err(e) => Err(e.to_string()),
    }
}

/// What became of a picture: the bytes to store, or the step that failed, with its reason.
#[derive(Debug)]
pub enum Processed {
    Encoded(Vec<u8>),
    Undecodable(String),
    Unencodable(String),
}

/// The bytes are those of an avatar that was made of a picture of a given size: a whole WebP
/// file with a picture of the largest size for avatars in the proportions of the other.
pub open spec fn avatar_of(size: (nat, nat), bytes: Seq<u8>) -> bool {
    &&& is_lossless_webp(bytes)
    &&& fitted(size, AVATAR_SIDE as nat, AVATAR_SIDE as nat, announced_size(bytes))
}

/// A picture of this size is stored as it is.
pub open spec fn avatar_sized(size: (nat, nat)) -> bool {
    size == (AVATAR_SIDE as nat, AVATAR_SIDE as nat)
}

/// Encodes a picture as WebP: the file holds its pixels. A picture whose sides a WebP file
/// cannot have is not encoded.
pub fn pack_picture(picture: &DynamicImage) -> (r: Processed)
    ensures
        if webp_sized(grid_size(pixels(*picture))) {
            r matches Processed::Encoded(bytes) && is_lossless_webp(bytes@) && webp_rows(bytes@)
                == pixels(*picture)
        } else {
            r is Unencodable
        },
{
    match encode_webp(picture) {
        Err(reason) => Processed::Unencodable(reason),
        Ok(bytes) => Processed::Encoded(bytes),
    }
}

/// Scales a decoded picture to fit the size of avatars and encodes it as WebP, which always
/// succeeds and keeps the pixels of a picture that has this size; a picture that could not be
/// decoded stays so.
pub fn store_picture(decoded: Result<DynamicImage, String>) -> (r: Processed)
    ensures
        match decoded {
            Ok(picture) => r matches Processed::Encoded(bytes) && {
                &&& avatar_of(grid_size(pixels(picture)), bytes@)
                &&& avatar_sized(grid_size(pixels(picture))) ==> webp_rows(bytes@) == pixels(
                    picture,
                )
            },
            Err(reason) => r matches Processed::Undecodable(text) && text@ == reason@,
        },
{
    match decoded {
        Err(reason) => Processed::Undecodable(reason),
        Ok(picture) => {
            let resized = resize_image(&picture, AVATAR_SIDE, AVATAR_SIDE);
            pack_picture(&resized)
        },
    }
}

/// The bytes are those of the avatar that is made of an upload: the upload begins like a
/// picture, and one without loss that has the size of an avatar keeps its pixels.
pub open spec fn avatar_of_upload(data: Seq<u8>, bytes: Seq<u8>) -> bool {
    &&& begins_a_picture(data)
    &&& avatar_of(picture_size(data), bytes)
    &&& begins_a_lossless_webp(data) && avatar_sized(picture_size(data)) ==> webp_rows(bytes)
        == webp_rows(data)
}

/// Decodes a picture, scales it to fit the size of avatars and encodes it as WebP. Only
/// decoding can fail, and it does on what does not begin like a picture.
fn process_image(data: &[u8]) -> (r: Processed)
    ensures
        match r {
            Processed::Encoded(bytes) => avatar_of_upload(data@, bytes@),
            Processed::Undecodable(_) => true,
            Processed::Unencodable(_) => false,
        },
{
    store_picture(decode_image(data))
}

/// Answers what became of a picture: a step that failed is the client's fault, and the
/// client is told why.
pub fn finish_processing(processed: Processed) -> (r: Result<Vec<u8>, Refusal>)
    ensures
        match processed {
            Processed::Encoded(bytes) => r == Ok::<Vec<u8>, Refusal>(bytes),
            Processed::Undecodable(reason) => refused(
                r,
                400,
                "Failed to decode image: "@ + reason@,
            ),
            Processed::Unencodable(reason) => refused(
                r,
                400,
                "Failed to encode image: "@ + reason@,
            ),
        },
{
    match processed {
        Processed::Encoded(bytes) => Ok(bytes),
        Processed::Undecodable(reason) => {
            let mut error = "Failed to decode image: ".to_owned();
            push_text(&mut error, reason.as_str());
            Err(Refusal { status: 400, error })
        },
        Processed::Unencodable(reason) => {
            let mut error = "Failed to encode image: ".to_owned();
            push_text(&mut error, reason.as_str());
            Err(Refusal { status: 400, error })
        },
    }
}

/// Checks the size of an upload, and brings it into the form in which avatars are stored.
/// What does not begin like a picture is refused. Which pixels come of a picture that is
/// read with loss or scaled is left to the `image` crate, and so is whether the rest of a
/// picture can be read.
pub fn process_avatar(data: &[u8]) -> (r: Result<Vec<u8>, Refusal>)
    ensures
        match r {
            Ok(bytes) => data@.len() <= MAX_AVATAR_BYTES && avatar_of_upload(data@, bytes@),
            Err(e) => if data@.len() > MAX_AVATAR_BYTES {
                e@ == refusal(400, "File too large. Maximum size is 2MB"@)
            } else {
                e.status == 400 && exists|reason: Seq<char>|
                    e.error@ == #[trigger] ("Failed to decode image: "@ + reason)
            },
        },
{
    match check_avatar_size(data.len()) {
        Err(e) => Err(e),
        Ok(_) => {
            let processed = process_image(data);
            let ghost reason = processed->Undecodable_0@;
            let ghost decoding = "Failed to decode image: "@ + reason;
            finish_processing(processed)
        },
    }
}

/// Where the avatar of a user is stored, below the storage directory.
pub open spec fn avatar_file(user_id: i64) -> Seq<char> {
    "avatars/"@ + signed_decimal(user_id as int) + ".webp"@
}

/// Says where the avatar of a user is stored, below the storage directory.
pub fn avatar_path(user_id: i64) -> (r: String)
    ensures
        r@ == avatar_file(user_id),
{
    let mut r = "avatars/".to_owned();
    push_signed(&mut r, user_id);
    push_text(&mut r, ".webp");
    r
}

/// Says where a file below the storage directory lies.
pub fn stored_at(storage_path: &str, path: &str) -> (r: String)
    ensures
        r@ == storage_path@ + "/"@ + path@,
{
    let mut r = storage_path.to_owned();
    push_text(&mut r, "/");
    push_text(&mut r, path);
    r
}

// ---------------------------------------------------------------------------
// Laws
// ---------------------------------------------------------------------------
/// A field is stored without the whitespace around it. One of whitespace alone is not stored,
/// and neither is one that is not given.
pub proof fn law_fields_are_stored_without_whitespace(
    before: Seq<char>,
    text: Seq<char>,
    after: Seq<char>,
)
    requires
        forall|i: int| 0 <= i < before.len() ==> whitespace(#[trigger] before[i]),
        forall|i: int| 0 <= i < after.len() ==> whitespace(#[trigger] after[i]),
        text.len() > 0 ==> !whitespace(text[0]) && !whitespace(text.last()),
    ensures
        text.len() > 0 ==> stored_field(Some(before + text + after)) == Some(text),
        text.len() == 0 ==> stored_field(Some(before + text + after)) is None,
        stored_field(None) is None,
{
    law_whitespace_around_a_text_goes(before, text, after);
}

/// A profile is accepted exactly where the name that is stored has no more than 50 bytes and
/// the biography no more than 500. The name is told first.
pub proof fn law_profiles_have_limits(display_name: Option<Seq<char>>, bio: Option<Seq<char>>)
    ensures
        ({
            let name_fits = stored_field(display_name) matches Some(s) ==> encode_utf8(s).len()
                <= 50;
            let bio_fits = stored_field(bio) matches Some(s) ==> encode_utf8(s).len() <= 500;
            let fault = profile_fault(display_name, bio);
            &&& fault is None <==> name_fits && bio_fits
            &&& fault matches Some(r) ==> r.status == 400
            &&& !name_fits ==> (fault matches Some(r) && r.error
                == "Display name must be 50 characters or fewer"@)
            &&& name_fits && !bio_fits ==> (fault matches Some(r) && r.error
                == "Bio must be 500 characters or fewer"@)
        }),
{
}

/// Pictures in JPEG, PNG and WebP are accepted, and no others.
pub proof fn law_three_types_are_accepted(content_type: Seq<char>)
    ensures
        accepted_type(content_type) <==> content_type == "image/jpeg"@ || content_type
            == "image/png"@ || content_type == "image/webp"@,
{
}

/// The avatars of two users are stored in two files.
pub proof fn law_avatars_do_not_mix(a: i64, b: i64)
    ensures
        avatar_file(a) == avatar_file(b) ==> a == b,
        "avatars/"@.is_prefix_of(avatar_file(a)),
        ".webp"@.is_suffix_of(avatar_file(a)),
{
    let (x, y) = (signed_decimal(a as int), signed_decimal(b as int));
    let (head, tail) = ("avatars/"@, ".webp"@);
    let (f, g) = (avatar_file(a), avatar_file(b));
    assert(f.subrange(0, head.len() as int) =~= head);
    assert(f.subrange(f.len() - tail.len(), f.len() as int) =~= tail);
    if f == g {
        assert(x.len() == y.len());
        assert(f.subrange(head.len() as int, (head.len() + x.len()) as int) =~= x);
        assert(g.subrange(head.len() as int, (head.len() + y.len()) as int) =~= y);
        law_only_negative_numbers_have_a_sign(a as int);
        law_only_negative_numbers_have_a_sign(b as int);
    }
}

/// A picture with equal sides is scaled to the full square of an avatar, a wider one to its
/// full width and a higher one to its full height, and never beyond.
pub proof fn law_avatars_fill_the_square(size: (nat, nat), r: (nat, nat))
    requires
        size.0 > 0,
        size.1 > 0,
        fitted(size, 512, 512, r),
    ensures
        r.0 <= 512 && r.1 <= 512,
        size.0 >= size.1 ==> r.0 == 512,
        size.1 > size.0 ==> r.1 == 512,
        1 <= r.0 && 1 <= r.1,
{
}

/// An upload has up to two megabytes. What is stored of a picture is no larger than 512 by 512
/// and fills one of the sides: a picture that is at least as wide as high has the full width,
/// and another one the full height. A picture of that size is stored as it is.
pub proof fn law_avatars_are_stored_in_one_size(size: (nat, nat), bytes: Seq<u8>)
    requires
        size.0 > 0,
        size.1 > 0,
        avatar_of(size, bytes),
    ensures
        MAX_AVATAR_BYTES == 2 * 1024 * 1024,
        is_lossless_webp(bytes),
        announced_size(bytes).0 <= 512 && announced_size(bytes).1 <= 512,
        size.0 >= size.1 ==> announced_size(bytes).0 == 512,
        size.1 > size.0 ==> announced_size(bytes).1 == 512,
        avatar_sized(size) <==> size == (512nat, 512nat),
{
}

} // verus!
