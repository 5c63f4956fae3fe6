use ankicollab::media_manager::files::{
    accepts, content_type_of_extension, determine_content_type, determine_content_type_by_name,
    has_key, is_allowed_extension, is_svg, is_valid_media_file, s3_key, sanitize_svg, ContentType,
    MediaStreamCheck, MAX_FILE_SIZE_BYTES,
};
use ankicollab::media_manager::svg::{item_of, sanitize_svg_batch};
use ankicollab::reply::Reply;
use ankicollab::structs::{SvgFile, SvgSanitizeRequest};

const SVG: &str = "<svg xmlns=\"http://www.w3.org/2000/svg\"><script>alert(1)</script><circle r=\"1\"/></svg>";

const PNG: [u8; 8] = [0x89, 0x50, 0x4E, 0x47, 0x0D, 0x0A, 0x1A, 0x0A];

#[test]
fn types_told_by_the_beginning() {
    let webp = b"RIFF\x00\x00\x00\x00WEBP";
    assert_eq!(determine_content_type(&[0xFF, 0xD8, 0xFF, 0, 0, 0, 0, 0]), Some(ContentType::Jpeg));
    assert_eq!(determine_content_type(&PNG), Some(ContentType::Png));
    assert_eq!(determine_content_type(b"GIF8xxxx"), Some(ContentType::Gif));
    assert_eq!(determine_content_type(webp), Some(ContentType::Webp));
    assert_eq!(determine_content_type(b"RIFF\x00\x00\x00\x00WAVE"), None);
    assert_eq!(determine_content_type(b"<svg>abc"), Some(ContentType::Svg));
    assert_eq!(determine_content_type(b"<?xml ve"), Some(ContentType::Svg));
    assert_eq!(determine_content_type(b"BMxxxxxx"), Some(ContentType::Bmp));
    assert_eq!(determine_content_type(b"II*\x00xxxx"), None);
    assert_eq!(determine_content_type(b"BMxxxxx"), None);
    assert_eq!(ContentType::Svg.mime(), "image/svg+xml");
    assert_eq!(ContentType::Tiff.mime(), "image/tiff");
}

#[test]
fn signatures_of_media_files() {
    assert!(is_valid_media_file(&PNG));
    assert!(!is_valid_media_file(&PNG[..7]));
    assert!(!is_valid_media_file(b"\x89PNGxxxx"));
    assert!(is_valid_media_file(b"GIF87axx"));
    assert!(is_valid_media_file(b"GIF89axx"));
    assert!(!is_valid_media_file(b"GIF88axx"));
    assert!(is_valid_media_file(b"II*\x00xxxx"));
    assert!(is_valid_media_file(b"MM\x00*xxxx"));
    assert!(is_valid_media_file(b"<svg>abc"));
    assert!(!is_valid_media_file(b"<?xml ve"));
    assert!(!is_valid_media_file(b"plain text"));
}

#[test]
fn svg_files_are_told() {
    assert!(is_svg(b"<svg"));
    assert!(!is_svg(b"<sv"));
    assert!(is_svg(b"<?xml version=\"1.0\"?><svg>"));
    assert!(!is_svg(b"<?xml version=\"1.0\"?><html>"));
    let mut late = b"<?xm".to_vec();
    late.resize(96, b' ');
    late.extend_from_slice(b"<svg ....");
    assert!(is_svg(&late));
    let mut too_late = b"<?xm".to_vec();
    too_late.resize(97, b' ');
    too_late.extend_from_slice(b"<svg ....");
    assert!(!is_svg(&too_late));
    assert!(is_svg(b"<?xm<svg"));
    assert!(is_svg(b"<?xm<svg "));
    assert!(!is_svg(b"<?xm<sv"));
    assert!(is_valid_media_file(b"<?xm<svg"));
}

#[test]
fn svg_files_lose_their_scripts() {
    let clean = sanitize_svg(SVG.as_bytes());
    let text = String::from_utf8(clean.clone()).unwrap();
    assert!(text.contains("circle"));
    assert!(!text.contains("script"));
    assert_ne!(clean, SVG.as_bytes());
    assert!(sanitize_svg(b"<svg/>").is_empty());
    assert!(sanitize_svg(b"no svg file at all").is_empty());
    let mut large = b"<svg>".to_vec();
    large.resize(MAX_FILE_SIZE_BYTES + 1, b' ');
    assert!(sanitize_svg(&large).is_empty());
}

#[test]
fn types_told_by_the_name() {
    assert_eq!(determine_content_type_by_name("a.JPG"), Some(ContentType::Jpeg));
    assert_eq!(determine_content_type_by_name("a.b.jpeg"), Some(ContentType::Jpeg));
    assert_eq!(determine_content_type_by_name("tiff"), Some(ContentType::Tiff));
    assert_eq!(determine_content_type_by_name("a.txt"), None);
    assert_eq!(determine_content_type_by_name("png."), None);
    assert_eq!(content_type_of_extension("webp"), Some(ContentType::Webp));
    assert_eq!(content_type_of_extension("WEBP"), None);
    assert_eq!(content_type_of_extension("gif"), Some(ContentType::Gif));
    assert_eq!(content_type_of_extension("bmp"), Some(ContentType::Bmp));
}

#[test]
fn names_of_media_files() {
    for name in ["image.png", "b.gif", "Foto (1).JPeG", "a+b,c%d&e-f_g.svg", "Ünïcödé.webp", "1.tif"]
    {
        assert!(is_allowed_extension(name), "{}", name);
        assert!(determine_content_type_by_name(name).is_some());
    }
    for name in [
        "", "a.b", "png", ".png", "a.pn", "dir/image.png", "dir\\image.png", "im..age.png",
        "image.png.", "image.png ", "     ", "im\u{7f}age.png", "im\nage.png", "im*age.png",
        "-image.png", " image.png", "image.txt", "imagepng", "image.", ".image.png",
    ] {
        assert!(!is_allowed_extension(name), "{}", name);
    }
    let longest = format!("{}.png", "a".repeat(251));
    assert!(is_allowed_extension(&longest));
    let too_long = format!("{}.png", "a".repeat(252));
    assert!(!is_allowed_extension(&too_long));
    let too_many_bytes = format!("{}.png", "ü".repeat(126));
    assert!(!is_allowed_extension(&too_many_bytes));
}

#[test]
fn places_of_stored_files() {
    assert_eq!(s3_key("abcdef"), "ab/abcdef");
    assert_eq!(s3_key("ab"), "ab/ab");
    assert_eq!(s3_key("üx"), "ü/üx");
    assert!(has_key("ab"));
    assert!(!has_key("a"));
    assert!(!has_key(""));
    assert!(!has_key("aü"));
    assert!(!has_key("€"));
}

fn verdict(chunks: &[&[u8]], hash: &str) -> bool {
    let mut check = MediaStreamCheck::new();
    for chunk in chunks {
        if !check.feed(chunk) {
            break;
        }
    }
    check.finish(hash)
}

#[test]
fn streams_are_judged_by_signature_and_hash() {
    assert!(!verdict(&[], "d41d8cd98f00b204e9800998ecf8427e"));
    let plain = "no media file at all";
    let hash = item_of("x", plain.as_bytes().to_vec()).unwrap().hash;
    assert!(!verdict(&[plain.as_bytes()], &hash));
    let bitmap = "BM no media file at all";
    let hash = item_of("x", bitmap.as_bytes().to_vec()).unwrap().hash;
    assert!(verdict(&[bitmap.as_bytes()], &hash));
    assert!(!verdict(&[bitmap.as_bytes()], &hash.to_uppercase()));
    assert!(accepts(true, "a", "a"));
    assert!(!accepts(false, "a", "a"));
    assert!(!accepts(true, "a", "b"));
}

#[test]
fn the_hash_of_a_stream_is_that_of_all_its_chunks() {
    let text = "BM the quick brown fox";
    let item = item_of("x", text.as_bytes().to_vec()).unwrap();
    assert_ne!(item.hash, text);
    assert_eq!(item.hash.len(), 32);
    assert!(verdict(&[text.as_bytes()], &item.hash));
    let (first, second) = text.as_bytes().split_at(9);
    assert!(verdict(&[first, second], &item.hash));
    assert!(!verdict(&[first], &item.hash));
    let (short, rest) = text.as_bytes().split_at(2);
    assert!(!verdict(&[short, rest], &item.hash));
}

#[test]
fn md5_of_the_alphabet() {
    let item = item_of("name", b"abcdefghijklmnopqrstuvwxyz".to_vec()).unwrap();
    assert_eq!(item.hash, "c3fcd3d76192e4007dfb496cca67e13b");
    assert_eq!(item.content, "abcdefghijklmnopqrstuvwxyz");
    assert_eq!(item.filename, "name");
}

#[test]
fn an_svg_stream_is_checked_without_what_could_do_harm() {
    let clean = sanitize_svg(SVG.as_bytes());
    let hash = item_of("x", clean).unwrap().hash;
    assert!(verdict(&[SVG.as_bytes()], &hash));
    let raw = item_of("x", SVG.as_bytes().to_vec()).unwrap().hash;
    assert!(!verdict(&[SVG.as_bytes()], &raw));
}

#[test]
fn a_stream_that_is_too_large_is_not_read_on() {
    let mut check = MediaStreamCheck::new();
    let mut chunk = vec![0u8; MAX_FILE_SIZE_BYTES];
    chunk[0] = b'B';
    chunk[1] = b'M';
    assert!(check.feed(&chunk));
    assert!(!check.feed(&[1]));
    assert!(!check.finish("anything"));
}

fn svg_request(contents: &[&str]) -> SvgSanitizeRequest {
    SvgSanitizeRequest {
        svg_files: contents
            .iter()
            .map(|c| SvgFile { filename: "a.svg".to_string(), content: c.to_string() })
            .collect(),
    }
}

fn refused(request: &SvgSanitizeRequest) -> Reply {
    match sanitize_svg_batch(request) {
        Err(reply) => reply,
        Ok(_) => panic!("granted"),
    }
}

#[test]
fn batches_of_svg_files() {
    let response = sanitize_svg_batch(&svg_request(&[SVG, "no svg", SVG])).unwrap();
    assert_eq!(response.sanitized_files.len(), 2);
    let item = &response.sanitized_files[0];
    assert!(!item.content.contains("script"));
    assert_eq!(item.filename, "a.svg");
    assert_eq!(item.hash, item_of("x", item.content.clone().into_bytes()).unwrap().hash);
}

#[test]
fn batches_of_svg_files_that_are_refused() {
    assert_eq!(refused(&svg_request(&[])), Reply::new(400, "No SVG files provided"));
    assert_eq!(
        refused(&svg_request(&vec![SVG; 251])),
        Reply::new(400, "Too many files in single request")
    );
    let half = " ".repeat(512 * 1024);
    assert!(sanitize_svg_batch(&svg_request(&[&half, &half])).is_ok());
    assert_eq!(
        refused(&svg_request(&[&half, &half, "x"])),
        Reply::new(400, "Total batch size too large")
    );
}

#[test]
fn what_is_left_of_a_file_may_be_nothing() {
    assert_eq!(item_of("x", Vec::new()), None);
    assert_eq!(item_of("x", vec![0xff, 0xfe]), None);
}
