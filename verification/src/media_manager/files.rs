//! Names, contents and storage keys of media files.
use vstd::prelude::*;
use vstd::utf8::*;

use crate::outside;
use crate::text;

verus! {

/// The largest media file, in bytes.
pub const MAX_FILE_SIZE_BYTES: usize = 2 * 1024 * 1024;

/// The bytes at the beginning of a file that tell its type.
pub const SIGNATURE_CHECK_BYTES: usize = 128;

/// `signature` stands in `bytes` at position `at`.
pub open spec fn bytes_at(bytes: Seq<u8>, at: int, signature: Seq<u8>) -> bool {
    &&& 0 <= at
    &&& at + signature.len() <= bytes.len()
    &&& bytes.subrange(at, at + signature.len()) == signature
}

/// Whether `signature` stands in `bytes` at position `at`.
fn are_bytes_at(bytes: &[u8], at: usize, signature: &Vec<u8>) -> (r: bool)
    ensures
        r == bytes_at(bytes@, at as int, signature@),
{
    let total = bytes.len();
    let n = signature.len();
    if total < n || at > total - n {
        return false;
    }
    let mut k: usize = 0;
    while k < n
        invariant
            n == signature@.len(),
            total == bytes@.len(),
            at + n <= total,
            k <= n,
            forall|j: int| 0 <= j < k ==> bytes@[at + j] == signature@[j],
        decreases n - k,
    {
        if bytes[at + k] != signature[k] {
            assert(bytes@.subrange(at as int, at + n)[k as int] != signature@[k as int]);
            return false;
        }
        k += 1;
    }
    assert(bytes@.subrange(at as int, at + n) =~= signature@);
    true
}

/// The bytes of `<svg`.
pub open spec fn svg_tag() -> Seq<u8> {
    seq![0x3Cu8, 0x73, 0x76, 0x67]
}

/// The bytes of `<?xm`.
pub open spec fn xml_declaration() -> Seq<u8> {
    seq![0x3Cu8, 0x3F, 0x78, 0x6D]
}

/// The bytes look like an SVG file: they begin with its tag, or with an XML declaration behind
/// which the tag stands within the first hundred bytes, or within all bytes of a shorter file.
pub open spec fn looks_like_svg(bytes: Seq<u8>) -> bool {
    ||| bytes_at(bytes, 0, svg_tag())
    ||| bytes_at(bytes, 0, xml_declaration()) && (exists|i: int|
        0 <= i <= (if bytes.len() < 100 {
            bytes.len() as int
        } else {
            100
        }) - 4 && #[trigger] bytes_at(bytes, i, svg_tag()))
}

/// Whether the bytes look like an SVG file.
pub fn is_svg(bytes: &[u8]) -> (r: bool)
    ensures
        r == looks_like_svg(bytes@),
{
    let tag: Vec<u8> = vec![0x3C, 0x73, 0x76, 0x67];
    let declaration: Vec<u8> = vec![0x3C, 0x3F, 0x78, 0x6D];
    assert(tag@ =~= svg_tag());
    assert(declaration@ =~= xml_declaration());
    if are_bytes_at(bytes, 0, &tag) {
        return true;
    }
    if !are_bytes_at(bytes, 0, &declaration) {
        return false;
    }
    let search_limit: usize = if bytes.len() < 100 {
        bytes.len()
    } else {
        100
    };
    let mut i: usize = 0;
    while i <= search_limit - 4
        invariant
            tag@ == svg_tag(),
            4 <= search_limit,
            search_limit == if bytes@.len() < 100 {
                bytes@.len() as int
            } else {
                100
            },
            bytes_at(bytes@, 0, xml_declaration()),
            i <= search_limit - 3,
            forall|j: int| 0 <= j < i ==> !#[trigger] bytes_at(bytes@, j, svg_tag()),
        decreases search_limit - i,
    {
        if are_bytes_at(bytes, i, &tag) {
            return true;
        }
        i += 1;
    }
    assert(!bytes_at(bytes@, 0, svg_tag())) by {
        assert(bytes@.subrange(0, 4)[1] == xml_declaration()[1]);
        if bytes_at(bytes@, 0, svg_tag()) {
            assert(bytes@.subrange(0, 4)[1] == svg_tag()[1]);
        }
    }
    false
}

/// An SVG file without what could do harm; nothing where the bytes are no SVG file, or where
/// there are too many or too few of them.
pub open spec fn sanitized_svg(data: Seq<u8>) -> Seq<u8> {
    if data.len() > MAX_FILE_SIZE_BYTES || data.len() < 10 || !looks_like_svg(data) {
        Seq::empty()
    } else {
        outside::svg_filtered(data)
    }
}

/// An SVG file without what could do harm; nothing where the bytes are no SVG file, or where
/// there are too many or too few of them.
pub fn sanitize_svg(data: &[u8]) -> (r: Vec<u8>)
    ensures
        r@ == sanitized_svg(data@),
{
    if data.len() > MAX_FILE_SIZE_BYTES || data.len() < 10 {
        return Vec::new();
    }
    if !is_svg(data) {
        return Vec::new();
    }
    outside::svg_filter(data)
}

/// The types of files that the beginning of a file tells.
#[derive(Clone, Copy, Debug, PartialEq, Eq, Structural)]
pub enum ContentType {
    Jpeg,
    Png,
    Gif,
    Webp,
    Svg,
    Bmp,
    Tiff,
}

impl ContentType {
    /// The MIME type.
    pub open spec fn mime_text(self) -> Seq<char> {
        match self {
            ContentType::Jpeg => "image/jpeg"@,
            ContentType::Png => "image/png"@,
            ContentType::Gif => "image/gif"@,
            ContentType::Webp => "image/webp"@,
            ContentType::Svg => "image/svg+xml"@,
            ContentType::Bmp => "image/bmp"@,
            ContentType::Tiff => "image/tiff"@,
        }
    }

    /// The MIME type.
    pub fn mime(&self) -> (r: String)
        ensures
            r@ == self.mime_text(),
    {
        match self {
            ContentType::Jpeg => "image/jpeg".to_owned(),
            ContentType::Png => "image/png".to_owned(),
            ContentType::Gif => "image/gif".to_owned(),
            ContentType::Webp => "image/webp".to_owned(),
            ContentType::Svg => "image/svg+xml".to_owned(),
            ContentType::Bmp => "image/bmp".to_owned(),
            ContentType::Tiff => "image/tiff".to_owned(),
        }
    }
}

/// The bytes of a RIFF container that holds a WebP image.
pub open spec fn is_webp(bytes: Seq<u8>) -> bool {
    bytes_at(bytes, 0, seq![0x52u8, 0x49, 0x46, 0x46]) && bytes_at(
        bytes,
        8,
        seq![0x57u8, 0x45, 0x42, 0x50],
    )
}

/// The type that the beginning of a file tells, from eight bytes on.
pub open spec fn content_type(bytes: Seq<u8>) -> Option<ContentType> {
    if bytes.len() < 8 {
        None
    } else if bytes_at(bytes, 0, seq![0xFFu8, 0xD8, 0xFF]) {
        Some(ContentType::Jpeg)
    } else if bytes_at(bytes, 0, seq![0x89u8, 0x50, 0x4E, 0x47]) {
        Some(ContentType::Png)
    } else if bytes_at(bytes, 0, seq![0x47u8, 0x49, 0x46, 0x38]) {
        Some(ContentType::Gif)
    } else if is_webp(bytes) {
        Some(ContentType::Webp)
    } else if bytes_at(bytes, 0, svg_tag()) || bytes_at(bytes, 0, xml_declaration()) {
        Some(ContentType::Svg)
    } else if bytes_at(bytes, 0, seq![0x42u8, 0x4D]) {
        Some(ContentType::Bmp)
    } else {
        None
    }
}

/// Whether the bytes are those of a WebP image.
fn is_webp_file(bytes: &[u8]) -> (r: bool)
    ensures
        r == is_webp(bytes@),
{
    let container: Vec<u8> = vec![0x52, 0x49, 0x46, 0x46];
    let marker: Vec<u8> = vec![0x57, 0x45, 0x42, 0x50];
    assert(container@ =~= seq![0x52u8, 0x49, 0x46, 0x46]);
    assert(marker@ =~= seq![0x57u8, 0x45, 0x42, 0x50]);
    are_bytes_at(bytes, 0, &container) && are_bytes_at(bytes, 8, &marker)
}

/// The type that the beginning of a file tells.
pub fn determine_content_type(bytes: &[u8]) -> (r: Option<ContentType>)
    ensures
        r == content_type(bytes@),
{
    if bytes.len() < 8 {
        return None;
    }
    let jpeg: Vec<u8> = vec![0xFF, 0xD8, 0xFF];
    let png: Vec<u8> = vec![0x89, 0x50, 0x4E, 0x47];
    let gif: Vec<u8> = vec![0x47, 0x49, 0x46, 0x38];
    let tag: Vec<u8> = vec![0x3C, 0x73, 0x76, 0x67];
    let declaration: Vec<u8> = vec![0x3C, 0x3F, 0x78, 0x6D];
    let bmp: Vec<u8> = vec![0x42, 0x4D];
    assert(jpeg@ =~= seq![0xFFu8, 0xD8, 0xFF]);
    assert(png@ =~= seq![0x89u8, 0x50, 0x4E, 0x47]);
    assert(gif@ =~= seq![0x47u8, 0x49, 0x46, 0x38]);
    assert(tag@ =~= svg_tag());
    assert(declaration@ =~= xml_declaration());
    assert(bmp@ =~= seq![0x42u8, 0x4D]);
    if are_bytes_at(bytes, 0, &jpeg) {
        Some(ContentType::Jpeg)
    } else if are_bytes_at(bytes, 0, &png) {
        Some(ContentType::Png)
    } else if are_bytes_at(bytes, 0, &gif) {
        Some(ContentType::Gif)
    } else if is_webp_file(bytes) {
        Some(ContentType::Webp)
    } else if are_bytes_at(bytes, 0, &tag) || are_bytes_at(bytes, 0, &declaration) {
        Some(ContentType::Svg)
    } else if are_bytes_at(bytes, 0, &bmp) {
        Some(ContentType::Bmp)
    } else {
        None
    }
}

/// The bytes begin like a file of one of the types that may be stored.
pub open spec fn has_media_signature(bytes: Seq<u8>) -> bool {
    &&& bytes.len() >= 8
    &&& {
        ||| bytes_at(bytes, 0, seq![0xFFu8, 0xD8, 0xFF])
        ||| bytes_at(bytes, 0, seq![0x89u8, 0x50, 0x4E, 0x47, 0x0D, 0x0A, 0x1A, 0x0A])
        ||| bytes_at(bytes, 0, seq![0x47u8, 0x49, 0x46, 0x38, 0x37, 0x61])
        ||| bytes_at(bytes, 0, seq![0x47u8, 0x49, 0x46, 0x38, 0x39, 0x61])
        ||| is_webp(bytes)
        ||| bytes_at(bytes, 0, seq![0x42u8, 0x4D])
        ||| bytes_at(bytes, 0, seq![0x49u8, 0x49, 0x2A, 0x00])
        ||| bytes_at(bytes, 0, seq![0x4Du8, 0x4D, 0x00, 0x2A])
        ||| looks_like_svg(bytes)
    }
}

/// Whether the bytes begin like a file of one of the types that may be stored.
pub fn is_valid_media_file(bytes: &[u8]) -> (r: bool)
    ensures
        r == has_media_signature(bytes@),
{
    if bytes.len() < 8 {
        return false;
    }
    let jpeg: Vec<u8> = vec![0xFF, 0xD8, 0xFF];
    let png: Vec<u8> = vec![0x89, 0x50, 0x4E, 0x47, 0x0D, 0x0A, 0x1A, 0x0A];
    let gif87a: Vec<u8> = vec![0x47, 0x49, 0x46, 0x38, 0x37, 0x61];
    let gif89a: Vec<u8> = vec![0x47, 0x49, 0x46, 0x38, 0x39, 0x61];
    let bmp: Vec<u8> = vec![0x42, 0x4D];
    let tiff_little: Vec<u8> = vec![0x49, 0x49, 0x2A, 0x00];
    let tiff_big: Vec<u8> = vec![0x4D, 0x4D, 0x00, 0x2A];
    assert(jpeg@ =~= seq![0xFFu8, 0xD8, 0xFF]);
    assert(png@ =~= seq![0x89u8, 0x50, 0x4E, 0x47, 0x0D, 0x0A, 0x1A, 0x0A]);
    assert(gif87a@ =~= seq![0x47u8, 0x49, 0x46, 0x38, 0x37, 0x61]);
    assert(gif89a@ =~= seq![0x47u8, 0x49, 0x46, 0x38, 0x39, 0x61]);
    assert(bmp@ =~= seq![0x42u8, 0x4D]);
    assert(tiff_little@ =~= seq![0x49u8, 0x49, 0x2A, 0x00]);
    assert(tiff_big@ =~= seq![0x4Du8, 0x4D, 0x00, 0x2A]);
    are_bytes_at(bytes, 0, &jpeg) || are_bytes_at(bytes, 0, &png) || are_bytes_at(
        bytes,
        0,
        &gif87a,
    ) || are_bytes_at(bytes, 0, &gif89a) || is_webp_file(bytes) || are_bytes_at(bytes, 0, &bmp)
        || are_bytes_at(bytes, 0, &tiff_little) || are_bytes_at(bytes, 0, &tiff_big) || is_svg(
        bytes,
    )
}

/// What looks like an SVG file is told to be one, and begins like a file that may be stored.
pub proof fn law_svg_is_told(bytes: Seq<u8>)
    requires
        looks_like_svg(bytes),
        bytes.len() >= 8,
    ensures
        content_type(bytes) == Some(ContentType::Svg),
        has_media_signature(bytes),
{
    let first = if bytes_at(bytes, 0, svg_tag()) {
        svg_tag()
    } else {
        xml_declaration()
    };
    assert(bytes_at(bytes, 0, first));
    assert(bytes.subrange(0, 4)[0] == first[0]);
    assert forall|other: Seq<u8>|
        other.len() > 0 && other[0] != 0x3Cu8 implies !#[trigger] bytes_at(bytes, 0, other) by {
        if bytes_at(bytes, 0, other) {
            assert(bytes.subrange(0, 0 + other.len() as int)[0] == other[0]);
        }
    }
}

/// Eight or more bytes that begin like a file that may be stored, and whose type is not told, are
/// those of a TIFF file.
pub proof fn law_untold_files_are_tiff(bytes: Seq<u8>)
    requires
        has_media_signature(bytes),
        content_type(bytes) is None,
    ensures
        bytes_at(bytes, 0, seq![0x49u8, 0x49, 0x2A, 0x00]) || bytes_at(
            bytes,
            0,
            seq![0x4Du8, 0x4D, 0x00, 0x2A],
        ),
{
    lemma_shorter_signature(
        bytes,
        seq![0x89u8, 0x50, 0x4E, 0x47, 0x0D, 0x0A, 0x1A, 0x0A],
        seq![0x89u8, 0x50, 0x4E, 0x47],
    );
    lemma_shorter_signature(
        bytes,
        seq![0x47u8, 0x49, 0x46, 0x38, 0x37, 0x61],
        seq![0x47u8, 0x49, 0x46, 0x38],
    );
    lemma_shorter_signature(
        bytes,
        seq![0x47u8, 0x49, 0x46, 0x38, 0x39, 0x61],
        seq![0x47u8, 0x49, 0x46, 0x38],
    );
}

proof fn lemma_shorter_signature(bytes: Seq<u8>, long: Seq<u8>, short: Seq<u8>)
    requires
        short.is_prefix_of(long),
    ensures
        bytes_at(bytes, 0, long) ==> bytes_at(bytes, 0, short),
{
    if bytes_at(bytes, 0, long) {
        assert(bytes.subrange(0, short.len() as int) =~= short) by {
            assert forall|i: int| 0 <= i < short.len() implies bytes[i] == short[i] by {
                assert(bytes.subrange(0, long.len() as int)[i] == long[i]);
                assert(long.subrange(0, short.len() as int)[i] == short[i]);
            }
        }
    }
}

/// The type of the files whose names end in an extension in small letters; the types for which
/// there is one may be uploaded.
pub open spec fn type_of_extension(extension: Seq<char>) -> Option<ContentType> {
    if extension == "jpg"@ || extension == "jpeg"@ {
        Some(ContentType::Jpeg)
    } else if extension == "png"@ {
        Some(ContentType::Png)
    } else if extension == "gif"@ {
        Some(ContentType::Gif)
    } else if extension == "webp"@ {
        Some(ContentType::Webp)
    } else if extension == "svg"@ {
        Some(ContentType::Svg)
    } else if extension == "bmp"@ {
        Some(ContentType::Bmp)
    } else if extension == "tif"@ || extension == "tiff"@ {
        Some(ContentType::Tiff)
    } else {
        None
    }
}

/// The type of the files whose names end in an extension in small letters.
pub fn content_type_of_extension(extension: &str) -> (r: Option<ContentType>)
    ensures
        r == type_of_extension(extension@),
{
    if text::same_text(extension, "jpg") || text::same_text(extension, "jpeg") {
        Some(ContentType::Jpeg)
    } else if text::same_text(extension, "png") {
        Some(ContentType::Png)
    } else if text::same_text(extension, "gif") {
        Some(ContentType::Gif)
    } else if text::same_text(extension, "webp") {
        Some(ContentType::Webp)
    } else if text::same_text(extension, "svg") {
        Some(ContentType::Svg)
    } else if text::same_text(extension, "bmp") {
        Some(ContentType::Bmp)
    } else if text::same_text(extension, "tif") || text::same_text(extension, "tiff") {
        Some(ContentType::Tiff)
    } else {
        None
    }
}

/// The type that a file's name tells: by what stands behind its last dot, or by all of it where
/// it has none.
pub open spec fn type_by_name(file_name: Seq<char>) -> Option<ContentType> {
    type_of_extension(outside::lowercase(text::after_last(file_name, '.')))
}

/// The type that a file's name tells.
pub fn determine_content_type_by_name(file_name: &str) -> (r: Option<ContentType>)
    ensures
        r == type_by_name(file_name@),
{
    let extension = outside::to_lowercase(text::tail_after_last(file_name, '.').as_str());
    content_type_of_extension(extension.as_str())
}

/// A character that the name of a media file may hold.
pub open spec fn is_name_char(c: char) -> bool {
    &&& !text::control(c)
    &&& outside::alphanumeric(c) || c == '.' || c == '-' || c == '_' || c == ' ' || c == '(' || c
        == ')' || c == '+' || c == ',' || c == '%' || c == '&'
}

/// Whether the name of a media file may hold a character.
fn may_be_in_name(c: char) -> (r: bool)
    ensures
        r == is_name_char(c),
{
    !text::is_control(c) && (outside::is_alphanumeric(c) || c == '.' || c == '-' || c == '_'
        || c == ' ' || c == '(' || c == ')' || c == '+' || c == ',' || c == '%' || c == '&')
}

/// What stands behind the last dot of a name, where that dot is not the first character.
pub open spec fn name_extension(name: Seq<char>) -> Option<Seq<char>> {
    let tail = text::after_last(name, '.');
    if tail.len() + 1 < name.len() {
        Some(tail)
    } else {
        None
    }
}

/// A name under which a media file may be uploaded.
pub open spec fn is_allowed_name(name: Seq<char>) -> bool {
    &&& 5 <= encode_utf8(name).len() <= 255
    &&& !name.contains('/')
    &&& !name.contains('\\')
    &&& !text::is_part_of(".."@, name)
    &&& name.last() != '.'
    &&& name.last() != ' '
    &&& exists|i: int| 0 <= i < name.len() && !outside::whitespace(#[trigger] name[i])
    &&& forall|i: int| 0 <= i < name.len() ==> is_name_char(#[trigger] name[i])
    &&& outside::alphanumeric(name[0])
    &&& name_extension(name) matches Some(extension) && type_of_extension(
        outside::lowercase(extension),
    ) is Some
}

/// Whether a media file may be uploaded under a name.
pub fn is_allowed_extension(filename: &str) -> (r: bool)
    ensures
        r == is_allowed_name(filename@),
{
    let bytes = filename.as_bytes();
    if bytes.len() > 255 || bytes.len() < 5 {
        return false;
    }
    let name = text::chars_of(filename);
    let n = name.len();
    assert(n > 0) by {
        if n == 0 {
            assert(filename@ =~= Seq::<char>::empty());
            assert(encode_utf8(Seq::<char>::empty()).len() == 0);
        }
    }
    if name[n - 1] == '.' || name[n - 1] == ' ' || text::holds(filename, "..") {
        return false;
    }
    let mut blank = true;
    let mut i: usize = 0;
    while i < n
        invariant
            name@ == filename@,
            n == name@.len(),
            i <= n,
            blank ==> forall|j: int| 0 <= j < i ==> outside::whitespace(#[trigger] name@[j]),
            !blank ==> exists|j: int| 0 <= j < i && !outside::whitespace(#[trigger] name@[j]),
            forall|j: int|
                0 <= j < i ==> is_name_char(#[trigger] name@[j]) && name@[j] != '/' && name@[j]
                    != '\\',
        decreases n - i,
    {
        let c: char = name[i];
        if c == '/' || c == '\\' || !may_be_in_name(c) {
            assert(name@[i as int] == c);
            return false;
        }
        if !outside::is_whitespace(c) {
            blank = false;
        }
        i += 1;
    }
    if blank || !outside::is_alphanumeric(name[0]) {
        return false;
    }
    let tail = text::tail_after_last(filename, '.');
    if text::chars_of(tail.as_str()).len() >= n - 1 {
        return false;
    }
    let extension = outside::to_lowercase(tail.as_str());
    content_type_of_extension(extension.as_str()).is_some()
}

/// A file that may be uploaded under its name has a type that its name tells.
pub proof fn law_allowed_names_have_a_type(name: Seq<char>)
    requires
        is_allowed_name(name),
    ensures
        type_by_name(name) is Some,
{
}

/// The hash has two first bytes that can be told from the rest.
pub open spec fn has_prefix(hash: Seq<char>) -> bool {
    is_char_boundary(encode_utf8(hash), 2)
}

/// The text of the first two bytes of a hash.
pub open spec fn hash_prefix(hash: Seq<char>) -> Seq<char> {
    decode_utf8(encode_utf8(hash).take(2))
}

/// Where the file of a hash is stored: the hash, in a directory named by its first two bytes.
pub open spec fn object_key(hash: Seq<char>) -> Seq<char> {
    hash_prefix(hash) + "/"@ + hash
}

/// The text of the first two bytes of a hash is what the hash begins with.
pub(crate) proof fn lemma_hash_prefix(hash: Seq<char>)
    requires
        has_prefix(hash),
    ensures
        encode_utf8(hash_prefix(hash)).len() == 2,
        hash_prefix(hash).len() > 0,
        hash_prefix(hash).is_prefix_of(hash),
{
    let bytes = encode_utf8(hash);
    let prefix = hash_prefix(hash);
    encode_utf8_valid_utf8(hash);
    assert(bytes.len() >= 2);
    assert(bytes.subrange(0, 2) =~= bytes.take(2));
    valid_utf8_split(bytes, 2);
    decode_utf8_split(bytes, 2);
    encode_utf8_decode_utf8(hash);
    decode_utf8_encode_utf8(bytes.take(2));
    assert(encode_utf8(prefix) == bytes.take(2));
    let rest = decode_utf8(bytes.subrange(2, bytes.len() as int));
    assert(hash == prefix + rest);
    assert(hash.subrange(0, prefix.len() as int) =~= prefix);
    if prefix.len() == 0 {
        assert(prefix =~= Seq::<char>::empty());
        assert(encode_utf8(prefix).len() == 0);
    }
}

/// Whether there is a place for the file of a hash: its first two bytes can be told from the rest.
pub fn has_key(hash: &str) -> (r: bool)
    ensures
        r == has_prefix(hash@),
{
    hash.is_char_boundary(2)
}

/// Where the file of a hash is stored.
pub fn s3_key(hash: &str) -> (r: String)
    requires
        has_prefix(hash@),
    ensures
        r@ == object_key(hash@),
{
    let prefix = hash.split_at(2).0;
    proof {
        encode_utf8_decode_utf8(prefix@);
        assert(encode_utf8(hash@).take(2) =~= encode_utf8(prefix@));
    }
    let directory = text::joined(prefix, "/");
    text::joined(directory.as_str(), hash)
}

/// A text whose encoding has two bytes, and that begins another such text, is that text.
proof fn lemma_two_bytes(a: Seq<char>, b: Seq<char>)
    requires
        encode_utf8(a).len() == 2,
        encode_utf8(b).len() == 2,
        a.is_prefix_of(b),
    ensures
        a == b,
    decreases a.len(),
{
    lemma_encoded_prefix(a, b);
    assert(a =~= b);
}

proof fn lemma_encoded_prefix(a: Seq<char>, b: Seq<char>)
    requires
        a.is_prefix_of(b),
    ensures
        encode_utf8(a).len() + (b.len() - a.len()) <= encode_utf8(b).len(),
    decreases b.len(),
{
    if b.len() > 0 {
        if a.len() > 0 {
            assert(a[0] == b.subrange(0, a.len() as int)[0]);
            assert(a.drop_first().is_prefix_of(b.drop_first())) by {
                assert(b.drop_first().subrange(0, a.drop_first().len() as int)
                    =~= b.subrange(0, a.len() as int).drop_first());
            }
            lemma_encoded_prefix(a.drop_first(), b.drop_first());
        } else {
            assert(a.is_prefix_of(b.drop_first())) by {
                assert(b.drop_first().subrange(0, 0) =~= a);
            }
            lemma_encoded_prefix(a, b.drop_first());
        }
    }
}

/// Files of different hashes are stored in different places.
pub proof fn law_different_hashes_are_stored_apart(a: Seq<char>, b: Seq<char>)
    requires
        has_prefix(a),
        has_prefix(b),
        object_key(a) == object_key(b),
    ensures
        a == b,
{
    lemma_hash_prefix(a);
    lemma_hash_prefix(b);
    let p = hash_prefix(a);
    let q = hash_prefix(b);
    let key = object_key(a);
    assert(key.take(p.len() as int) =~= p);
    assert(key.take(q.len() as int) =~= q);
    if p.len() <= q.len() {
        assert(q.subrange(0, p.len() as int) =~= p);
        lemma_two_bytes(p, q);
    } else {
        assert(p.subrange(0, q.len() as int) =~= q);
        lemma_two_bytes(q, p);
    }
    let n = p.len() as int + "/"@.len();
    assert(key.skip(n) =~= a);
    assert(object_key(b).skip(n) =~= b);
}

/// What a file turns out to be when it has been read: `first` is what came with the first read,
/// `content` is all of it. It is valid if it is not too large, if its beginning is that of a media
/// file, and if its hash is the expected one. An SVG file is valid if its hash without what could
/// do harm is the expected one.
pub open spec fn is_valid_content(first: Seq<u8>, content: Seq<u8>, expected: Seq<char>) -> bool {
    let beginning = if first.len() <= SIGNATURE_CHECK_BYTES {
        first
    } else {
        first.take(SIGNATURE_CHECK_BYTES as int)
    };
    &&& first.len() > 0
    &&& content.len() <= MAX_FILE_SIZE_BYTES
    &&& has_media_signature(beginning)
    &&& if content_type(beginning) == Some(ContentType::Svg) {
        sanitized_svg(content).len() > 0 && outside::md5_hex_digest(sanitized_svg(content))
            == expected
    } else {
        outside::md5_hex_digest(content) == expected
    }
}

/// The verdict on a file does not depend on how it is read, as long as the first read brings as
/// much of it as tells its type.
pub proof fn law_long_first_reads_agree(
    first: Seq<u8>,
    other: Seq<u8>,
    content: Seq<u8>,
    expected: Seq<char>,
)
    requires
        first.is_prefix_of(content),
        other.is_prefix_of(content),
        first.len() >= SIGNATURE_CHECK_BYTES,
        other.len() >= SIGNATURE_CHECK_BYTES,
    ensures
        is_valid_content(first, content, expected) == is_valid_content(other, content, expected),
{
    let n = SIGNATURE_CHECK_BYTES as int;
    assert(first.take(n) =~= content.take(n)) by {
        assert(first =~= content.subrange(0, first.len() as int));
    }
    assert(other.take(n) =~= content.take(n)) by {
        assert(other =~= content.subrange(0, other.len() as int));
    }
    assert(first.len() == n ==> first =~= first.take(n));
    assert(other.len() == n ==> other =~= other.take(n));
}

/// Checks a media file while it is read.
pub struct MediaStreamCheck {
    content: Vec<u8>,
    first: Ghost<Seq<u8>>,
    svg: bool,
    valid: bool,
    too_large: bool,
}

impl MediaStreamCheck {
    /// What came with the first read.
    pub closed spec fn first(self) -> Seq<u8> {
        self.first@
    }

    /// What has been read.
    pub closed spec fn content(self) -> Seq<u8> {
        self.content@
    }

    /// What has been told of the file holds.
    pub closed spec fn wf(self) -> bool {
        let beginning = if self.first@.len() <= SIGNATURE_CHECK_BYTES {
            self.first@
        } else {
            self.first@.take(SIGNATURE_CHECK_BYTES as int)
        };
        &&& self.first@.len() == 0 <==> self.content@.len() == 0
        &&& self.svg == (content_type(beginning) == Some(ContentType::Svg))
        &&& self.valid == has_media_signature(beginning)
        &&& self.too_large == (self.content@.len() > MAX_FILE_SIZE_BYTES)
    }

    /// The check of a file of which nothing has been read yet.
    pub fn new() -> (r: Self)
        ensures
            r.wf(),
            r.first() == Seq::<u8>::empty(),
            r.content() == Seq::<u8>::empty(),
    {
        MediaStreamCheck {
            content: Vec::new(),
            first: Ghost(Seq::empty()),
            svg: false,
            valid: false,
            too_large: false,
        }
    }

    /// Takes what came with a read. Says whether the rest is worth reading: it is not once the
    /// file is too large.
    pub fn feed(&mut self, chunk: &[u8]) -> (r: bool)
        requires
            old(self).wf(),
            chunk@.len() > 0,
            old(self).content().len() <= MAX_FILE_SIZE_BYTES,
            chunk@.len() <= MAX_FILE_SIZE_BYTES,
        ensures
            final(self).wf(),
            final(self).content() == old(self).content() + chunk@,
            final(self).first() == if old(self).first().len() == 0 {
                chunk@
            } else {
                old(self).first()
            },
            r == (final(self).content().len() <= MAX_FILE_SIZE_BYTES),
    {
        let is_first = self.content.len() == 0;
        if is_first {
            let mut beginning: Vec<u8> = Vec::new();
            let mut i: usize = 0;
            while i < chunk.len() && i < SIGNATURE_CHECK_BYTES
                invariant
                    i <= chunk@.len(),
                    i <= SIGNATURE_CHECK_BYTES,
                    beginning@ == chunk@.take(i as int),
                decreases chunk@.len() - i,
            {
                beginning.push(chunk[i]);
                i += 1;
            }
            assert(beginning@ == if chunk@.len() <= SIGNATURE_CHECK_BYTES {
                chunk@
            } else {
                chunk@.take(SIGNATURE_CHECK_BYTES as int)
            }) by {
                assert(chunk@.take(chunk@.len() as int) =~= chunk@);
            }
            self.svg = match determine_content_type(beginning.as_slice()) {
                Some(ContentType::Svg) => true,
                _ => false,
            };
            self.valid = is_valid_media_file(beginning.as_slice());
            self.first = Ghost(chunk@);
        }
        self.content.extend_from_slice(chunk);
        assert(self.content@ =~= old(self).content@ + chunk@);
        self.too_large = self.content.len() > MAX_FILE_SIZE_BYTES;
        !self.too_large
    }

    /// The verdict on what has been read, all of which is the file, or more of it than is allowed.
    pub fn finish(&self, expected_hash: &str) -> (r: bool)
        requires
            self.wf(),
        ensures
            r == is_valid_content(self.first(), self.content(), expected_hash@),
    {
        if self.content.len() == 0 || self.too_large {
            return false;
        }
        if self.svg {
            let sanitized = sanitize_svg(self.content.as_slice());
            let actual_hash = outside::md5_hex(sanitized.as_slice());
            accepts(self.valid && sanitized.len() > 0, actual_hash.as_str(), expected_hash)
        } else {
            let actual_hash = outside::md5_hex(self.content.as_slice());
            accepts(self.valid, actual_hash.as_str(), expected_hash)
        }
    }
}

/// Whether a file is accepted whose content is valid or not, and that has a hash.
pub fn accepts(valid: bool, actual_hash: &str, expected_hash: &str) -> (r: bool)
    ensures
        r == (valid && actual_hash@ == expected_hash@),
{
    valid && text::same_text(actual_hash, expected_hash)
}

proof fn lemma_bytes_at(bytes: Seq<u8>, at: int, signature: Seq<u8>)
    ensures
        bytes_at(bytes, at, signature) <==> 0 <= at && at + signature.len() <= bytes.len() && (
        forall|k: int| 0 <= k < signature.len() ==> bytes[at + k] == #[trigger] signature[k]),
{
    if bytes_at(bytes, at, signature) {
        assert forall|k: int| 0 <= k < signature.len() implies bytes[at + k]
            == #[trigger] signature[k] by {
            assert(bytes.subrange(at, at + signature.len())[k] == signature[k]);
        }
    } else if 0 <= at && at + signature.len() <= bytes.len() && (forall|k: int|
        0 <= k < signature.len() ==> bytes[at + k] == #[trigger] signature[k]) {
        assert(bytes.subrange(at, at + signature.len()) =~= signature);
    }
}

proof fn lemma_four_bytes_at(bytes: Seq<u8>, at: int, a: u8, b: u8, c: u8, d: u8)
    ensures
        bytes_at(bytes, at, seq![a, b, c, d]) <==> 0 <= at && at + 4 <= bytes.len() && bytes[at]
            == a && bytes[at + 1] == b && bytes[at + 2] == c && bytes[at + 3] == d,
{
    let s = seq![a, b, c, d];
    lemma_bytes_at(bytes, at, s);
    assert(s[0] == a && s[1] == b && s[2] == c && s[3] == d);
    if 0 <= at && at + 4 <= bytes.len() && bytes[at] == a && bytes[at + 1] == b && bytes[at + 2]
        == c && bytes[at + 3] == d {
        assert forall|k: int| 0 <= k < 4 implies bytes[at + k] == #[trigger] s[k] by {
            assert(k == 0 || k == 1 || k == 2 || k == 3);
        }
    }
}

/// A file looks like an SVG file exactly where its first four bytes are those of `<svg`, or those of
/// `<?xm` with the four bytes of `<svg` somewhere within its first hundred bytes.
pub proof fn law_svg_files_in_plain_bytes(b: Seq<u8>)
    ensures
        looks_like_svg(b) <==> {
            ||| b.len() >= 4 && b[0] == 0x3C && b[1] == 0x73 && b[2] == 0x76 && b[3] == 0x67
            ||| b.len() >= 4 && b[0] == 0x3C && b[1] == 0x3F && b[2] == 0x78 && b[3] == 0x6D
                && exists|i: int|
                0 <= i <= 96 && i + 4 <= b.len() && (#[trigger] b[i]) == 0x3C && b[i + 1] == 0x73
                    && b[i + 2] == 0x76 && b[i + 3] == 0x67
        },
{
    lemma_four_bytes_at(b, 0, 0x3C, 0x73, 0x76, 0x67);
    lemma_four_bytes_at(b, 0, 0x3C, 0x3F, 0x78, 0x6D);
    assert forall|i: int| #[trigger] bytes_at(b, i, svg_tag()) <==> 0 <= i && i + 4 <= b.len()
        && b[i] == 0x3C && b[i + 1] == 0x73 && b[i + 2] == 0x76 && b[i + 3] == 0x67 by {
        lemma_four_bytes_at(b, i, 0x3C, 0x73, 0x76, 0x67);
    }
    let limit = (if b.len() < 100 {
        b.len() as int
    } else {
        100
    }) - 4;
    if exists|i: int|
        0 <= i <= 96 && i + 4 <= b.len() && (#[trigger] b[i]) == 0x3C && b[i + 1] == 0x73 && b[i
            + 2] == 0x76 && b[i + 3] == 0x67 {
        let i = choose|i: int|
            0 <= i <= 96 && i + 4 <= b.len() && (#[trigger] b[i]) == 0x3C && b[i + 1] == 0x73
                && b[i + 2] == 0x76 && b[i + 3] == 0x67;
        assert(bytes_at(b, i, svg_tag()) && 0 <= i <= limit);
    }
}

/// Which files begin like one that may be stored, byte by byte: of eight bytes or more, those of JPEG,
/// PNG, GIF, WebP, BMP and TIFF files, and those that look like SVG files.
pub proof fn law_media_signatures_in_plain_bytes(b: Seq<u8>)
    ensures
        has_media_signature(b) <==> b.len() >= 8 && {
            ||| b[0] == 0xFF && b[1] == 0xD8 && b[2] == 0xFF
            ||| b[0] == 0x89 && b[1] == 0x50 && b[2] == 0x4E && b[3] == 0x47 && b[4] == 0x0D
                && b[5] == 0x0A && b[6] == 0x1A && b[7] == 0x0A
            ||| b[0] == 0x47 && b[1] == 0x49 && b[2] == 0x46 && b[3] == 0x38 && (b[4] == 0x37
                || b[4] == 0x39) && b[5] == 0x61
            ||| b.len() >= 12 && b[0] == 0x52 && b[1] == 0x49 && b[2] == 0x46 && b[3] == 0x46
                && b[8] == 0x57 && b[9] == 0x45 && b[10] == 0x42 && b[11] == 0x50
            ||| b[0] == 0x42 && b[1] == 0x4D
            ||| b[0] == 0x49 && b[1] == 0x49 && b[2] == 0x2A && b[3] == 0x00
            ||| b[0] == 0x4D && b[1] == 0x4D && b[2] == 0x00 && b[3] == 0x2A
            ||| b[0] == 0x3C && b[1] == 0x73 && b[2] == 0x76 && b[3] == 0x67
            ||| b[0] == 0x3C && b[1] == 0x3F && b[2] == 0x78 && b[3] == 0x6D && exists|i: int|
                0 <= i <= 96 && i + 4 <= b.len() && (#[trigger] b[i]) == 0x3C && b[i + 1] == 0x73
                    && b[i + 2] == 0x76 && b[i + 3] == 0x67
        },
{
    law_svg_files_in_plain_bytes(b);
    let jpeg = seq![0xFFu8, 0xD8, 0xFF];
    let png = seq![0x89u8, 0x50, 0x4E, 0x47, 0x0D, 0x0A, 0x1A, 0x0A];
    let gif87 = seq![0x47u8, 0x49, 0x46, 0x38, 0x37, 0x61];
    let gif89 = seq![0x47u8, 0x49, 0x46, 0x38, 0x39, 0x61];
    let bmp = seq![0x42u8, 0x4D];
    lemma_bytes_at(b, 0, jpeg);
    lemma_bytes_at(b, 0, png);
    lemma_bytes_at(b, 0, gif87);
    lemma_bytes_at(b, 0, gif89);
    lemma_bytes_at(b, 0, bmp);
    lemma_four_bytes_at(b, 0, 0x52, 0x49, 0x46, 0x46);
    lemma_four_bytes_at(b, 8, 0x57, 0x45, 0x42, 0x50);
    lemma_four_bytes_at(b, 0, 0x49, 0x49, 0x2A, 0x00);
    lemma_four_bytes_at(b, 0, 0x4D, 0x4D, 0x00, 0x2A);
    assert(jpeg[0] == 0xFF && jpeg[1] == 0xD8 && jpeg[2] == 0xFF);
    assert(png[0] == 0x89 && png[1] == 0x50 && png[2] == 0x4E && png[3] == 0x47 && png[4] == 0x0D
        && png[5] == 0x0A && png[6] == 0x1A && png[7] == 0x0A);
    assert(gif87[0] == 0x47 && gif87[1] == 0x49 && gif87[2] == 0x46 && gif87[3] == 0x38 && gif87[4]
        == 0x37 && gif87[5] == 0x61);
    assert(gif89[0] == 0x47 && gif89[1] == 0x49 && gif89[2] == 0x46 && gif89[3] == 0x38 && gif89[4]
        == 0x39 && gif89[5] == 0x61);
    assert(bmp[0] == 0x42 && bmp[1] == 0x4D);
}

/// Which type the beginning of a file tells, byte by byte, from eight bytes on.
pub proof fn law_types_in_plain_bytes(b: Seq<u8>)
    ensures
        b.len() < 8 ==> content_type(b) is None,
        b.len() >= 8 ==> {
            &&& content_type(b) == Some(ContentType::Jpeg) <==> b[0] == 0xFF && b[1] == 0xD8 && b[2]
                == 0xFF
            &&& content_type(b) == Some(ContentType::Png) <==> b[0] == 0x89 && b[1] == 0x50 && b[2]
                == 0x4E && b[3] == 0x47
            &&& content_type(b) == Some(ContentType::Gif) <==> b[0] == 0x47 && b[1] == 0x49 && b[2]
                == 0x46 && b[3] == 0x38
            &&& content_type(b) == Some(ContentType::Webp) <==> b.len() >= 12 && b[0] == 0x52
                && b[1] == 0x49 && b[2] == 0x46 && b[3] == 0x46 && b[8] == 0x57 && b[9] == 0x45
                && b[10] == 0x42 && b[11] == 0x50
            &&& content_type(b) == Some(ContentType::Svg) <==> b[0] == 0x3C && ((b[1] == 0x73
                && b[2] == 0x76 && b[3] == 0x67) || (b[1] == 0x3F && b[2] == 0x78 && b[3] == 0x6D))
            &&& content_type(b) == Some(ContentType::Bmp) <==> b[0] == 0x42 && b[1] == 0x4D
            &&& content_type(b) != Some(ContentType::Tiff)
        },
{
    let jpeg = seq![0xFFu8, 0xD8, 0xFF];
    let bmp = seq![0x42u8, 0x4D];
    lemma_bytes_at(b, 0, jpeg);
    lemma_bytes_at(b, 0, bmp);
    assert(jpeg[0] == 0xFF && jpeg[1] == 0xD8 && jpeg[2] == 0xFF);
    assert(bmp[0] == 0x42 && bmp[1] == 0x4D);
    lemma_four_bytes_at(b, 0, 0x89, 0x50, 0x4E, 0x47);
    lemma_four_bytes_at(b, 0, 0x47, 0x49, 0x46, 0x38);
    lemma_four_bytes_at(b, 0, 0x52, 0x49, 0x46, 0x46);
    lemma_four_bytes_at(b, 8, 0x57, 0x45, 0x42, 0x50);
    lemma_four_bytes_at(b, 0, 0x3C, 0x73, 0x76, 0x67);
    lemma_four_bytes_at(b, 0, 0x3C, 0x3F, 0x78, 0x6D);
}

/// A file that is not too large and does not begin with a `<` is valid exactly where its first read
/// brought a media signature and its MD5 digest is the expected hash, whatever stands behind its
/// beginning.
pub proof fn law_media_files_are_known_by_their_hash(
    first: Seq<u8>,
    content: Seq<u8>,
    expected: Seq<char>,
)
    requires
        first.is_prefix_of(content),
        first.len() >= 12,
        content[0] != 0x3C,
    ensures
        is_valid_content(first, content, expected) <==> content.len() <= 2_097_152
            && outside::md5_hex_digest(content) == expected && {
            let b = content;
            ||| b[0] == 0xFF && b[1] == 0xD8 && b[2] == 0xFF
            ||| b[0] == 0x89 && b[1] == 0x50 && b[2] == 0x4E && b[3] == 0x47 && b[4] == 0x0D
                && b[5] == 0x0A && b[6] == 0x1A && b[7] == 0x0A
            ||| b[0] == 0x47 && b[1] == 0x49 && b[2] == 0x46 && b[3] == 0x38 && (b[4] == 0x37
                || b[4] == 0x39) && b[5] == 0x61
            ||| b[0] == 0x52 && b[1] == 0x49 && b[2] == 0x46 && b[3] == 0x46 && b[8] == 0x57 && b[9]
                == 0x45 && b[10] == 0x42 && b[11] == 0x50
            ||| b[0] == 0x42 && b[1] == 0x4D
            ||| b[0] == 0x49 && b[1] == 0x49 && b[2] == 0x2A && b[3] == 0x00
            ||| b[0] == 0x4D && b[1] == 0x4D && b[2] == 0x00 && b[3] == 0x2A
        },
{
    let beginning = if first.len() <= SIGNATURE_CHECK_BYTES {
        first
    } else {
        first.take(SIGNATURE_CHECK_BYTES as int)
    };
    assert forall|i: int| 0 <= i < 12 implies beginning[i] == #[trigger] content[i] by {
        assert(first[i] == content.subrange(0, first.len() as int)[i]);
    }
    assert(content[1] == beginning[1] && content[2] == beginning[2] && content[3] == beginning[3]);
    assert(content[4] == beginning[4] && content[5] == beginning[5] && content[6] == beginning[6]);
    assert(content[7] == beginning[7] && content[8] == beginning[8] && content[9] == beginning[9]);
    assert(content[10] == beginning[10] && content[11] == beginning[11]);
    law_media_signatures_in_plain_bytes(beginning);
    law_types_in_plain_bytes(beginning);
}

/// A file that begins with a `<` is valid exactly where it looks like an SVG file, something is left of
/// it when what could do harm is gone, and the hash of what is left is the expected one. It has at least
/// ten bytes, and is not too large.
pub proof fn law_svg_files_are_known_by_what_is_left(
    first: Seq<u8>,
    content: Seq<u8>,
    expected: Seq<char>,
)
    requires
        first.is_prefix_of(content),
        first == content || first.len() >= 100,
        content.len() >= 8,
        content[0] == 0x3C,
    ensures
        is_valid_content(first, content, expected) <==> {
            &&& looks_like_svg(content)
            &&& 10 <= content.len() <= 2_097_152
            &&& outside::svg_filtered(content).len() > 0
            &&& outside::md5_hex_digest(outside::svg_filtered(content)) == expected
        },
{
    let b = if first.len() <= SIGNATURE_CHECK_BYTES {
        first
    } else {
        first.take(SIGNATURE_CHECK_BYTES as int)
    };
    assert forall|i: int| 0 <= i < b.len() implies #[trigger] b[i] == content[i] by {
        assert(first[i] == content.subrange(0, first.len() as int)[i]);
    }
    assert(content[1] == b[1] && content[2] == b[2] && content[3] == b[3]);
    assert(b.len() == content.len() || b.len() >= 100);
    assert forall|i: int| 0 <= i <= 96 && i + 4 <= content.len() implies #[trigger] content[i]
        == b[i] && content[i + 1] == b[i + 1] && content[i + 2] == b[i + 2] && content[i + 3] == b[i
        + 3] by {}
    law_svg_files_in_plain_bytes(b);
    law_svg_files_in_plain_bytes(content);
    law_media_signatures_in_plain_bytes(b);
    law_types_in_plain_bytes(b);
}

/// What is left of an SVG file is what the filter leaves of it; nothing is left of other files, of files
/// below ten bytes and of files above two mebibytes.
pub proof fn law_only_svg_files_are_filtered(data: Seq<u8>)
    ensures
        data.len() < 10 || data.len() > 2_097_152 || data[0] != 0x3C ==> sanitized_svg(data).len()
            == 0,
        10 <= data.len() <= 2_097_152 && data[0] == 0x3C && data[1] == 0x73 && data[2] == 0x76
            && data[3] == 0x67 ==> sanitized_svg(data) == outside::svg_filtered(data),
        sanitized_svg(data).len() > 0 ==> sanitized_svg(data) == outside::svg_filtered(data),
{
    law_svg_files_in_plain_bytes(data);
}

/// The extensions of the files that may be uploaded, and their MIME types: the extension behind
/// `image/`, but for three of them.
pub proof fn law_mime_types_of_extensions(extension: Seq<char>)
    ensures
        type_of_extension(extension) is Some <==> {
            ||| extension == "jpg"@
            ||| extension == "jpeg"@
            ||| extension == "png"@
            ||| extension == "gif"@
            ||| extension == "webp"@
            ||| extension == "svg"@
            ||| extension == "bmp"@
            ||| extension == "tif"@
            ||| extension == "tiff"@
        },
        type_of_extension(extension) matches Some(t) ==> t.mime_text() == "image/"@ + if extension
            == "jpg"@ {
            "jpeg"@
        } else if extension == "svg"@ {
            "svg+xml"@
        } else if extension == "tif"@ {
            "tiff"@
        } else {
            extension
        },
{
    reveal_strlit("image/");
    reveal_strlit("jpg");
    reveal_strlit("jpeg");
    reveal_strlit("png");
    reveal_strlit("gif");
    reveal_strlit("webp");
    reveal_strlit("svg");
    reveal_strlit("svg+xml");
    reveal_strlit("bmp");
    reveal_strlit("tif");
    reveal_strlit("tiff");
    reveal_strlit("image/jpeg");
    reveal_strlit("image/png");
    reveal_strlit("image/gif");
    reveal_strlit("image/webp");
    reveal_strlit("image/svg+xml");
    reveal_strlit("image/bmp");
    reveal_strlit("image/tiff");
    assert("image/jpeg"@ =~= "image/"@ + "jpeg"@);
    assert("image/png"@ =~= "image/"@ + "png"@);
    assert("image/gif"@ =~= "image/"@ + "gif"@);
    assert("image/webp"@ =~= "image/"@ + "webp"@);
    assert("image/svg+xml"@ =~= "image/"@ + "svg+xml"@);
    assert("image/bmp"@ =~= "image/"@ + "bmp"@);
    assert("image/tiff"@ =~= "image/"@ + "tiff"@);
    assert("jpg"@.len() == 3 && "jpg"@[0] == 'j');
    assert("svg"@.len() == 3 && "svg"@[0] == 's');
    assert("tif"@.len() == 3 && "tif"@[0] == 't');
    assert("png"@[0] == 'p' && "gif"@[0] == 'g' && "bmp"@[0] == 'b');
    assert("jpeg"@.len() == 4 && "webp"@.len() == 4 && "tiff"@.len() == 4);
}

/// A character that may stand in a name besides letters and digits.
pub open spec fn is_name_sign(c: char) -> bool {
    c == '.' || c == '-' || c == '_' || c == ' ' || c == '(' || c == ')' || c == '+' || c == ','
        || c == '%' || c == '&'
}

/// A name of letters, digits and the usual signs is allowed: it begins with a letter or a digit, and
/// ends in a dot and an extension that may be uploaded.
pub proof fn law_usual_names_are_allowed(stem: Seq<char>, extension: Seq<char>)
    requires
        stem.len() > 0,
        outside::alphanumeric(stem[0]),
        !outside::whitespace(stem[0]),
        forall|i: int|
            0 <= i < stem.len() ==> (outside::alphanumeric(#[trigger] stem[i]) || is_name_sign(
                stem[i],
            )) && stem[i] as u32 > 0x9f || (0x20 <= stem[i] as u32 && (stem[i] as u32) < 0x7f && (
            outside::alphanumeric(stem[i]) || is_name_sign(stem[i]))),
        forall|i: int|
            0 <= i < stem.len() ==> (#[trigger] stem[i]) != '/' && stem[i] != '\\',
        forall|i: int|
            0 <= i < stem.len() - 1 ==> !((#[trigger] stem[i]) == '.' && stem[i + 1] == '.'),
        stem.last() != '.',
        extension.len() > 0,
        forall|i: int|
            0 <= i < extension.len() ==> outside::alphanumeric(#[trigger] extension[i])
                && 0x20 <= extension[i] as u32 && (extension[i] as u32) < 0x7f && extension[i] != '.'
                && extension[i] != '/' && extension[i] != '\\' && extension[i] != ' ',
        type_of_extension(outside::lowercase(extension)) is Some,
        5 <= encode_utf8(stem + seq!['.'] + extension).len() <= 255,
    ensures
        is_allowed_name(stem + seq!['.'] + extension),
{
    let name = stem + seq!['.'] + extension;
    let n = stem.len() as int;
    assert(!extension.contains('.'));
    text::law_an_appended_tail_is_the_last(stem, '.', extension);
    assert forall|i: int| 0 <= i < name.len() implies is_name_char(#[trigger] name[i]) && name[i]
        != '/' && name[i] != '\\' by {
        if i < n {
            assert(name[i] == stem[i]);
        } else if i > n {
            assert(name[i] == extension[i - n - 1]);
        }
    }
    assert(!name.contains('/'));
    assert(!name.contains('\\'));
    assert(name.last() == extension[extension.len() - 1]);
    assert(name[0] == stem[0]);
    assert(!text::is_part_of(".."@, name)) by {
        reveal_strlit("..");
        if text::is_part_of(".."@, name) {
            let i = choose|i: int| text::occurs_at(name, ".."@, i);
            let two = name.subrange(i, i + 2);
            assert(two[0] == '.' && two[1] == '.');
            assert(name[i] == '.' && name[i + 1] == '.');
            if i < n - 1 {
                assert(stem[i] == '.' && stem[i + 1] == '.');
            } else if i == n - 1 {
                assert(stem[n - 1] == '.');
            } else {
                assert(extension[i + 1 - n - 1] == '.');
            }
        }
    }
}

/// What an allowed name is not: it holds no separator of paths, no two dots in a row and no control
/// character, ends in no dot and no space, begins with a letter or a digit, and has an extension that
/// may be uploaded behind a dot that is not its first character.
pub proof fn law_allowed_names_can_do_no_harm(name: Seq<char>)
    requires
        is_allowed_name(name),
    ensures
        5 <= encode_utf8(name).len() <= 255,
        outside::alphanumeric(name[0]),
        name.last() != '.',
        name.last() != ' ',
        forall|i: int|
            0 <= i < name.len() ==> (outside::alphanumeric(#[trigger] name[i]) || is_name_sign(
                name[i],
            )) && name[i] != '/' && name[i] != '\\' && name[i] as u32 >= 0x20 && !(0x7f <= name[i] as u32
                && name[i] as u32 <= 0x9f),
        forall|i: int|
            0 <= i < name.len() - 1 ==> !((#[trigger] name[i]) == '.' && name[i + 1] == '.'),
        exists|p: int|
            #![trigger name.skip(p + 1)]
            0 < p < name.len() && name[p] == '.' && !name.skip(p + 1).contains('.')
                && type_of_extension(outside::lowercase(name.skip(p + 1))) is Some,
{
    assert forall|i: int| 0 <= i < name.len() implies (outside::alphanumeric(#[trigger] name[i])
        || is_name_sign(name[i])) && name[i] != '/' && name[i] != '\\' && name[i] as u32 >= 0x20 && !(
    0x7f <= name[i] as u32 && name[i] as u32 <= 0x9f) by {
        assert(is_name_char(name[i]));
        assert(name.contains(name[i]));
    }
    assert forall|i: int| 0 <= i < name.len() - 1 implies !((#[trigger] name[i]) == '.' && name[i + 1]
        == '.') by {
        if name[i] == '.' && name[i + 1] == '.' {
            reveal_strlit("..");
            assert(name.subrange(i, i + 2) =~= ".."@);
            assert(text::occurs_at(name, ".."@, i));
        }
    }
    let tail = text::after_last(name, '.');
    text::law_the_tail_stands_behind_the_last(name, '.');
    if !name.contains('.') {
        assert(tail == name);
    }
    let p = name.len() - tail.len() - 1;
    assert(name[p] == (name.take(p) + seq!['.'] + tail)[p]);
    assert(name.skip(p + 1) =~= tail) by {
        assert((name.take(p) + seq!['.'] + tail).skip(p + 1) =~= tail);
    }
}

/// The place of a file is a directory named by the first two bytes of its hash, a slash, and the hash
/// itself.
pub proof fn law_places_tell_the_hash(hash: Seq<char>)
    requires
        has_prefix(hash),
    ensures
        exists|n: int|
            #![trigger hash.take(n)]
            0 < n <= hash.len() && encode_utf8(hash.take(n)).len() == 2 && object_key(hash)
                == hash.take(n) + seq!['/'] + hash,
{
    lemma_hash_prefix(hash);
    let prefix = hash_prefix(hash);
    let n = prefix.len() as int;
    assert(hash.take(n) =~= prefix);
    reveal_strlit("/");
    assert("/"@ =~= seq!['/']);
    assert(object_key(hash) =~= hash.take(n) + seq!['/'] + hash);
}

/// For every hash of two or more ASCII characters there is a place: the directory is named by its first
/// two characters.
pub proof fn law_ascii_hashes_have_a_place(hash: Seq<char>)
    requires
        hash.len() >= 2,
        is_ascii_chars(hash),
    ensures
        has_prefix(hash),
        object_key(hash) == seq![hash[0], hash[1], '/'] + hash,
{
    let bytes = encode_utf8(hash);
    is_ascii_chars_encode_utf8(hash);
    is_ascii_chars_nat_bound(hash);
    encode_utf8_valid_utf8(hash);
    if hash.len() == 2 {
        is_char_boundary_start_end_of_seq(bytes);
    } else {
        assert(hash[2] as u8 == bytes[2]);
        is_char_boundary_iff_not_is_continuation_byte(bytes, 2);
    }
    lemma_hash_prefix(hash);
    let prefix = hash_prefix(hash);
    assert(is_ascii_chars(prefix)) by {
        assert forall|i: int| 0 <= i < prefix.len() implies '\0' <= #[trigger] prefix[i]
            <= '\u{7f}' by {
            assert(prefix[i] == hash[i]);
        }
    }
    is_ascii_chars_encode_utf8(prefix);
    assert(prefix =~= seq![hash[0], hash[1]]);
    reveal_strlit("/");
    assert(object_key(hash) =~= seq![hash[0], hash[1], '/'] + hash);
}

} // verus!
