//! SVG files that clients have made harmless before they upload them.
use vstd::prelude::*;
use vstd::utf8::*;

use crate::media_manager::files;
use crate::outside;
use crate::reply::{Reply, BAD_REQUEST};
use crate::structs::{SanitizedSvgItem, SvgFile, SvgSanitizeRequest, SvgSanitizeResponse};

verus! {

/// The most files of one request.
pub const MAX_BATCH_SIZE: usize = 250;

/// The most bytes of one request.
pub const MAX_TOTAL_SIZE: usize = 1024 * 1024;

/// The bytes of the first `n` files, counted.
pub open spec fn total_bytes(list: Seq<SvgFile>, n: int) -> nat
    decreases n,
{
    if n <= 0 {
        0
    } else {
        total_bytes(list, n - 1) + encode_utf8(list[n - 1].content@).len()
    }
}

/// A harmless SVG file.
pub struct Harmless {
    pub content: Seq<char>,
    pub filename: Seq<char>,
    pub hash: Seq<char>,
}

/// The file that is made of what is left of an SVG file: none where nothing is left, or where it
/// is not text.
pub open spec fn harmless_file(filename: Seq<char>, left: Seq<u8>) -> Option<Harmless> {
    if left.len() > 0 && valid_utf8(left) {
        Some(
            Harmless {
                content: decode_utf8(left),
                filename,
                hash: outside::md5_hex_digest(left),
            },
        )
    } else {
        None
    }
}

/// What is made of a file.
pub open spec fn harmless(file: SvgFile) -> Option<Harmless> {
    let bytes = encode_utf8(file.content@);
    if files::looks_like_svg(bytes) {
        harmless_file(file.filename@, files::sanitized_svg(bytes))
    } else {
        None
    }
}

/// The files that the items stand for.
pub open spec fn harmless_files(list: Seq<SanitizedSvgItem>) -> Seq<Harmless> {
    list.map_values(
        |i: SanitizedSvgItem|
            Harmless { content: i.content@, filename: i.filename@, hash: i.hash@ },
    )
}

/// The file that is made of what is left of an SVG file.
pub fn item_of(filename: &str, left: Vec<u8>) -> (r: Option<SanitizedSvgItem>)
    ensures
        match r {
            Some(item) => harmless_file(filename@, left@) == Some(
                Harmless { content: item.content@, filename: item.filename@, hash: item.hash@ },
            ),
            None => harmless_file(filename@, left@) is None,
        },
{
    if left.len() == 0 {
        return None;
    }
    match outside::text_from_utf8(left) {
        Some(content) => {
            proof {
                decode_utf8_encode_utf8(left@);
            }
            let hash = outside::md5_hex(content.as_str().as_bytes());
            Some(SanitizedSvgItem { content, filename: filename.to_owned(), hash })
        },
        None => None,
    }
}

/// Makes the SVG files of a request harmless, and leaves out those that are none or of which
/// nothing is left. A request with no files, too many or too large ones is refused.
pub fn sanitize_svg_batch(req: &SvgSanitizeRequest) -> (r: Result<SvgSanitizeResponse, Reply>)
    ensures
        match r {
            Ok(response) => {
                &&& 0 < req.svg_files@.len() <= 250
                &&& total_bytes(req.svg_files@, req.svg_files@.len() as int) <= 1024 * 1024
                &&& harmless_files(response.sanitized_files@) == req.svg_files@.filter_map(
                    |f: SvgFile| harmless(f),
                )
            },
            Err(e) => if req.svg_files@.len() == 0 {
                e.says(BAD_REQUEST, "No SVG files provided"@)
            } else if req.svg_files@.len() > 250 {
                e.says(BAD_REQUEST, "Too many files in single request"@)
            } else {
                &&& total_bytes(req.svg_files@, req.svg_files@.len() as int) > 1024 * 1024
                &&& e.says(BAD_REQUEST, "Total batch size too large"@)
            },
        },
{
    if req.svg_files.len() == 0 {
        return Err(Reply::new(BAD_REQUEST, "No SVG files provided"));
    }
    if req.svg_files.len() > MAX_BATCH_SIZE {
        return Err(Reply::new(BAD_REQUEST, "Too many files in single request"));
    }
    let mut total: usize = 0;
    let mut i: usize = 0;
    while i < req.svg_files.len()
        invariant
            0 < req.svg_files@.len() <= 250,
            i <= req.svg_files@.len(),
            total <= MAX_TOTAL_SIZE,
            total == total_bytes(req.svg_files@, i as int),
        decreases req.svg_files@.len() - i,
    {
        let size = req.svg_files[i].content.as_str().as_bytes().len();
        if size > MAX_TOTAL_SIZE - total {
            proof {
                lemma_total_grows(req.svg_files@, i + 1, req.svg_files@.len() as int);
            }
            return Err(Reply::new(BAD_REQUEST, "Total batch size too large"));
        }
        total = total + size;
        i += 1;
    }
    let mut items: Vec<SanitizedSvgItem> = Vec::new();
    let ghost make = |f: SvgFile| harmless(f);
    let mut k: usize = 0;
    reveal(Seq::filter_map);
    assert(harmless_files(items@) =~= Seq::empty());
    assert(req.svg_files@.take(0) =~= Seq::<SvgFile>::empty());
    while k < req.svg_files.len()
        invariant
            k <= req.svg_files@.len(),
            make == (|f: SvgFile| harmless(f)),
            harmless_files(items@) == req.svg_files@.take(k as int).filter_map(make),
        decreases req.svg_files@.len() - k,
    {
        let file = &req.svg_files[k];
        let bytes = file.content.as_str().as_bytes();
        let ghost before = items@;
        assert(req.svg_files@.take(k + 1).drop_last() =~= req.svg_files@.take(k as int));
        assert(req.svg_files@.take(k + 1).last() == *file);
        if files::is_svg(bytes) {
            if let Some(item) = item_of(file.filename.as_str(), files::sanitize_svg(bytes)) {
                items.push(item);
                assert(harmless_files(items@) =~= harmless_files(before).push(
                    Harmless { content: item.content@, filename: item.filename@, hash: item.hash@ },
                ));
            }
        }
        k += 1;
    }
    assert(req.svg_files@.take(req.svg_files@.len() as int) =~= req.svg_files@);
    Ok(SvgSanitizeResponse { sanitized_files: items })
}

proof fn lemma_total_grows(list: Seq<SvgFile>, m: int, n: int)
    requires
        0 <= m <= n,
    ensures
        total_bytes(list, m) <= total_bytes(list, n),
    decreases n,
{
    if m < n {
        lemma_total_grows(list, m, n - 1);
    }
}

/// The bytes of a list are those of its first files, of the file behind them and of the files behind
/// that one, each counted once.
pub proof fn law_bytes_of_files_add_up(list: Seq<SvgFile>, n: int, i: int)
    requires
        0 <= i < n <= list.len(),
    ensures
        total_bytes(list, n) == total_bytes(list, i) + encode_utf8(list[i].content@).len()
            + total_bytes(list.skip(i + 1), n - i - 1),
    decreases n,
{
    let rest = list.skip(i + 1);
    if n > i + 1 {
        law_bytes_of_files_add_up(list, n - 1, i);
        assert(rest[n - i - 2] == list[n - 1]);
        assert(total_bytes(rest, n - i - 1) == total_bytes(rest, n - i - 2) + encode_utf8(
            list[n - 1].content@,
        ).len());
    } else {
        assert(total_bytes(rest, 0) == 0);
    }
}

/// A file comes back exactly where it looks like an SVG file and what the filter leaves of it is a text
/// that is not empty. Its name is kept, its content is what is left, and its hash is that of what is
/// left.
pub proof fn law_only_filtered_files_come_back(file: SvgFile)
    ensures
        match harmless(file) {
            Some(h) => {
                &&& files::looks_like_svg(encode_utf8(file.content@))
                &&& encode_utf8(h.content) == files::sanitized_svg(encode_utf8(file.content@))
                &&& h.content.len() > 0
                &&& h.filename == file.filename@
                &&& h.hash == outside::md5_hex_digest(encode_utf8(h.content))
            },
            None => !files::looks_like_svg(encode_utf8(file.content@)) || forall|t: Seq<char>|
                t.len() > 0 ==> #[trigger] encode_utf8(t) != files::sanitized_svg(
                    encode_utf8(file.content@),
                ),
        },
{
    let left = files::sanitized_svg(encode_utf8(file.content@));
    if valid_utf8(left) {
        decode_utf8_encode_utf8(left);
        if decode_utf8(left).len() == 0 {
            assert(decode_utf8(left) =~= Seq::<char>::empty());
            reveal_with_fuel(encode_utf8, 1);
        }
    }
    assert forall|t: Seq<char>| t.len() > 0 && #[trigger] encode_utf8(t) == left implies valid_utf8(
        left,
    ) && left.len() > 0 by {
        encode_utf8_valid_utf8(t);
        encode_utf8_decode_utf8(t);
        if left.len() == 0 {
            assert(left =~= Seq::<u8>::empty());
            reveal_with_fuel(encode_utf8, 1);
            assert(encode_utf8(Seq::<char>::empty()) =~= left);
            encode_utf8_decode_utf8(Seq::<char>::empty());
        }
    }
}

/// An item of an answer stands for its own content, name and hash.
pub proof fn law_items_stand_for_themselves(list: Seq<SanitizedSvgItem>, i: int)
    requires
        0 <= i < list.len(),
    ensures
        harmless_files(list).len() == list.len(),
        harmless_files(list)[i].content == list[i].content@,
        harmless_files(list)[i].filename == list[i].filename@,
        harmless_files(list)[i].hash == list[i].hash@,
{
}

} // verus!
