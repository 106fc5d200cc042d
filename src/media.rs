use vstd::prelude::*;

use crate::error::Error;
use crate::orchestrate::{decimal_string, decimal_text};
use crate::text::{chars_of, extension, extension_of, file_name, file_name_of};

verus! {

/// Opening of an XHTML page that shows one image, up to its title.
pub const XHTML_OPEN: &'static str = "<?xml version=\"1.0\" encoding=\"UTF-8\"?>\n<!DOCTYPE html>\n<html xmlns=\"http://www.w3.org/1999/xhtml\" xmlns:epub=\"http://www.idpf.org/2007/ops\">\n<head>\n<title>";

/// From the end of the title to the image source.
pub const XHTML_TO_SRC: &'static str = "</title>\n<link rel=\"stylesheet\" type=\"text/css\" href=\"stylesheet.css\"/>\n</head>\n<body>\n<div class=\"page\"><img src=\"";

/// From the image source to its alternative text.
pub const XHTML_TO_ALT: &'static str = "\" alt=\"";

/// Close of the page.
pub const XHTML_CLOSE: &'static str = "\"/></div>\n</body>\n</html>\n";

/// Opening of a ComicInfo document, up to the title.
pub const COMIC_INFO_OPEN: &'static str = "<?xml version=\"1.0\" encoding=\"utf-8\"?>\n<ComicInfo xmlns:xsd=\"http://www.w3.org/2001/XMLSchema\" xmlns:xsi=\"http://www.w3.org/2001/XMLSchema-instance\">\n  <Title>";

/// From the end of the title to the volume number.
pub const COMIC_INFO_TO_VOLUME: &'static str = "</Title>\n  <Volume>";

/// From the end of the volume number to the page count.
pub const COMIC_INFO_TO_PAGES: &'static str = "</Volume>\n  <PageCount>";

/// Close of the document.
pub const COMIC_INFO_CLOSE: &'static str = "</PageCount>\n</ComicInfo>\n";

/// The XHTML page that shows one image, titled and described by its source.
pub open spec fn xhtml_page(src: Seq<char>) -> Seq<char> {
    XHTML_OPEN@ + src + XHTML_TO_SRC@ + src + XHTML_TO_ALT@ + src + XHTML_CLOSE@
}

/// The ComicInfo document of a volume.
pub open spec fn comic_info(title: Seq<char>, volume: nat, page_count: nat) -> Seq<char> {
    COMIC_INFO_OPEN@ + title + COMIC_INFO_TO_VOLUME@ + decimal_text(volume) + COMIC_INFO_TO_PAGES@
        + decimal_text(page_count) + COMIC_INFO_CLOSE@
}

/// `n` zeros.
pub open spec fn zeros(n: nat) -> Seq<char> {
    Seq::new(n, |i: int| '0')
}

/// Decimal text of a number, padded with zeros to at least three digits.
pub open spec fn padded3(n: nat) -> Seq<char> {
    let d = decimal_text(n);
    if d.len() < 3 {
        zeros((3 - d.len()) as nat) + d
    } else {
        d
    }
}

/// Name of the `index`-th page inside an archive: `page_NNN.<ext>`.
pub open spec fn page_entry(index: nat, ext: Seq<char>) -> Seq<char> {
    seq!['p', 'a', 'g', 'e', '_'] + padded3(index) + seq!['.'] + ext
}

/// Path of a page image inside an e-book: `images/<chapter>/<index>.<ext>`.
pub open spec fn epub_image(chapter: nat, index: nat, ext: Seq<char>) -> Seq<char> {
    seq!['i', 'm', 'a', 'g', 'e', 's', '/'] + decimal_text(chapter) + seq!['/'] + decimal_text(index)
        + seq!['.'] + ext
}

/// Document of a page inside an e-book: `<chapter>-<index>.xhtml`.
pub open spec fn epub_page(chapter: nat, index: nat) -> Seq<char> {
    decimal_text(chapter) + seq!['-'] + decimal_text(index) + seq!['.', 'x', 'h', 't', 'm', 'l']
}

/// Path of the cover image inside an e-book: `data/cover.<ext>`.
pub open spec fn epub_cover(ext: Seq<char>) -> Seq<char> {
    seq!['d', 'a', 't', 'a', '/', 'c', 'o', 'v', 'e', 'r', '.'] + ext
}

/// Whether `v` holds exactly the characters of `s`.
fn text_is(v: &Vec<char>, s: &str) -> (r: bool)
    ensures
        r == (v@ == s@),
{
    let n = s.unicode_len();
    if v.len() != n {
        return false;
    }
    let mut i: usize = 0;
    while i < n
        invariant
            n == s@.len(),
            n == v@.len(),
            i <= n,
            forall|k: int| 0 <= k < i ==> v@[k] == s@[k],
        decreases n - i,
    {
        if v[i] != s.get_char(i) {
            return false;
        }
        i = i + 1;
    }
    assert(v@ =~= s@);
    true
}

/// Extension and media type of a supported page image, by the extension of
/// its file name: `jpg` and `jpeg` are JPEG, then `png` and `webp`; any other
/// extension, or none, is unsupported.
pub fn get_file_info(image_path: &String) -> (r: Result<(&'static str, &'static str), Error>)
    ensures
        ({
            let ext = extension_of(file_name_of(image_path@));
            &&& (ext == Some("jpg"@) || ext == Some("jpeg"@)) ==> (r matches Ok(p) && p.0@ == "jpg"@
                && p.1@ == "image/jpeg"@)
            &&& ext == Some("png"@) ==> (r matches Ok(p) && p.0@ == "png"@ && p.1@ == "image/png"@)
            &&& ext == Some("webp"@) ==> (r matches Ok(p) && p.0@ == "webp"@ && p.1@
                == "image/webp"@)
            &&& !(ext == Some("jpg"@) || ext == Some("jpeg"@) || ext == Some("png"@) || ext == Some(
                "webp"@,
            )) ==> r matches Err(Error::UnsupportedFormat(_))
        }),
{
    proof {
        reveal_strlit("jpg");
        reveal_strlit("jpeg");
        reveal_strlit("png");
        reveal_strlit("webp");
        assert("jpg"@[0] == 'j' && "jpeg"@[0] == 'j' && "png"@[0] == 'p' && "webp"@[0] == 'w');
        assert("jpg"@.len() == 3 && "jpeg"@.len() == 4);
        assert("jpg"@ != "png"@ && "jpg"@ != "webp"@ && "jpeg"@ != "png"@ && "jpeg"@ != "webp"@
            && "png"@ != "webp"@ && "jpg"@ != "jpeg"@);
    }
    let cs = chars_of(image_path.as_str());
    let name = file_name(&cs);
    match extension(&name) {
        Some(e) => {
            if text_is(&e, "jpg") || text_is(&e, "jpeg") {
                Ok(("jpg", "image/jpeg"))
            } else if text_is(&e, "png") {
                Ok(("png", "image/png"))
            } else if text_is(&e, "webp") {
                Ok(("webp", "image/webp"))
            } else {
                Err(Error::UnsupportedFormat(String::from_str("unsupported image extension")))
            }
        },
        None => Err(Error::UnsupportedFormat(String::from_str("image format without extension"))),
    }
}

/// The XHTML page that shows the image at `image_source`.
pub fn generate_xhtml(image_source: &str) -> (r: Result<String, Error>)
    ensures
        r matches Ok(x) && x@ == xhtml_page(image_source@),
{
    let mut x = String::from_str(XHTML_OPEN);
    x.append(image_source);
    x.append(XHTML_TO_SRC);
    x.append(image_source);
    x.append(XHTML_TO_ALT);
    x.append(image_source);
    x.append(XHTML_CLOSE);
    Ok(x)
}

/// The ComicInfo document of a volume with its title, number and page count.
pub fn comic_info_xml(title: &str, volume: usize, page_count: usize) -> (r: String)
    ensures
        r@ == comic_info(title@, volume as nat, page_count as nat),
{
    let mut x = String::from_str(COMIC_INFO_OPEN);
    x.append(title);
    x.append(COMIC_INFO_TO_VOLUME);
    let v = decimal_string(volume);
    x.append(v.as_str());
    x.append(COMIC_INFO_TO_PAGES);
    let p = decimal_string(page_count);
    x.append(p.as_str());
    x.append(COMIC_INFO_CLOSE);
    assert(x@ =~= comic_info(title@, volume as nat, page_count as nat));
    x
}

/// Name of the `index`-th page inside an archive, `page_NNN.<ext>`.
pub fn page_entry_name(index: usize, ext: &str) -> (r: String)
    ensures
        r@ == page_entry(index as nat, ext@),
{
    proof {
        reveal_strlit("page_");
        reveal_strlit("0");
        reveal_strlit("00");
        reveal_strlit(".");
    }
    let d = decimal_string(index);
    let mut x = String::from_str("page_");
    let n = d.as_str().unicode_len();
    if n == 1 {
        x.append("00");
    } else if n == 2 {
        x.append("0");
    }
    x.append(d.as_str());
    x.append(".");
    x.append(ext);
    proof {
        crate::orchestrate::lemma_decimal_text_len(index as nat);
        let dt = decimal_text(index as nat);
        if dt.len() == 1 {
            assert(zeros(2) =~= "00"@);
        } else if dt.len() == 2 {
            assert(zeros(1) =~= "0"@);
        } else {
        }
    }
    assert(x@ =~= page_entry(index as nat, ext@));
    x
}

/// Path of a page image inside an e-book.
pub fn epub_image_name(chapter: usize, index: usize, ext: &str) -> (r: String)
    ensures
        r@ == epub_image(chapter as nat, index as nat, ext@),
{
    proof {
        reveal_strlit("images/");
        reveal_strlit("/");
        reveal_strlit(".");
    }
    let mut x = String::from_str("images/");
    let c = decimal_string(chapter);
    x.append(c.as_str());
    x.append("/");
    let i = decimal_string(index);
    x.append(i.as_str());
    x.append(".");
    x.append(ext);
    assert(x@ =~= epub_image(chapter as nat, index as nat, ext@));
    x
}

/// Document name of a page inside an e-book.
pub fn epub_page_name(chapter: usize, index: usize) -> (r: String)
    ensures
        r@ == epub_page(chapter as nat, index as nat),
{
    proof {
        reveal_strlit("-");
        reveal_strlit(".xhtml");
    }
    let mut x = decimal_string(chapter);
    x.append("-");
    let i = decimal_string(index);
    x.append(i.as_str());
    x.append(".xhtml");
    assert(x@ =~= epub_page(chapter as nat, index as nat));
    x
}

/// Path of the cover image inside an e-book.
pub fn epub_cover_name(ext: &str) -> (r: String)
    ensures
        r@ == epub_cover(ext@),
{
    proof {
        reveal_strlit("data/cover.");
    }
    let mut x = String::from_str("data/cover.");
    x.append(ext);
    assert(x@ =~= epub_cover(ext@));
    x
}

} // verus!
