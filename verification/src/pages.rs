//! Page import and export: what is checked, how files are named, and when
//! an export is packed into an archive.

use vstd::prelude::*;
use vstd::string::*;
use crate::api::{ApiError, ApiErrorKind};
use crate::media::{
    decoded_dimensions, encode_as_png, entries_fit, file_entries, guess_image_format,
    guessed_format, image_dimensions, image_mime_type, mime_type_of, names_distinct,
    png_encoding, thumbnail_of, thumbnail_rgba, utf8_len, zip_archive, zip_bytes, ImageKind,
    NamedFile,
};
use crate::project::lemma_insert_to_multiset;
use crate::text::{
    decimal, digit_char, is_text_less, lemma_text_less_asymmetric, lemma_text_less_transitive,
    push_char, push_zero_padded, text_less, zero_padded,
};

verus! {

/// ASCII letters and digits, `-` and `_`.
pub open spec fn is_safe_file_char(c: char) -> bool {
    let u = c as u32;
    ||| 48 <= u && u <= 57
    ||| 65 <= u && u <= 90
    ||| 97 <= u && u <= 122
    ||| c == '-'
    ||| c == '_'
}

/// The safe characters of `s`, in order.
pub open spec fn safe_chars(s: Seq<char>) -> Seq<char>
    decreases s.len(),
{
    if s.len() == 0 {
        s
    } else if is_safe_file_char(s.last()) {
        safe_chars(s.drop_last()).push(s.last())
    } else {
        safe_chars(s.drop_last())
    }
}

/// `name` reduced to its safe characters, or `fallback` when none is left.
pub open spec fn sanitized(name: Seq<char>, fallback: Seq<char>) -> Seq<char> {
    if safe_chars(name).len() == 0 {
        fallback
    } else {
        safe_chars(name)
    }
}

/// Keeps the ASCII letters, digits, `-` and `_` of `name`; gives `fallback`
/// when nothing is kept.
pub fn sanitize(name: &str, fallback: &str) -> (r: String)
    ensures
        r@ == sanitized(name@, fallback@),
{
    let mut cleaned = String::new();
    let n = name.unicode_len();
    let mut i: usize = 0;
    assert(name@.take(0) =~= Seq::<char>::empty());
    while i < n
        invariant
            n == name@.len(),
            i <= n,
            cleaned@ == safe_chars(name@.take(i as int)),
        decreases n - i,
    {
        let c = name.get_char(i);
        let u = c as u32;
        assert(name@.take(i + 1).drop_last() =~= name@.take(i as int));
        if (48 <= u && u <= 57) || (65 <= u && u <= 90) || (97 <= u && u <= 122) || c == '-' || c
            == '_' {
            push_char(&mut cleaned, c);
        }
        i = i + 1;
    }
    assert(name@.take(n as int) =~= name@);
    if cleaned.as_str().unicode_len() == 0 {
        fallback.to_owned()
    } else {
        cleaned
    }
}

/// The safe characters of a text are all safe.
pub proof fn lemma_safe_chars_are_safe(s: Seq<char>)
    ensures
        forall|i: int| 0 <= i < safe_chars(s).len() ==> is_safe_file_char(#[trigger] safe_chars(s)[i]),
        safe_chars(s).len() <= s.len(),
    decreases s.len(),
{
    if s.len() > 0 {
        lemma_safe_chars_are_safe(s.drop_last());
    }
}

/// A text made of safe characters keeps all of them.
pub proof fn lemma_safe_chars_of_safe_text(s: Seq<char>)
    requires
        forall|i: int| 0 <= i < s.len() ==> is_safe_file_char(#[trigger] s[i]),
    ensures
        safe_chars(s) == s,
    decreases s.len(),
{
    if s.len() > 0 {
        lemma_safe_chars_of_safe_text(s.drop_last());
        assert(s.drop_last().push(s.last()) =~= s);
    }
}

/// Sanitizing with a safe, non-empty fallback yields a non-empty name of
/// safe characters, and sanitizing that name again changes nothing.
pub proof fn lemma_sanitize_is_stable(name: Seq<char>, fallback: Seq<char>)
    requires
        fallback.len() > 0,
        forall|i: int| 0 <= i < fallback.len() ==> is_safe_file_char(#[trigger] fallback[i]),
    ensures
        sanitized(name, fallback).len() > 0,
        forall|i: int|
            0 <= i < sanitized(name, fallback).len() ==> is_safe_file_char(
                #[trigger] sanitized(name, fallback)[i],
            ),
        sanitized(sanitized(name, fallback), fallback) == sanitized(name, fallback),
{
    lemma_safe_chars_are_safe(name);
    let s = sanitized(name, fallback);
    lemma_safe_chars_of_safe_text(s);
}

/// The file extension for an exported image of a format: its own for PNG,
/// JPEG and WebP, `bin` for every other.
pub open spec fn extension_text(kind: ImageKind) -> Seq<char> {
    match kind {
        ImageKind::Png => "png"@,
        ImageKind::Jpeg => "jpg"@,
        ImageKind::WebP => "webp"@,
        _ => "bin"@,
    }
}

/// `png`, `jpg`, `webp`, or `bin` for any other format.
pub fn extension_for(kind: ImageKind) -> (r: &'static str)
    ensures
        r@ == extension_text(kind),
{
    match kind {
        ImageKind::Png => "png",
        ImageKind::Jpeg => "jpg",
        ImageKind::WebP => "webp",
        _ => "bin",
    }
}

/// What an export produces.
#[derive(Clone, Copy, Debug, PartialEq, Eq, Structural)]
pub enum ExportFormat {
    /// The page rendered with its translation, as PNG.
    Rendered,
    /// The page's source image, encoded as PNG.
    Source,
}

impl Default for ExportFormat {
    fn default() -> (r: ExportFormat)
        ensures
            r == ExportFormat::Rendered,
    {
        ExportFormat::Rendered
    }
}

/// The body of `POST /projects/current/export` (`P` names pages).
pub struct ExportRequest<P> {
    pub pages: Option<Vec<P>>,
    pub format: ExportFormat,
}

/// `id` is one of the project's pages.
pub open spec fn is_page(pages: Seq<String>, id: Seq<char>) -> bool {
    exists|j: int| 0 <= j < pages.len() && (#[trigger] pages[j])@ == id
}

fn copy_ids(ids: &Vec<String>) -> (r: Vec<String>)
    ensures
        r@ == ids@,
{
    let mut r: Vec<String> = Vec::new();
    let n = ids.len();
    let mut i: usize = 0;
    while i < n
        invariant
            n == ids@.len(),
            i <= n,
            r@ == ids@.take(i as int),
        decreases n - i,
    {
        r.push(ids[i].clone());
        assert(ids@.take(i + 1) =~= ids@.take(i as int).push(ids@[i as int]));
        i = i + 1;
    }
    assert(ids@.take(n as int) =~= ids@);
    r
}

fn contains_id(pages: &Vec<String>, id: &String) -> (r: bool)
    ensures
        r == is_page(pages@, id@),
{
    let n = pages.len();
    let mut i: usize = 0;
    while i < n
        invariant
            n == pages@.len(),
            i <= n,
            forall|j: int| 0 <= j < i ==> (#[trigger] pages@[j])@ != id@,
        decreases n - i,
    {
        if pages[i] == *id {
            return true;
        }
        i = i + 1;
    }
    false
}

/// The pages an export covers: every page in order when none are named;
/// otherwise the named ones, as named, provided each exists. Fails with the
/// first named id that is not a page.
#[verifier::loop_isolation(false)]
pub fn resolve_pages(pages: &Vec<String>, requested: Option<Vec<String>>) -> (r: Result<
    Vec<String>,
    String,
>)
    ensures
        match requested {
            None => r matches Ok(v) && v@ == pages@,
            Some(ids) => match r {
                Ok(v) => v@ == ids@ && forall|i: int|
                    0 <= i < ids@.len() ==> is_page(pages@, (#[trigger] ids@[i])@),
                Err(missing) => exists|i: int|
                    0 <= i < ids@.len() && ids@[i] == missing && !is_page(pages@, missing@) && forall|
                        j: int,
                    | 0 <= j < i ==> is_page(pages@, (#[trigger] ids@[j])@),
            },
        },
{
    match requested {
        None => Ok(copy_ids(pages)),
        Some(ids) => {
            let n = ids.len();
            let mut i: usize = 0;
            while i < n
                invariant
                    n == ids@.len(),
                    i <= n,
                    forall|j: int| 0 <= j < i ==> is_page(pages@, (#[trigger] ids@[j])@),
                decreases n - i,
            {
                if !contains_id(pages, &ids[i]) {
                    return Err(ids[i].clone());
                }
                i = i + 1;
            }
            Ok(ids)
        },
    }
}

/// Why an export selection was refused.
pub enum PageSelectionError {
    /// This named page does not exist.
    MissingPage(String),
    /// The selection holds no page.
    Empty,
}

/// The pages to export, refusing an empty selection.
pub fn select_export_pages(pages: &Vec<String>, requested: Option<Vec<String>>) -> (r: Result<
    Vec<String>,
    PageSelectionError,
>)
    ensures
        match r {
            Ok(v) => v@.len() > 0 && match requested {
                None => v@ == pages@,
                Some(ids) => v@ == ids@ && forall|i: int|
                    0 <= i < ids@.len() ==> is_page(pages@, (#[trigger] ids@[i])@),
            },
            Err(PageSelectionError::Empty) => match requested {
                None => pages@.len() == 0,
                Some(ids) => ids@.len() == 0,
            },
            Err(PageSelectionError::MissingPage(missing)) => requested matches Some(ids) && exists|
                i: int,
            |
                0 <= i < ids@.len() && ids@[i] == missing && !is_page(pages@, missing@) && forall|
                    j: int,
                | 0 <= j < i ==> is_page(pages@, (#[trigger] ids@[j])@),
        },
{
    match resolve_pages(pages, requested) {
        Err(missing) => Err(PageSelectionError::MissingPage(missing)),
        Ok(v) => {
            if v.len() == 0 {
                Err(PageSelectionError::Empty)
            } else {
                Ok(v)
            }
        },
    }
}

/// `page <id>: <detail>`: the refusal of a page that does not exist, with
/// the scene's own explanation.
pub open spec fn missing_page_text(id: Seq<char>, detail: Seq<char>) -> Seq<char> {
    seq!['p', 'a', 'g', 'e', ' '] + id + seq![':', ' '] + detail
}

/// The answer to a page that does not exist: not found, with the scene's
/// explanation.
pub fn missing_page_error(id: &String, detail: &String) -> (r: ApiError)
    ensures
        r.kind == ApiErrorKind::NotFound,
        r.message@ == missing_page_text(id@, detail@),
{
    let mut message = String::new();
    push_char(&mut message, 'p');
    push_char(&mut message, 'a');
    push_char(&mut message, 'g');
    push_char(&mut message, 'e');
    push_char(&mut message, ' ');
    message.append(id.as_str());
    push_char(&mut message, ':');
    push_char(&mut message, ' ');
    message.append(detail.as_str());
    assert(message@ =~= missing_page_text(id@, detail@));
    ApiError::not_found(message)
}

impl PageSelectionError {
    /// The answer to a refused selection; `detail` is the scene's explanation
    /// of a missing page.
    pub fn into_api_error(self, detail: &String) -> (r: ApiError)
        ensures
            match self {
                PageSelectionError::MissingPage(id) => r.kind == ApiErrorKind::NotFound
                    && r.message@ == missing_page_text(id@, detail@),
                PageSelectionError::Empty => r.kind == ApiErrorKind::BadRequest && r.message@
                    == "no pages in selection"@,
            },
    {
        match self {
            PageSelectionError::MissingPage(id) => missing_page_error(&id, detail),
            PageSelectionError::Empty => ApiError::bad_request(
                String::from_str("no pages in selection"),
            ),
        }
    }
}

/// `page-<NNN>-<id>.<ext>`, where `NNN` is the 1-based position of the page
/// in the export, zero-padded to three digits.
pub open spec fn export_name(index: nat, page: Seq<char>, extension: Seq<char>) -> Seq<char> {
    seq!['p', 'a', 'g', 'e', '-'] + zero_padded(index + 1, 3) + seq!['-'] + page + seq!['.']
        + extension
}

/// Below 1000, the three-digit padded text of `n` is its hundreds, tens and
/// units digits.
proof fn lemma_three_digits(n: nat)
    requires
        n < 1000,
    ensures
        zero_padded(n, 3) == seq![digit_char(n / 100), digit_char((n / 10) % 10), digit_char(n % 10)],
{
    reveal_with_fuel(decimal, 3);
    if n < 10 {
        assert(zero_padded(n, 3) =~= seq!['0', '0', digit_char(n)]);
    } else if n < 100 {
        assert(decimal(n / 10) == seq![digit_char(n / 10)]);
        assert(zero_padded(n, 3) =~= seq!['0', digit_char(n / 10), digit_char(n % 10)]);
    } else {
        assert(decimal(n / 100) == seq![digit_char(n / 100)]);
        assert((n / 10) / 10 == n / 100);
        assert(decimal(n / 10) =~= seq![digit_char(n / 100), digit_char((n / 10) % 10)]);
        assert(zero_padded(n, 3) =~= decimal(n));
    }
}

/// Pages at different positions of one export (of at most 999 pages) get
/// different file names, whatever their ids and extensions.
pub proof fn lemma_export_names_differ(
    i: nat,
    j: nat,
    page_i: Seq<char>,
    page_j: Seq<char>,
    ext_i: Seq<char>,
    ext_j: Seq<char>,
)
    requires
        i != j,
        i < 999,
        j < 999,
    ensures
        export_name(i, page_i, ext_i) != export_name(j, page_j, ext_j),
{
    let a = i + 1;
    let b = j + 1;
    lemma_three_digits(a);
    lemma_three_digits(b);
    let x = export_name(i, page_i, ext_i);
    let y = export_name(j, page_j, ext_j);
    let digits = seq!['0', '1', '2', '3', '4', '5', '6', '7', '8', '9'];
    assert(x[5] == digit_char(a / 100) && x[6] == digit_char((a / 10) % 10) && x[7] == digit_char(
        a % 10,
    ));
    assert(y[5] == digit_char(b / 100) && y[6] == digit_char((b / 10) % 10) && y[7] == digit_char(
        b % 10,
    ));
    if a / 100 != b / 100 {
        assert(digits[(a / 100) as int] != digits[(b / 100) as int]);
        assert(x[5] != y[5]);
    } else if (a / 10) % 10 != (b / 10) % 10 {
        assert(x[6] != y[6]);
    } else {
        assert(a % 10 != b % 10);
        assert(x[7] != y[7]);
    }
}

fn export_file_name(index: usize, page: &String, extension: &str) -> (r: String)
    requires
        index < usize::MAX,
    ensures
        r@ == export_name(index as nat, page@, extension@),
{
    let mut name = String::new();
    push_char(&mut name, 'p');
    push_char(&mut name, 'a');
    push_char(&mut name, 'g');
    push_char(&mut name, 'e');
    push_char(&mut name, '-');
    push_zero_padded(&mut name, (index + 1) as u64, 3);
    push_char(&mut name, '-');
    name.append(page.as_str());
    push_char(&mut name, '.');
    name.append(extension);
    assert(name@ =~= export_name(index as nat, page@, extension@));
    name
}

/// One exported file: its name in the download, its bytes and its media type.
pub struct ExportFile {
    pub name: String,
    pub bytes: Vec<u8>,
    pub content_type: String,
}

/// The source image of the page at `index` of an export, once encoded as
/// PNG: the PNG file, or a refusal with the decoder's or encoder's text.
pub fn source_png_export_file(index: usize, page: &String, encoded: Result<Vec<u8>, String>) -> (r:
    Result<ExportFile, ApiError>)
    requires
        index < usize::MAX,
    ensures
        match encoded {
            Ok(png) => r matches Ok(file) && file.name@ == export_name(index as nat, page@, "png"@)
                && file.bytes@ == png@ && file.content_type@ == "image/png"@,
            Err(m) => r matches Err(e) && e.kind == ApiErrorKind::BadRequest && e.message == m,
        },
{
    match encoded {
        Ok(png) => Ok(rendered_export_file(index, page, png)),
        Err(message) => Err(ApiError::bad_request(message)),
    }
}

/// The source image of the page at `index` of an export, as PNG (a source
/// export is always PNG, whatever format the page was imported in).
/// Refused when the image cannot be decoded or encoded.
pub fn source_export_file(index: usize, page: &String, bytes: Vec<u8>) -> (r: Result<
    ExportFile,
    ApiError,
>)
    requires
        index < usize::MAX,
    ensures
        match png_encoding(bytes@) {
            Ok(png) => r matches Ok(file) && file.name@ == export_name(index as nat, page@, "png"@)
                && file.bytes@ == png && file.content_type@ == "image/png"@,
            Err(m) => r matches Err(e) && e.kind == ApiErrorKind::BadRequest && e.message@ == m,
        },
{
    source_png_export_file(index, page, encode_as_png(bytes.as_slice()))
}

/// A page's thumbnail: its width and height (at most 128 each) and its RGBA
/// pixels, row by row.
pub struct Thumbnail {
    pub width: u32,
    pub height: u32,
    pub rgba: Vec<u8>,
}

/// The refusal text when a page's source image cannot be decoded.
pub open spec fn thumbnail_failure(detail: Seq<char>) -> Seq<char> {
    "failed to decode source image: "@ + detail
}

/// The thumbnail for a decoding result, or an internal error that says the
/// source image could not be decoded.
pub fn thumbnail_from(decoded: Result<(u32, u32, Vec<u8>), String>) -> (r: Result<
    Thumbnail,
    ApiError,
>)
    ensures
        match decoded {
            Ok(t) => r matches Ok(th) && th.width == t.0 && th.height == t.1 && th.rgba@ == t.2@,
            Err(m) => r matches Err(e) && e.kind == ApiErrorKind::Internal && e.message@
                == thumbnail_failure(m@),
        },
{
    match decoded {
        Ok((width, height, rgba)) => Ok(Thumbnail { width, height, rgba }),
        Err(detail) => {
            let mut message = String::from_str("failed to decode source image: ");
            message.append(detail.as_str());
            Err(ApiError::internal(message))
        },
    }
}

/// The thumbnail of a page's source image: decoded and scaled to fit 128 by
/// 128 pixels.
pub fn source_thumbnail(bytes: &[u8]) -> (r: Result<Thumbnail, ApiError>)
    ensures
        match thumbnail_of(bytes@) {
            Ok(t) => r matches Ok(th) && th.width == t.0 && th.height == t.1 && th.rgba@ == t.2,
            Err(m) => r matches Err(e) && e.kind == ApiErrorKind::Internal && e.message@
                == thumbnail_failure(m),
        },
{
    thumbnail_from(thumbnail_rgba(bytes))
}

/// A PNG image of the page at `index` of an export (the rendered page, or
/// its source once encoded as PNG).
pub fn rendered_export_file(index: usize, page: &String, png: Vec<u8>) -> (r: ExportFile)
    requires
        index < usize::MAX,
    ensures
        r.name@ == export_name(index as nat, page@, "png"@),
        r.bytes@ == png@,
        r.content_type@ == "image/png"@,
{
    let name = export_file_name(index, page, "png");
    ExportFile { name, bytes: png, content_type: String::from_str("image/png") }
}

/// What a download sends: a file name, its bytes and its media type.
pub struct Download {
    pub file_name: String,
    pub bytes: Vec<u8>,
    pub content_type: String,
}

/// The archive entries of exported files.
pub open spec fn export_entries(files: Seq<ExportFile>) -> Seq<(Seq<char>, Seq<u8>)> {
    files.map_values(|f: ExportFile| (f.name@, f.bytes@))
}

/// `<project>.zip`, with the project's name sanitized (`project` if nothing
/// of it is safe).
pub open spec fn archive_name(project_name: Seq<char>) -> Seq<char> {
    sanitized(project_name, "project"@) + seq!['.', 'z', 'i', 'p']
}

/// A single exported file is sent as it is; several are sent as one ZIP
/// archive named after the project, which is always made when their names
/// are distinct and each file is within `entry_limit`.
pub fn finish_export(project_name: &str, files: Vec<ExportFile>) -> (r: Result<Download, ApiError>)
    requires
        files@.len() > 0,
        files@.len() > 1 ==> forall|i: int|
            0 <= i < files@.len() ==> utf8_len(#[trigger] files@[i].name@) < 0x1_0000,
    ensures
        files@.len() > 1 && names_distinct(export_entries(files@)) && entries_fit(
            export_entries(files@),
        ) ==> r is Ok,
        files@.len() == 1 ==> (r matches Ok(d) && d.file_name == files@[0].name && d.bytes
            == files@[0].bytes && d.content_type == files@[0].content_type),
        files@.len() > 1 ==> match r {
            Ok(d) => d.file_name@ == archive_name(project_name@) && d.content_type@
                == "application/zip"@ && d.bytes@ == zip_archive(export_entries(files@)),
            Err(e) => e.kind == ApiErrorKind::Internal,
        },
{
    let mut files = files;
    if files.len() == 1 {
        let file = files.remove(0);
        return Ok(Download { file_name: file.name, bytes: file.bytes, content_type: file.content_type });
    }
    let ghost all = files@;
    let mut named: Vec<NamedFile> = Vec::new();
    while files.len() > 0
        invariant
            file_entries(named@) + export_entries(files@) =~= export_entries(all),
            forall|i: int| 0 <= i < all.len() ==> utf8_len(#[trigger] all[i].name@) < 0x1_0000,
        decreases files@.len(),
    {
        let ghost before = files@;
        let ghost named_before = named@;
        let file = files.remove(0);
        named.push(NamedFile { name: file.name, bytes: file.bytes });
        assert(file_entries(named@) =~= file_entries(named_before).push(
            (before[0].name@, before[0].bytes@),
        ));
        assert(export_entries(before) =~= seq![(before[0].name@, before[0].bytes@)]
            + export_entries(files@));
    }
    assert(file_entries(named@) =~= export_entries(all));
    assert forall|i: int| 0 <= i < named@.len() implies utf8_len(#[trigger] named@[i].name@)
        < 0x1_0000 by {
        assert(file_entries(named@)[i] == export_entries(all)[i]);
    }
    match zip_bytes(named) {
        Ok(bytes) => {
            let mut file_name = sanitize(project_name, "project");
            push_char(&mut file_name, '.');
            push_char(&mut file_name, 'z');
            push_char(&mut file_name, 'i');
            push_char(&mut file_name, 'p');
            Ok(Download { file_name, bytes, content_type: String::from_str("application/zip") })
        },
        Err(message) => Err(ApiError::internal(message)),
    }
}

/// The `Content-Disposition` of a download: `attachment; filename="<name>"`.
pub fn content_disposition(file_name: &String) -> (r: String)
    ensures
        r@ == "attachment; filename=\""@ + file_name@ + "\""@,
{
    let mut value = String::from_str("attachment; filename=\"");
    value.append(file_name.as_str());
    value.append("\"");
    value
}

/// One uploaded page image, checked and measured.
pub struct ImportImage {
    pub name: String,
    pub bytes: Vec<u8>,
    pub media_type: String,
    pub width: u32,
    pub height: u32,
}

/// An upload is named after its file, or `page` when it has no file name.
pub open spec fn upload_name(file_name: Option<String>) -> Seq<char> {
    match file_name {
        Some(n) => n@,
        None => "page"@,
    }
}

/// Checks one uploaded file: its format must be recognised and its header
/// must give its size. Refusals are bad requests carrying the image error's
/// text.
pub fn probe_upload(file_name: Option<String>, data: Vec<u8>) -> (r: Result<ImportImage, ApiError>)
    ensures
        match guessed_format(data@) {
            None => r matches Err(e) && e.kind == ApiErrorKind::BadRequest && e.message@
                == "The image format could not be determined"@,
            Some(f) => match decoded_dimensions(data@, f) {
                Err(m) => r matches Err(e) && e.kind == ApiErrorKind::BadRequest && e.message@ == m,
                Ok(size) => r matches Ok(image) && image.name@ == upload_name(file_name)
                    && image.bytes@ == data@ && image.media_type@ == mime_type_of(f) && image.width
                    == size.0 && image.height == size.1,
            },
        },
{
    let name = match file_name {
        Some(n) => n,
        None => String::from_str("page"),
    };
    let format = match guess_image_format(data.as_slice()) {
        Ok(f) => f,
        Err(message) => {
            return Err(ApiError::bad_request(message));
        },
    };
    let (width, height) = match image_dimensions(data.as_slice(), format) {
        Ok(size) => size,
        Err(message) => {
            return Err(ApiError::bad_request(message));
        },
    };
    let media_type = image_mime_type(format).to_owned();
    Ok(ImportImage { name, bytes: data, media_type, width, height })
}

/// Images in order of their names.
pub open spec fn sorted_by_name(s: Seq<ImportImage>) -> bool {
    forall|i: int, j: int|
        0 <= i < j < s.len() ==> !text_less((#[trigger] s[j]).name@, (#[trigger] s[i]).name@)
}

fn insert_by_name(v: &mut Vec<ImportImage>, item: ImportImage)
    requires
        sorted_by_name(old(v)@),
    ensures
        sorted_by_name(final(v)@),
        final(v)@.to_multiset() =~= old(v)@.to_multiset().insert(item),
{
    let mut pos: usize = 0;
    while pos < v.len() && !is_text_less(item.name.as_str(), v[pos].name.as_str())
        invariant
            pos <= v.len(),
            forall|i: int| 0 <= i < pos ==> !text_less(item.name@, (#[trigger] v@[i]).name@),
        decreases v.len() - pos,
    {
        pos = pos + 1;
    }
    let ghost before = v@;
    let ghost g = item;
    v.insert(pos, item);
    proof {
        let w = v@;
        let p = pos as int;
        let key = g.name@;
        before.insert_ensures(p, g);
        assert forall|i: int, j: int| 0 <= i < j < w.len() implies !text_less(
            (#[trigger] w[j]).name@,
            (#[trigger] w[i]).name@,
        ) by {
            let ki = w[i].name@;
            let kj = w[j].name@;
            if j < p {
                assert(w[i] == before[i] && w[j] == before[j]);
            } else if j == p {
                assert(w[i] == before[i]);
            } else if i > p {
                assert(w[i] == before[i - 1] && w[j] == before[j - 1]);
            } else if i == p {
                let kp = before[p].name@;
                assert(w[j] == before[j - 1]);
                assert(text_less(key, kp));
                if j - 1 > p {
                    assert(!text_less(kj, kp));
                }
                lemma_text_less_transitive(kj, key, kp);
                lemma_text_less_asymmetric(kj, kp);
            } else {
                assert(w[i] == before[i] && w[j] == before[j - 1]);
            }
        }
        lemma_insert_to_multiset(before, p, g);
    }
}

/// The checked uploads in order of their names (uploads with equal names
/// come in no promised order); refused when there are none.
pub fn finish_import(images: Vec<ImportImage>) -> (r: Result<Vec<ImportImage>, ApiError>)
    ensures
        images@.len() == 0 ==> (r matches Err(e) && e.kind == ApiErrorKind::BadRequest
            && e.message@ == "no images provided"@),
        images@.len() > 0 ==> (r matches Ok(v) && v@.to_multiset() =~= images@.to_multiset()
            && sorted_by_name(v@)),
{
    if images.len() == 0 {
        return Err(ApiError::bad_request(String::from_str("no images provided")));
    }
    broadcast use vstd::seq_lib::group_to_multiset_ensures;

    let ghost all = images@;
    let mut images = images;
    let mut sorted: Vec<ImportImage> = Vec::new();
    assert(sorted@.to_multiset() =~= vstd::multiset::Multiset::empty());
    while images.len() > 0
        invariant
            sorted_by_name(sorted@),
            sorted@.to_multiset().add(images@.to_multiset()) =~= all.to_multiset(),
        decreases images@.len(),
    {
        let ghost before = images@;
        let item = images.remove(0);
        proof {
            before.to_multiset_ensures();
        }
        insert_by_name(&mut sorted, item);
        assert(before.contains(before[0]));
    }
    assert(images@.to_multiset() =~= vstd::multiset::Multiset::empty());
    Ok(sorted)
}

} // verus!
