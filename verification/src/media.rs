//! Image format detection, PNG encoding and thumbnails, and ZIP packaging,
//! through the `image` and `zip` crates.

use std::io::Write;
use vstd::prelude::*;

verus! {

#[verifier::external_type_specification]
#[verifier::external_body]
pub struct ExImageFormat(image::ImageFormat);

/// The formats that `image::ImageFormat` names, one variant for each of its
/// variants, and `Unknown` for a variant that a later version of the crate
/// adds (the enum is non-exhaustive).
#[derive(Clone, Copy, Debug, PartialEq, Eq, Structural)]
pub enum ImageKind {
    Png,
    Jpeg,
    Gif,
    WebP,
    Pnm,
    Tiff,
    Tga,
    Dds,
    Bmp,
    Ico,
    Hdr,
    OpenExr,
    Farbfeld,
    Avif,
    Qoi,
    Pcx,
    Unknown,
}

/// The format that `image::guess_format` finds from the leading bytes, if any.
pub uninterp spec fn guessed_format(bytes: Seq<u8>) -> Option<image::ImageFormat>;

/// `ImageFormat::to_mime_type` of a format.
pub uninterp spec fn mime_type_of(format: image::ImageFormat) -> Seq<char>;

/// What `ImageReader::with_format(..).into_dimensions()` gives for the bytes
/// read as the format: the width and height, or the error's text.
pub uninterp spec fn decoded_dimensions(bytes: Seq<u8>, format: image::ImageFormat) -> Result<
    (u32, u32),
    Seq<char>,
>;

/// `image::guess_format`: the format recognised from the magic bytes at the
/// start of `bytes`. Claims that the result is `guessed_format(bytes)`, and
/// that a failure carries the text of `ImageError::Unsupported` with an
/// unknown format hint.
#[verifier::external_body]
pub(crate) fn guess_image_format(bytes: &[u8]) -> (r: Result<image::ImageFormat, String>)
    ensures
        match r {
            Ok(f) => guessed_format(bytes@) == Some(f),
            Err(m) => guessed_format(bytes@) is None && m@
                == "The image format could not be determined"@,
        },
{
    image::guess_format(bytes).map_err(|error| error.to_string())
}

/// `ImageFormat::to_mime_type`: claims only that the result is
/// `mime_type_of(format)`.
#[verifier::external_body]
pub(crate) fn image_mime_type(format: image::ImageFormat) -> (r: &'static str)
    ensures
        r@ == mime_type_of(format),
{
    format.to_mime_type()
}

/// What decoding `bytes` (in the format their first bytes show) and encoding
/// the image again as PNG gives: the PNG bytes, or the error's text.
pub uninterp spec fn png_encoding(bytes: Seq<u8>) -> Result<Seq<u8>, Seq<char>>;

/// `image::load_from_memory`, then `DynamicImage::write_to` an in-memory
/// buffer as `ImageFormat::Png`. Claims only that the result (an error as
/// its text) is `png_encoding(bytes)`.
#[verifier::external_body]
pub(crate) fn encode_as_png(bytes: &[u8]) -> (r: Result<Vec<u8>, String>)
    ensures
        match r {
            Ok(png) => png_encoding(bytes@) == Ok::<Seq<u8>, Seq<char>>(png@),
            Err(m) => png_encoding(bytes@) == Err::<Seq<u8>, Seq<char>>(m@),
        },
{
    let image = image::load_from_memory(bytes).map_err(|error| error.to_string())?;
    let mut png = std::io::Cursor::new(Vec::new());
    image.write_to(&mut png, image::ImageFormat::Png).map_err(|error| error.to_string())?;
    Ok(png.into_inner())
}

/// What decoding `bytes` and scaling the image to fit 128 by 128 pixels
/// gives: its width, height and RGBA pixels row by row, or the error's text.
pub uninterp spec fn thumbnail_of(bytes: Seq<u8>) -> Result<(u32, u32, Seq<u8>), Seq<char>>;

/// `image::load_from_memory`, then `DynamicImage::thumbnail(128, 128)` and
/// `to_rgba8`. Claims only that the result (an error as its text) is
/// `thumbnail_of(bytes)`.
#[verifier::external_body]
pub(crate) fn thumbnail_rgba(bytes: &[u8]) -> (r: Result<(u32, u32, Vec<u8>), String>)
    ensures
        match r {
            Ok(t) => thumbnail_of(bytes@) == Ok::<(u32, u32, Seq<u8>), Seq<char>>((t.0, t.1, t.2@)),
            Err(m) => thumbnail_of(bytes@) == Err::<(u32, u32, Seq<u8>), Seq<char>>(m@),
        },
{
    let image = image::load_from_memory(bytes).map_err(|error| error.to_string())?;
    let thumbnail = image.thumbnail(128, 128).to_rgba8();
    Ok((thumbnail.width(), thumbnail.height(), thumbnail.into_raw()))
}

/// `ImageReader::with_format(Cursor::new(bytes), format).into_dimensions()`:
/// the image's size read from its header. Claims only that the result (an
/// error as its text) is `decoded_dimensions(bytes, format)`.
#[verifier::external_body]
pub(crate) fn image_dimensions(bytes: &[u8], format: image::ImageFormat) -> (r: Result<(u32, u32), String>)
    ensures
        match r {
            Ok(d) => decoded_dimensions(bytes@, format) == Ok::<(u32, u32), Seq<char>>(d),
            Err(m) => decoded_dimensions(bytes@, format) == Err::<(u32, u32), Seq<char>>(m@),
        },
{
    image::ImageReader::with_format(std::io::Cursor::new(bytes), format)
        .into_dimensions()
        .map_err(|error| error.to_string())
}

/// A `zip::ZipWriter` over an in-memory buffer: an archive being written.
/// What it holds is seen through `zip_entries` and `zip_open_entry`.
#[verifier::external_body]
pub struct ArchiveWriter {
    writer: zip::ZipWriter<std::io::Cursor<Vec<u8>>>,
}

/// The entries written so far: each file's name and content, in order.
pub uninterp spec fn zip_entries(writer: ArchiveWriter) -> Seq<
    (Seq<char>, Seq<u8>),
>;

/// Whether the last entry is still open for its content to be written.
pub uninterp spec fn zip_open_entry(writer: ArchiveWriter) -> bool;

/// The bytes of the finished archive that holds these entries, each
/// deflate-compressed with the default timestamp.
pub uninterp spec fn zip_archive(entries: Seq<(Seq<char>, Seq<u8>)>) -> Seq<u8>;

/// The length of `text` encoded as UTF-8.
pub open spec fn utf8_len(text: Seq<char>) -> nat {
    vstd::utf8::encode_utf8(text).len()
}

/// The largest entry content for which success is promised: 2^31 - 1
/// bytes. An entry without the ZIP64 option may hold 4 GiB - 1 once
/// compressed, and the deflate stream of a content is at most slightly
/// longer than the content (stored blocks replace blocks that would grow).
pub open spec fn entry_limit() -> nat {
    0x7fff_ffff
}

/// No entry is named `name`.
pub open spec fn name_is_new(entries: Seq<(Seq<char>, Seq<u8>)>, name: Seq<char>) -> bool {
    forall|i: int| 0 <= i < entries.len() ==> #[trigger] entries[i].0 != name
}

/// No two entries share a name.
pub open spec fn names_distinct(entries: Seq<(Seq<char>, Seq<u8>)>) -> bool {
    forall|i: int, j: int|
        0 <= i < j < entries.len() ==> #[trigger] entries[i].0 != #[trigger] entries[j].0
}

/// Every entry's content is within `entry_limit`.
pub open spec fn entries_fit(entries: Seq<(Seq<char>, Seq<u8>)>) -> bool {
    forall|i: int| 0 <= i < entries.len() ==> #[trigger] entries[i].1.len() <= entry_limit()
}

/// `ZipWriter::new` over an empty in-memory buffer: no entries yet.
#[verifier::external_body]
pub(crate) fn archive_writer() -> (r: ArchiveWriter)
    ensures
        zip_entries(r) == Seq::<(Seq<char>, Seq<u8>)>::empty(),
        !zip_open_entry(r),
{
    ArchiveWriter { writer: zip::ZipWriter::new(std::io::Cursor::new(Vec::new())) }
}

/// `ZipWriter::start_file` with deflate compression at the default level.
/// The writer is handed back only on success, with a new, empty, open entry
/// named `name` after the earlier ones; on failure it is dropped, so no
/// writer in a failed state is ever used again. It succeeds when no entry
/// has the name yet (it refuses a duplicate) and the entry it closes fits
/// (it refuses an entry whose compressed size passes 4 GiB - 1). A name
/// longer than 65535 bytes makes it panic, so it is not admitted. The
/// failure text is not stated.
#[verifier::external_body]
pub(crate) fn archive_start_file(writer: ArchiveWriter, name: &str) -> (r: Result<
    ArchiveWriter,
    String,
>)
    requires
        utf8_len(name@) < 0x1_0000,
    ensures
        r matches Ok(w) ==> zip_entries(w) == zip_entries(writer).push((name@, Seq::<u8>::empty()))
            && zip_open_entry(w),
        name_is_new(zip_entries(writer), name@) && entries_fit(zip_entries(writer)) ==> r is Ok,
{
    let mut writer = writer;
    let options = zip::write::SimpleFileOptions::default().compression_method(
        zip::CompressionMethod::Deflated,
    );
    match writer.writer.start_file(name, options) {
        Ok(()) => Ok(writer),
        Err(error) => Err(error.to_string()),
    }
}

/// `Write::write_all` on the writer. The writer is handed back only on
/// success, with `bytes` appended to the content of the last entry, which
/// stays open; on failure it is dropped. It succeeds when an entry is open
/// and its content stays within 4 GiB - 1 (past that the writer refuses, as
/// the ZIP64 option is not set). The failure text is not stated.
#[verifier::external_body]
pub(crate) fn archive_write(writer: ArchiveWriter, bytes: &[u8]) -> (r: Result<
    ArchiveWriter,
    String,
>)
    requires
        zip_entries(writer).len() > 0,
    ensures
        r matches Ok(w) ==> zip_entries(w) == zip_entries(writer).update(
            zip_entries(writer).len() - 1,
            (zip_entries(writer).last().0, zip_entries(writer).last().1 + bytes@),
        ) && zip_open_entry(w),
        zip_open_entry(writer) && zip_entries(writer).last().1.len() + bytes@.len() <= 0xffff_ffff
            ==> r is Ok,
{
    let mut writer = writer;
    match writer.writer.write_all(bytes) {
        Ok(()) => Ok(writer),
        Err(error) => Err(error.to_string()),
    }
}

/// `ZipWriter::finish`, then the buffer: on success the bytes of the archive
/// of the entries written. Every writer comes from `archive_writer` through
/// successful calls only, so nothing aborted lies in its buffer. It succeeds
/// when every entry fits (it refuses an entry whose compressed size passes
/// 4 GiB - 1). The failure text is not stated.
#[verifier::external_body]
pub(crate) fn archive_finish(writer: ArchiveWriter) -> (r: Result<Vec<u8>, String>)
    ensures
        r matches Ok(bytes) ==> bytes@ == zip_archive(zip_entries(writer)),
        entries_fit(zip_entries(writer)) ==> r is Ok,
{
    writer.writer.finish().map(|cursor| cursor.into_inner()).map_err(|error| error.to_string())
}

/// A named file to pack.
pub struct NamedFile {
    pub name: String,
    pub bytes: Vec<u8>,
}

/// The entries that packing `files` writes.
pub open spec fn file_entries(files: Seq<NamedFile>) -> Seq<(Seq<char>, Seq<u8>)> {
    files.map_values(|f: NamedFile| (f.name@, f.bytes@))
}

/// Packs `files` into a ZIP archive, one deflated entry per file in order.
/// Files with distinct names, each within `entry_limit`, are always packed.
pub fn zip_bytes(files: Vec<NamedFile>) -> (r: Result<Vec<u8>, String>)
    requires
        forall|i: int| 0 <= i < files@.len() ==> utf8_len(#[trigger] files@[i].name@) < 0x1_0000,
    ensures
        r matches Ok(bytes) ==> bytes@ == zip_archive(file_entries(files@)),
        names_distinct(file_entries(files@)) && entries_fit(file_entries(files@)) ==> r is Ok,
{
    let ghost all = file_entries(files@);
    let mut writer = archive_writer();
    let n = files.len();
    let mut i: usize = 0;
    while i < n
        invariant
            n == files@.len(),
            i <= n,
            all == file_entries(files@),
            forall|k: int| 0 <= k < files@.len() ==> utf8_len(#[trigger] files@[k].name@) < 0x1_0000,
            zip_entries(writer) == file_entries(files@.take(i as int)),
        decreases n - i,
    {
        let file = &files[i];
        let ghost before = zip_entries(writer);
        proof {
            assert(all[i as int] == (file.name@, file.bytes@));
            if names_distinct(all) && entries_fit(all) {
                assert forall|k: int| 0 <= k < before.len() implies #[trigger] before[k].0
                    != file.name@ by {
                    assert(before[k] == all[k]);
                    assert(all[k].0 != all[i as int].0);
                }
                assert forall|k: int| 0 <= k < before.len() implies #[trigger] before[k].1.len()
                    <= entry_limit() by {
                    assert(before[k] == all[k]);
                    assert(all[k].1.len() <= entry_limit());
                }
            }
        }
        writer = archive_start_file(writer, file.name.as_str())?;
        proof {
            if entries_fit(all) {
                assert(all[i as int].1.len() <= entry_limit());
            }
        }
        writer = archive_write(writer, file.bytes.as_slice())?;
        assert(file_entries(files@.take(i + 1)) =~= file_entries(files@.take(i as int)).push(
            (file.name@, file.bytes@),
        ));
        i = i + 1;
    }
    assert(files@.take(n as int) =~= files@);
    archive_finish(writer)
}

} // verus!
