use koharu_rpc::api::{meta_info, ml_device_label, no_current_project, no_project_open, ApiErrorKind, Backend};
use koharu_rpc::media::{zip_bytes, ImageKind, NamedFile};
use koharu_rpc::pages::{
    content_disposition, extension_for, finish_export, finish_import, missing_page_error,
    probe_upload, rendered_export_file, resolve_pages, sanitize, select_export_pages,
    source_export_file, source_png_export_file, source_thumbnail, thumbnail_from, ExportFile,
    ExportFormat, PageSelectionError,
};
use koharu_rpc::translation::{answers_in_order, is_translation_target, provider_for, translated_text, translation_decision, TranslationDecision};

const PNG_1X1: [u8; 67] = [
    0x89, 0x50, 0x4E, 0x47, 0x0D, 0x0A, 0x1A, 0x0A, 0x00, 0x00, 0x00, 0x0D, 0x49, 0x48, 0x44, 0x52,
    0x00, 0x00, 0x00, 0x01, 0x00, 0x00, 0x00, 0x01, 0x08, 0x06, 0x00, 0x00, 0x00, 0x1F, 0x15, 0xC4,
    0x89, 0x00, 0x00, 0x00, 0x0A, 0x49, 0x44, 0x41, 0x54, 0x78, 0x9C, 0x63, 0x00, 0x01, 0x00, 0x00,
    0x05, 0x00, 0x01, 0x0D, 0x0A, 0x2D, 0xB4, 0x00, 0x00, 0x00, 0x00, 0x49, 0x45, 0x4E, 0x44, 0xAE,
    0x42, 0x60, 0x82,
];

const BMP_1X1: [u8; 58] = [
    0x42, 0x4D, 0x3A, 0x00, 0x00, 0x00, 0x00, 0x00, 0x00, 0x00, 0x36, 0x00, 0x00, 0x00, 0x28, 0x00,
    0x00, 0x00, 0x01, 0x00, 0x00, 0x00, 0x01, 0x00, 0x00, 0x00, 0x01, 0x00, 0x18, 0x00, 0x00, 0x00,
    0x00, 0x00, 0x04, 0x00, 0x00, 0x00, 0x13, 0x0B, 0x00, 0x00, 0x13, 0x0B, 0x00, 0x00, 0x00, 0x00,
    0x00, 0x00, 0x00, 0x00, 0x00, 0x00, 0x00, 0x00, 0xFF, 0x00,
];

const GIF_1X1: &[u8] = b"GIF89a\x01\x00\x01\x00\x80\x00\x00\xff\xff\xff\x00\x00\x00!\xf9\x04\x01\x00\x00\x00\x00,\x00\x00\x00\x00\x01\x00\x01\x00\x00\x02\x02D\x01\x00;";

fn ids(names: &[&str]) -> Vec<String> {
    names.iter().map(|s| s.to_string()).collect()
}

#[test]
fn sanitize_keeps_safe_characters() {
    assert_eq!(sanitize("My Project!", "project"), "MyProject");
    assert_eq!(sanitize("vol_1-2", "project"), "vol_1-2");
    assert_eq!(sanitize("漫画", "project"), "project");
    assert_eq!(sanitize("", "x"), "x");
    let once = sanitize("a b.c", "project");
    assert_eq!(sanitize(&once, "project"), once);
}

#[test]
fn extensions_follow_the_format_family() {
    assert_eq!(extension_for(ImageKind::Png), "png");
    assert_eq!(extension_for(ImageKind::Jpeg), "jpg");
    assert_eq!(extension_for(ImageKind::WebP), "webp");
    assert_eq!(extension_for(ImageKind::Gif), "bin");
    assert_eq!(extension_for(ImageKind::Unknown), "bin");
    assert_eq!(ExportFormat::default(), ExportFormat::Rendered);
}

#[test]
fn image_formats_are_detected() {
    let png = probe_upload(Some("a".to_string()), PNG_1X1.to_vec()).ok().unwrap();
    assert_eq!((png.media_type.as_str(), png.width, png.height), ("image/png", 1, 1));
    let from_bmp = source_export_file(0, &"b".to_string(), BMP_1X1.to_vec()).ok().unwrap();
    assert_eq!((from_bmp.name.as_str(), from_bmp.content_type.as_str()), ("page-001-b.png", "image/png"));
    let again = probe_upload(None, from_bmp.bytes).ok().unwrap();
    assert_eq!((again.media_type.as_str(), again.width, again.height), ("image/png", 1, 1));
    let from_gif = source_export_file(0, &"g".to_string(), GIF_1X1.to_vec()).ok().unwrap();
    assert_eq!((from_gif.name.as_str(), from_gif.content_type.as_str()), ("page-001-g.png", "image/png"));
    assert_eq!(&from_gif.bytes[..4], b"\x89PNG");
    let unknown = source_export_file(0, &"u".to_string(), b"hello".to_vec()).err().unwrap();
    assert_eq!(unknown.kind, ApiErrorKind::BadRequest);
    assert!(!unknown.message.is_empty());
}

#[test]
fn uploads_are_checked_and_named() {
    let image = probe_upload(Some("b.png".to_string()), PNG_1X1.to_vec()).ok().unwrap();
    assert_eq!((image.name.as_str(), image.media_type.as_str(), image.width, image.height), ("b.png", "image/png", 1, 1));
    let unnamed = probe_upload(None, PNG_1X1.to_vec()).ok().unwrap();
    assert_eq!(unnamed.name, "page");
    let bad = probe_upload(Some("x".to_string()), b"not an image".to_vec()).err().unwrap();
    assert_eq!((bad.kind, bad.message.as_str()), (ApiErrorKind::BadRequest, "The image format could not be determined"));
    let truncated = probe_upload(Some("t.png".to_string()), PNG_1X1[..12].to_vec()).err().unwrap();
    assert_eq!(truncated.kind, ApiErrorKind::BadRequest);
    assert!(!truncated.message.is_empty());
}

#[test]
fn imports_are_sorted_by_name() {
    let named = |n: &str| probe_upload(Some(n.to_string()), PNG_1X1.to_vec()).ok().unwrap();
    let sorted = finish_import(vec![named("c.png"), named("a.png"), named("B.png"), named("b.png")]).ok().unwrap();
    let names: Vec<&str> = sorted.iter().map(|i| i.name.as_str()).collect();
    assert_eq!(names, vec!["B.png", "a.png", "b.png", "c.png"]);
    let empty = finish_import(vec![]).err().unwrap();
    assert_eq!((empty.kind, empty.message.as_str()), (ApiErrorKind::BadRequest, "no images provided"));
}

#[test]
fn page_selection_checks_each_page() {
    let pages = ids(&["p1", "p2", "p3"]);
    assert_eq!(resolve_pages(&pages, None).unwrap(), pages);
    assert_eq!(resolve_pages(&pages, Some(ids(&["p3", "p1", "p3"]))).unwrap(), ids(&["p3", "p1", "p3"]));
    assert_eq!(resolve_pages(&pages, Some(ids(&["p1", "x", "y"]))).unwrap_err(), "x");
    assert!(matches!(select_export_pages(&vec![], None), Err(PageSelectionError::Empty)));
    assert!(matches!(select_export_pages(&pages, Some(vec![])), Err(PageSelectionError::Empty)));
    let error = select_export_pages(&pages, Some(ids(&["q"]))).err().unwrap().into_api_error(&"no such page".to_string());
    assert_eq!((error.kind, error.message.as_str()), (ApiErrorKind::NotFound, "page q: no such page"));
    let empty = PageSelectionError::Empty.into_api_error(&String::new());
    assert_eq!((empty.kind, empty.message.as_str()), (ApiErrorKind::BadRequest, "no pages in selection"));
    let missing = missing_page_error(&"7".to_string(), &"gone".to_string());
    assert_eq!(missing.message, "page 7: gone");
}

#[test]
fn exported_files_are_numbered() {
    let file = rendered_export_file(0, &"abc".to_string(), vec![1, 2]);
    assert_eq!((file.name.as_str(), file.content_type.as_str()), ("page-001-abc.png", "image/png"));
    assert_eq!(rendered_export_file(41, &"x".to_string(), vec![]).name, "page-042-x.png");
    assert_eq!(rendered_export_file(999, &"x".to_string(), vec![]).name, "page-1000-x.png");
    let source = source_export_file(1, &"id".to_string(), PNG_1X1.to_vec()).ok().unwrap();
    assert_eq!((source.name.as_str(), source.content_type.as_str()), ("page-002-id.png", "image/png"));
    let truncated = source_export_file(2, &"j".to_string(), vec![0xff, 0xd8, 0xff, 0x00]);
    assert_eq!(truncated.err().unwrap().kind, ApiErrorKind::BadRequest);
    assert!(source_export_file(0, &"z".to_string(), vec![0, 1]).is_err());
}

#[test]
fn single_files_download_as_they_are() {
    let file = ExportFile { name: "page-001-a.png".to_string(), bytes: vec![5, 6], content_type: "image/png".to_string() };
    let download = finish_export("proj", vec![file]).ok().unwrap();
    assert_eq!((download.file_name.as_str(), download.bytes, download.content_type.as_str()), ("page-001-a.png", vec![5, 6], "image/png"));
}

#[test]
fn several_files_download_as_an_archive() {
    let files = vec![
        ExportFile { name: "page-001-a.png".to_string(), bytes: vec![1; 10], content_type: "image/png".to_string() },
        ExportFile { name: "page-002-b.png".to_string(), bytes: vec![2; 10], content_type: "image/png".to_string() },
    ];
    let download = finish_export("My Book!", files).ok().unwrap();
    assert_eq!((download.file_name.as_str(), download.content_type.as_str()), ("MyBook.zip", "application/zip"));
    assert_eq!(&download.bytes[..4], b"PK\x03\x04");
    let expected = zip_bytes(vec![
        NamedFile { name: "page-001-a.png".to_string(), bytes: vec![1; 10] },
        NamedFile { name: "page-002-b.png".to_string(), bytes: vec![2; 10] },
    ])
    .unwrap();
    assert_eq!(download.bytes, expected);
    let fallback = finish_export(
        "???",
        vec![
            ExportFile { name: "a".to_string(), bytes: vec![], content_type: String::new() },
            ExportFile { name: "b".to_string(), bytes: vec![], content_type: String::new() },
        ],
    )
    .ok()
    .unwrap();
    assert_eq!(fallback.file_name, "project.zip");
}

#[test]
fn archives_refuse_a_repeated_name() {
    let twice = zip_bytes(vec![
        NamedFile { name: "same.png".to_string(), bytes: vec![1] },
        NamedFile { name: "same.png".to_string(), bytes: vec![2] },
    ]);
    assert!(twice.is_err());
    let download = finish_export(
        "proj",
        vec![
            ExportFile { name: "x".to_string(), bytes: vec![1], content_type: String::new() },
            ExportFile { name: "x".to_string(), bytes: vec![2], content_type: String::new() },
        ],
    );
    assert_eq!(download.err().unwrap().kind, ApiErrorKind::Internal);
    let empty = zip_bytes(vec![]).unwrap();
    assert_eq!(&empty[..4], b"PK\x05\x06");
}

#[test]
fn downloads_are_attachments() {
    assert_eq!(content_disposition(&"a.zip".to_string()), "attachment; filename=\"a.zip\"");
}

#[test]
fn meta_reports_the_accelerator() {
    assert_eq!(ml_device_label(&Backend::Cpu), "cpu");
    assert_eq!(ml_device_label(&Backend::Cuda), "cuda");
    assert_eq!(ml_device_label(&Backend::Rocm), "rocm");
    assert_eq!(ml_device_label(&Backend::Vulkan), "vulkan");
    assert_eq!(ml_device_label(&Backend::Metal), "metal");
    assert_eq!(ml_device_label(&Backend::Other("npu".to_string())), "npu");
    let meta = meta_info(&"0.66.6".to_string(), &Backend::Metal);
    assert_eq!((meta.version.as_str(), meta.ml_device.as_str()), ("0.66.6", "metal"));
    let none = no_project_open();
    assert_eq!((none.kind, none.message.as_str()), (ApiErrorKind::BadRequest, "no project open"));
    assert_eq!(no_current_project().kind, ApiErrorKind::NotFound);
}

#[test]
fn translation_targets_need_text() {
    assert!(is_translation_target("hello"));
    assert!(!is_translation_target("  \n"));
    assert!(!is_translation_target(""));
}

#[test]
fn the_first_answering_provider_is_credited() {
    let model = "gemma".to_string();
    assert_eq!(provider_for(&vec![None, Some("openai".to_string()), Some("x".to_string())], &model), "openai");
    assert_eq!(provider_for(&vec![None, None], &model), "gemma");
    assert_eq!(provider_for(&vec![], &model), "gemma");
}

#[test]
fn ellipses_are_kept_and_translations_written() {
    assert_eq!(translated_text(" … ", vec!["...".to_string()]), "…");
    assert_eq!(translated_text("こんにちは", vec!["hello".to_string(), "hi".to_string()]), "hello");
    assert_eq!(translated_text("x", vec![]), "");
    assert!(matches!(translation_decision::<String>(true, "x", Err("e".to_string())), TranslationDecision::KeepUserText));
    assert!(matches!(translation_decision::<String>(false, "x", Err("e".to_string())), TranslationDecision::Fail(e) if e == "e"));
    assert!(matches!(translation_decision::<String>(false, "x", Ok(vec!["y".to_string()])), TranslationDecision::Write(t) if t == "y"));
}

#[test]
fn answers_go_back_to_their_bubbles() {
    let ordered = answers_in_order(3, vec![(2, "c"), (0, "a"), (1, "b")]).unwrap();
    assert_eq!(ordered, vec!["a", "b", "c"]);
    assert_eq!(answers_in_order::<&str>(0, vec![]), Some(vec![]));
    assert_eq!(answers_in_order(2, vec![(0, "a"), (0, "b")]), None);
    assert_eq!(answers_in_order(2, vec![(0, "a"), (2, "b")]), None);
    assert_eq!(answers_in_order(2, vec![(1, "b")]), None);
    assert_eq!(answers_in_order(1, vec![(0, "a"), (1, "b")]), None);
}

#[test]
fn positions_keep_export_names_apart() {
    let first = rendered_export_file(0, &"a".to_string(), vec![]);
    let second = rendered_export_file(1, &"a".to_string(), vec![]);
    let tenth = rendered_export_file(9, &"a".to_string(), vec![]);
    assert_eq!(first.name, "page-001-a.png");
    assert_eq!(tenth.name, "page-010-a.png");
    assert_ne!(first.name, second.name);
    let download = finish_export("p", vec![first, second, tenth]).ok().unwrap();
    assert_eq!(download.file_name, "p.zip");
}

#[test]
fn source_exports_are_png() {
    let file = source_png_export_file(4, &"p".to_string(), Ok(vec![1, 2])).ok().unwrap();
    assert_eq!((file.name.as_str(), file.bytes, file.content_type.as_str()), ("page-005-p.png", vec![1, 2], "image/png"));
    let refused = source_png_export_file(0, &"p".to_string(), Err("bad".to_string())).err().unwrap();
    assert_eq!((refused.kind, refused.message.as_str()), (ApiErrorKind::BadRequest, "bad"));
    let source = source_export_file(0, &"a".to_string(), PNG_1X1.to_vec()).ok().unwrap();
    assert_eq!(source.name, "page-001-a.png");
    assert_eq!(probe_upload(None, source.bytes).ok().unwrap().width, 1);
}

#[test]
fn thumbnails_fit_in_128_pixels() {
    let thumbnail = source_thumbnail(&PNG_1X1).ok().unwrap();
    assert_eq!((thumbnail.width, thumbnail.height), (128, 128));
    assert_eq!(thumbnail.rgba.len(), 128 * 128 * 4);
    let from_bmp = source_thumbnail(&BMP_1X1).ok().unwrap();
    assert_eq!(&from_bmp.rgba[..4], &[255, 0, 0, 255]);
    let refused = source_thumbnail(b"hello").err().unwrap();
    assert_eq!(refused.kind, ApiErrorKind::Internal);
    assert!(refused.message.starts_with("failed to decode source image: "));
    let made = thumbnail_from(Ok((2, 1, vec![0; 8]))).ok().unwrap();
    assert_eq!((made.width, made.height, made.rgba.len()), (2, 1, 8));
    let failed = thumbnail_from(Err("x".to_string())).err().unwrap();
    assert_eq!(failed.message, "failed to decode source image: x");
}
