use helix_picker::preview::{
    cached_for, classify, classify_inspected, CachedPreview, FileClass, PathOrId, Preview,
    PreviewCache, PreviewStep, range_fits, requests_highlight, preview_anchor,
    placeholder_position, MAX_FILE_SIZE_FOR_PREVIEW,
};

#[test]
fn classify_by_content_and_size() {
    assert_eq!(classify(10, b"hello\n"), FileClass::Text);
    assert_eq!(classify(10, b"he\0llo"), FileClass::Binary);
    assert_eq!(classify(10, b""), FileClass::Text);
    assert_eq!(classify(MAX_FILE_SIZE_FOR_PREVIEW + 1, b"hello"), FileClass::LargeFile);
    assert_eq!(classify(MAX_FILE_SIZE_FOR_PREVIEW, b"hello"), FileClass::Text);
    assert_eq!(classify(MAX_FILE_SIZE_FOR_PREVIEW + 1, b"\0"), FileClass::Binary);
    assert_eq!(classify_inspected(11 * 1024 * 1024, false), FileClass::LargeFile);
    assert_eq!(MAX_FILE_SIZE_FOR_PREVIEW, 10 * 1024 * 1024);
}

#[test]
fn large_file_is_cached_with_placeholder() {
    let mut cache: PreviewCache<String> = PreviewCache::new();
    let path = b"/tmp/big.txt".to_vec();
    let source = PathOrId::Path(path.clone());
    assert_eq!(cache.step(&source, false), PreviewStep::Open);
    let class = classify(20 * 1024 * 1024, b"text");
    cache.insert(path.clone(), cached_for(class, None));
    assert_eq!(cache.step(&source, false), PreviewStep::Cached);
    let entry = cache.get(&path).unwrap();
    assert!(matches!(entry, CachedPreview::LargeFile));
    assert_eq!(Preview::Cached(entry).placeholder(), "<File too large to preview>");
}

#[test]
fn cache_serves_recorded_paths() {
    let mut cache: PreviewCache<String> = PreviewCache::new();
    let a = b"a.rs".to_vec();
    let b = b"b.bin".to_vec();
    cache.insert(a.clone(), cached_for(FileClass::Text, Some("fn main() {}".to_string())));
    cache.insert(b.clone(), cached_for(FileClass::Binary, Some("x".to_string())));
    assert_eq!(cache.step(&PathOrId::Path(a.clone()), false), PreviewStep::Cached);
    assert_eq!(cache.step(&PathOrId::Path(a.clone()), true), PreviewStep::EditorDocument);
    assert_eq!(cache.step(&PathOrId::Id(3), false), PreviewStep::EditorDocument);
    assert_eq!(cache.step(&PathOrId::Path(b"c".to_vec()), false), PreviewStep::Open);
    let doc = Preview::Cached(cache.get(&a).unwrap()).document();
    assert_eq!(doc.map(|d| d.as_str()), Some("fn main() {}"));
    let bin = Preview::Cached(cache.get(&b).unwrap());
    assert!(bin.document().is_none());
    assert_eq!(bin.placeholder(), "<Binary file>");
}

#[test]
fn placeholders() {
    let nf: CachedPreview<String> = cached_for(FileClass::Text, None);
    assert_eq!(Preview::Cached(&nf).placeholder(), "<File not found>");
    let doc = "x".to_string();
    let p: Preview<String> = Preview::EditorDocument(&doc);
    assert_eq!(p.placeholder(), "<Invalid file location>");
    assert_eq!(p.document(), Some(&doc));
}

#[test]
fn line_ranges() {
    assert!(range_fits(None, 0));
    assert!(range_fits(Some((2, 5)), 5));
    assert!(!range_fits(Some((2, 6)), 5));
    assert!(!range_fits(Some((4, 3)), 5));
}

#[test]
fn highlight_requests() {
    let doc: CachedPreview<String> = CachedPreview::Document("x".to_string());
    assert!(requests_highlight(&doc, true, true));
    assert!(requests_highlight(&doc, false, false));
    assert!(!requests_highlight(&doc, false, true));
    let bin: CachedPreview<String> = CachedPreview::Binary;
    assert!(!requests_highlight(&bin, true, false));
}

#[test]
fn anchor_and_placeholder_position() {
    assert_eq!(preview_anchor(40, 44, 30, 20), 30);
    assert_eq!(preview_anchor(40, 44, 41, 20), 40);
    assert_eq!(preview_anchor(40, 80, 30, 20), 40);
    assert_eq!(placeholder_position(10, 5, 40, 20, 27), (16, 15));
    assert_eq!(placeholder_position(10, 5, 20, 21, 27), (10, 15));
}

#[test]
fn inspection_rules() {
    assert_eq!(classify(8, b"%PDF-1.4"), FileClass::Binary);
    assert_eq!(classify(8, b"\x89PNG\r\n\x1a\n"), FileClass::Binary);
    assert_eq!(classify(9, b"\xEF\xBB\xBFab\0cd"), FileClass::Text);
    assert_eq!(classify(4, b"\xFF\xFEa\0"), FileClass::Text);
    let mut late_zero = vec![b'a'; 1024];
    late_zero.push(0);
    assert_eq!(classify(1025, &late_zero), FileClass::Text);
    late_zero[1023] = 0;
    assert_eq!(classify(1025, &late_zero), FileClass::Binary);
}
