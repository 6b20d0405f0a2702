use photo_dupe_resolver::database::Image;
use photo_dupe_resolver::scanner::{discovered_image, file_extension, is_image_file_name_exec, ImageBatcher};

#[test]
fn test_scanner_finds_images() {
    let names = ["test1.jpg", "test2.png", "test3.txt"];
    let found: Vec<&str> = names.iter().copied().filter(|n| is_image_file_name_exec(n)).collect();
    assert_eq!(found.len(), 2);
    assert!(!found.iter().any(|n| n.contains("test3.txt")));
}

#[test]
fn image_extensions_in_any_case() {
    for name in ["a.jpg", "a.JPEG", "a.Png", "a.gif", "a.webp", "a.BMP", "a.tiff", "x.y.jpg"] {
        assert!(is_image_file_name_exec(name), "{}", name);
    }
    for name in ["a.tif", "a.txt", ".png", "png", "a.png.bak", "a.", ".."] {
        assert!(!is_image_file_name_exec(name), "{}", name);
    }
}

#[test]
fn extension_follows_path_rules() {
    assert_eq!(file_extension("photo.tar.gz"), Some("gz"));
    assert_eq!(file_extension(".hidden"), None);
    assert_eq!(file_extension("..hidden"), Some("hidden"));
    assert_eq!(file_extension("name."), Some(""));
    assert_eq!(file_extension("noext"), None);
    assert_eq!(file_extension(".."), None);
}

#[test]
fn discovered_image_record() {
    let img = discovered_image("/photos/a.jpg".to_string(), 42);
    assert_eq!(img.path, "/photos/a.jpg");
    assert_eq!(img.size, 42);
    assert!(img.content_hash.is_none());
    assert!(img.perceptual_hash.is_none());
    assert_eq!(img.id.len(), 36);
    assert_eq!(img.id.as_bytes()[14], b'4');
    assert!(matches!(img.id.as_bytes()[19], b'8' | b'9' | b'a' | b'b'));
    assert!(img.created_at.ends_with("+00:00"));
    let t = img.created_at.as_bytes();
    assert_eq!(t[4], b'-');
    assert_eq!(t[7], b'-');
    assert_eq!(t[10], b'T');
    assert_eq!(t[13], b':');
    assert_eq!(t[16], b':');
    assert!(matches!(t.len(), 25 | 29 | 32 | 35));
    let other = discovered_image("/photos/a.jpg".to_string(), 42);
    assert_ne!(img.id, other.id);
}

fn img(i: u64) -> Image {
    Image {
        id: i.to_string(),
        path: format!("/p/{}.jpg", i),
        size: i,
        content_hash: None,
        perceptual_hash: None,
        created_at: String::new(),
    }
}

#[test]
fn batches_hold_every_image_once_in_order() {
    let mut batcher = ImageBatcher::new(3);
    let mut stored: Vec<Vec<u64>> = Vec::new();
    for i in 0..8 {
        if let Some(batch) = batcher.push(img(i)) {
            stored.push(batch.iter().map(|b| b.size).collect());
        }
    }
    assert_eq!(batcher.pending_len(), 2);
    if let Some(batch) = batcher.finish() {
        stored.push(batch.iter().map(|b| b.size).collect());
    }
    assert_eq!(stored, vec![vec![0, 1, 2], vec![3, 4, 5], vec![6, 7]]);
    assert!(batcher.finish().is_none());
}

#[test]
fn batch_size_zero_stores_each_image() {
    let mut batcher = ImageBatcher::new(0);
    assert_eq!(batcher.push(img(1)).map(|b| b.len()), Some(1));
    assert_eq!(batcher.push(img(2)).map(|b| b.len()), Some(1));
    assert!(batcher.finish().is_none());
}

#[test]
fn test_scanner_scan_empty_directory() {
    let mut batcher = ImageBatcher::new(10);
    assert!(batcher.finish().is_none());
}
