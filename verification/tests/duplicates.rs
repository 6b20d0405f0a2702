use photo_dupe_resolver::database::{group_by_content_hash, group_similar_images, Image};
use photo_dupe_resolver::web_ui::{
    build_all_group_rows, build_duplicate_group_rows, build_similar_group_rows, image_content_type,
    image_row, image_rows, sort_images_by_path,
};

fn image(id: &str, path: &str, hash: Option<&str>, phash: Option<&str>) -> Image {
    Image {
        id: id.to_string(),
        path: path.to_string(),
        size: 1234,
        content_hash: hash.map(|h| h.to_string()),
        perceptual_hash: phash.map(|h| h.to_string()),
        created_at: "2026-04-14T00:00:00Z".to_string(),
    }
}

#[test]
fn test_images_endpoint_returns_hash_status() {
    let images = vec![
        image("1", "/photos/a.jpg", None, None),
        image("2", "/photos/b.jpg", Some("abc123"), Some("def456")),
    ];
    let rows = image_rows(&images);
    assert_eq!(rows.len(), 2);
    assert!(rows.iter().any(|img| img.hash_status == "Pending"));
    assert!(rows.iter().any(|img| img.hash_status == "Hashed"));
}

#[test]
fn image_row_fields() {
    let row = image_row(&image("2", "/p/b.jpg", Some("abc"), None));
    assert!(row.has_hash);
    assert_eq!(row.content_hash, "abc");
    assert_eq!(row.perceptual_hash, "");
    assert_eq!(row.id, "2");
    assert_eq!(row.created_at, "2026-04-14T00:00:00Z");
    let pending = image_row(&image("1", "/p/a.jpg", None, Some("x")));
    assert!(!pending.has_hash);
    assert_eq!(pending.hash_status, "Pending");
    assert_eq!(pending.perceptual_hash, "x");
}

#[test]
fn test_duplicates_endpoint_returns_grouped_images() {
    let rows = vec![
        ("same-hash".to_string(), image("1", "/photos/a.jpg", Some("same-hash"), Some("same-phash"))),
        ("same-hash".to_string(), image("2", "/photos/b.jpg", Some("same-hash"), Some("same-phash"))),
    ];
    let images: Vec<Image> = rows.iter().map(|r| r.1.clone()).collect();
    let groups = group_by_content_hash(&rows);
    let similar = group_similar_images(&images);
    let (response, state) = build_all_group_rows(groups, similar);
    assert_eq!(response.len(), 1);
    assert_eq!(response[0].image_count, 2);
    assert_eq!(response[0].group_type, "Exact Match");
    assert_eq!(state.len(), 1);
    assert_eq!(state[0].perceptual_hash, "same-phash");
}

#[test]
fn grouping_keeps_first_appearance_and_row_order() {
    let rows = vec![
        ("h1".to_string(), image("1", "/a", Some("h1"), None)),
        ("h2".to_string(), image("2", "/b", Some("h2"), None)),
        ("h1".to_string(), image("3", "/c", Some("h1"), None)),
        ("h3".to_string(), image("4", "/d", Some("h3"), None)),
        ("h2".to_string(), image("5", "/e", Some("h2"), None)),
    ];
    let groups = group_by_content_hash(&rows);
    let keys: Vec<&str> = groups.iter().map(|g| g.0.as_str()).collect();
    assert_eq!(keys, vec!["h1", "h2", "h3"]);
    let ids: Vec<Vec<&str>> = groups.iter().map(|g| g.1.iter().map(|i| i.id.as_str()).collect()).collect();
    assert_eq!(ids, vec![vec!["1", "3"], vec!["2", "5"], vec!["4"]]);
    assert!(group_by_content_hash(&Vec::new()).is_empty());
}

#[test]
fn rows_sorted_by_count_then_key_and_images_by_path() {
    let groups = vec![
        ("zz".to_string(), vec![image("1", "/b", Some("zz"), None), image("2", "/a", Some("zz"), Some("p2"))]),
        ("aa".to_string(), vec![image("3", "/x", Some("aa"), None), image("4", "/y", Some("aa"), None)]),
        ("mm".to_string(), vec![
            image("5", "/q", Some("mm"), Some("pq")),
            image("6", "/p", Some("mm"), None),
            image("7", "/r", Some("mm"), Some("pr")),
        ]),
    ];
    let (rows, state) = build_duplicate_group_rows(groups);
    let keys: Vec<&str> = rows.iter().map(|r| r.group_key.as_str()).collect();
    assert_eq!(keys, vec!["mm", "aa", "zz"]);
    let counts: Vec<usize> = rows.iter().map(|r| r.image_count).collect();
    assert_eq!(counts, vec![3, 2, 2]);
    let paths: Vec<&str> = rows[0].images.iter().map(|i| i.path.as_str()).collect();
    assert_eq!(paths, vec!["/p", "/q", "/r"]);
    assert_eq!(rows[0].images[0].preview_url, "/api/image/6");
    assert_eq!(rows[0].images[0].perceptual_hash, "");
    // The state groups keep the input order; perceptual hash of the first
    // sorted image that has one.
    let state_keys: Vec<&str> = state.iter().map(|g| g.hash.as_str()).collect();
    assert_eq!(state_keys, vec!["zz", "aa", "mm"]);
    assert_eq!(state[0].perceptual_hash, "p2");
    assert_eq!(state[1].perceptual_hash, "");
    assert_eq!(state[2].perceptual_hash, "pq");
    assert_eq!(state[0].images[0].path, "/a");
}

#[test]
fn sort_by_path_is_stable_and_bytewise() {
    let images = vec![
        image("1", "/b", None, None),
        image("2", "/a", None, None),
        image("3", "/b", None, None),
        image("4", "/B", None, None),
        image("5", "/é", None, None),
        image("6", "/z", None, None),
    ];
    let sorted = sort_images_by_path(&images);
    let ids: Vec<&str> = sorted.iter().map(|i| i.id.as_str()).collect();
    assert_eq!(ids, vec!["4", "2", "1", "3", "6", "5"]);
}

#[test]
fn content_types_by_extension() {
    assert_eq!(image_content_type("/a/b.JPG"), "image/jpeg");
    assert_eq!(image_content_type("x.jpeg"), "image/jpeg");
    assert_eq!(image_content_type("x.png"), "image/png");
    assert_eq!(image_content_type("x.Gif"), "image/gif");
    assert_eq!(image_content_type("x.webp"), "image/webp");
    assert_eq!(image_content_type("x.bmp"), "image/bmp");
    assert_eq!(image_content_type("x.tif"), "image/tiff");
    assert_eq!(image_content_type("x.TIFF"), "image/tiff");
    assert_eq!(image_content_type("x.txt"), "application/octet-stream");
    assert_eq!(image_content_type("png"), "image/png");
    assert_eq!(image_content_type("archive.png.gz"), "application/octet-stream");
    assert_eq!(image_content_type("noext."), "application/octet-stream");
}

#[test]
fn similar_images_of_different_content_are_grouped() {
    let images = vec![
        image("1", "/p/x.jpg", Some("h1"), Some("p1")),
        image("2", "/p/y.jpg", Some("h2"), Some("p1")),
        image("3", "/p/z.jpg", Some("h3"), Some("p2")),
        image("4", "/p/w.jpg", Some("h3"), Some("p2")),
        image("5", "/p/v.jpg", None, Some("p1")),
        image("6", "/p/u.jpg", Some("h4"), Some("")),
        image("7", "/p/t.jpg", Some("h5"), Some("")),
        image("8", "/p/s.jpg", Some("h6"), Some("p1")),
    ];
    let groups = group_similar_images(&images);
    assert_eq!(groups.len(), 1);
    assert_eq!(groups[0].0, "p1");
    let ids: Vec<&str> = groups[0].1.iter().map(|i| i.id.as_str()).collect();
    assert_eq!(ids, vec!["1", "2", "8"]);
}

#[test]
fn no_similar_group_without_perceptual_matches() {
    let images = vec![
        image("1", "/p/x.jpg", Some("h1"), Some("p1")),
        image("2", "/p/y.jpg", Some("h2"), Some("p2")),
    ];
    assert!(group_similar_images(&images).is_empty());
    assert!(group_similar_images(&Vec::new()).is_empty());
}

#[test]
fn listing_puts_exact_groups_before_similar_ones() {
    let images = vec![
        image("1", "/p/b.jpg", Some("h1"), Some("p1")),
        image("2", "/p/a.jpg", Some("h1"), Some("p1")),
        image("3", "/p/c.jpg", Some("h2"), Some("p1")),
    ];
    let rows: Vec<(String, Image)> = images[..2]
        .iter()
        .map(|i| (i.content_hash.clone().unwrap(), i.clone()))
        .collect();
    let exact = group_by_content_hash(&rows);
    let similar = group_similar_images(&images);
    let (listed, state) = build_all_group_rows(exact, similar);
    assert_eq!(listed.len(), 2);
    assert_eq!(listed[0].group_type, "Exact Match");
    assert_eq!(listed[0].group_key, "h1");
    assert_eq!(listed[0].image_count, 2);
    assert_eq!(listed[1].group_type, "Perceptual Match");
    assert_eq!(listed[1].group_key, "p1");
    assert_eq!(listed[1].image_count, 3);
    let paths: Vec<&str> = listed[1].images.iter().map(|i| i.path.as_str()).collect();
    assert_eq!(paths, vec!["/p/a.jpg", "/p/b.jpg", "/p/c.jpg"]);
    assert_eq!(state.len(), 2);
    assert_eq!(state[1].hash, "p1");
    assert_eq!(state[1].perceptual_hash, "p1");
}

#[test]
fn similar_rows_are_of_the_perceptual_kind() {
    let groups = vec![(
        "p9".to_string(),
        vec![image("1", "/p/a.jpg", Some("h1"), Some("p9")), image("2", "/p/b.jpg", Some("h2"), Some("p9"))],
    )];
    let (rows, _) = build_similar_group_rows(groups);
    assert_eq!(rows.len(), 1);
    assert_eq!(rows[0].group_type, "Perceptual Match");
    assert_eq!(rows[0].images[0].preview_url, "/api/image/1");
}
