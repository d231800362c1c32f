use motion_split::grouping::{content_key, index_key, Grouping};
use motion_split::photo::{select_representative, Photo};

#[test]
fn digest_key_of_known_input() {
    let key = content_key(true, 5, b"hello, world");
    let expected: Vec<u8> = vec![
        0x09, 0xca, 0x7e, 0x4e, 0xaa, 0x6e, 0x8a, 0xe9, 0xc7, 0xd2, 0x61, 0x16, 0x71, 0x29, 0x18, 0x48,
        0x83, 0x64, 0x4d, 0x07, 0xdf, 0xba, 0x7c, 0xbf, 0xbc, 0x4c, 0x8a, 0x2e, 0x08, 0x36, 0x0d, 0x5b,
    ];
    assert_eq!(key, expected);
}

#[test]
fn digest_key_ignores_index_and_tracks_contents() {
    assert_eq!(content_key(true, 0, b"abc"), content_key(true, 7, b"abc"));
    assert_ne!(content_key(true, 0, b"abc"), content_key(true, 0, b"abd"));
    assert_eq!(content_key(true, 0, b"").len(), 32);
}

#[test]
fn index_key_is_big_endian() {
    assert_eq!(index_key(0x0102030405060708), vec![1, 2, 3, 4, 5, 6, 7, 8]);
    assert_eq!(content_key(false, 258, b"abc"), vec![0, 0, 0, 0, 0, 0, 1, 2]);
}

fn add_copies(dedup: bool, n: u64, data: &[u8]) -> Grouping {
    let mut g = Grouping::new(dedup);
    for i in 0..n {
        g.add_file(i, format!("/root/{}.jpg", i), data);
    }
    g
}

#[test]
fn identical_files_merge_when_deduplicating() {
    let g = add_copies(true, 3, b"same bytes");
    assert!(g.deduplicate());
    assert_eq!(g.len(), 1);
    let groups = g.into_groups();
    assert_eq!(groups[0].photos.len(), 3);
    let paths: Vec<&str> = groups[0].photos.iter().map(|p| p.path.as_str()).collect();
    assert_eq!(paths, vec!["/root/0.jpg", "/root/1.jpg", "/root/2.jpg"]);
    assert_eq!(select_representative(&groups[0].photos), 0);
}

#[test]
fn identical_files_stay_apart_without_deduplication() {
    let g = add_copies(false, 4, b"same bytes");
    assert_eq!(g.len(), 4);
    let groups = g.into_groups();
    for (i, group) in groups.iter().enumerate() {
        assert_eq!(group.photos.len(), 1);
        assert_eq!(group.key, index_key(i as u64));
    }
}

#[test]
fn groups_keep_first_occurrence_order() {
    let mut g = Grouping::new(true);
    g.add_file(0, "/r/a.jpg".to_string(), b"one");
    g.add_file(1, "/r/b.jpg".to_string(), b"two");
    g.add_file(2, "/r/c.jpg".to_string(), b"one");
    g.add_file(3, "/r/d.jpg".to_string(), b"three");
    let groups = g.into_groups();
    let sizes: Vec<usize> = groups.iter().map(|x| x.photos.len()).collect();
    assert_eq!(sizes, vec![2, 1, 1]);
    assert_eq!(groups[0].photos[1].path, "/r/c.jpg");
    assert_eq!(groups[2].photos[0].path, "/r/d.jpg");
}

#[test]
fn insert_under_explicit_keys() {
    let mut g = Grouping::new(false);
    let p = |s: &str| Photo { path: s.to_string(), exif_date: None, accurate: true };
    g.insert(vec![1], p("a"));
    g.insert(vec![2], p("b"));
    g.insert(vec![1], p("c"));
    assert_eq!(g.len(), 2);
    let groups = g.into_groups();
    assert_eq!(groups[0].key, vec![1]);
    assert_eq!(groups[0].photos.len(), 2);
}
