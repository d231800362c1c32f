use motion_split::paths::clip_path;
use motion_split::payload::{find_sentinel, motion_clip, motion_payload};

const MARKER: &[u8] = b"MotionPhoto_Data";

#[test]
fn buffer_without_marker_yields_nothing() {
    let buf: Vec<u8> = (0u8..200).collect();
    assert!(find_sentinel(&buf).is_none());
    assert!(motion_payload(&buf).is_none());
    assert!(motion_clip("/photos/a.jpg", &buf).is_none());
}

#[test]
fn short_and_empty_buffers_yield_nothing() {
    assert!(motion_payload(&[]).is_none());
    assert!(motion_payload(b"MotionPhoto_Dat").is_none());
}

#[test]
fn near_miss_marker_is_not_matched() {
    let mut buf = b"\xff\xd8image".to_vec();
    buf.extend_from_slice(b"motionphoto_data");
    buf.extend_from_slice(b"clip");
    assert!(motion_payload(&buf).is_none());
}

#[test]
fn payload_is_exactly_the_trailing_bytes() {
    let mut buf = vec![0xffu8, 0xd8, 1, 2, 3, 4, 5];
    let k = buf.len();
    buf.extend_from_slice(MARKER);
    let clip: Vec<u8> = vec![9, 8, 7, 0, 0x4d, 255];
    buf.extend_from_slice(&clip);
    assert_eq!(find_sentinel(&buf), Some(k));
    assert_eq!(motion_payload(&buf), Some(clip));
}

#[test]
fn marker_at_the_very_end_gives_an_empty_clip() {
    let mut buf = vec![1u8, 2, 3];
    buf.extend_from_slice(MARKER);
    assert_eq!(find_sentinel(&buf), Some(3));
    assert_eq!(motion_payload(&buf), Some(Vec::new()));
}

#[test]
fn marker_at_the_start() {
    let mut buf = MARKER.to_vec();
    buf.extend_from_slice(b"xyz");
    assert_eq!(find_sentinel(&buf), Some(0));
    assert_eq!(motion_payload(&buf), Some(b"xyz".to_vec()));
}

#[test]
fn first_marker_wins() {
    let mut buf = b"ab".to_vec();
    buf.extend_from_slice(MARKER);
    buf.extend_from_slice(b"cd");
    buf.extend_from_slice(MARKER);
    buf.extend_from_slice(b"ef");
    let mut expected = b"cd".to_vec();
    expected.extend_from_slice(MARKER);
    expected.extend_from_slice(b"ef");
    assert_eq!(motion_payload(&buf), Some(expected));
}

#[test]
fn extraction_is_repeatable_and_clip_has_no_marker() {
    let mut buf = b"img".to_vec();
    buf.extend_from_slice(MARKER);
    buf.extend_from_slice(b"video-bytes");
    let first = motion_payload(&buf).unwrap();
    let second = motion_payload(&buf).unwrap();
    assert_eq!(first, second);
    assert!(motion_payload(&first).is_none());
}

#[test]
fn clip_is_named_after_the_stem() {
    let mut buf = b"img".to_vec();
    buf.extend_from_slice(MARKER);
    buf.extend_from_slice(b"v");
    let clip = motion_clip("/photos/2022/IMG_1.jpg", &buf).unwrap();
    assert_eq!(clip.path, "/photos/2022/IMG_1-motion.mp4");
    assert_eq!(clip.bytes, b"v".to_vec());
}

#[test]
fn clip_path_edge_cases() {
    assert_eq!(clip_path("a.b.jpg"), "a.b-motion.mp4");
    assert_eq!(clip_path("dir/noext"), "dir/noext-motion.mp4");
    assert_eq!(clip_path("dir/.hidden"), "dir/.hidden-motion.mp4");
}

#[test]
fn clip_path_with_backslashes() {
    assert_eq!(clip_path(r"C:\photos.d\IMG_1.jpg"), r"C:\photos.d\IMG_1-motion.mp4");
}
