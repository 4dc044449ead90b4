use video_prefetch::models::{NostrVideo, UserData, VideoDownload};
use video_prefetch::ranges::{
    parse_range_header, parse_u64_decimal, plan_range_request, slice_range, RangePlan,
};
use video_prefetch::ranking::sort_videos_for_download;

fn video(id: &str, content_length: Option<u64>, score: u64) -> VideoDownload {
    let nostr = NostrVideo {
        id: id.to_string(),
        user: UserData { npub: None, name: None, profile_picture: None },
        title: format!("title {id}"),
        song_name: "Unknown".to_string(),
        likes: String::new(),
        comments: String::new(),
        url: format!("http://example.com/{id}.mp4"),
    };
    let mut v = VideoDownload::from_nostr_video(nostr);
    v.content_length = content_length;
    v.score = score;
    v
}

fn ids(vs: &[VideoDownload]) -> Vec<String> {
    vs.iter().map(|v| v.id.clone()).collect()
}

#[test]
fn two_tiny_three_huge_near_count_two() {
    // Candidates in arrival order: A(100B, score 1), B(10GB, 9), C(200B, 2),
    // D(10GB, 8), E(150B, 3); near window of two videos, no minutes target.
    let ten_gb: u64 = 10 * 1024 * 1024 * 1024;
    let mut vs = vec![
        video("A", Some(100), 1),
        video("B", Some(ten_gb), 9),
        video("C", Some(200), 2),
        video("D", Some(ten_gb), 8),
        video("E", Some(150), 3),
    ];
    sort_videos_for_download(&mut vs, 2, 0);
    // Near is [A, B] sorted by size ascending -> [A, B]; far is [C, D, E]
    // sorted by score descending -> [D, E, C].
    assert_eq!(ids(&vs), vec!["A", "B", "D", "E", "C"]);
}

#[test]
fn ranking_is_a_permutation() {
    let mut vs = vec![
        video("A", Some(5), 0),
        video("B", None, 7),
        video("C", Some(5), 3),
        video("D", Some(1), 3),
    ];
    sort_videos_for_download(&mut vs, 1, 0);
    let mut got = ids(&vs);
    got.sort();
    assert_eq!(got, vec!["A", "B", "C", "D"]);
}

#[test]
fn ranking_twice_on_same_input_agrees() {
    let make = || {
        vec![
            video("A", Some(100), 1),
            video("B", Some(50), 9),
            video("C", None, 2),
            video("D", Some(50), 8),
        ]
    };
    let mut first = make();
    let mut second = make();
    sort_videos_for_download(&mut first, 2, 1);
    sort_videos_for_download(&mut second, 2, 1);
    assert_eq!(ids(&first), ids(&second));
}

#[test]
fn unknown_length_sinks_in_near_phase() {
    let mut vs = vec![video("A", None, 9), video("B", Some(10), 0)];
    sort_videos_for_download(&mut vs, 2, 0);
    assert_eq!(ids(&vs), vec!["B", "A"]);
}

#[test]
fn minutes_target_extends_near_window() {
    // Count target met after one video, but the minutes target (1 minute)
    // is only met once the second video's 90 seconds are in: near = [A, B]
    // sorted by size, far = [C].
    let mut a = video("A", Some(500), 0);
    a.length_seconds = Some(30);
    let mut b = video("B", Some(100), 0);
    b.length_seconds = Some(90);
    let mut c = video("C", Some(1), 9);
    c.length_seconds = Some(5);
    let mut vs = vec![a, b, c];
    sort_videos_for_download(&mut vs, 1, 1);
    assert_eq!(ids(&vs), vec!["B", "A", "C"]);
}

#[test]
fn range_request_within_file() {
    let plan = plan_range_request(Some(b"bytes=500-1499"), 2048);
    assert_eq!(plan, RangePlan::Partial { start: 500, end: 1499 });
    let data: Vec<u8> = (0..2048u32).map(|i| (i % 251) as u8).collect();
    let body = slice_range(&data, 500, 1499);
    assert_eq!(body.len(), 1000);
    assert_eq!(&body[..], &data[500..=1499]);
}

#[test]
fn range_past_end_is_not_satisfiable() {
    let plan = plan_range_request(Some(b"bytes=5000-6000"), 2048);
    assert_eq!(plan, RangePlan::NotSatisfiable);
}

#[test]
fn open_range_runs_to_end_of_file() {
    assert_eq!(parse_range_header(b"bytes=100-", 2048), Some((100, 2047)));
    let plan = plan_range_request(Some(b"bytes=100-"), 2048);
    assert_eq!(plan, RangePlan::Partial { start: 100, end: 2047 });
}

#[test]
fn range_end_is_clamped_to_file_size() {
    let plan = plan_range_request(Some(b"bytes=0-999999"), 2048);
    assert_eq!(plan, RangePlan::Partial { start: 0, end: 2047 });
}

#[test]
fn no_header_streams_the_whole_file() {
    assert_eq!(plan_range_request(None, 2048), RangePlan::Full);
}

#[test]
fn malformed_ranges_are_bad_requests() {
    assert_eq!(plan_range_request(Some(b"items=0-1"), 2048), RangePlan::BadRequest);
    assert_eq!(plan_range_request(Some(b"bytes=0-1-2"), 2048), RangePlan::BadRequest);
    assert_eq!(plan_range_request(Some(b"bytes=-5"), 2048), RangePlan::BadRequest);
    assert_eq!(plan_range_request(Some(b"bytes=a-b"), 2048), RangePlan::BadRequest);
    assert_eq!(plan_range_request(Some(b"bytes="), 2048), RangePlan::BadRequest);
    assert_eq!(plan_range_request(Some(b"bytes=9-5"), 2048), RangePlan::BadRequest);
}

#[test]
fn parse_u64_decimal_exact_values() {
    assert_eq!(parse_u64_decimal(b"123"), Some(123));
    assert_eq!(parse_u64_decimal(b"0"), Some(0));
    assert_eq!(parse_u64_decimal(b"18446744073709551615"), Some(u64::MAX));
    assert_eq!(parse_u64_decimal(b"18446744073709551616"), None);
    assert_eq!(parse_u64_decimal(b""), None);
    assert_eq!(parse_u64_decimal(b"12a"), None);
    assert_eq!(parse_u64_decimal(b"+5"), None);
}

#[test]
fn range_partition_round_trips() {
    // Serving a gapless partition of the file and concatenating the bodies
    // reproduces the file.
    let data: Vec<u8> = (0..300u32).map(|i| (i * 7 % 256) as u8).collect();
    let cuts: [(u64, u64); 3] = [(0, 99), (100, 211), (212, 299)];
    let mut joined: Vec<u8> = Vec::new();
    for (a, b) in cuts {
        joined.extend_from_slice(&slice_range(&data, a, b));
    }
    assert_eq!(joined, data);
}
