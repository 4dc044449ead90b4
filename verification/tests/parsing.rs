use video_prefetch::discovery::{
    is_valid_http_url, parse_event_as_video, parse_user_metadata, parse_video_variants,
    AuthorCache, EventData,
};
use video_prefetch::ids::new_mp4_file_name;
use video_prefetch::models::UserData;
use video_prefetch::mp4meta::{parse_mp4_metadata, ParseOutcome};
use video_prefetch::models::{NostrVideo, VideoDownload};
use video_prefetch::playlist::{find_index_by_id, Playlist};

fn event(pubkey: Option<&str>, content: &str, tags: Vec<Vec<&str>>) -> EventData {
    EventData {
        pubkey_bech32: pubkey.map(|s| s.to_string()),
        content: content.to_string(),
        tags: tags
            .into_iter()
            .map(|t| t.into_iter().map(|s| s.to_string()).collect())
            .collect(),
    }
}

#[test]
fn url_validation_accepts_http_and_https_with_host() {
    assert!(is_valid_http_url("http://example.com/v.mp4"));
    assert!(is_valid_http_url("https://cdn.example.com:8080/a/b?c=d"));
    assert!(!is_valid_http_url("ftp://example.com/v.mp4"));
    assert!(!is_valid_http_url("not a url"));
    assert!(!is_valid_http_url("http://"));
    assert!(!is_valid_http_url(""));
}

#[test]
fn imeta_tags_become_variants() {
    let ev = event(
        Some("npub1author"),
        "",
        vec![
            vec![
                "imeta",
                "dim 1920x1080",
                "url http://example.com/v.mp4",
                "x deadbeef",
                "m video/mp4",
                "image http://example.com/t1.jpg",
                "image http://example.com/t2.jpg",
                "fallback http://mirror.example.com/v.mp4",
                "service nip96",
            ],
            vec!["t", "video"],
            vec!["imeta", "title A Clip With  Spaces", "url http://example.com/w.mp4"],
        ],
    );
    let variants = parse_video_variants(&ev);
    assert_eq!(variants.len(), 2);
    let first = &variants[0];
    assert_eq!(first.resolution, Some("1920x1080".to_string()));
    assert_eq!(first.url, Some("http://example.com/v.mp4".to_string()));
    assert_eq!(first.hash, Some("deadbeef".to_string()));
    assert_eq!(first.mime_type, Some("video/mp4".to_string()));
    assert_eq!(first.service, Some("nip96".to_string()));
    assert_eq!(
        first.images,
        vec!["http://example.com/t1.jpg".to_string(), "http://example.com/t2.jpg".to_string()]
    );
    assert_eq!(first.fallbacks, vec!["http://mirror.example.com/v.mp4".to_string()]);
    assert_eq!(first.title, None);
    let second = &variants[1];
    // Runs of whitespace inside a value collapse to single spaces.
    assert_eq!(second.title, Some("A Clip With Spaces".to_string()));
    assert_eq!(second.hash, None);
}

#[test]
fn events_become_descriptors_only_with_hash_and_valid_url() {
    let ev = event(
        Some("npub1author"),
        "",
        vec![
            vec!["imeta", "x good1", "url http://example.com/a.mp4", "title First"],
            // No hash: dropped.
            vec!["imeta", "url http://example.com/b.mp4"],
            // Bad scheme: dropped.
            vec!["imeta", "x bad1", "url ftp://example.com/c.mp4"],
            // Not a URL at all: dropped.
            vec!["imeta", "x bad2", "url nonsense"],
            // Empty content hash: dropped.
            vec!["imeta", "x", "url http://example.com/e.mp4"],
            vec!["imeta", "x good2", "url https://example.com/d.mp4"],
        ],
    );
    let videos = parse_event_as_video(&ev);
    assert_eq!(videos.len(), 2);
    assert_eq!(videos[0].id, "good1");
    assert_eq!(videos[0].url, "http://example.com/a.mp4");
    assert_eq!(videos[0].title, "First");
    assert_eq!(videos[0].song_name, "Unknown");
    assert_eq!(videos[0].user.npub, Some("npub1author".to_string()));
    assert_eq!(videos[0].user.name, None);
    assert_eq!(videos[1].id, "good2");
    assert_eq!(videos[1].title, "");
}

#[test]
fn profile_events_yield_author_metadata() {
    let events = vec![
        event(
            Some("npub1alice"),
            "{\"name\":\"alice\",\"picture\":\"http://example.com/alice.png\"}",
            vec![],
        ),
        // Not JSON: skipped.
        event(Some("npub1bob"), "not json", vec![]),
        // No author key: skipped.
        event(None, "{\"name\":\"ghost\"}", vec![]),
        // JSON without the fields: kept, with both fields absent.
        event(Some("npub1carol"), "{\"about\":\"hi\"}", vec![]),
    ];
    let profiles = parse_user_metadata(&events);
    assert_eq!(profiles.len(), 2);
    assert_eq!(profiles[0].0, "npub1alice");
    assert_eq!(profiles[0].1.name, Some("alice".to_string()));
    assert_eq!(profiles[0].1.profile_picture, Some("http://example.com/alice.png".to_string()));
    assert_eq!(profiles[1].0, "npub1carol");
    assert_eq!(profiles[1].1.name, None);
    assert_eq!(profiles[1].1.profile_picture, None);
}

#[test]
fn author_cache_returns_latest_entry() {
    let mut cache = AuthorCache::new();
    let key = "npub1alice".to_string();
    assert!(cache.lookup(&key).is_none());
    cache.store(
        key.clone(),
        UserData { npub: None, name: Some("alice".to_string()), profile_picture: None },
    );
    let hit = cache.lookup(&key).unwrap();
    assert_eq!(hit.name, Some("alice".to_string()));
    // A later entry for the same author supersedes the first.
    cache.store(
        key.clone(),
        UserData { npub: None, name: Some("alice2".to_string()), profile_picture: None },
    );
    assert_eq!(cache.lookup(&key).unwrap().name, Some("alice2".to_string()));
    assert!(cache.lookup(&"npub1bob".to_string()).is_none());
}

#[test]
fn garbage_bytes_do_not_parse_as_mp4() {
    let outcome = parse_mp4_metadata(b"certainly not an mp4 file at all");
    assert!(matches!(outcome, ParseOutcome::Failed));
    let empty = parse_mp4_metadata(b"");
    assert!(matches!(empty, ParseOutcome::Failed));
}

#[test]
fn fresh_output_files_are_mp4_named() {
    let a = new_mp4_file_name();
    let b = new_mp4_file_name();
    assert!(a.ends_with(".mp4"));
    assert!(a.len() > 4);
    // Names are drawn from a random identifier, so two draws differ.
    assert_ne!(a, b);
}

fn plain_video(id: &str) -> VideoDownload {
    VideoDownload::from_nostr_video(NostrVideo {
        id: id.to_string(),
        user: UserData { npub: None, name: None, profile_picture: None },
        title: String::new(),
        song_name: "Unknown".to_string(),
        likes: String::new(),
        comments: String::new(),
        url: format!("http://example.com/{id}"),
    })
}

#[test]
fn playlist_appends_are_idempotent() {
    let mut p = Playlist::new();
    p.add(plain_video("a"));
    p.add(plain_video("b"));
    p.add(plain_video("a"));
    let items = p.as_vec();
    assert_eq!(items.len(), 2);
    assert_eq!(items[0].id, "a");
    assert_eq!(items[1].id, "b");
    // The id index agrees with the positions.
    assert_eq!(find_index_by_id(&items, &"a".to_string()), Some(0));
    assert_eq!(find_index_by_id(&items, &"b".to_string()), Some(1));
    assert_eq!(find_index_by_id(&items, &"c".to_string()), None);
}

#[test]
fn playlist_cursor_walks_items_in_order() {
    let mut p = Playlist::new();
    p.add(plain_video("a"));
    p.add(plain_video("b"));
    assert!(p.current().is_none());
    assert!(p.prev().is_none());
    p.current_position = Some(0);
    assert_eq!(p.current().unwrap().id, "a");
    assert_eq!(p.next().unwrap().id, "b");
    assert!(p.next().is_none());
    assert_eq!(p.prev().unwrap().id, "a");
    assert!(p.prev().is_none());
}

/// A container box with the given four-character name and payload.
fn mp4_box(name: &[u8; 4], payload: &[u8]) -> Vec<u8> {
    let mut out = Vec::new();
    out.extend_from_slice(&((payload.len() as u32 + 8).to_be_bytes()));
    out.extend_from_slice(name);
    out.extend_from_slice(payload);
    out
}

/// A minimal movie: one video track with a header (640x360), a media
/// timescale of 1000 units per second and a duration of 90000 units.
fn minimal_mp4() -> Vec<u8> {
    let mut tkhd: Vec<u8> = Vec::new();
    tkhd.extend_from_slice(&[0, 0, 0, 3]); // version 0, track enabled
    tkhd.extend_from_slice(&[0; 8]); // creation and modification times
    tkhd.extend_from_slice(&1u32.to_be_bytes()); // track id
    tkhd.extend_from_slice(&[0; 4]); // reserved
    tkhd.extend_from_slice(&90u32.to_be_bytes()); // duration in movie units
    tkhd.extend_from_slice(&[0; 16]); // reserved, layer, group, volume
    let matrix: [u32; 9] = [0x0001_0000, 0, 0, 0, 0x0001_0000, 0, 0, 0, 0x4000_0000];
    for m in matrix {
        tkhd.extend_from_slice(&m.to_be_bytes());
    }
    tkhd.extend_from_slice(&(640u32 << 16).to_be_bytes()); // width, 16.16
    tkhd.extend_from_slice(&(360u32 << 16).to_be_bytes()); // height, 16.16

    let mut mdhd: Vec<u8> = Vec::new();
    mdhd.extend_from_slice(&[0, 0, 0, 0]); // version 0
    mdhd.extend_from_slice(&[0; 8]); // creation and modification times
    mdhd.extend_from_slice(&1000u32.to_be_bytes()); // timescale
    mdhd.extend_from_slice(&90000u32.to_be_bytes()); // duration in timescale units
    mdhd.extend_from_slice(&[0; 4]); // language and pre-defined

    let mut hdlr: Vec<u8> = Vec::new();
    hdlr.extend_from_slice(&[0, 0, 0, 0]); // version 0
    hdlr.extend_from_slice(&[0; 4]); // pre-defined
    hdlr.extend_from_slice(b"vide"); // handler type: video
    hdlr.extend_from_slice(&[0; 12]); // reserved
    hdlr.push(0); // empty nul-terminated name

    let mut mdia: Vec<u8> = Vec::new();
    mdia.extend_from_slice(&mp4_box(b"mdhd", &mdhd));
    mdia.extend_from_slice(&mp4_box(b"hdlr", &hdlr));

    let mut trak: Vec<u8> = Vec::new();
    trak.extend_from_slice(&mp4_box(b"tkhd", &tkhd));
    trak.extend_from_slice(&mp4_box(b"mdia", &mdia));

    let moov = mp4_box(b"moov", &mp4_box(b"trak", &trak));
    moov
}

#[test]
fn a_minimal_movie_parses_to_its_metadata() {
    let bytes = minimal_mp4();
    match parse_mp4_metadata(&bytes) {
        ParseOutcome::Parsed(meta) => {
            // 90000 timescale units at 1000 units per second.
            assert_eq!(meta.duration_seconds, 90);
            assert_eq!(meta.width, 640);
            assert_eq!(meta.height, 360);
            // A video track with no sample description box.
            assert_eq!(meta.codec, "unknown");
        },
        other => panic!("expected parsed metadata, got {other:?}"),
    }
}

#[test]
fn a_truncated_movie_is_retried_later() {
    let bytes = minimal_mp4();
    let cut = &bytes[..bytes.len() / 2];
    assert!(matches!(parse_mp4_metadata(cut), ParseOutcome::Failed | ParseOutcome::NoMetadata));
}

#[test]
fn unicode_whitespace_separates_tokens() {
    // A no-break space separates key and value just as an ASCII space does.
    let ev = event(
        Some("npub1author"),
        "",
        vec![vec!["imeta", "x\u{a0}abc123", "url http://example.com/u.mp4"]],
    );
    let videos = parse_event_as_video(&ev);
    assert_eq!(videos.len(), 1);
    assert_eq!(videos[0].id, "abc123");
    let variants = parse_video_variants(&ev);
    assert_eq!(variants[0].hash, Some("abc123".to_string()));
}
