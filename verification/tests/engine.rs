use video_prefetch::handlers::get_status;
use video_prefetch::manager::{apply_head_result, ChunkOutcome, DownloadManager};
use video_prefetch::models::{NostrVideo, UserData, VideoDownload, VideoMetadata};
use video_prefetch::state::AppState;

fn video(id: &str, content_length: Option<u64>) -> VideoDownload {
    let nostr = NostrVideo {
        id: id.to_string(),
        user: UserData { npub: None, name: None, profile_picture: None },
        title: format!("title {id}"),
        song_name: "Unknown".to_string(),
        likes: String::new(),
        comments: String::new(),
        url: format!("http://example.com/{id}.mp4"),
    };
    let mut v = VideoDownload::from_nostr_video(nostr);
    v.content_length = content_length;
    v
}

fn manager(max_parallel: usize, max_behind: u64, max_storage: u64) -> DownloadManager {
    DownloadManager::new(AppState::new(max_parallel, 2, max_behind, max_storage))
}

/// Runs one item through discovery, admission, download and completion.
fn complete_download(
    dm: &mut DownloadManager,
    id: &str,
    content_length: u64,
    length_seconds: u64,
) {
    dm.ingest_videos(vec![video(id, Some(content_length))]);
    dm.update_download_queue();
    let started = dm.admit_downloads();
    assert!(started.iter().any(|v| v.id == id));
    let key = id.to_string();
    dm.on_download_response(&key, Some(content_length), format!("/tmp/{id}.mp4"));
    assert_eq!(dm.record_chunk(&key, content_length, 0), ChunkOutcome::Accepted);
    let meta = VideoMetadata {
        duration_seconds: length_seconds,
        codec: "test".to_string(),
        width: 640,
        height: 480,
    };
    dm.apply_parse_result(&key, meta);
    dm.finish_download(&key);
}

#[test]
fn storage_ceiling_aborts_and_refunds() {
    // Ceiling of 1000 bytes; the announced length is 1500. The first 800
    // bytes fit; the next 700 would cross the ceiling, so the chunk is
    // refused, and failing the download refunds everything.
    let mut dm = manager(2, 60, 1000);
    dm.ingest_videos(vec![video("a", Some(1500))]);
    dm.update_download_queue();
    let started = dm.admit_downloads();
    assert_eq!(started.len(), 1);
    let id = "a".to_string();
    assert!(dm.on_download_response(&id, Some(1500), "/tmp/a.mp4".to_string()));
    assert_eq!(dm.record_chunk(&id, 800, 0), ChunkOutcome::Accepted);
    assert_eq!(dm.state.current_storage_bytes, 800);
    assert_eq!(dm.record_chunk(&id, 700, 100), ChunkOutcome::StorageExceeded);
    assert_eq!(dm.state.current_storage_bytes, 800);
    let stale = dm.fail_download(&id);
    assert_eq!(stale, Some("/tmp/a.mp4".to_string()));
    assert_eq!(dm.state.current_storage_bytes, 0);
    let item = &dm.state.discovered_videos[0];
    assert!(!item.downloading);
    assert!(item.local_path.is_none());
    assert!(dm.download_queue.is_empty());
}

#[test]
fn admission_respects_concurrency_limit() {
    let mut dm = manager(2, 60, 1_000_000);
    dm.ingest_videos(vec![video("a", Some(10)), video("b", Some(20)), video("c", Some(30))]);
    dm.update_download_queue();
    let started = dm.admit_downloads();
    assert_eq!(started.len(), 2);
    let active = dm.state.discovered_videos.iter().filter(|v| v.downloading).count();
    assert_eq!(active, 2);
    // At the limit, a second pass admits nothing.
    let more = dm.admit_downloads();
    assert!(more.is_empty());
    // Finishing one frees a slot for the third.
    let first = started[0].id.clone();
    dm.finish_download(&first);
    let third = dm.admit_downloads();
    assert_eq!(third.len(), 1);
    assert_eq!(third[0].id, "c");
}

#[test]
fn ingestion_is_idempotent_and_insert_only() {
    let mut dm = manager(2, 60, 1000);
    dm.ingest_videos(vec![video("a", Some(10)), video("b", None)]);
    assert_eq!(dm.state.discovered_videos.len(), 2);
    // A second record under an existing id is dropped: the first write wins.
    dm.ingest_videos(vec![video("a", Some(999)), video("c", Some(5))]);
    assert_eq!(dm.state.discovered_videos.len(), 3);
    let a = dm.state.discovered_videos.iter().find(|v| v.id == "a").unwrap();
    assert_eq!(a.content_length, Some(10));
    // Ids only ever accumulate.
    for id in ["a", "b", "c"] {
        assert!(dm.state.discovered_videos.iter().any(|v| v.id == id));
    }
}

#[test]
fn head_failure_then_get_recovery() {
    // A failed HEAD leaves the length unknown; the item still enters the
    // queue, and the GET response fills the length in.
    let enriched = apply_head_result(video("a", None), false, None);
    assert_eq!(enriched.content_length, None);
    let mut dm = manager(1, 60, 10_000);
    dm.ingest_videos(vec![enriched]);
    dm.update_download_queue();
    assert_eq!(dm.download_queue.len(), 1);
    let started = dm.admit_downloads();
    assert_eq!(started.len(), 1);
    let id = "a".to_string();
    dm.on_download_response(&id, Some(2000), "/tmp/a.mp4".to_string());
    assert_eq!(dm.record_chunk(&id, 2000, 0), ChunkOutcome::Accepted);
    dm.finish_download(&id);
    let a = &dm.state.discovered_videos[0];
    assert_eq!(a.content_length, Some(2000));
    assert_eq!(a.downloaded_bytes, 2000);
    assert!(!a.downloading);
}

#[test]
fn successful_head_fills_only_unknown_lengths() {
    let known = apply_head_result(video("a", Some(7)), true, Some(100));
    assert_eq!(known.content_length, Some(7));
    let filled = apply_head_result(video("b", None), true, Some(100));
    assert_eq!(filled.content_length, Some(100));
}

#[test]
fn behind_limit_evicts_watched_content() {
    // Playlist [v0 (30 s), v1 (90 s), v2 (10 s)], cursor on v2, retention
    // window 60 s: v0 and v1 have fallen behind by more than a minute of
    // cumulative duration, so both files go; v2's stays.
    let mut dm = manager(3, 60, 1_000_000);
    complete_download(&mut dm, "v0", 100, 30);
    complete_download(&mut dm, "v1", 200, 90);
    complete_download(&mut dm, "v2", 400, 10);
    assert_eq!(dm.state.playlist.items.len(), 3);
    assert_eq!(dm.state.current_storage_bytes, 700);
    dm.state.set_index(2);
    let stale = dm.enforce_behind_limit();
    assert_eq!(stale, vec!["/tmp/v0.mp4".to_string(), "/tmp/v1.mp4".to_string()]);
    let v0 = dm.state.discovered_videos.iter().find(|v| v.id == "v0").unwrap();
    let v1 = dm.state.discovered_videos.iter().find(|v| v.id == "v1").unwrap();
    let v2 = dm.state.discovered_videos.iter().find(|v| v.id == "v2").unwrap();
    assert!(v0.local_path.is_none());
    assert!(v1.local_path.is_none());
    assert_eq!(v2.local_path, Some("/tmp/v2.mp4".to_string()));
    // The accountant is refunded for exactly the evicted bytes.
    assert_eq!(dm.state.current_storage_bytes, 400);
}

#[test]
fn behind_limit_keeps_upcoming_content() {
    // Cursor still at the front: nothing is behind, nothing is evicted,
    // even though one video is longer than the window.
    let mut dm = manager(3, 60, 1_000_000);
    complete_download(&mut dm, "v0", 100, 30);
    complete_download(&mut dm, "v1", 200, 90);
    dm.state.set_index(0);
    let stale = dm.enforce_behind_limit();
    assert!(stale.is_empty());
    assert_eq!(dm.state.current_storage_bytes, 300);
}

#[test]
fn stop_download_drops_queue_entry_and_file() {
    let mut dm = manager(1, 60, 10_000);
    dm.ingest_videos(vec![video("a", Some(10)), video("b", Some(20))]);
    dm.update_download_queue();
    let started = dm.admit_downloads();
    assert_eq!(started.len(), 1);
    let id = started[0].id.clone();
    dm.on_download_response(&id, Some(10), "/tmp/stop.mp4".to_string());
    dm.record_chunk(&id, 10, 0);
    let (stopped, stale) = dm.stop_download(&id);
    assert!(stopped);
    assert_eq!(stale, Some("/tmp/stop.mp4".to_string()));
    assert_eq!(dm.state.current_storage_bytes, 0);
    let entry = dm.state.discovered_videos.iter().find(|v| v.id == id).unwrap();
    assert!(!entry.downloading);
    assert!(entry.local_path.is_none());
    // Stopping an id that is not queued is a no-op.
    let (stopped, stale) = dm.stop_download(&"zzz".to_string());
    assert!(!stopped);
    assert!(stale.is_none());
}

#[test]
fn download_speed_sampled_at_most_once_per_second() {
    let mut dm = manager(1, 60, 1_000_000);
    dm.ingest_videos(vec![video("a", Some(100_000))]);
    dm.update_download_queue();
    dm.admit_downloads();
    let id = "a".to_string();
    dm.on_download_response(&id, Some(100_000), "/tmp/a.mp4".to_string());
    // First chunk opens the sampling window at speed zero.
    dm.record_chunk(&id, 1000, 10_000);
    let a = dm.state.discovered_videos[0].clone();
    assert_eq!(a.download_speed_bps, 0);
    assert_eq!(a.last_speed_sample_time_ms, Some(10_000));
    // Less than a second later: progress advances, the sample does not.
    dm.record_chunk(&id, 500, 10_900);
    let a = dm.state.discovered_videos[0].clone();
    assert_eq!(a.downloaded_bytes, 1500);
    assert_eq!(a.download_speed_bps, 0);
    assert_eq!(a.last_speed_sample_time_ms, Some(10_000));
    // Two seconds after the sample: 2500 bytes over 2 s = 1250 B/s.
    dm.record_chunk(&id, 2000, 12_000);
    let a = dm.state.discovered_videos[0].clone();
    assert_eq!(a.downloaded_bytes, 3500);
    assert_eq!(a.download_speed_bps, 1250);
    assert_eq!(a.last_speed_sample_time_ms, Some(12_000));
    // The status summary aggregates the per-item speeds.
    let status = get_status(&dm.state);
    assert_eq!(status.total_download_speed_bps, 1250);
}

#[test]
fn chunks_for_unknown_items_are_not_tracked() {
    let mut dm = manager(1, 60, 1000);
    assert_eq!(dm.record_chunk(&"nope".to_string(), 10, 0), ChunkOutcome::NotTracked);
    // Known id but no output file yet: nothing is accounted either.
    dm.ingest_videos(vec![video("a", Some(10))]);
    assert_eq!(dm.record_chunk(&"a".to_string(), 10, 0), ChunkOutcome::NotTracked);
    assert_eq!(dm.state.current_storage_bytes, 0);
}

#[test]
fn status_reports_storage_and_minutes() {
    let mut dm = manager(3, 60, 1_000_000);
    complete_download(&mut dm, "a", 1000, 120);
    complete_download(&mut dm, "b", 500, 61);
    let status = get_status(&dm.state);
    assert_eq!(status.used_storage_bytes, 1500);
    assert_eq!(status.max_storage_bytes, 1_000_000);
    assert_eq!(status.current_index, 0);
    assert_eq!(status.videos.len(), 2);
    // 181 known seconds are three whole minutes.
    assert_eq!(status.total_downloaded_minutes, 3);
    // The accountant equals the bytes of the items that have files.
    let on_disk: u64 = status
        .videos
        .iter()
        .filter(|v| v.local_path.is_some())
        .map(|v| v.downloaded_bytes)
        .sum();
    assert_eq!(status.used_storage_bytes, on_disk);
}

#[test]
fn list_new_videos_emits_each_entry_once() {
    let mut dm = manager(3, 60, 1_000_000);
    complete_download(&mut dm, "a", 1000, 10);
    complete_download(&mut dm, "b", 500, 20);
    let first = dm.state.list_new_videos();
    assert_eq!(first.len(), 2);
    assert_eq!(first[0].id, "a");
    assert_eq!(first[1].id, "b");
    // Complete downloads expose their path across the boundary.
    assert_eq!(first[0].local_path, Some("/tmp/a.mp4".to_string()));
    assert_eq!(first[0].title, Some("title a".to_string()));
    let again = dm.state.list_new_videos();
    assert!(again.is_empty());
    complete_download(&mut dm, "c", 200, 5);
    let third = dm.state.list_new_videos();
    assert_eq!(third.len(), 1);
    assert_eq!(third[0].id, "c");
}

#[test]
fn incomplete_downloads_hide_their_path_at_the_boundary() {
    let mut dm = manager(1, 60, 1_000_000);
    dm.ingest_videos(vec![video("a", Some(1000))]);
    dm.update_download_queue();
    dm.admit_downloads();
    let id = "a".to_string();
    dm.on_download_response(&id, Some(1000), "/tmp/a.mp4".to_string());
    dm.record_chunk(&id, 400, 0);
    // The engine failed mid-way and re-added the snapshot to the playlist
    // anyway; a partial item must not leak its path.
    dm.finish_download(&id);
    let entries = dm.state.list_new_videos();
    assert_eq!(entries.len(), 1);
    assert_eq!(entries[0].local_path, None);
}

#[test]
fn metadata_parse_fills_duration_and_size() {
    let mut dm = manager(1, 60, 1_000_000);
    dm.ingest_videos(vec![video("a", Some(100))]);
    let meta = VideoMetadata {
        duration_seconds: 42,
        codec: "avc".to_string(),
        width: 1920,
        height: 0,
    };
    assert!(dm.apply_parse_result(&"a".to_string(), meta));
    let a = &dm.state.discovered_videos[0];
    assert_eq!(a.length_seconds, Some(42));
    assert_eq!(a.format, Some("avc".to_string()));
    assert_eq!(a.width, Some(1920));
    // A zero dimension from the header is not recorded.
    assert_eq!(a.height, None);
    assert!(dm.set_thumbnail(&"a".to_string(), "/tmp/a.jpg".to_string()));
    assert_eq!(dm.state.discovered_videos[0].thumbnail_path, Some("/tmp/a.jpg".to_string()));
}
