//! The data model: descriptors arriving from the feed, the per-video
//! lifecycle record, parsed container metadata, and the flattened records
//! handed across the foreign boundary.

use vstd::prelude::*;

verus! {

/// Clones an optional string; written out so that the result is known to
/// equal the input.
pub fn clone_opt_string(s: &Option<String>) -> (r: Option<String>)
    ensures
        r == *s,
{
    match s {
        Some(x) => Some(x.clone()),
        None => None,
    }
}

/// Author metadata attached to a descriptor, resolved lazily from the feed.
#[derive(Debug)]
pub struct UserData {
    pub npub: Option<String>,
    pub name: Option<String>,
    pub profile_picture: Option<String>,
}

impl Clone for UserData {
    fn clone(&self) -> (r: Self)
        ensures
            r == *self,
    {
        UserData {
            npub: clone_opt_string(&self.npub),
            name: clone_opt_string(&self.name),
            profile_picture: clone_opt_string(&self.profile_picture),
        }
    }
}

/// An immutable video descriptor as discovered on the feed.
#[derive(Debug)]
pub struct NostrVideo {
    pub id: String,
    pub user: UserData,
    pub title: String,
    pub song_name: String,
    pub likes: String,
    pub comments: String,
    pub url: String,
}

impl Clone for NostrVideo {
    fn clone(&self) -> (r: Self)
        ensures
            r == *self,
    {
        NostrVideo {
            id: self.id.clone(),
            user: self.user.clone(),
            title: self.title.clone(),
            song_name: self.song_name.clone(),
            likes: self.likes.clone(),
            comments: self.comments.clone(),
            url: self.url.clone(),
        }
    }
}

/// One media variant listed in a feed event tag; several may describe the
/// same clip at different resolutions or hosts.
#[derive(Debug)]
pub struct VideoVariant {
    pub title: Option<String>,
    pub resolution: Option<String>,
    pub url: Option<String>,
    pub hash: Option<String>,
    pub mime_type: Option<String>,
    pub images: Vec<String>,
    pub fallbacks: Vec<String>,
    pub service: Option<String>,
}

/// Container metadata recovered from a prefix of the downloaded bytes.
#[derive(Debug)]
pub struct VideoMetadata {
    pub duration_seconds: u64,
    pub codec: String,
    pub width: u32,
    pub height: u32,
}

/// The lifecycle record of one video: descriptor plus download progress.
///
/// `local_path` is set as soon as the output file is created and cleared by
/// eviction or failure; `downloaded_bytes` counts the bytes written to that
/// file. The speed sample fields implement a sliding window of at least one
/// second between recomputations of `download_speed_bps`.
#[derive(Debug)]
pub struct VideoDownload {
    pub id: String,
    pub url: String,
    pub nostr: NostrVideo,
    pub local_path: Option<String>,
    pub downloading: bool,
    pub length_seconds: Option<u64>,
    pub format: Option<String>,
    pub width: Option<u32>,
    pub height: Option<u32>,
    pub downloaded_bytes: u64,
    pub content_length: Option<u64>,
    pub download_speed_bps: u64,
    pub last_speed_sample_time_ms: Option<u64>,
    pub last_speed_sample_bytes: u64,
    pub thumbnail_path: Option<String>,
    pub score: u64,
}

impl Clone for VideoDownload {
    fn clone(&self) -> (r: Self)
        ensures
            r == *self,
    {
        VideoDownload {
            id: self.id.clone(),
            url: self.url.clone(),
            nostr: self.nostr.clone(),
            local_path: clone_opt_string(&self.local_path),
            downloading: self.downloading,
            length_seconds: self.length_seconds,
            format: clone_opt_string(&self.format),
            width: self.width,
            height: self.height,
            downloaded_bytes: self.downloaded_bytes,
            content_length: self.content_length,
            download_speed_bps: self.download_speed_bps,
            last_speed_sample_time_ms: self.last_speed_sample_time_ms,
            last_speed_sample_bytes: self.last_speed_sample_bytes,
            thumbnail_path: clone_opt_string(&self.thumbnail_path),
            score: self.score,
        }
    }
}

impl VideoDownload {
    /// A fresh lifecycle record for a newly discovered descriptor: no file,
    /// no progress, ranking score defaulted to zero.
    pub fn from_nostr_video(nostr: NostrVideo) -> (v: VideoDownload)
        ensures
            v.id == nostr.id,
            v.url == nostr.url,
            v.nostr == nostr,
            v.local_path is None,
            !v.downloading,
            v.length_seconds is None,
            v.format is None,
            v.width is None,
            v.height is None,
            v.downloaded_bytes == 0,
            v.content_length is None,
            v.download_speed_bps == 0,
            v.last_speed_sample_time_ms is None,
            v.last_speed_sample_bytes == 0,
            v.thumbnail_path is None,
            v.score == 0,
    {
        let id = nostr.id.clone();
        let url = nostr.url.clone();
        VideoDownload {
            id,
            url,
            nostr,
            local_path: None,
            downloading: false,
            length_seconds: None,
            format: None,
            width: None,
            height: None,
            downloaded_bytes: 0,
            content_length: None,
            download_speed_bps: 0,
            last_speed_sample_time_ms: None,
            last_speed_sample_bytes: 0,
            thumbnail_path: None,
            score: 0,
        }
    }

    /// Whether the downloaded file is complete: the full announced length has
    /// been written. An item with no announced length is never complete.
    pub open spec fn spec_is_complete(self) -> bool {
        match self.content_length {
            Some(cl) => self.downloaded_bytes >= cl,
            None => false,
        }
    }

    /// Executable twin of [`Self::spec_is_complete`].
    pub fn is_complete(&self) -> (r: bool)
        ensures
            r == self.spec_is_complete(),
    {
        match self.content_length {
            Some(cl) => self.downloaded_bytes >= cl,
            None => false,
        }
    }
}

/// Author metadata in the flat shape the foreign boundary exposes.
#[derive(Debug)]
pub struct FfiUserData {
    pub npub: Option<String>,
    pub name: Option<String>,
    pub profile_picture: Option<String>,
}

/// A descriptor in the flat shape the foreign boundary exposes.
#[derive(Debug)]
pub struct FfiNostrVideo {
    pub id: String,
    pub user: FfiUserData,
    pub title: String,
    pub song_name: String,
    pub likes: String,
    pub comments: String,
    pub url: String,
}

/// A lifecycle record in the flat shape the foreign boundary exposes.
/// `local_path` is only present once the file is complete.
#[derive(Debug)]
pub struct FfiVideoDownload {
    pub id: String,
    pub url: String,
    pub title: Option<String>,
    pub local_path: Option<String>,
    pub nostr: FfiNostrVideo,
}

/// The flat record the foreign boundary receives for one lifecycle record:
/// the descriptor fields copied over, and the local path only when the file
/// is complete, so a host never observes a path to a partial file.
pub open spec fn spec_to_ffi(v: VideoDownload) -> FfiVideoDownload {
    FfiVideoDownload {
        id: v.id,
        url: v.url,
        title: Some(v.nostr.title),
        local_path: if v.spec_is_complete() {
            v.local_path
        } else {
            None
        },
        nostr: FfiNostrVideo {
            id: v.nostr.id,
            user: FfiUserData {
                npub: v.nostr.user.npub,
                name: v.nostr.user.name,
                profile_picture: v.nostr.user.profile_picture,
            },
            title: v.nostr.title,
            song_name: v.nostr.song_name,
            likes: v.nostr.likes,
            comments: v.nostr.comments,
            url: v.nostr.url,
        },
    }
}

impl FfiVideoDownload {
    /// Flattens a lifecycle record for the foreign boundary; see
    /// [`spec_to_ffi`].
    pub fn from_video(v: &VideoDownload) -> (r: FfiVideoDownload)
        ensures
            r == spec_to_ffi(*v),
    {
        let local_path = if v.is_complete() {
            match &v.local_path {
                Some(p) => Some(p.clone()),
                None => None,
            }
        } else {
            None
        };
        FfiVideoDownload {
            id: v.id.clone(),
            url: v.url.clone(),
            title: Some(v.nostr.title.clone()),
            local_path,
            nostr: FfiNostrVideo {
                id: v.nostr.id.clone(),
                user: FfiUserData {
                    npub: v.nostr.user.npub.clone(),
                    name: v.nostr.user.name.clone(),
                    profile_picture: v.nostr.user.profile_picture.clone(),
                },
                title: v.nostr.title.clone(),
                song_name: v.nostr.song_name.clone(),
                likes: v.nostr.likes.clone(),
                comments: v.nostr.comments.clone(),
                url: v.nostr.url.clone(),
            },
        }
    }
}

} // verus!
