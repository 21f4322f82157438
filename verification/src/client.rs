use vstd::prelude::*;
use crate::errors::ResolveError;
use crate::mp3url::{strs_view, M3U, M3UView, SubPlaylistView, TrackInfoView};
use crate::text::{contains_substring, spec_find_from};
use crate::util::{decode_hex, spec_decode_hex};

verus! {

/// The raw decryption key as retrieved from the key endpoint.
#[derive(Debug)]
pub struct Key(pub Vec<u8>);

/// A resolved download job: raw key and IV bytes and the fully qualified
/// segment URLs, in playback order.
#[derive(Clone, Debug, PartialEq, Eq)]
pub struct SchoolismVideoList {
    pub key: Vec<u8>,
    pub iv: Vec<u8>,
    pub files: Vec<String>,
}

#[verifier::ext_equal]
pub struct VideoListView {
    pub key: Seq<u8>,
    pub iv: Seq<u8>,
    pub files: Seq<Seq<char>>,
}

impl View for SchoolismVideoList {
    type V = VideoListView;

    open spec fn view(&self) -> VideoListView {
        VideoListView { key: self.key@, iv: self.iv@, files: strs_view(self.files@) }
    }
}

pub open spec fn urls_view(subs: Seq<SubPlaylistView>) -> Seq<Seq<char>> {
    subs.map_values(|p: SubPlaylistView| p.url)
}

pub open spec fn names_view(tracks: Seq<TrackInfoView>) -> Seq<Seq<char>> {
    tracks.map_values(|t: TrackInfoView| t.name)
}

pub open spec fn docs_view(v: Seq<M3U>) -> Seq<M3UView> {
    v.map_values(|d: M3U| d@)
}

pub open spec fn optdocs_view(v: Seq<Option<M3U>>) -> Seq<Option<M3UView>> {
    v.map_values(
        |o: Option<M3U>| match o {
            Some(d) => Some(d@),
            None => None,
        },
    )
}

pub open spec fn with_base(base: Seq<char>, files: Seq<Seq<char>>) -> Seq<Seq<char>> {
    files.map_values(|f: Seq<char>| base + f)
}

// ---------------------------------------------------------------------------
// Base-URL derivation
// ---------------------------------------------------------------------------

/// The last position at or before `i` where the character `c` occurs.
pub open spec fn spec_rfind_char(s: Seq<char>, c: char, i: int) -> Option<int>
    decreases i + 1,
{
    if i < 0 || i >= s.len() {
        None
    } else if s[i] == c {
        Some(i)
    } else {
        spec_rfind_char(s, c, i - 1)
    }
}

/// The URL up to and including its last `/`; a URL without `/` has no
/// base.
pub open spec fn spec_base_url(u: Seq<char>) -> Result<Seq<char>, ResolveError> {
    match spec_rfind_char(u, '/', u.len() - 1) {
        None => Err(ResolveError::InvalidBaseUrl),
        Some(p) => Ok(u.take(p + 1)),
    }
}

/// Derives the base URL of a playlist URL by dropping everything after
/// its last `/`.
#[verifier::loop_isolation(false)]
pub fn retrieve_base_url_for_playlist(playlist_url: &str) -> (r: Result<String, ResolveError>)
    ensures
        match (r, spec_base_url(playlist_url@)) {
            (Ok(v), Ok(w)) => v@ == w,
            (Err(e), Err(f)) => e == f,
            _ => false,
        },
{
    let len = playlist_url.unicode_len();
    let mut j: usize = len;
    while j > 0
        invariant
            j <= len,
            spec_rfind_char(playlist_url@, '/', len - 1) == spec_rfind_char(
                playlist_url@,
                '/',
                j - 1,
            ),
        decreases j,
    {
        if playlist_url.get_char(j - 1) == '/' {
            let base = playlist_url.substring_char(0, j);
            return Ok(base.to_owned());
        }
        j = j - 1;
    }
    Err(ResolveError::InvalidBaseUrl)
}

// ---------------------------------------------------------------------------
// Resolving documents into a download job
// ---------------------------------------------------------------------------

/// The variant URLs of a master playlist document.
#[derive(Clone, Debug, PartialEq, Eq)]
pub struct Primary {
    pub streams: Vec<String>,
}

/// The IV and the relative segment names of a media playlist document.
#[derive(Clone, Debug, PartialEq, Eq)]
pub struct Secondary {
    pub iv: Vec<u8>,
    pub files: Vec<String>,
}

impl Primary {
    /// Keeps the variant URLs of the document, in order.
    #[verifier::loop_isolation(false)]
    pub fn from_m3u(m3u: M3U) -> (r: Primary)
        ensures
            strs_view(r.streams@) == urls_view(m3u@.subplaylists),
    {
        let ghost target = urls_view(m3u@.subplaylists);
        let mut streams: Vec<String> = Vec::new();
        proof {
            assert(strs_view(streams@) =~= target.take(0));
        }
        let mut i: usize = 0;
        while i < m3u.subplaylists.len()
            invariant
                i <= m3u.subplaylists@.len(),
                strs_view(streams@) == target.take(i as int),
            decreases m3u.subplaylists@.len() - i,
        {
            streams.push(m3u.subplaylists[i].url.clone());
            proof {
                assert(target[i as int] == m3u.subplaylists@[i as int].url@);
                assert(strs_view(streams@) =~= target.take(i + 1));
            }
            i = i + 1;
        }
        proof {
            assert(target.take(target.len() as int) =~= target);
        }
        Primary { streams }
    }
}

impl Secondary {
    /// Decodes the IV out of the key directive and keeps the segment
    /// names, in order. A document without key info, or with an IV that
    /// is not valid hex, is rejected.
    #[verifier::loop_isolation(false)]
    pub fn from_m3u(m3u: M3U) -> (r: Result<Secondary, ResolveError>)
        ensures
            match m3u@.key_info {
                None => r == Err::<Secondary, ResolveError>(ResolveError::MissingKeyInfo),
                Some(ki) => match (r, spec_decode_hex(ki.iv)) {
                    (Ok(s), Ok(iv)) => s.iv@ == iv && strs_view(s.files@) == names_view(
                        m3u@.tracklist,
                    ),
                    (Err(e), Err(f)) => e == f,
                    _ => false,
                },
            },
    {
        let ki = match &m3u.key_info {
            None => {
                return Err(ResolveError::MissingKeyInfo);
            },
            Some(ki) => ki,
        };
        let iv = match decode_hex(ki.iv.as_str()) {
            Err(e) => {
                return Err(e);
            },
            Ok(iv) => iv,
        };
        let ghost target = names_view(m3u@.tracklist);
        let mut files: Vec<String> = Vec::new();
        proof {
            assert(strs_view(files@) =~= target.take(0));
        }
        let mut i: usize = 0;
        while i < m3u.tracklist.len()
            invariant
                i <= m3u.tracklist@.len(),
                strs_view(files@) == target.take(i as int),
            decreases m3u.tracklist@.len() - i,
        {
            files.push(m3u.tracklist[i].name.clone());
            proof {
                assert(target[i as int] == m3u.tracklist@[i as int].name@);
                assert(strs_view(files@) =~= target.take(i + 1));
            }
            i = i + 1;
        }
        proof {
            assert(target.take(target.len() as int) =~= target);
        }
        Ok(Secondary { iv, files })
    }
}

/// What resolving one master document, one media document and a raw key
/// yields: each segment name appended to the base URL derived from the
/// first variant URL.
pub open spec fn spec_from_manifests(
    streams: Seq<Seq<char>>,
    iv: Seq<u8>,
    files: Seq<Seq<char>>,
    key: Seq<u8>,
) -> Result<VideoListView, ResolveError> {
    if streams.len() == 0 {
        Err(ResolveError::InvalidBaseUrl)
    } else {
        match spec_base_url(streams[0]) {
            Err(e) => Err(e),
            Ok(base) => Ok(VideoListView { key, iv, files: with_base(base, files) }),
        }
    }
}

impl SchoolismVideoList {
    /// Combines the resolved documents and the raw key into a download
    /// job: each segment name is appended to the base URL of the first
    /// variant, keeping the tracklist order.
    #[verifier::loop_isolation(false)]
    pub fn from_manifests(primary: Primary, secondary: Secondary, key: Vec<u8>) -> (r: Result<
        SchoolismVideoList,
        ResolveError,
    >)
        ensures
            match (
                r,
                spec_from_manifests(
                    strs_view(primary.streams@),
                    secondary.iv@,
                    strs_view(secondary.files@),
                    key@,
                ),
            ) {
                (Ok(v), Ok(w)) => v@ == w,
                (Err(e), Err(f)) => e == f,
                _ => false,
            },
    {
        if primary.streams.len() == 0 {
            return Err(ResolveError::InvalidBaseUrl);
        }
        proof {
            assert(strs_view(primary.streams@)[0] == primary.streams@[0]@);
        }
        let base = match retrieve_base_url_for_playlist(primary.streams[0].as_str()) {
            Err(e) => {
                return Err(e);
            },
            Ok(b) => b,
        };
        let ghost basev = base@;
        let ghost target = with_base(basev, strs_view(secondary.files@));
        let mut files: Vec<String> = Vec::new();
        proof {
            assert(strs_view(files@) =~= target.take(0));
        }
        let mut i: usize = 0;
        while i < secondary.files.len()
            invariant
                i <= secondary.files@.len(),
                basev == base@,
                strs_view(files@) == target.take(i as int),
            decreases secondary.files@.len() - i,
        {
            let mut u = base.clone();
            u.append(secondary.files[i].as_str());
            files.push(u);
            proof {
                assert(target[i as int] == basev + secondary.files@[i as int]@);
                assert(strs_view(files@) =~= target.take(i + 1));
            }
            i = i + 1;
        }
        proof {
            assert(target.take(target.len() as int) =~= target);
        }
        Ok(SchoolismVideoList { key, iv: secondary.iv, files })
    }
}

/// What resolving a master document against a chosen media variant and a
/// raw key yields. Error priority mirrors the order of the steps: the
/// variant index is checked first, then the variant's key info, then its
/// IV, and the base URL last.
pub open spec fn spec_resolve(
    primary: M3UView,
    variants: Seq<M3UView>,
    idx: int,
    key: Seq<u8>,
) -> Result<VideoListView, ResolveError> {
    if idx >= variants.len() {
        Err(ResolveError::VariantIndexOutOfRange)
    } else {
        match variants[idx].key_info {
            None => Err(ResolveError::MissingKeyInfo),
            Some(ki) => match spec_decode_hex(ki.iv) {
                Err(e) => Err(e),
                Ok(iv) => spec_from_manifests(
                    urls_view(primary.subplaylists),
                    iv,
                    names_view(variants[idx].tracklist),
                    key,
                ),
            },
        }
    }
}

/// Builds the download job out of the parsed master document, the media
/// variant documents that could be fetched, the quality choice (the
/// high-quality variant is the second one of the upstream ordering) and
/// the raw key.
pub fn build_video_list(primary: M3U, secondaries: Vec<M3U>, hq: bool, key: Key) -> (r: Result<
    SchoolismVideoList,
    ResolveError,
>)
    ensures
        match (
            r,
            spec_resolve(
                primary@,
                docs_view(secondaries@),
                if hq {
                    1int
                } else {
                    0int
                },
                key.0@,
            ),
        ) {
            (Ok(v), Ok(w)) => v@ == w,
            (Err(e), Err(f)) => e == f,
            _ => false,
        },
{
    let idx: usize = if hq {
        1
    } else {
        0
    };
    let mut rest = secondaries;
    if idx >= rest.len() {
        return Err(ResolveError::VariantIndexOutOfRange);
    }
    let sec_doc = rest.remove(idx);
    proof {
        assert(docs_view(secondaries@)[idx as int] == sec_doc@);
    }
    let secondary = match Secondary::from_m3u(sec_doc) {
        Err(e) => {
            return Err(e);
        },
        Ok(s) => s,
    };
    let prim = Primary::from_m3u(primary);
    SchoolismVideoList::from_manifests(prim, secondary, key.0)
}

// ---------------------------------------------------------------------------
// Decisions of the playlist-retrieval loop
// ---------------------------------------------------------------------------

/// What to do with one playlist response.
#[derive(Clone, Copy, Debug, PartialEq, Eq, Structural)]
pub enum RetryAction {
    /// The body is usable.
    Accept,
    /// The body signals transient access denial; fetch again.
    Retry,
    /// The retry budget of two further attempts is spent.
    GiveUp,
}

/// Whether the login response page signals a failed login: the site
/// answers a bad login with a page that loads its login-error box.
pub fn login_failed(page: &str) -> (r: bool)
    ensures
        r == (spec_find_from(page@, "login.colorBox.php?loginError=true"@, 0) is Some),
{
    contains_substring(page, "login.colorBox.php?loginError=true")
}

/// Whether the response body carries the transient access-denial marker.
pub open spec fn spec_access_denied(body: Seq<char>) -> bool {
    spec_find_from(body, "AccessDenied"@, 0) is Some
}

/// Decides what to do with one playlist response: a body without the
/// denial marker is accepted; a denied body is retried while fewer than
/// two retries have been spent, and given up on afterwards.
pub fn playlist_fetch_decision(body: &str, retry_count: u32) -> (r: RetryAction)
    ensures
        !spec_access_denied(body@) ==> r == RetryAction::Accept,
        spec_access_denied(body@) && retry_count < 2 ==> r == RetryAction::Retry,
        spec_access_denied(body@) && retry_count >= 2 ==> r == RetryAction::GiveUp,
{
    if !contains_substring(body, "AccessDenied") {
        RetryAction::Accept
    } else if retry_count < 2 {
        RetryAction::Retry
    } else {
        RetryAction::GiveUp
    }
}

// ---------------------------------------------------------------------------
// Gathering the variant documents
// ---------------------------------------------------------------------------

/// The documents that were fetched and parsed, in order, the failures
/// dropped.
pub open spec fn spec_successes(s: Seq<Option<M3UView>>, i: int) -> Seq<M3UView>
    decreases s.len() - i,
{
    if i < 0 || i >= s.len() {
        Seq::empty()
    } else {
        match s[i] {
            Some(d) => Seq::empty().push(d) + spec_successes(s, i + 1),
            None => spec_successes(s, i + 1),
        }
    }
}

/// Keeps the variant documents that could be fetched and parsed, in
/// order; a failed variant is dropped rather than fatal.
#[verifier::loop_isolation(false)]
pub fn collect_successes(results: Vec<Option<M3U>>) -> (r: Vec<M3U>)
    ensures
        docs_view(r@) == spec_successes(optdocs_view(results@), 0),
{
    let ghost orig = results@;
    let ghost ov = optdocs_view(results@);
    let mut out: Vec<M3U> = Vec::new();
    let mut rest = results;
    proof {
        assert(rest@ =~= orig.take(rest@.len() as int));
        assert(docs_view(out@) =~= spec_successes(ov, rest@.len() as int));
    }
    while rest.len() > 0
        invariant
            rest@.len() <= orig.len(),
            rest@ == orig.take(rest@.len() as int),
            docs_view(out@) == spec_successes(ov, rest@.len() as int),
        decreases rest@.len(),
    {
        let ghost pre = docs_view(out@);
        let ghost n = rest@.len() as int;
        match rest.pop() {
            Some(slot) => {
                proof {
                    assert(rest@ =~= orig.take(n - 1));
                    assert(orig.take(n)[n - 1] == orig[n - 1]);
                    assert(ov[n - 1] == optdocs_view(orig)[n - 1]);
                }
                match slot {
                    Some(d) => {
                        out.insert(0, d);
                        proof {
                            assert(docs_view(out@) =~= Seq::empty().push(d@) + pre);
                        }
                    },
                    None => {},
                }
            },
            None => {},
        }
    }
    out
}

} // verus!
