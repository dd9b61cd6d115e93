//! The daemon's data model: channels, qualities, access tokens, stream
//! indexes, media playlists and segments. Text is carried as bytes; the two
//! fractional-seconds fields of a playlist keep their raw numerals, validated
//! but not interpreted, since the daemon only relays them.

use vstd::prelude::*;

use crate::text::{bytes_eq, copy_bytes, lower_bytes, to_lower};
use vstd::string::StringSliceAdditionalSpecFns;

verus! {

/// A case-insensitive channel name, held lower-cased.
pub struct Channel {
    pub name: Vec<u8>,
}

impl View for Channel {
    type V = Seq<u8>;

    open spec fn view(&self) -> Seq<u8> {
        self.name@
    }
}

impl Channel {
    /// Normalizes `name` to lower case, the form every lookup uses.
    pub fn new(name: &[u8]) -> (r: Channel)
        ensures
            r@ == lower_bytes(name@),
    {
        Channel { name: to_lower(name) }
    }

    pub fn name(&self) -> (r: &Vec<u8>)
        ensures
            r@ == self@,
    {
        &self.name
    }

    pub fn duplicate(&self) -> (r: Channel)
        ensures
            r@ == self@,
    {
        Channel { name: copy_bytes(self.name.as_slice()) }
    }

    pub fn same_as(&self, other: &Channel) -> (r: bool)
        ensures
            r == (self@ == other@),
    {
        bytes_eq(self.name.as_slice(), other.name.as_slice())
    }
}

/// An approximate quality selector, resolved against playlist bandwidths.
#[derive(Clone, Copy, PartialEq, Eq, Structural, Debug)]
pub enum ApproxQuality {
    Best,
    Worst,
}

/// A requested quality: an exact playlist name or an approximate selector.
#[derive(Debug)]
pub enum Quality {
    Exact(Vec<u8>),
    Approx(ApproxQuality),
}

impl View for Quality {
    type V = QualityV;

    open spec fn view(&self) -> QualityV {
        match self {
            Quality::Exact(s) => QualityV::Exact(s@),
            Quality::Approx(a) => QualityV::Approx(*a),
        }
    }
}

/// The mathematical form of a `Quality`.
pub enum QualityV {
    Exact(Seq<u8>),
    Approx(ApproxQuality),
}

/// What `Quality::from` yields for a label: `best` and `worst` select the
/// approximate qualities, anything else is an exact name, lower-cased.
pub open spec fn quality_of_label(label: Seq<u8>) -> QualityV {
    if lower_bytes(label) == "best".spec_bytes() {
        QualityV::Approx(ApproxQuality::Best)
    } else if lower_bytes(label) == "worst".spec_bytes() {
        QualityV::Approx(ApproxQuality::Worst)
    } else {
        QualityV::Exact(lower_bytes(label))
    }
}

impl Quality {
    pub fn duplicate(&self) -> (r: Quality)
        ensures
            r@ == self@,
    {
        match self {
            Quality::Exact(s) => Quality::Exact(copy_bytes(s.as_slice())),
            Quality::Approx(a) => Quality::Approx(*a),
        }
    }

    pub fn same_as(&self, other: &Quality) -> (r: bool)
        ensures
            r == (self@ == other@),
    {
        match (self, other) {
            (Quality::Exact(a), Quality::Exact(b)) => bytes_eq(a.as_slice(), b.as_slice()),
            (Quality::Approx(a), Quality::Approx(b)) => a == b,
            _ => false,
        }
    }

    /// Reads a quality label, case-insensitively.
    pub fn from_label(label: &[u8]) -> (r: Quality)
        ensures
            r@ == quality_of_label(label@),
    {
        let lowered = to_lower(label);
        if bytes_eq(lowered.as_slice(), "best".as_bytes()) {
            Quality::Approx(ApproxQuality::Best)
        } else if bytes_eq(lowered.as_slice(), "worst".as_bytes()) {
            Quality::Approx(ApproxQuality::Worst)
        } else {
            Quality::Exact(lowered)
        }
    }
}

impl Default for Quality {
    /// The default quality is the best available variant.
    fn default() -> (r: Quality)
        ensures
            r@ == QualityV::Approx(ApproxQuality::Best),
    {
        Quality::Approx(ApproxQuality::Best)
    }
}

/// The pair of unlock parameters returned by the access-token endpoint.
pub struct AccessToken {
    pub token: Vec<u8>,
    pub signature: Vec<u8>,
}

/// A stream key: the unit of fan-out deduplication in the player pool.
pub struct StreamKey {
    pub channel: Channel,
    pub quality: Quality,
}

impl View for StreamKey {
    type V = (Seq<u8>, QualityV);

    open spec fn view(&self) -> (Seq<u8>, QualityV) {
        (self.channel@, self.quality@)
    }
}

impl StreamKey {
    pub fn duplicate(&self) -> (r: StreamKey)
        ensures
            r@ == self@,
    {
        StreamKey { channel: self.channel.duplicate(), quality: self.quality.duplicate() }
    }

    pub fn same_as(&self, other: &StreamKey) -> (r: bool)
        ensures
            r == (self@ == other@),
    {
        self.channel.same_as(&other.channel) && self.quality.same_as(&other.quality)
    }
}

/// A video resolution in pixels.
#[derive(Clone, Copy, PartialEq, Eq, Structural, Debug)]
pub struct Resolution {
    pub width: u32,
    pub height: u32,
}

/// The media type of a variant; only video streams appear in an index.
#[derive(Clone, Copy, PartialEq, Eq, Structural, Debug)]
pub enum MediaType {
    Video,
}

/// The `#EXT-X-MEDIA:` attributes of a variant.
pub struct MediaInfo {
    pub type_: MediaType,
    pub group_id: Vec<u8>,
    pub name: Vec<u8>,
    pub autoselect: bool,
    pub default: bool,
}

/// The mathematical form of a `MediaInfo`.
pub struct MediaInfoV {
    pub type_: MediaType,
    pub group_id: Seq<u8>,
    pub name: Seq<u8>,
    pub autoselect: bool,
    pub default: bool,
}

impl View for MediaInfo {
    type V = MediaInfoV;

    open spec fn view(&self) -> MediaInfoV {
        MediaInfoV {
            type_: self.type_,
            group_id: self.group_id@,
            name: self.name@,
            autoselect: self.autoselect,
            default: self.default,
        }
    }
}

impl MediaInfo {
    pub fn duplicate(&self) -> (r: MediaInfo)
        ensures
            r@ == self@,
    {
        MediaInfo {
            type_: self.type_,
            group_id: copy_bytes(self.group_id.as_slice()),
            name: copy_bytes(self.name.as_slice()),
            autoselect: self.autoselect,
            default: self.default,
        }
    }
}

/// The `#EXT-X-STREAM-INF:` attributes of a variant.
pub struct StreamInfo {
    pub program_id: Option<u32>,
    pub bandwidth: u64,
    pub resolution: Resolution,
    pub codecs: Vec<u8>,
    pub video: Vec<u8>,
}

/// The mathematical form of a `StreamInfo`.
pub struct StreamInfoV {
    pub program_id: Option<u32>,
    pub bandwidth: u64,
    pub resolution: Resolution,
    pub codecs: Seq<u8>,
    pub video: Seq<u8>,
}

impl View for StreamInfo {
    type V = StreamInfoV;

    open spec fn view(&self) -> StreamInfoV {
        StreamInfoV {
            program_id: self.program_id,
            bandwidth: self.bandwidth,
            resolution: self.resolution,
            codecs: self.codecs@,
            video: self.video@,
        }
    }
}

impl StreamInfo {
    pub fn duplicate(&self) -> (r: StreamInfo)
        ensures
            r@ == self@,
    {
        StreamInfo {
            program_id: self.program_id,
            bandwidth: self.bandwidth,
            resolution: self.resolution,
            codecs: copy_bytes(self.codecs.as_slice()),
            video: copy_bytes(self.video.as_slice()),
        }
    }
}

/// One selectable variant of a stream index.
pub struct PlaylistInfo {
    pub media_info: MediaInfo,
    pub stream_info: StreamInfo,
    pub url: Vec<u8>,
}

/// The mathematical form of a `PlaylistInfo`.
pub struct PlaylistInfoV {
    pub media_info: MediaInfoV,
    pub stream_info: StreamInfoV,
    pub url: Seq<u8>,
}

impl View for PlaylistInfo {
    type V = PlaylistInfoV;

    open spec fn view(&self) -> PlaylistInfoV {
        PlaylistInfoV {
            media_info: self.media_info@,
            stream_info: self.stream_info@,
            url: self.url@,
        }
    }
}

impl PlaylistInfo {
    pub fn duplicate(&self) -> (r: PlaylistInfo)
        ensures
            r@ == self@,
    {
        PlaylistInfo {
            media_info: self.media_info.duplicate(),
            stream_info: self.stream_info.duplicate(),
            url: copy_bytes(self.url.as_slice()),
        }
    }
}

/// A restricted (audio-only or similar) variant announced by the index.
pub struct RestrictedPlaylistInfo {
    pub group_id: Vec<u8>,
    pub name: Vec<u8>,
    pub restriction: Vec<u8>,
}

/// The mathematical form of a `RestrictedPlaylistInfo`.
pub struct RestrictedPlaylistInfoV {
    pub group_id: Seq<u8>,
    pub name: Seq<u8>,
    pub restriction: Seq<u8>,
}

impl View for RestrictedPlaylistInfo {
    type V = RestrictedPlaylistInfoV;

    open spec fn view(&self) -> RestrictedPlaylistInfoV {
        RestrictedPlaylistInfoV {
            group_id: self.group_id@,
            name: self.name@,
            restriction: self.restriction@,
        }
    }
}

/// The `#EXT-X-TWITCH-INFO:` header of a stream index. The two time fields
/// keep their raw numerals.
pub struct TwitchInfo {
    pub node: Vec<u8>,
    pub manifest_node: Vec<u8>,
    pub manifest_node_type: Vec<u8>,
    pub cluster: Vec<u8>,
    pub manifest_cluster: Vec<u8>,
    pub suppress: bool,
    pub server_time: Vec<u8>,
    pub transcode_stack: Vec<u8>,
    pub user_ip: Vec<u8>,
    pub serving_id: Vec<u8>,
    pub abs: bool,
    pub broadcast_id: Vec<u8>,
    pub stream_time: Vec<u8>,
}

/// The mathematical form of a `TwitchInfo`.
pub struct TwitchInfoV {
    pub node: Seq<u8>,
    pub manifest_node: Seq<u8>,
    pub manifest_node_type: Seq<u8>,
    pub cluster: Seq<u8>,
    pub manifest_cluster: Seq<u8>,
    pub suppress: bool,
    pub server_time: Seq<u8>,
    pub transcode_stack: Seq<u8>,
    pub user_ip: Seq<u8>,
    pub serving_id: Seq<u8>,
    pub abs: bool,
    pub broadcast_id: Seq<u8>,
    pub stream_time: Seq<u8>,
}

impl View for TwitchInfo {
    type V = TwitchInfoV;

    open spec fn view(&self) -> TwitchInfoV {
        TwitchInfoV {
            node: self.node@,
            manifest_node: self.manifest_node@,
            manifest_node_type: self.manifest_node_type@,
            cluster: self.cluster@,
            manifest_cluster: self.manifest_cluster@,
            suppress: self.suppress,
            server_time: self.server_time@,
            transcode_stack: self.transcode_stack@,
            user_ip: self.user_ip@,
            serving_id: self.serving_id@,
            abs: self.abs,
            broadcast_id: self.broadcast_id@,
            stream_time: self.stream_time@,
        }
    }
}

/// The top-level manifest of a channel: its quality variants.
pub struct StreamIndex {
    pub twitch_info: TwitchInfo,
    pub playlist_infos: Vec<PlaylistInfo>,
    pub restricted_playlists_infos: Vec<RestrictedPlaylistInfo>,
}

/// The mathematical form of a `StreamIndex`.
pub struct StreamIndexV {
    pub twitch_info: TwitchInfoV,
    pub playlist_infos: Seq<PlaylistInfoV>,
    pub restricted_playlists_infos: Seq<RestrictedPlaylistInfoV>,
}

impl View for StreamIndex {
    type V = StreamIndexV;

    open spec fn view(&self) -> StreamIndexV {
        StreamIndexV {
            twitch_info: self.twitch_info@,
            playlist_infos: self.playlist_infos@.map_values(|p: PlaylistInfo| p@),
            restricted_playlists_infos: self.restricted_playlists_infos@.map_values(
                |p: RestrictedPlaylistInfo| p@,
            ),
        }
    }
}

/// One video segment of a media playlist; equality is structural on its
/// location, which is how a segment is recognized across polls.
pub struct Segment {
    pub location: Vec<u8>,
}

impl View for Segment {
    type V = Seq<u8>;

    open spec fn view(&self) -> Seq<u8> {
        self.location@
    }
}

impl Segment {
    pub fn duplicate(&self) -> (r: Segment)
        ensures
            r@ == self@,
    {
        Segment { location: copy_bytes(self.location.as_slice()) }
    }

    pub fn same_as(&self, other: &Segment) -> (r: bool)
        ensures
            r == (self@ == other@),
    {
        bytes_eq(self.location.as_slice(), other.location.as_slice())
    }
}

/// A media playlist as one poll tick sees it.
pub struct Playlist {
    pub version: u32,
    pub target_duration: u32,
    pub media_sequence: u32,
    pub twitch_elapsed_secs: Vec<u8>,
    pub twitch_total_secs: Vec<u8>,
    pub segments: Vec<Segment>,
}

/// The mathematical form of a `Playlist`.
pub struct PlaylistV {
    pub version: u32,
    pub target_duration: u32,
    pub media_sequence: u32,
    pub twitch_elapsed_secs: Seq<u8>,
    pub twitch_total_secs: Seq<u8>,
    pub segments: Seq<Seq<u8>>,
}

impl View for Playlist {
    type V = PlaylistV;

    open spec fn view(&self) -> PlaylistV {
        PlaylistV {
            version: self.version,
            target_duration: self.target_duration,
            media_sequence: self.media_sequence,
            twitch_elapsed_secs: self.twitch_elapsed_secs@,
            twitch_total_secs: self.twitch_total_secs@,
            segments: self.segments@.map_values(|s: Segment| s@),
        }
    }
}

} // verus!

verus! {

impl RestrictedPlaylistInfo {
    pub fn duplicate(&self) -> (r: RestrictedPlaylistInfo)
        ensures
            r@ == self@,
    {
        RestrictedPlaylistInfo {
            group_id: copy_bytes(self.group_id.as_slice()),
            name: copy_bytes(self.name.as_slice()),
            restriction: copy_bytes(self.restriction.as_slice()),
        }
    }
}

impl TwitchInfo {
    pub fn duplicate(&self) -> (r: TwitchInfo)
        ensures
            r@ == self@,
    {
        TwitchInfo {
            node: copy_bytes(self.node.as_slice()),
            manifest_node: copy_bytes(self.manifest_node.as_slice()),
            manifest_node_type: copy_bytes(self.manifest_node_type.as_slice()),
            cluster: copy_bytes(self.cluster.as_slice()),
            manifest_cluster: copy_bytes(self.manifest_cluster.as_slice()),
            suppress: self.suppress,
            server_time: copy_bytes(self.server_time.as_slice()),
            transcode_stack: copy_bytes(self.transcode_stack.as_slice()),
            user_ip: copy_bytes(self.user_ip.as_slice()),
            serving_id: copy_bytes(self.serving_id.as_slice()),
            abs: self.abs,
            broadcast_id: copy_bytes(self.broadcast_id.as_slice()),
            stream_time: copy_bytes(self.stream_time.as_slice()),
        }
    }
}

impl StreamIndex {
    pub fn duplicate(&self) -> (r: StreamIndex)
        ensures
            r@ == self@,
    {
        let twitch_info = self.twitch_info.duplicate();
        let mut playlist_infos: Vec<PlaylistInfo> = Vec::new();
        let mut i: usize = 0;
        while i < self.playlist_infos.len()
            invariant
                i <= self.playlist_infos@.len(),
                playlist_infos@.map_values(|p: PlaylistInfo| p@)
                    == self.playlist_infos@.map_values(|p: PlaylistInfo| p@).take(i as int),
            decreases self.playlist_infos@.len() - i,
        {
            playlist_infos.push(self.playlist_infos[i].duplicate());
            i = i + 1;
            proof {
                assert(playlist_infos@.map_values(|p: PlaylistInfo| p@)
                    =~= playlist_infos@.drop_last().map_values(|p: PlaylistInfo| p@).push(
                    playlist_infos@.last()@,
                ));
                assert(self.playlist_infos@.map_values(|p: PlaylistInfo| p@).take(i as int)
                    =~= self.playlist_infos@.map_values(|p: PlaylistInfo| p@).take(i - 1).push(
                    self.playlist_infos@[i - 1]@,
                ));
            }
        }
        proof {
            assert(self.playlist_infos@.map_values(|p: PlaylistInfo| p@).take(
                self.playlist_infos@.len() as int,
            ) =~= self.playlist_infos@.map_values(|p: PlaylistInfo| p@));
        }
        let mut restricted_playlists_infos: Vec<RestrictedPlaylistInfo> = Vec::new();
        let mut j: usize = 0;
        while j < self.restricted_playlists_infos.len()
            invariant
                j <= self.restricted_playlists_infos@.len(),
                restricted_playlists_infos@.map_values(|p: RestrictedPlaylistInfo| p@)
                    == self.restricted_playlists_infos@.map_values(
                    |p: RestrictedPlaylistInfo| p@,
                ).take(j as int),
            decreases self.restricted_playlists_infos@.len() - j,
        {
            restricted_playlists_infos.push(self.restricted_playlists_infos[j].duplicate());
            j = j + 1;
            proof {
                assert(restricted_playlists_infos@.map_values(|p: RestrictedPlaylistInfo| p@)
                    =~= restricted_playlists_infos@.drop_last().map_values(
                    |p: RestrictedPlaylistInfo| p@,
                ).push(restricted_playlists_infos@.last()@));
                assert(self.restricted_playlists_infos@.map_values(
                    |p: RestrictedPlaylistInfo| p@,
                ).take(j as int) =~= self.restricted_playlists_infos@.map_values(
                    |p: RestrictedPlaylistInfo| p@,
                ).take(j - 1).push(self.restricted_playlists_infos@[j - 1]@));
            }
        }
        proof {
            assert(self.restricted_playlists_infos@.map_values(
                |p: RestrictedPlaylistInfo| p@,
            ).take(self.restricted_playlists_infos@.len() as int)
                =~= self.restricted_playlists_infos@.map_values(
                |p: RestrictedPlaylistInfo| p@,
            ));
        }
        let r = StreamIndex { twitch_info, playlist_infos, restricted_playlists_infos };
        proof {
            assert(r@.playlist_infos =~= self@.playlist_infos);
            assert(r@.restricted_playlists_infos =~= self@.restricted_playlists_infos);
        }
        r
    }
}

impl Playlist {
    pub fn duplicate(&self) -> (r: Playlist)
        ensures
            r@ == self@,
    {
        let mut segments: Vec<Segment> = Vec::new();
        let mut i: usize = 0;
        while i < self.segments.len()
            invariant
                i <= self.segments@.len(),
                segments@.map_values(|s: Segment| s@) == self.segments@.map_values(
                    |s: Segment| s@,
                ).take(i as int),
            decreases self.segments@.len() - i,
        {
            segments.push(self.segments[i].duplicate());
            i = i + 1;
            proof {
                assert(segments@.map_values(|s: Segment| s@) =~= segments@.drop_last().map_values(
                    |s: Segment| s@,
                ).push(segments@.last()@));
                assert(self.segments@.map_values(|s: Segment| s@).take(i as int)
                    =~= self.segments@.map_values(|s: Segment| s@).take(i - 1).push(
                    self.segments@[i - 1]@,
                ));
            }
        }
        proof {
            assert(self.segments@.map_values(|s: Segment| s@).take(self.segments@.len() as int)
                =~= self.segments@.map_values(|s: Segment| s@));
        }
        let r = Playlist {
            version: self.version,
            target_duration: self.target_duration,
            media_sequence: self.media_sequence,
            twitch_elapsed_secs: copy_bytes(self.twitch_elapsed_secs.as_slice()),
            twitch_total_secs: copy_bytes(self.twitch_total_secs.as_slice()),
            segments,
        };
        proof {
            assert(r@.segments =~= self@.segments);
        }
        r
    }
}

} // verus!
