use twitchd::api::State;
use twitchd::index_cache::{GetOutcome, IndexCache, IndexError};
use twitchd::player_pool::PlayerPool;
use twitchd::types::{
    ApproxQuality, Channel, MediaInfo, MediaType, PlaylistInfo, Quality, Resolution, StreamIndex,
    StreamInfo, StreamKey, TwitchInfo,
};

fn options_for_test() -> twitchd::options::Options {
    twitchd::options::Options {
        host: b"127.0.0.1".to_vec(),
        port: 7777,
        client_id: b"client".to_vec(),
        index_cache_timeout_ms: 60_000,
        player_playlist_fetch_interval_ms: 1000,
        player_inactive_timeout_ms: 60_000,
        player_fetch_timeout_ms: 5000,
        player_video_chunks_size: 128_000,
        player_max_sink_buffer_size: 10_000_000,
        runtime_strategy: twitchd::options::RuntimeStrategy::Single,
    }
}

fn variant(name: &str, bandwidth: u64) -> PlaylistInfo {
    PlaylistInfo {
        media_info: MediaInfo {
            type_: MediaType::Video,
            group_id: name.as_bytes().to_vec(),
            name: name.as_bytes().to_vec(),
            autoselect: true,
            default: true,
        },
        stream_info: StreamInfo {
            program_id: Some(1),
            bandwidth,
            resolution: Resolution {
                width: 1920,
                height: 1080,
            },
            codecs: b"avc1".to_vec(),
            video: name.as_bytes().to_vec(),
        },
        url: format!("https://video.example/{}.m3u8", name).into_bytes(),
    }
}

fn index_with(variants: Vec<PlaylistInfo>) -> StreamIndex {
    StreamIndex {
        twitch_info: TwitchInfo {
            node: b"n".to_vec(),
            manifest_node: b"n".to_vec(),
            manifest_node_type: b"t".to_vec(),
            cluster: b"c".to_vec(),
            manifest_cluster: b"c".to_vec(),
            suppress: false,
            server_time: b"1.0".to_vec(),
            transcode_stack: b"s".to_vec(),
            user_ip: b"203.0.113.4".to_vec(),
            serving_id: b"id".to_vec(),
            abs: false,
            broadcast_id: b"b".to_vec(),
            stream_time: b"2.0".to_vec(),
        },
        playlist_infos: variants,
        restricted_playlists_infos: Vec::new(),
    }
}

#[test]
fn cache_single_flight_one_start_then_joins() {
    let mut cache = IndexCache::new(60_000);
    let channel = Channel::new(b"SomeChannel");

    // While no entry exists, the first caller starts the one resolution.
    assert!(matches!(cache.get(&channel), GetOutcome::Start));
    // Every concurrent caller joins it instead of fetching again.
    assert!(matches!(cache.get(&channel), GetOutcome::Join));
    assert!(matches!(cache.get(&channel), GetOutcome::Join));

    // Lookups are case-insensitive: the channel was lower-cased.
    let same = Channel::new(b"somechannel");
    assert!(matches!(cache.get(&same), GetOutcome::Join));
}

#[test]
fn cache_serves_resolved_result_until_expiry() {
    let mut cache = IndexCache::new(60_000);
    let channel = Channel::new(b"chan");
    assert!(matches!(cache.get(&channel), GetOutcome::Start));

    let deadline = cache.resolve_ok(&channel, index_with(vec![variant("720p60", 3_000_000)]), 1000);
    assert_eq!(deadline, 61_000);

    // All callers now observe the same resolved result.
    match cache.get(&channel) {
        GetOutcome::Hit(ix) => {
            assert_eq!(ix.playlist_infos.len(), 1);
            assert_eq!(ix.playlist_infos[0].media_info.name, b"720p60".to_vec());
        }
        _ => panic!("expected a hit"),
    }

    // The expiry timer fires at the deadline; afterwards the entry is gone
    // and the next caller resolves afresh.
    cache.expire(&channel, deadline);
    assert!(matches!(cache.get(&channel), GetOutcome::Start));
}

#[test]
fn cache_drops_failed_resolution_immediately() {
    let mut cache = IndexCache::new(60_000);
    let channel = Channel::new(b"chan");
    assert!(matches!(cache.get(&channel), GetOutcome::Start));
    cache.resolve_err(&channel);
    assert!(matches!(cache.get(&channel), GetOutcome::Start));
}

#[test]
fn index_error_keeps_its_cause() {
    let e = IndexError::Unexpected(b"cause".to_vec());
    match e.duplicate() {
        IndexError::Unexpected(d) => assert_eq!(d, b"cause".to_vec()),
        _ => panic!("expected the unexpected variant"),
    }
}

#[test]
fn pool_single_ownership_one_player_per_stream_key() {
    let mut pool = PlayerPool::new(options_for_test());
    let key = StreamKey {
        channel: Channel::new(b"chan"),
        quality: Quality::Approx(ApproxQuality::Best),
    };

    let (sink1, _b1) = hyper::Body::channel();
    let (sink2, _b2) = hyper::Body::channel();
    let (sink3, _b3) = hyper::Body::channel();

    // The first request creates the one player and its fetch loop.
    assert!(pool.play(&key.duplicate(), sink1, b"k1".to_vec(), 0));
    // Later requests for the same key attach to it.
    assert!(!pool.play(&key.duplicate(), sink2, b"k2".to_vec(), 5));
    assert!(!pool.play(&key.duplicate(), sink3, b"k3".to_vec(), 9));
    assert_eq!(pool.players.len(), 1);
    assert_eq!(pool.players[0].1.sink_queue.len(), 3);

    // A different quality is a different stream key: its own player.
    let other = StreamKey {
        channel: Channel::new(b"chan"),
        quality: Quality::Exact(b"720p60".to_vec()),
    };
    let (sink4, _b4) = hyper::Body::channel();
    assert!(pool.play(&other, sink4, b"k4".to_vec(), 12));
    assert_eq!(pool.players.len(), 2);
}

#[test]
fn pool_removes_a_player_when_its_loop_ends() {
    let mut pool = PlayerPool::new(options_for_test());
    let key = StreamKey {
        channel: Channel::new(b"chan"),
        quality: Quality::Approx(ApproxQuality::Best),
    };
    let (sink, _b) = hyper::Body::channel();
    assert!(pool.play(&key.duplicate(), sink, Vec::new(), 0));
    pool.remove(&key);
    assert!(pool.players.is_empty());
    // A fresh request starts a fresh player.
    let (sink2, _b2) = hyper::Body::channel();
    assert!(pool.play(&key, sink2, Vec::new(), 1));
}

#[test]
fn pool_metadata_lookup_reaches_the_players_records() {
    let mut pool = PlayerPool::new(options_for_test());
    let key = StreamKey {
        channel: Channel::new(b"chan"),
        quality: Quality::Approx(ApproxQuality::Best),
    };
    let (sink, _b) = hyper::Body::channel();
    assert!(pool.play(&key.duplicate(), sink, b"meta-key".to_vec(), 0));
    assert!(pool.get_metadata(&key, b"meta-key").is_none());

    // Feed the player a head chunk carrying a metadata record.
    let mut head = vec![0u8; 5 * 188];
    let json = b"{\"transc_s\":1}";
    head[600..600 + json.len()].copy_from_slice(json);
    let promoted = pool.players[0].1.promote_queued(&head);
    assert_eq!(promoted.len(), 1);

    let meta = pool.get_metadata(&key, b"meta-key").unwrap();
    assert_eq!(meta.raw, json.to_vec());
    assert!(pool.get_metadata(&key, b"other-key").is_none());

    let absent = StreamKey {
        channel: Channel::new(b"nobody"),
        quality: Quality::Approx(ApproxQuality::Best),
    };
    assert!(pool.get_metadata(&absent, b"meta-key").is_none());
}

#[test]
fn quit_signals_exactly_once() {
    let mut state = State::new(options_for_test());
    assert!(state.post_quit());
    assert!(!state.post_quit());
    assert!(!state.post_quit());
}
