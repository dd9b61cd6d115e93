use twitchd::mpeg_ts::extract_metadata;
use twitchd::api::{ApiError, HttpError};
use twitchd::player::{
    drain_payload, drain_requeue, fanout_and_filter, loop_outcome, FetchEvent, SegmentChunk,
    SegmentPicker, StreamPlayer, StreamPlayerError,
};
use twitchd::stream_ext::ChunkConcat;
use twitchd::types::{Playlist, Segment};

fn playlist_of(locations: Vec<&str>) -> Playlist {
    let segments = locations
        .into_iter()
        .map(|l| Segment {
            location: l.as_bytes().to_vec(),
        })
        .collect();
    Playlist {
        version: 3,
        target_duration: 6,
        media_sequence: 0,
        twitch_elapsed_secs: b"0.0".to_vec(),
        twitch_total_secs: b"0.0".to_vec(),
        segments,
    }
}

fn chunk_concat_ok(blocks: Vec<&[u8]>, chunk_len: usize) -> Vec<Vec<u8>> {
    let mut chunker = ChunkConcat::new(chunk_len);
    let mut out = Vec::new();
    for block in blocks {
        out.extend(chunker.push(block));
    }
    if let Some(rest) = chunker.finish() {
        out.push(rest);
    }
    out
}

#[test]
fn test_chunk_concat() {
    assert_eq!(
        chunk_concat_ok(vec![b"Hello", b"", b", ", b"World!"], 4),
        vec![b"Hell".to_vec(), b"o, W".to_vec(), b"orld".to_vec(), b"!".to_vec()]
    );

    assert_eq!(
        chunk_concat_ok(vec![&[1, 2, 3], &[4, 5, 6], &[7, 8, 9]], 5),
        vec![vec![1, 2, 3, 4, 5], vec![6, 7, 8, 9]]
    );

    assert_eq!(
        chunk_concat_ok(vec![&[1, 2, 3], &[4, 5, 6], &[7, 8, 9]], 10),
        vec![vec![1, 2, 3, 4, 5, 6, 7, 8, 9]]
    );

    assert_eq!(
        chunk_concat_ok(vec![&[1, 2, 3], &[4, 5, 6], &[7, 8, 9]], 2),
        vec![vec![1, 2], vec![3, 4], vec![5, 6], vec![7, 8], vec![9]]
    );

    assert_eq!(
        chunk_concat_ok(vec![&[1, 2, 3, 4, 5, 6]], 2),
        vec![vec![1, 2], vec![3, 4], vec![5, 6]]
    );

    assert_eq!(
        chunk_concat_ok(vec![&[1, 2, 3, 4, 5, 6]], 10),
        vec![vec![1, 2, 3, 4, 5, 6]]
    );
}

#[test]
fn chunk_concat_empty_stream_yields_nothing() {
    assert_eq!(chunk_concat_ok(vec![], 4), Vec::<Vec<u8>>::new());
}

#[test]
fn picker_starts_with_most_recent_segment() {
    let mut picker = SegmentPicker::new();
    let p = playlist_of(vec!["seg1", "seg2", "seg3"]);
    let picked = picker.pick(&p).unwrap();
    assert_eq!(picked.location, b"seg3".to_vec());
}

#[test]
fn picker_downloads_next_segment_never_again_never_skipping() {
    let mut picker = SegmentPicker::new();
    let p1 = playlist_of(vec!["seg1", "seg2"]);
    let first = picker.pick(&p1).unwrap();
    assert_eq!(first.location, b"seg2".to_vec());

    // The playlist advanced by one segment: the previously downloaded one
    // is still listed, so exactly its successor comes next.
    let p2 = playlist_of(vec!["seg2", "seg3"]);
    let second = picker.pick(&p2).unwrap();
    assert_eq!(second.location, b"seg3".to_vec());

    // Nothing new yet: no re-download of seg3.
    let p3 = playlist_of(vec!["seg2", "seg3"]);
    assert!(picker.pick(&p3).is_none());

    // One more segment: continuation picks it up.
    let p4 = playlist_of(vec!["seg3", "seg4"]);
    let fourth = picker.pick(&p4).unwrap();
    assert_eq!(fourth.location, b"seg4".to_vec());
}

#[test]
fn picker_falls_back_to_most_recent_when_segment_scrolled_off() {
    let mut picker = SegmentPicker::new();
    let p1 = playlist_of(vec!["seg1", "seg2"]);
    let first = picker.pick(&p1).unwrap();
    assert_eq!(first.location, b"seg2".to_vec());

    // The downloaded segment is gone from the new playlist: the picker
    // takes the most recent one, not an error.
    let p2 = playlist_of(vec!["seg7", "seg8", "seg9"]);
    let second = picker.pick(&p2).unwrap();
    assert_eq!(second.location, b"seg9".to_vec());
}

#[test]
fn fanout_drops_only_the_failing_sink() {
    let (tx1, mut rx1) = futures::channel::mpsc::channel::<Vec<u8>>(4);
    let (tx2, rx2) = futures::channel::mpsc::channel::<Vec<u8>>(4);
    let (tx3, mut rx3) = futures::channel::mpsc::channel::<Vec<u8>>(4);
    // The middle sink's client is gone.
    drop(rx2);

    let mut senders = vec![tx1, tx2, tx3];
    fanout_and_filter(&mut senders, b"chunk-1".to_vec());
    assert_eq!(senders.len(), 2);

    // Both survivors got the chunk; the dead sink blocked nobody.
    assert_eq!(rx1.try_next().unwrap().unwrap(), b"chunk-1".to_vec());
    assert_eq!(rx3.try_next().unwrap().unwrap(), b"chunk-1".to_vec());

    fanout_and_filter(&mut senders, b"chunk-2".to_vec());
    assert_eq!(senders.len(), 2);
    assert_eq!(rx1.try_next().unwrap().unwrap(), b"chunk-2".to_vec());
    assert_eq!(rx3.try_next().unwrap().unwrap(), b"chunk-2".to_vec());
}

#[test]
fn fanout_on_empty_sink_set_is_a_no_op() {
    let mut senders: Vec<futures::channel::mpsc::Sender<Vec<u8>>> = Vec::new();
    fanout_and_filter(&mut senders, b"chunk".to_vec());
    assert!(senders.is_empty());
}

#[test]
fn drain_backlog_concatenates_and_abandons_slow_consumers() {
    let mut buffer: Vec<u8> = Vec::new();
    let out = drain_payload(&mut buffer, b"abc".to_vec());
    assert_eq!(out, b"abc".to_vec());
    assert!(buffer.is_empty());

    // The channel bounced the bytes back: they wait in the backlog.
    assert!(!drain_requeue(&mut buffer, b"abc", 8));
    assert_eq!(buffer, b"abc".to_vec());

    // The next chunk goes out together with the backlog.
    let out = drain_payload(&mut buffer, b"def".to_vec());
    assert_eq!(out, b"abcdef".to_vec());
    assert!(buffer.is_empty());

    // A backlog past the bound abandons the sink.
    assert!(drain_requeue(&mut buffer, b"abcdefghi", 8));
}

fn options_for_test() -> twitchd::options::Options {
    twitchd::options::Options {
        host: b"127.0.0.1".to_vec(),
        port: 7777,
        client_id: b"client".to_vec(),
        index_cache_timeout_ms: 60_000,
        player_playlist_fetch_interval_ms: 1000,
        player_inactive_timeout_ms: 60_000,
        player_fetch_timeout_ms: 5000,
        player_video_chunks_size: 128_000,
        player_max_sink_buffer_size: 10_000_000,
        runtime_strategy: twitchd::options::RuntimeStrategy::Single,
    }
}

fn ts_buffer_with_json(json: &[u8]) -> Vec<u8> {
    let mut data = vec![0u8; 5 * 188];
    let start = 3 * 188 + 10;
    data[start..start + json.len()].copy_from_slice(json);
    data
}

#[test]
fn player_promotes_queued_sinks_and_records_metadata() {
    let opts = options_for_test();
    let mut player = StreamPlayer::new(opts, 0);

    let (sink1, _body1) = hyper::Body::channel();
    let (sink2, _body2) = hyper::Body::channel();
    player.queue_sink(sink1, b"key-a".to_vec());
    player.queue_sink(sink2, b"key-b".to_vec());
    assert!(player.get_metadata(b"key-a").is_none());

    let head = ts_buffer_with_json(b"{\"broadc_s\":7}");
    let promoted = player.promote_queued(&head);
    assert_eq!(promoted.len(), 2);
    assert_eq!(player.senders.len(), 2);
    assert!(player.sink_queue.is_empty());

    let meta = player.get_metadata(b"key-a").unwrap();
    assert_eq!(meta.raw, b"{\"broadc_s\":7}".to_vec());
    assert!(player.get_metadata(b"key-b").is_some());
    assert!(player.get_metadata(b"key-c").is_none());
}

#[test]
fn player_inactivity_clock_expires_without_sinks() {
    let opts = options_for_test();
    let mut player = StreamPlayer::new(opts, 0);
    // Within the timeout: keep running.
    assert!(!player.check_activity(60_000));
    // Past the timeout with nobody attached: terminate.
    assert!(player.check_activity(120_001));
}

#[test]
fn player_with_attached_sink_stays_active() {
    let opts = options_for_test();
    let mut player = StreamPlayer::new(opts, 0);
    let (sink, _body) = hyper::Body::channel();
    player.queue_sink(sink, Vec::new());
    let head = ts_buffer_with_json(b"{}");
    player.promote_queued(&head);
    assert_eq!(player.senders.len(), 1);
    // Way past the timeout, but a sink is attached: the clock refreshes.
    assert!(!player.check_activity(1_000_000));
    assert_eq!(player.last_active_ms, 1_000_000);
}

#[test]
fn segment_chunk_carries_its_data() {
    assert_eq!(SegmentChunk::Head(b"h".to_vec()).into_data(), b"h".to_vec());
    assert_eq!(SegmentChunk::Tail(b"t".to_vec()).into_data(), b"t".to_vec());
}

#[test]
fn metadata_extraction_finds_the_embedded_record() {
    let data = ts_buffer_with_json(b"{\"broadc_s\":7,\"cmd\":\"x\"}");
    let meta = extract_metadata(&data).unwrap();
    assert_eq!(meta.raw, b"{\"broadc_s\":7,\"cmd\":\"x\"}".to_vec());
}

#[test]
fn metadata_extraction_joins_a_record_split_over_two_packets() {
    let mut data = vec![0u8; 5 * 188];
    // Head: from the opening brace to the end of the fourth packet.
    let head = b"{\"broadc_s\":";
    let start = 4 * 188 - head.len();
    data[start..start + head.len()].copy_from_slice(head);
    // Continuation: right-aligned in the fifth packet, padded with 0xFF.
    for b in data[4 * 188..5 * 188 - 2].iter_mut() {
        *b = 0xFF;
    }
    data[5 * 188 - 2] = b'7';
    data[5 * 188 - 1] = b'}';
    let meta = extract_metadata(&data).unwrap();
    assert_eq!(meta.raw, b"{\"broadc_s\":7}".to_vec());
}

#[test]
fn metadata_extraction_of_truncated_buffer_is_none() {
    assert!(extract_metadata(b"").is_none());
    assert!(extract_metadata(&vec![0u8; 100]).is_none());
    assert!(extract_metadata(&vec![0u8; 600]).is_none());
}

#[test]
fn metadata_extraction_without_json_is_none() {
    // No opening brace anywhere in the fourth packet.
    assert!(extract_metadata(&vec![0u8; 5 * 188]).is_none());
    // An opening brace whose candidate is not JSON.
    let data = ts_buffer_with_json(b"{not json}");
    assert!(extract_metadata(&data).is_none());
}

#[test]
fn loop_outcomes_match_the_terminal_states() {
    assert!(matches!(
        loop_outcome(
            FetchEvent::PlaylistFailed(ApiError::Http(HttpError::BadStatus(500))),
            false
        ),
        Some(StreamPlayerError::FetchPlaylistFail(_))
    ));
    assert!(matches!(
        loop_outcome(
            FetchEvent::SegmentFailed(HttpError::NetworkError(b"gone".to_vec())),
            false
        ),
        Some(StreamPlayerError::FetchSegmentFail(_))
    ));
    assert!(matches!(
        loop_outcome(FetchEvent::FetchTimedOut, false),
        Some(StreamPlayerError::TooLongToFetch)
    ));
    assert!(matches!(
        loop_outcome(FetchEvent::SegmentEmpty, false),
        Some(StreamPlayerError::EmptySegment)
    ));
    assert!(loop_outcome(FetchEvent::Completed, false).is_none());
    assert!(matches!(
        loop_outcome(FetchEvent::Completed, true),
        Some(StreamPlayerError::InactiveTooLong)
    ));
}

#[test]
fn float_fields_accept_the_special_words() {
    // The playlist time fields use standard float parsing, specials
    // included.
    let text = "#EXTM3U\n\
                #EXT-X-VERSION:3\n\
                #EXT-X-TARGETDURATION:6\n\
                #EXT-X-MEDIA-SEQUENCE:100\n\
                #EXT-X-TWITCH-ELAPSED-SECS:inf\n\
                #EXT-X-TWITCH-TOTAL-SECS:-NaN\n\
                #EXTINF:2.000,\n\
                http://video.example/seg100.ts\n";
    let playlist = twitchd::m3u8::parse_playlist(text.as_bytes()).unwrap();
    assert_eq!(playlist.twitch_elapsed_secs, b"inf".to_vec());
    assert_eq!(playlist.twitch_total_secs, b"-NaN".to_vec());
}
