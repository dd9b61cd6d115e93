use twitchd::m3u8::{parse_playlist, parse_stream_index, ParseError};
use twitchd::types::MediaType;

fn simple_playlist_text() -> Vec<u8> {
    let text = "#EXTM3U\n\
                #EXT-X-VERSION:3\n\
                #EXT-X-TARGETDURATION:6\n\
                #EXT-X-MEDIA-SEQUENCE:100\n\
                #EXT-X-TWITCH-ELAPSED-SECS:123.456\n\
                #EXT-X-TWITCH-TOTAL-SECS:4567.890\n\
                #EXTINF:2.000,\n\
                http://video.example/seg100.ts\n\
                #EXTINF:2.000,\n\
                http://video.example/seg101.ts\n";
    text.as_bytes().to_vec()
}

fn simple_index_text() -> Vec<u8> {
    let text = "#EXTM3U\n\
                #EXT-X-TWITCH-INFO:NODE=\"node1\",MANIFEST-NODE=\"node1\",MANIFEST-NODE-TYPE=\"weaver_cluster\",CLUSTER=\"c1\",MANIFEST-CLUSTER=\"c1\",SUPPRESS=\"false\",SERVER-TIME=\"1554000000.00\",TRANSCODESTACK=\"2017\",USER-IP=\"203.0.113.4\",SERVING-ID=\"abc123\",ABS=\"false\",BROADCAST-ID=\"123456\",STREAM-TIME=\"1000.5\"\n\
                #EXT-X-MEDIA:TYPE=VIDEO,GROUP-ID=\"chunked\",NAME=\"1080p60 (source)\",AUTOSELECT=YES,DEFAULT=YES\n\
                #EXT-X-STREAM-INF:PROGRAM-ID=1,BANDWIDTH=6000000,RESOLUTION=1920x1080,CODECS=\"avc1.64002A,mp4a.40.2\",VIDEO=\"chunked\"\n\
                https://video.example/chunked.m3u8\n\
                #EXT-X-MEDIA:TYPE=VIDEO,GROUP-ID=\"720p60\",NAME=\"720p60\",AUTOSELECT=YES,DEFAULT=YES\n\
                #EXT-X-STREAM-INF:PROGRAM-ID=1,BANDWIDTH=3000000,RESOLUTION=1280x720,CODECS=\"avc1.4D401F,mp4a.40.2\",VIDEO=\"720p60\"\n\
                https://video.example/720p60.m3u8\n";
    text.as_bytes().to_vec()
}

#[test]
fn parse_simple_playlist() {
    let playlist = parse_playlist(&simple_playlist_text()).unwrap();
    assert_eq!(playlist.version, 3);
    assert_eq!(playlist.target_duration, 6);
    assert_eq!(playlist.media_sequence, 100);
    assert_eq!(playlist.twitch_elapsed_secs, b"123.456".to_vec());
    assert_eq!(playlist.twitch_total_secs, b"4567.890".to_vec());
    assert_eq!(playlist.segments.len(), 2);
    assert_eq!(
        playlist.segments[0].location,
        b"http://video.example/seg100.ts".to_vec()
    );
    assert_eq!(
        playlist.segments[1].location,
        b"http://video.example/seg101.ts".to_vec()
    );
}

#[test]
fn parse_playlist_with_prefetch_segments() {
    let text = "#EXTM3U\n\
                #EXT-X-VERSION:3\n\
                #EXT-X-TARGETDURATION:6\n\
                #EXT-X-MEDIA-SEQUENCE:100\n\
                #EXT-X-TWITCH-ELAPSED-SECS:123.456\n\
                #EXT-X-TWITCH-TOTAL-SECS:4567.890\n\
                #EXTINF:2.000,\n\
                http://video.example/seg100.ts\n\
                #EXT-X-TWITCH-PREFETCH:http://video.example/seg101.ts\n\
                #EXT-X-TWITCH-PREFETCH:http://video.example/seg102.ts\n";
    let playlist = parse_playlist(text.as_bytes()).unwrap();
    assert_eq!(playlist.segments.len(), 3);
    assert_eq!(
        playlist.segments[1].location,
        b"http://video.example/seg101.ts".to_vec()
    );
    assert_eq!(
        playlist.segments[2].location,
        b"http://video.example/seg102.ts".to_vec()
    );
}

#[test]
fn parse_playlist_with_program_date_time() {
    let text = "#EXTM3U\n\
                #EXT-X-VERSION:3\n\
                #EXT-X-TARGETDURATION:6\n\
                #EXT-X-MEDIA-SEQUENCE:100\n\
                #EXT-X-TWITCH-ELAPSED-SECS:0.000\n\
                #EXT-X-TWITCH-TOTAL-SECS:60.000\n\
                #EXT-X-PROGRAM-DATE-TIME:2024-01-01T00:00:00.000Z\n\
                #EXTINF:2.000,\n\
                http://video.example/seg100.ts\n\
                #EXT-X-PROGRAM-DATE-TIME:2024-01-01T00:00:02.000Z\n\
                #EXTINF:2.000,\n\
                http://video.example/seg101.ts\n";
    let playlist = parse_playlist(text.as_bytes()).unwrap();
    assert_eq!(playlist.segments.len(), 2);
    assert_eq!(
        playlist.segments[0].location,
        b"http://video.example/seg100.ts".to_vec()
    );
}

#[test]
fn parse_playlist_with_map() {
    let text = "#EXTM3U\n\
                #EXT-X-VERSION:3\n\
                #EXT-X-TARGETDURATION:6\n\
                #EXT-X-MEDIA-SEQUENCE:100\n\
                #EXT-X-TWITCH-ELAPSED-SECS:0.000\n\
                #EXT-X-TWITCH-TOTAL-SECS:60.000\n\
                #EXT-X-MAP:URI=\"init.mp4\"\n\
                #EXTINF:2.000,\n\
                http://video.example/seg100.ts\n";
    let playlist = parse_playlist(text.as_bytes()).unwrap();
    assert_eq!(playlist.segments.len(), 1);
}

#[test]
fn parse_playlist_with_stiched_ads() {
    let text = "#EXTM3U\n\
                #EXT-X-VERSION:3\n\
                #EXT-X-TARGETDURATION:6\n\
                #EXT-X-MEDIA-SEQUENCE:100\n\
                #EXT-X-TWITCH-ELAPSED-SECS:0.000\n\
                #EXT-X-TWITCH-TOTAL-SECS:60.000\n\
                #EXT-X-DATERANGE:ID=\"stitched-ad\",START-DATE=\"2024-01-01T00:00:00.000Z\"\n\
                #EXT-X-DISCONTINUITY\n\
                #EXT-X-SCTE35-OUT:CUE=\"ad\"\n\
                #EXTINF:2.000,\n\
                http://video.example/seg100.ts\n";
    let playlist = parse_playlist(text.as_bytes()).unwrap();
    assert_eq!(playlist.segments.len(), 1);
    assert_eq!(
        playlist.segments[0].location,
        b"http://video.example/seg100.ts".to_vec()
    );
}

#[test]
fn parse_simple_index() {
    let index = parse_stream_index(&simple_index_text()).unwrap();
    assert_eq!(index.twitch_info.node, b"node1".to_vec());
    assert_eq!(index.twitch_info.suppress, false);
    assert_eq!(index.twitch_info.server_time, b"1554000000.00".to_vec());
    assert_eq!(index.twitch_info.user_ip, b"203.0.113.4".to_vec());
    assert_eq!(index.playlist_infos.len(), 2);
    assert_eq!(index.restricted_playlists_infos.len(), 0);
    let first = &index.playlist_infos[0];
    assert!(matches!(first.media_info.type_, MediaType::Video));
    assert_eq!(first.media_info.name, b"1080p60 (source)".to_vec());
    assert_eq!(first.media_info.autoselect, true);
    assert_eq!(first.stream_info.program_id, Some(1));
    assert_eq!(first.stream_info.bandwidth, 6000000);
    assert_eq!(first.stream_info.resolution.width, 1920);
    assert_eq!(first.stream_info.resolution.height, 1080);
    assert_eq!(first.stream_info.codecs, b"avc1.64002A,mp4a.40.2".to_vec());
    assert_eq!(first.url, b"https://video.example/chunked.m3u8".to_vec());
}

#[test]
fn parse_index_with_restricted_playlist() {
    let text = "#EXTM3U\n\
                #EXT-X-TWITCH-INFO:NODE=\"node1\",MANIFEST-NODE=\"node1\",MANIFEST-NODE-TYPE=\"weaver_cluster\",CLUSTER=\"c1\",MANIFEST-CLUSTER=\"c1\",SUPPRESS=\"false\",SERVER-TIME=\"1554000000.00\",TRANSCODESTACK=\"2017\",USER-IP=\"203.0.113.4\",SERVING-ID=\"abc123\",ABS=\"false\",BROADCAST-ID=\"123456\",STREAM-TIME=\"1000.5\"\n\
                #EXT-X-TWITCH-RESTRICTED:GROUP-ID=\"restricted\",NAME=\"audio_only\",RESTRICTION=\"chat\"\n\
                #EXT-X-MEDIA:TYPE=VIDEO,GROUP-ID=\"chunked\",NAME=\"1080p60\",AUTOSELECT=YES,DEFAULT=YES\n\
                #EXT-X-STREAM-INF:PROGRAM-ID=1,BANDWIDTH=6000000,RESOLUTION=1920x1080,CODECS=\"avc1\",VIDEO=\"chunked\"\n\
                https://video.example/chunked.m3u8\n";
    let index = parse_stream_index(text.as_bytes()).unwrap();
    assert_eq!(index.restricted_playlists_infos.len(), 1);
    assert_eq!(
        index.restricted_playlists_infos[0].group_id,
        b"restricted".to_vec()
    );
    assert_eq!(
        index.restricted_playlists_infos[0].name,
        b"audio_only".to_vec()
    );
    assert_eq!(
        index.restricted_playlists_infos[0].restriction,
        b"chat".to_vec()
    );
    assert_eq!(index.playlist_infos.len(), 1);
}

#[test]
fn parse_index_without_program_id() {
    let text = "#EXTM3U\n\
                #EXT-X-TWITCH-INFO:NODE=\"node1\",MANIFEST-NODE=\"node1\",MANIFEST-NODE-TYPE=\"weaver_cluster\",CLUSTER=\"c1\",MANIFEST-CLUSTER=\"c1\",SUPPRESS=\"false\",SERVER-TIME=\"1554000000.00\",TRANSCODESTACK=\"2017\",USER-IP=\"203.0.113.4\",SERVING-ID=\"abc123\",ABS=\"false\",BROADCAST-ID=\"123456\",STREAM-TIME=\"1000.5\"\n\
                #EXT-X-MEDIA:TYPE=VIDEO,GROUP-ID=\"chunked\",NAME=\"1080p60\",AUTOSELECT=YES,DEFAULT=YES\n\
                #EXT-X-STREAM-INF:BANDWIDTH=6000000,RESOLUTION=1920x1080,CODECS=\"avc1\",VIDEO=\"chunked\"\n\
                https://video.example/chunked.m3u8\n";
    let index = parse_stream_index(text.as_bytes()).unwrap();
    assert_eq!(index.playlist_infos[0].stream_info.program_id, None);
}

#[test]
fn playlist_missing_header_is_structured_error() {
    let text = "#EXTM3U\n\
                #EXT-X-TARGETDURATION:6\n";
    match parse_playlist(text.as_bytes()) {
        Err(ParseError::MissingTag(tag)) => assert_eq!(tag, b"#EXT-X-VERSION:".to_vec()),
        other => panic!("expected a missing-tag error, got {:?}", other.is_ok()),
    }
}

#[test]
fn playlist_bad_version_is_structured_error() {
    let text = "#EXTM3U\n\
                #EXT-X-VERSION:abc\n\
                #EXT-X-TARGETDURATION:6\n\
                #EXT-X-MEDIA-SEQUENCE:100\n\
                #EXT-X-TWITCH-ELAPSED-SECS:0.000\n\
                #EXT-X-TWITCH-TOTAL-SECS:60.000\n\
                #EXTINF:2.000,\n\
                http://video.example/seg100.ts\n";
    match parse_playlist(text.as_bytes()) {
        Err(ParseError::BadValue(tag, raw)) => {
            assert_eq!(tag, b"#EXT-X-VERSION:".to_vec());
            assert_eq!(raw, b"abc".to_vec());
        }
        other => panic!("expected a bad-value error, got {:?}", other.is_ok()),
    }
}

#[test]
fn playlist_without_segments_is_error() {
    let text = "#EXTM3U\n\
                #EXT-X-VERSION:3\n\
                #EXT-X-TARGETDURATION:6\n\
                #EXT-X-MEDIA-SEQUENCE:100\n\
                #EXT-X-TWITCH-ELAPSED-SECS:0.000\n\
                #EXT-X-TWITCH-TOTAL-SECS:60.000\n";
    assert!(parse_playlist(text.as_bytes()).is_err());
}

#[test]
fn index_missing_required_key_is_structured_error() {
    let text = "#EXTM3U\n\
                #EXT-X-TWITCH-INFO:NODE=\"node1\"\n\
                #EXT-X-MEDIA:TYPE=VIDEO,GROUP-ID=\"chunked\",NAME=\"1080p60\",AUTOSELECT=YES,DEFAULT=YES\n\
                #EXT-X-STREAM-INF:BANDWIDTH=6000000,RESOLUTION=1920x1080,CODECS=\"avc1\",VIDEO=\"chunked\"\n\
                https://video.example/chunked.m3u8\n";
    match parse_stream_index(text.as_bytes()) {
        Err(ParseError::MissingKey(key)) => assert_eq!(key, b"MANIFEST-NODE".to_vec()),
        other => panic!("expected a missing-key error, got {:?}", other.is_ok()),
    }
}

#[test]
fn index_bad_resolution_is_structured_error() {
    let text = "#EXTM3U\n\
                #EXT-X-TWITCH-INFO:NODE=\"node1\",MANIFEST-NODE=\"node1\",MANIFEST-NODE-TYPE=\"weaver_cluster\",CLUSTER=\"c1\",MANIFEST-CLUSTER=\"c1\",SUPPRESS=\"false\",SERVER-TIME=\"1554000000.00\",TRANSCODESTACK=\"2017\",USER-IP=\"203.0.113.4\",SERVING-ID=\"abc123\",ABS=\"false\",BROADCAST-ID=\"123456\",STREAM-TIME=\"1000.5\"\n\
                #EXT-X-MEDIA:TYPE=VIDEO,GROUP-ID=\"chunked\",NAME=\"1080p60\",AUTOSELECT=YES,DEFAULT=YES\n\
                #EXT-X-STREAM-INF:BANDWIDTH=6000000,RESOLUTION=bogus,CODECS=\"avc1\",VIDEO=\"chunked\"\n\
                https://video.example/chunked.m3u8\n";
    match parse_stream_index(text.as_bytes()) {
        Err(ParseError::BadValue(key, raw)) => {
            assert_eq!(key, b"RESOLUTION".to_vec());
            assert_eq!(raw, b"bogus".to_vec());
        }
        other => panic!("expected a bad-value error, got {:?}", other.is_ok()),
    }
}

#[test]
fn attribute_values_may_be_quoted_or_bare_and_duplicates_keep_last() {
    // The playlist grammar reads attributes through the same machinery;
    // exercise it via a media line whose NAME appears twice.
    let text = "#EXTM3U\n\
                #EXT-X-TWITCH-INFO:NODE=a,MANIFEST-NODE=a,MANIFEST-NODE-TYPE=a,CLUSTER=a,MANIFEST-CLUSTER=a,SUPPRESS=true,SERVER-TIME=1.0,TRANSCODESTACK=a,USER-IP=1.2.3.4,SERVING-ID=a,ABS=no,BROADCAST-ID=1,STREAM-TIME=2.0\n\
                #EXT-X-MEDIA:TYPE=VIDEO,GROUP-ID=g,NAME=first,NAME=\"second\",AUTOSELECT=true,DEFAULT=false\n\
                #EXT-X-STREAM-INF:BANDWIDTH=1,RESOLUTION=2x3,CODECS=c,VIDEO=v\n\
                u\n";
    let index = parse_stream_index(text.as_bytes()).unwrap();
    assert_eq!(index.twitch_info.suppress, true);
    assert_eq!(index.twitch_info.abs, false);
    assert_eq!(index.playlist_infos[0].media_info.name, b"second".to_vec());
    assert_eq!(index.playlist_infos[0].stream_info.resolution.width, 2);
    assert_eq!(index.playlist_infos[0].stream_info.resolution.height, 3);
}

#[test]
fn playlist_round_trip_preserves_fields_and_segment_order() {
    let playlist = parse_playlist(&simple_playlist_text()).unwrap();
    let rendered = twitchd::m3u8::render_playlist(&playlist);
    let reparsed = parse_playlist(&rendered).unwrap();
    assert_eq!(reparsed.version, playlist.version);
    assert_eq!(reparsed.target_duration, playlist.target_duration);
    assert_eq!(reparsed.media_sequence, playlist.media_sequence);
    assert_eq!(reparsed.segments.len(), playlist.segments.len());
    for (a, b) in reparsed.segments.iter().zip(playlist.segments.iter()) {
        assert_eq!(a.location, b.location);
    }
}
