use twitchd::api::{
    access_token_url, parse_query_params, route, status_of, stream_index_url, ApiError,
    ApiParams, HttpError, Route, ServiceError,
};
use twitchd::index_cache::IndexError;
use twitchd::options::{
    parse_byte_size, parse_channel, parse_duration, parse_runtime_strategy, RuntimeStrategy,
};
use twitchd::select::find_playlist;
use twitchd::types::{
    AccessToken, ApproxQuality, MediaInfo, MediaType, PlaylistInfo, Quality, Resolution,
    StreamIndex, StreamInfo, TwitchInfo,
};

fn variant(name: &str, bandwidth: u64) -> PlaylistInfo {
    PlaylistInfo {
        media_info: MediaInfo {
            type_: MediaType::Video,
            group_id: name.as_bytes().to_vec(),
            name: name.as_bytes().to_vec(),
            autoselect: true,
            default: true,
        },
        stream_info: StreamInfo {
            program_id: None,
            bandwidth,
            resolution: Resolution {
                width: 1280,
                height: 720,
            },
            codecs: b"avc1".to_vec(),
            video: name.as_bytes().to_vec(),
        },
        url: format!("https://video.example/{}.m3u8", name).into_bytes(),
    }
}

fn index_with(variants: Vec<PlaylistInfo>) -> StreamIndex {
    StreamIndex {
        twitch_info: TwitchInfo {
            node: b"n".to_vec(),
            manifest_node: b"n".to_vec(),
            manifest_node_type: b"t".to_vec(),
            cluster: b"c".to_vec(),
            manifest_cluster: b"c".to_vec(),
            suppress: false,
            server_time: b"1.0".to_vec(),
            transcode_stack: b"s".to_vec(),
            user_ip: b"203.0.113.4".to_vec(),
            serving_id: b"id".to_vec(),
            abs: false,
            broadcast_id: b"b".to_vec(),
            stream_time: b"2.0".to_vec(),
        },
        playlist_infos: variants,
        restricted_playlists_infos: Vec::new(),
    }
}

#[test]
fn quality_from_best_and_worst_resolve_by_bandwidth() {
    let index = index_with(vec![
        variant("480p", 1_500_000),
        variant("1080p60", 6_000_000),
        variant("720p60", 3_000_000),
    ]);

    let best = find_playlist(&index, &Quality::from_label(b"best")).unwrap();
    assert_eq!(best.media_info.name, b"1080p60".to_vec());

    let worst = find_playlist(&index, &Quality::from_label(b"WORST")).unwrap();
    assert_eq!(worst.media_info.name, b"480p".to_vec());
}

#[test]
fn quality_exact_name_resolves_or_falls_back_to_first() {
    let index = index_with(vec![
        variant("1080p60", 6_000_000),
        variant("720p60", 3_000_000),
    ]);

    let exact = find_playlist(&index, &Quality::from_label(b"720p60")).unwrap();
    assert_eq!(exact.media_info.name, b"720p60".to_vec());

    // The lookup is case-insensitive on both sides.
    let exact_upper = find_playlist(&index, &Quality::from_label(b"720P60")).unwrap();
    assert_eq!(exact_upper.media_info.name, b"720p60".to_vec());

    // No such variant: the index's first entry stands in.
    let fallback = find_playlist(&index, &Quality::from_label(b"160p")).unwrap();
    assert_eq!(fallback.media_info.name, b"1080p60".to_vec());

    // An empty index resolves to nothing.
    let empty = index_with(Vec::new());
    assert!(find_playlist(&empty, &Quality::Approx(ApproxQuality::Best)).is_none());
}

#[test]
fn quality_best_ties_take_the_last_worst_ties_the_first() {
    let index = index_with(vec![
        variant("a", 1000),
        variant("b", 9000),
        variant("c", 9000),
        variant("d", 1000),
    ]);
    let best = find_playlist(&index, &Quality::Approx(ApproxQuality::Best)).unwrap();
    assert_eq!(best.media_info.name, b"c".to_vec());
    let worst = find_playlist(&index, &Quality::Approx(ApproxQuality::Worst)).unwrap();
    assert_eq!(worst.media_info.name, b"a".to_vec());
}

#[test]
fn access_token_url_carries_channel_and_oauth() {
    let url = access_token_url(b"SomeChannel", None);
    assert_eq!(
        String::from_utf8(url).unwrap(),
        "https://api.twitch.tv/api/channels/somechannel/access_token?\
         platform=_&player_backend=mediaplayer&player_type=site"
    );

    let token = b"se cret/token".to_vec();
    let url = access_token_url(b"chan", Some(&token));
    assert_eq!(
        String::from_utf8(url).unwrap(),
        "https://api.twitch.tv/api/channels/chan/access_token?\
         platform=_&player_backend=mediaplayer&player_type=site&oauth_token=se+cret%2Ftoken"
    );
}

#[test]
fn stream_index_url_carries_token_and_signature() {
    let token = AccessToken {
        token: b"{\"chan\"}".to_vec(),
        signature: b"sig123".to_vec(),
    };
    let url = stream_index_url(b"Chan", &token);
    assert_eq!(
        String::from_utf8(url).unwrap(),
        "http://usher.twitch.tv/api/channel/hls/chan.m3u8?\
         token=%7B%22chan%22%7D&sig=sig123&allow_source=true&fast_bread=true&\
         baking_bread=true&baking_brownies=true&baking_brownies_timeout=1050&\
         playlist_include_framerate=true&cdm=wv&player_backend=mediaplayer&\
         rtqos=control&preferred_codecs=avc1"
    );
}

#[test]
fn query_params_decode_and_later_duplicates_win() {
    let params = parse_query_params(b"channel=Some%20Channel&quality=best&quality=720p60&x=a+b");
    assert_eq!(params.len(), 4);
    assert_eq!(params[0].0, b"channel".to_vec());
    assert_eq!(params[0].1, b"Some Channel".to_vec());
    assert_eq!(params[3].1, b"a b".to_vec());

    let api = ApiParams { params };
    assert_eq!(api.get_opt(b"quality").unwrap(), b"720p60".to_vec());
    assert!(api.get_opt(b"missing").is_none());
}

#[test]
fn query_params_handle_empty_and_bare_pieces() {
    let params = parse_query_params(b"a&&b=1&%41=%6a&bad=%zz");
    assert_eq!(params.len(), 4);
    assert_eq!(params[0].0, b"a".to_vec());
    assert_eq!(params[0].1, b"".to_vec());
    assert_eq!(params[1].0, b"b".to_vec());
    assert_eq!(params[2].0, b"A".to_vec());
    assert_eq!(params[2].1, b"j".to_vec());
    // An invalid escape stands for itself.
    assert_eq!(params[3].1, b"%zz".to_vec());
}

#[test]
fn missing_channel_is_a_bad_request() {
    let api = ApiParams {
        params: parse_query_params(b"quality=best"),
    };
    match api.get_channel() {
        Err(ServiceError::BadRequest(key)) => assert_eq!(key, b"channel".to_vec()),
        _ => panic!("expected a bad request"),
    }
}

#[test]
fn stream_key_reads_channel_and_quality_with_best_default() {
    let api = ApiParams {
        params: parse_query_params(b"channel=ChanName"),
    };
    let key = api.get_stream().unwrap();
    assert_eq!(key.channel.name, b"channame".to_vec());
    assert!(matches!(key.quality, Quality::Approx(ApproxQuality::Best)));

    let api = ApiParams {
        params: parse_query_params(b"channel=chan&quality=720p60"),
    };
    let key = api.get_stream().unwrap();
    match key.quality {
        Quality::Exact(name) => assert_eq!(name, b"720p60".to_vec()),
        _ => panic!("expected the exact quality"),
    }
}

#[test]
fn routing_table_matches_the_api_surface() {
    assert_eq!(route(b"GET", b"/stream_index"), Route::StreamIndex);
    assert_eq!(route(b"GET", b"/play"), Route::Play);
    assert_eq!(route(b"GET", b"/meta"), Route::Meta);
    assert_eq!(route(b"GET", b"/version"), Route::Version);
    assert_eq!(route(b"POST", b"/quit"), Route::Quit);
    assert_eq!(route(b"GET", b"/quit"), Route::NotFound);
    assert_eq!(route(b"POST", b"/play"), Route::NotFound);
    assert_eq!(route(b"GET", b"/elsewhere"), Route::NotFound);
}

#[test]
fn service_errors_map_to_400_404_500() {
    assert_eq!(status_of(&ServiceError::NotFound), 404);
    assert_eq!(status_of(&ServiceError::Index(IndexError::NotFound)), 404);
    assert_eq!(
        status_of(&ServiceError::Index(IndexError::Unexpected(b"x".to_vec()))),
        500
    );
    assert_eq!(status_of(&ServiceError::BadRequest(b"channel".to_vec())), 400);
}

#[test]
fn upstream_404_means_channel_not_found() {
    let e = ApiError::Http(HttpError::BadStatus(404));
    assert!(matches!(e.to_index_error(), IndexError::NotFound));

    let e = ApiError::Http(HttpError::BadStatus(503));
    match e.to_index_error() {
        IndexError::Unexpected(detail) => {
            assert_eq!(
                String::from_utf8(detail).unwrap(),
                "HTTP error: unexpected HTTP status: 503"
            );
        }
        _ => panic!("expected the unexpected variant"),
    }

    let e = ApiError::AccessToken(b"bad token".to_vec());
    match e.to_index_error() {
        IndexError::Unexpected(detail) => {
            assert_eq!(
                String::from_utf8(detail).unwrap(),
                "failed to decode access token: bad token"
            );
        }
        _ => panic!("expected the unexpected variant"),
    }
}

#[test]
fn durations_parse_in_seconds_and_milliseconds() {
    assert_eq!(parse_duration(b"60s"), Some(60_000));
    assert_eq!(parse_duration(b"1500ms"), Some(1500));
    assert_eq!(parse_duration(b"1000MS"), Some(1000));
    assert_eq!(parse_duration(b"5S"), Some(5000));
    assert_eq!(parse_duration(b"5"), None);
    assert_eq!(parse_duration(b"s"), None);
    assert_eq!(parse_duration(b"5m"), None);
}

#[test]
fn byte_sizes_parse_with_optional_unit() {
    assert_eq!(parse_byte_size(b"128K"), Some(128_000));
    assert_eq!(parse_byte_size(b"10M"), Some(10_000_000));
    assert_eq!(parse_byte_size(b"512"), Some(512));
    assert_eq!(parse_byte_size(b"512b"), Some(512));
    assert_eq!(parse_byte_size(b"10MB"), None);
    assert_eq!(parse_byte_size(b"M"), None);
}

#[test]
fn runtime_strategy_parses_case_insensitively() {
    assert_eq!(parse_runtime_strategy(b"single"), Some(RuntimeStrategy::Single));
    assert_eq!(parse_runtime_strategy(b"MULTI"), Some(RuntimeStrategy::Multi));
    assert_eq!(parse_runtime_strategy(b"both"), None);
}

#[test]
fn channel_arguments_strip_the_protocol_prefix() {
    assert_eq!(parse_channel(b"somechannel"), b"somechannel".to_vec());
    assert_eq!(
        parse_channel(b"twitch-player://somechannel/"),
        b"somechannel".to_vec()
    );
    assert_eq!(
        parse_channel(b"twitch-player://somechannel"),
        b"somechannel".to_vec()
    );
}
