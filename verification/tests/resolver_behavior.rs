use voicebot::commands::request_text;
use voicebot::resolver::{
    classify, default_stream_link, direct_link, extract_links, resolve_local, search_link,
    search_result_link, watch_link, PlayInput, ResolutionError,
};
use voicebot::text::chars_vec;

#[test]
fn empty_request_selects_default_stream() {
    let text = chars_vec("");
    assert_eq!(classify(&text), PlayInput::DefaultStream);
    assert_eq!(
        default_stream_link(),
        "http://astreaming.virginradio.ro:8000/virgin_aacp_64k"
    );
}

#[test]
fn whitespace_only_request_behaves_as_empty() {
    let processed = request_text("!play    ");
    assert_eq!(processed, "");
    let text = chars_vec(&processed);
    assert_eq!(classify(&text), PlayInput::DefaultStream);
}

#[test]
fn short_video_link_is_direct() {
    let text = chars_vec("https://youtu.be/abc123");
    assert!(direct_link(&text));
    assert_eq!(classify(&text), PlayInput::Direct);
}

#[test]
fn plain_http_address_is_direct() {
    assert!(direct_link(&chars_vec("http://example.com/stream")));
    assert_eq!(
        classify(&chars_vec("http://radio.example/stream.mp3")),
        PlayInput::Direct
    );
}

#[test]
fn bare_watch_address_is_direct() {
    assert!(direct_link(&chars_vec("youtube.com/watch?v=abc")));
    assert!(direct_link(&chars_vec("www.youtube.com/watch?v=abc")));
    assert!(direct_link(&chars_vec("https://www.youtube.com/watch?v=abc")));
}

#[test]
fn https_non_video_address_is_a_search() {
    assert!(!direct_link(&chars_vec("https://example.com/page")));
    assert_eq!(classify(&chars_vec("https://example.com/page")), PlayInput::Search);
}

#[test]
fn phrase_is_a_search() {
    let processed = request_text("!play lofi hip hop");
    assert_eq!(processed, "lofi+hip+hop");
    assert_eq!(classify(&chars_vec(&processed)), PlayInput::Search);
    assert_eq!(
        search_link(&processed),
        "https://www.youtube.com/results?search_query=lofi+hip+hop"
    );
}

#[test]
fn first_candidate_in_page_order_wins() {
    let page = "junk ytConfigData one {\"videoId\":\"AAA\"} two {\"videoId\":\"BBB\"} \
                dup {\"videoId\":\"AAA\"} late {\"videoId\":\"CCC\"} </script> \
                outside {\"videoId\":\"DDD\"}";
    let ids = extract_links(page).unwrap();
    assert_eq!(ids, vec!["AAA".to_string(), "BBB".to_string()]);
    let link = search_result_link(page).unwrap();
    assert_eq!(link, "https://www.youtube.com/watch?v=AAA");
}

#[test]
fn extraction_caps_at_three_matches_before_dropping_duplicates() {
    let page = "ytConfigData {\"videoId\":\"AAA\"} {\"videoId\":\"BBB\"} \
                {\"videoId\":\"CCC\"} {\"videoId\":\"DDD\"} </script>";
    let ids = extract_links(page).unwrap();
    assert_eq!(
        ids,
        vec!["AAA".to_string(), "BBB".to_string(), "CCC".to_string()]
    );
}

#[test]
fn page_without_marker_fails_resolution() {
    let r = extract_links("no marker here {\"videoId\":\"AAA\"} </script>");
    assert_eq!(r, Err(ResolutionError::MarkerMissing));
}

#[test]
fn page_without_closing_tag_fails_resolution() {
    let r = extract_links("ytConfigData {\"videoId\":\"AAA\"}");
    assert_eq!(r, Err(ResolutionError::EndMarkerMissing));
}

#[test]
fn empty_region_yields_no_candidates() {
    let page = "ytConfigData nothing of note </script>";
    assert_eq!(extract_links(page), Ok(vec![]));
    assert_eq!(search_result_link(page), Err(ResolutionError::NoCandidates));
}

#[test]
fn watch_link_appends_identifier() {
    assert_eq!(watch_link("abc123"), "https://www.youtube.com/watch?v=abc123");
}

#[test]
fn local_resolution_keeps_direct_links_verbatim() {
    assert_eq!(
        resolve_local("https://youtu.be/abc123"),
        Some("https://youtu.be/abc123".to_string())
    );
    assert_eq!(
        resolve_local(""),
        Some("http://astreaming.virginradio.ro:8000/virgin_aacp_64k".to_string())
    );
    assert_eq!(resolve_local("lofi+hip+hop"), None);
}
