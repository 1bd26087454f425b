use voicebot::metadata::{format_description, get_link_content, MetadataParseError, YtInfo};

#[test]
fn all_fields_extract_from_a_full_page() {
    let page = "prefix \"videoDetails\":{\"title\":\"My Song\",\
                \"lengthSeconds\":\"212\",\
                \"thumbnails\":[{\"url\":\"https://img.example/x.jpg?sqp=abc\",\"w\":1},\
                \"author\":\"Some Artist\",\
                \"shortDescription\":\"A fine tune.\",\
                \"isLiveContent\":false} trailer";
    let info = get_link_content(page, "https://w/x".to_string()).unwrap();
    assert_eq!(info._get_yt_link(), "https://w/x");
    assert_eq!(info.get_yt_desc(), "A fine tune.");
    assert_eq!(info._yt_title, "My Song");
    assert_eq!(info._yt_length_sec, "212");
    assert_eq!(info._yt_thumbnail, "https://img.example/x.jpg");
    assert_eq!(info._yt_author, "Some Artist");
    assert!(!info._is_live);
}

#[test]
fn missing_live_flag_fails_the_whole_extraction() {
    let page = "\"title\":\"My Song\",\"shortDescription\":\"text\",";
    let r = get_link_content(page, "l".to_string());
    assert_eq!(r.err(), Some(MetadataParseError));
}

#[test]
fn other_fields_degrade_independently() {
    let page = "nothing else but \"isLiveContent\":true here";
    let info = get_link_content(page, "l".to_string()).unwrap();
    assert!(info._is_live);
    assert_eq!(info.get_yt_desc(), "");
    assert_eq!(info._yt_title, "");
    assert_eq!(info._yt_length_sec, "");
    assert_eq!(info._yt_thumbnail, "");
    assert_eq!(info._yt_author, "");
}

#[test]
fn garbled_live_flag_fails_the_extraction() {
    let page = "\"isLiveContent\":maybe";
    assert!(get_link_content(page, "l".to_string()).is_err());
    let twice = "\"isLiveContent\":true \"isLiveContent\":true";
    assert!(get_link_content(twice, "l".to_string()).is_err());
}

#[test]
fn thumbnail_is_cut_at_its_query_string() {
    let page = "\"thumbnails\":[{\"url\":\"http://i/x.png?p=1\",\"isLiveContent\":false";
    let info = get_link_content(page, "l".to_string()).unwrap();
    assert_eq!(info._yt_thumbnail, "http://i/x.png");
}

#[test]
fn descriptor_defaults_are_empty() {
    let d = YtInfo::default();
    assert_eq!(d.get_yt_desc(), "");
    assert_eq!(d._get_yt_link(), "");
    assert!(!d._is_live);
}

#[test]
fn descriptor_setters_round_trip() {
    let mut d = YtInfo::default();
    d._set_yt_link("L".to_string());
    d._set_yt_desc("D".to_string());
    assert_eq!(d._get_yt_link(), "L");
    assert_eq!(d.get_yt_desc(), "D");
}

#[test]
fn description_is_normalized_for_replies() {
    let raw = "line one\\nvisit https://example.com or http://other.net\n\nend";
    let formatted = format_description(raw);
    assert_eq!(
        formatted,
        "line one\nvisit [http][//]example.com or [http][//]other.net\nend"
    );
}

#[test]
fn long_descriptions_are_truncated() {
    let raw = "x".repeat(3000);
    let formatted = format_description(&raw);
    assert_eq!(formatted.chars().count(), 1999);
}

#[test]
fn doubled_line_breaks_collapse_once_left_to_right() {
    assert_eq!(format_description("a\n\n\n\nb"), "a\n\nb");
    assert_eq!(format_description("a\n\n\nb"), "a\n\nb");
}
