use hochanh::youtube::{extract_video_id, get_embed_html, get_embed_url};

#[test]
fn test_extract_video_id() {
    assert_eq!(extract_video_id("https://www.youtube.com/watch?v=1SGCu28948U").as_deref(), Some("1SGCu28948U"));
    assert_eq!(extract_video_id("http://youtube.com/watch?v=1SGCu28948U").as_deref(), Some("1SGCu28948U"));

    assert_eq!(extract_video_id("https://www.youtube.com/watch?v=1SGCu28948U&t=120s").as_deref(), Some("1SGCu28948U"));
    assert_eq!(extract_video_id("https://www.youtube.com/watch?v=1SGCu28948U&list=PLxyz").as_deref(), Some("1SGCu28948U"));

    assert_eq!(extract_video_id("https://youtu.be/1SGCu28948U").as_deref(), Some("1SGCu28948U"));
    assert_eq!(extract_video_id("https://youtu.be/1SGCu28948U?si=yWS4-Cwon98ivVzB").as_deref(), Some("1SGCu28948U"));

    assert_eq!(extract_video_id("https://m.youtube.com/watch?v=1SGCu28948U").as_deref(), Some("1SGCu28948U"));

    assert_eq!(extract_video_id("https://www.youtube.com/embed/1SGCu28948U?si=abc").as_deref(), Some("1SGCu28948U"));

    assert_eq!(extract_video_id("https://google.com"), None);
    assert_eq!(extract_video_id("not a url"), None);
}

#[test]
fn test_get_embed_url() {
    assert_eq!(
        get_embed_url("https://youtu.be/1SGCu28948U?si=abc").as_deref(),
        Some("https://www.youtube.com/embed/1SGCu28948U")
    );
}

#[test]
fn empty_ids_are_not_videos() {
    assert_eq!(extract_video_id("https://youtu.be/"), None);
    assert_eq!(extract_video_id("https://youtu.be/?si=x"), None);
    assert_eq!(extract_video_id("https://www.youtube.com/watch?v=&t=3"), None);
    assert_eq!(extract_video_id("https://www.youtube.com/embed/"), None);
}

#[test]
fn short_link_wins_over_query() {
    // A youtu.be id is taken before any `v=` in the query.
    assert_eq!(extract_video_id("https://youtu.be/abc?v=zzz").as_deref(), Some("abc"));
    // An empty short id falls through to the query form.
    assert_eq!(extract_video_id("https://youtu.be/?v=zzz").as_deref(), Some("zzz"));
}

#[test]
fn query_id_stops_at_ampersand_only() {
    assert_eq!(extract_video_id("watch?v=a?b&c").as_deref(), Some("a?b"));
}

#[test]
fn embed_url_of_non_video_is_none() {
    assert_eq!(get_embed_url("https://google.com"), None);
    assert_eq!(get_embed_html("https://google.com"), None);
}

#[test]
fn embed_url_is_idempotent() {
    let once = get_embed_url("https://www.youtube.com/watch?v=1SGCu28948U&t=1").unwrap();
    let twice = get_embed_url(&once).unwrap();
    assert_eq!(once, twice);
    assert_eq!(extract_video_id(&once).as_deref(), Some("1SGCu28948U"));
}

#[test]
fn embed_html_wraps_player() {
    let html = get_embed_html("https://youtu.be/XYZ").unwrap();
    let expected = "<div class=\"video-wrapper\" style=\"width: 100%; aspect-ratio: 16 / 9; overflow: hidden; border-radius: 8px; box-shadow: 0 4px 6px rgba(0,0,0,0.1); background-color: #000;\">\n    <iframe src=\"https://www.youtube.com/embed/XYZ\"\n        style=\"width: 100%; height: 100%; border: none;\"\n        title=\"YouTube video player\"\n        allow=\"accelerometer; autoplay; clipboard-write; encrypted-media; gyroscope; picture-in-picture; web-share\"\n        allowfullscreen>\n    </iframe>\n</div>";
    assert_eq!(html, expected);
}

#[test]
fn non_ascii_links_are_handled_by_character() {
    assert_eq!(extract_video_id("https://youtu.be/ñandú?x").as_deref(), Some("ñandú"));
}
