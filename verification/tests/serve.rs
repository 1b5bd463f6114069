use hochanh::serve::{content_type_for, request_relative_path};

#[test]
fn request_paths() {
    assert_eq!(request_relative_path("/index.html"), "index.html");
    assert_eq!(request_relative_path("/"), "index.html");
    assert_eq!(request_relative_path("/course/?x=1"), "course/index.html");
    assert_eq!(request_relative_path("//css/style.css?v=2"), "css/style.css");
    assert_eq!(request_relative_path("/a?b/"), "a");
}

#[test]
fn content_types() {
    assert_eq!(content_type_for(Some("css")), "text/css; charset=utf-8");
    assert_eq!(content_type_for(Some("html")), "text/html; charset=utf-8");
    assert_eq!(content_type_for(Some("png")), "application/octet-stream");
    assert_eq!(content_type_for(None), "application/octet-stream");
}
