use notify_lsp_proxy::uri::{file_uri_to_path, path_to_file_uri};

#[test]
fn unix_paths_keep_their_root() {
    assert_eq!(file_uri_to_path("file:///foo"), Some(String::from("/foo")));
    assert_eq!(file_uri_to_path("file:///"), Some(String::from("/")));
    assert_eq!(file_uri_to_path("file://"), Some(String::new()));
    assert_eq!(file_uri_to_path("file://host/share"), Some(String::from("host/share")));
}

#[test]
fn windows_paths_lose_the_slash_of_the_uri() {
    assert_eq!(file_uri_to_path("file:///C:/proj"), Some(String::from("C:/proj")));
    assert_eq!(file_uri_to_path("file:///C:"), Some(String::from("C:")));
    assert_eq!(file_uri_to_path("file:///é:/x"), Some(String::from("é:/x")));
}

#[test]
fn other_schemes_name_no_path() {
    assert_eq!(file_uri_to_path("http://example.com"), None);
    assert_eq!(file_uri_to_path("file:/foo"), None);
    assert_eq!(file_uri_to_path(""), None);
    assert_eq!(file_uri_to_path("FILE:///foo"), None);
}

#[test]
fn nothing_is_decoded() {
    assert_eq!(file_uri_to_path("file:///a%20b"), Some(String::from("/a%20b")));
}

#[test]
fn paths_become_uris() {
    assert_eq!(path_to_file_uri("/home/x/a.cs"), "file:///home/x/a.cs");
    assert_eq!(path_to_file_uri("C:\\proj\\a.cs"), "file:///C:/proj/a.cs");
    assert_eq!(path_to_file_uri("\\\\host\\share"), "file:////host/share");
    assert_eq!(path_to_file_uri("relative"), "file:///relative");
    assert_eq!(path_to_file_uri(""), "file:///");
    assert_eq!(path_to_file_uri("/ä b"), "file:///ä b");
}

#[test]
fn paths_come_back_from_their_uris() {
    for path in ["/", "/a/b.cs", "C:/proj/a.cs", "/ü/x"] {
        assert_eq!(file_uri_to_path(&path_to_file_uri(path)), Some(String::from(path)));
    }
    assert_eq!(file_uri_to_path(&path_to_file_uri("C:\\a")), Some(String::from("C:/a")));
    assert_eq!(file_uri_to_path(&path_to_file_uri("/C:/a")), Some(String::from("C:/a")));
    assert_eq!(file_uri_to_path(&path_to_file_uri("rel")), Some(String::from("/rel")));
}
