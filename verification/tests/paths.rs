use upload_engine::path::{file_name, has_file_name};
use upload_engine::url::{create_session_url, percent_encode_path};

#[test]
fn file_name_is_what_follows_the_last_separator() {
    assert_eq!(file_name("/a/b/c.txt"), "c.txt");
    assert_eq!(file_name("c.txt"), "c.txt");
    assert_eq!(file_name("/c.txt"), "c.txt");
    assert_eq!(file_name("a//b"), "b");
    assert_eq!(file_name("/日本/語.txt"), "語.txt");
}

#[test]
fn file_name_is_empty_without_a_file() {
    assert_eq!(file_name(""), "");
    assert_eq!(file_name("/"), "");
    assert_eq!(file_name("/a/b/"), "");
}

#[test]
fn unreserved_bytes_stand_for_themselves() {
    assert_eq!(
        percent_encode_path("/AZaz09/-_.!~*'()"),
        "/AZaz09/-_.!~*'()"
    );
}

#[test]
fn other_bytes_are_escaped_in_upper_case_hex() {
    assert_eq!(percent_encode_path("a b"), "a%20b");
    assert_eq!(percent_encode_path("100%"), "100%25");
    assert_eq!(percent_encode_path("a+b=c&d"), "a%2Bb%3Dc%26d");
    assert_eq!(percent_encode_path("q?x#y"), "q%3Fx%23y");
    assert_eq!(percent_encode_path("\u{7f}\n"), "%7F%0A");
    assert_eq!(percent_encode_path("é"), "%C3%A9");
    assert_eq!(percent_encode_path("語"), "%E8%AA%9E");
    assert_eq!(percent_encode_path("😀"), "%F0%9F%98%80");
    assert_eq!(percent_encode_path(""), "");
}

#[test]
fn session_url_wraps_the_encoded_path() {
    assert_eq!(
        create_session_url("/dir/my file.txt"),
        "https://graph.microsoft.com/v1.0/me/drive/root:/dir/my%20file.txt:/createUploadSession"
    );
}

#[test]
fn path_names_a_file_unless_it_is_empty_or_ends_in_a_separator() {
    assert!(has_file_name("/a/b"));
    assert!(has_file_name("b"));
    assert!(has_file_name("/日本/語"));
    assert!(!has_file_name(""));
    assert!(!has_file_name("/"));
    assert!(!has_file_name("/a/"));
}
