use filecache::digest;
use filecache::key_for;
use filecache::normalize_request;

#[test]
fn digest_is_deterministic() {
    let b = b"some file content";
    assert_eq!(digest(b), digest(b));
    assert_eq!(digest(b""), digest(b""));
}

#[test]
fn digest_distinguishes_buffers() {
    assert_ne!(digest(b"abc"), digest(b"abd"));
    assert_ne!(digest(b""), digest(b"a"));
    assert_ne!(digest(b"x"), digest(b"xx"));
}

#[test]
fn digest_of_empty_buffer_is_the_known_value() {
    assert_eq!(
        digest(b""),
        "e3b0c44298fc1c149afbf4c8996fb92427ae41e4649b934ca495991b7852b855"
    );
}

#[test]
fn digest_is_lowercase_hex_of_fixed_width() {
    for b in [&b""[..], &b"x"[..], &b"hello world, a longer buffer"[..]] {
        let h = digest(b);
        assert_eq!(h.len(), 64);
        assert!(h.chars().all(|c| c.is_ascii_hexdigit() && !c.is_ascii_uppercase()));
    }
}

#[test]
fn key_strips_the_root_prefix() {
    assert_eq!(key_for("www", "www/index.html"), "/index.html");
    assert_eq!(key_for("www", "www/sub/a.txt"), "/sub/a.txt");
    assert_eq!(key_for("www/", "www/a"), "/a");
}

#[test]
fn key_keeps_a_path_the_root_does_not_prefix() {
    assert_eq!(key_for("www", "/etc/motd"), "/etc/motd");
    assert_eq!(key_for("root", "elsewhere/x"), "/elsewhere/x");
}

#[test]
fn key_has_a_single_leading_separator() {
    assert_eq!(key_for("", "/a.txt"), "/a.txt");
    assert_eq!(key_for("www", "www///x"), "/x");
    assert_eq!(key_for("", "///x"), "/x");
}

#[test]
fn key_of_the_root_itself_is_the_bare_separator() {
    assert_eq!(key_for("www", "www"), "/");
}

#[test]
fn request_for_a_directory_maps_to_its_index() {
    assert_eq!(normalize_request("/"), "/index.html");
    assert_eq!(normalize_request("/docs/"), "/docs/index.html");
}

#[test]
fn request_for_a_file_is_its_own_key() {
    assert_eq!(normalize_request("/a.txt"), "/a.txt");
    assert_eq!(normalize_request(""), "");
}
