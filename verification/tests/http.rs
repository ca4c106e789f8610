use nd_lyrics::cache::{compress, decompress};
use nd_lyrics::providers::http::Http;

#[test]
fn a_request_url_always_encodes_its_query() {
    let url = Http::get("https://example.com/api".to_string())
        .param("q", "Ünïcode & spaces".to_string())
        .param("n", "a+b=c".to_string())
        .url()
        .unwrap();
    assert_eq!(url, "https://example.com/api?q=%C3%9Cn%C3%AFcode+%26+spaces&n=a%2Bb%3Dc");
}

#[test]
fn a_request_url_without_parameters_is_the_base_url() {
    let url = Http::get("https://example.com/api".to_string()).url().unwrap();
    assert_eq!(url, "https://example.com/api");
}

#[test]
fn compressing_never_fails_and_reads_back() {
    for text in ["", "a", "[00:01.00] line\n[00:02.00] other"] {
        let stored = compress(text.as_bytes()).unwrap();
        assert_eq!(decompress(&stored).unwrap(), text);
    }
}
