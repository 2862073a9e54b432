use arca::xdg::uri::{decode_file_uri, encode_file_uri};

#[test]
fn test_uri_roundtrip() {
    let p = "/home/user/My Photos/summer & fall 2024.jpg";
    let uri = encode_file_uri(p);
    assert_eq!(
        uri,
        "file:///home/user/My%20Photos/summer%20%26%20fall%202024.jpg"
    );
    let back = decode_file_uri(&uri).unwrap();
    assert_eq!(back, p.as_bytes());

    let localhost_uri = "file://localhost/home/user/test.txt";
    assert_eq!(
        decode_file_uri(localhost_uri).unwrap(),
        b"/home/user/test.txt".to_vec()
    );
}

#[test]
fn uri_decoding_edge_cases() {
    assert_eq!(decode_file_uri("file://").unwrap(), b"/".to_vec());
    assert_eq!(decode_file_uri("http://x"), None);
    assert_eq!(decode_file_uri("file:///a%2"), Some(b"/a%2".to_vec()));
    assert_eq!(decode_file_uri("file:///a%zz"), Some(b"/a%zz".to_vec()));
    assert_eq!(decode_file_uri("file:///%c3%a9"), Some("/é".as_bytes().to_vec()));
    assert_eq!(encode_file_uri("/é"), "file:///%C3%A9");
}

#[test]
fn percent_escape_reads_like_from_str_radix() {
    assert_eq!(decode_file_uri("file:///a%+Fb").unwrap(), b"/a\x0fb");
    assert_eq!(decode_file_uri("file:///a%+5").unwrap(), b"/a\x05");
    assert_eq!(decode_file_uri("file:///a%-5").unwrap(), b"/a%-5");
    assert_eq!(decode_file_uri("file:///a%++5").unwrap(), b"/a%++5");
    assert_eq!(decode_file_uri("file:///a%2Fb").unwrap(), b"/a/b");
    assert_eq!(decode_file_uri("file:///a%2fb").unwrap(), b"/a/b");
    assert_eq!(decode_file_uri("file:///a%G1").unwrap(), b"/a%G1");
}
