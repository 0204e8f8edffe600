use fldemos::resters::https_address;

#[test]
fn addresses_get_the_https_scheme_once() {
    assert_eq!(https_address("example.com/api"), "https://example.com/api");
    assert_eq!(https_address("https://example.com/api"), "https://example.com/api");
    assert_eq!(https_address("http://example.com"), "https://http://example.com");
    assert_eq!(https_address(""), "https://");
    assert_eq!(https_address("https:/"), "https://https:/");
}
