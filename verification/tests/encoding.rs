use penguin::proxy::filter_encodings;

#[test]
fn encoding_filter() {
    let filter = filter_encodings;

    assert_eq!(filter(""), "");
    assert_eq!(filter("gzip"), "gzip");
    assert_eq!(filter("br"), "br");
    assert_eq!(filter("gzip, br"), "gzip, br");
    assert_eq!(filter("gzip, deflate"), "gzip");
    assert_eq!(filter("deflate, gzip"), "gzip");
    assert_eq!(filter("gzip, deflate, br"), "gzip, br");
    assert_eq!(filter("deflate, gzip, br"), "gzip, br");
    assert_eq!(filter("gzip, br, deflate"), "gzip, br");
    assert_eq!(filter("deflate"), "");
    assert_eq!(filter("br;q=1.0, deflate;q=0.5, gzip;q=0.8, *;q=0.1"), "br;q=1.0, gzip;q=0.8");
}

#[test]
fn encoding_filter_keeps_identity() {
    assert_eq!(filter_encodings("identity"), "identity");
    assert_eq!(filter_encodings("deflate, identity;q=0.5"), "identity;q=0.5");
}
