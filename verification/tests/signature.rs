use pit_box::signature::{
    aws_percent_encode, canonical_path_and_query, constant_time_hex_eq, header_value, hmac_sha256,
    parse_amz_timestamp, read_signing_claim, verify_gateway_signature, verify_signature_at,
    PaddockGatewayAuth, SignedRequest,
};
use pit_box::text::hex_digest;

const PAYLOAD: &str = "2cf24dba5fb0a30e26e83b2ac5b9e29e1b161e5c1fa7425e73043362938b9824";
const SIGNATURE: &str = "16618f20d70b5ff06233517e8d59282732b859ac7722e576948397f26ded6195";
const SIGNED_AT: i64 = 1_788_868_800;

fn auth() -> Option<PaddockGatewayAuth> {
    Some(PaddockGatewayAuth {
        access_key: "ACCESS".to_owned(),
        secret_key: "SECRET".to_owned(),
        region: "us-east-1".to_owned(),
    })
}

fn authorization(signature: &str) -> String {
    format!(
        "AWS4-HMAC-SHA256 Credential=ACCESS/20260908/us-east-1/s3/aws4_request, \
         SignedHeaders=host;x-amz-content-sha256;x-amz-date, Signature={signature}"
    )
}

fn request_with(authorization: String) -> SignedRequest {
    SignedRequest {
        method: "put".to_owned(),
        path: "/bucket/a b?b=2&a=1".to_owned(),
        headers: vec![
            ("Host".to_owned(), "example.com".to_owned()),
            ("X-Amz-Date".to_owned(), " 20260908T120000Z ".to_owned()),
            ("x-amz-content-sha256".to_owned(), PAYLOAD.to_owned()),
            ("Authorization".to_owned(), authorization),
        ],
        payload_hash: PAYLOAD.to_owned(),
    }
}

fn refused(request: &SignedRequest) -> String {
    verify_signature_at(request, &auth(), Some(SIGNED_AT)).expect_err("should be refused")
}

#[test]
fn a_signed_request_is_accepted() {
    let request = request_with(authorization(SIGNATURE));
    assert_eq!(verify_signature_at(&request, &auth(), Some(SIGNED_AT)), Ok(()));
    assert_eq!(verify_signature_at(&request, &auth(), Some(SIGNED_AT + 900)), Ok(()));
    assert_eq!(verify_signature_at(&request, &auth(), Some(SIGNED_AT - 900)), Ok(()));
}

#[test]
fn a_claim_is_read_before_the_secret_is_used() {
    let mut auth = auth().expect("there are credentials");
    auth.secret_key = "S".repeat(61);
    assert!(!auth.fits());
    let request = request_with(authorization(SIGNATURE));
    let (day, signed, signature) =
        read_signing_claim(&request, &auth, Some(SIGNED_AT)).expect("the claim is sound");
    assert_eq!(day, "20260908");
    assert!(signed.starts_with("AWS4-HMAC-SHA256\n20260908T120000Z\n20260908/us-east-1/s3"));
    assert_eq!(signature, SIGNATURE);
    let late = read_signing_claim(&request, &auth, Some(SIGNED_AT + 901));
    assert_eq!(verify_signature_at(&request, &Some(auth), Some(SIGNED_AT + 901)).err(), late.err());
}

#[test]
fn the_order_of_a_query_does_not_matter() {
    let sorted = canonical_path_and_query("/p?a=1&a=2&b&=x&%20=y");
    assert!(sorted.is_ok());
    for target in ["/p?b&a=2&=x&a=1&%20=y", "/p?%20=y&&=x&a=2&a=1&b&"] {
        assert_eq!(canonical_path_and_query(target), sorted);
    }
}

#[test]
fn without_credentials_everything_is_accepted() {
    let request = request_with("nothing".to_owned());
    assert_eq!(verify_signature_at(&request, &None, None), Ok(()));
    assert_eq!(verify_gateway_signature(&request, &None), Ok(()));
}

#[test]
fn an_old_request_is_refused_by_the_clock_of_the_host() {
    let mut request = request_with(authorization(SIGNATURE));
    request.headers[1].1 = "19990908T120000Z".to_owned();
    assert_eq!(
        verify_gateway_signature(&request, &auth()),
        Err("request timestamp is outside the 15 minute SigV4 window".to_owned())
    );
}

#[test]
fn every_refusal_says_why() {
    let mut request = request_with(authorization(SIGNATURE));
    request.headers.pop();
    assert_eq!(refused(&request), "SigV4 Authorization header is required");

    let mut request = request_with(authorization(SIGNATURE));
    request.headers.remove(1);
    assert_eq!(refused(&request), "x-amz-date header is required");

    let request = request_with(authorization(SIGNATURE));
    assert_eq!(
        verify_signature_at(&request, &auth(), None),
        Err("system clock is before the Unix epoch".to_owned())
    );
    assert_eq!(
        verify_signature_at(&request, &auth(), Some(SIGNED_AT + 901)),
        Err("request timestamp is outside the 15 minute SigV4 window".to_owned())
    );

    assert_eq!(refused(&request_with("Basic abc".to_owned())), "unsupported authorization scheme");
    assert_eq!(
        refused(&request_with("AWS4-HMAC-SHA256 Signature=x".to_owned())),
        "SigV4 Credential is missing"
    );
    assert_eq!(
        refused(&request_with(authorization(SIGNATURE).replace("ACCESS", "OTHER"))),
        "invalid SigV4 credential"
    );
    assert_eq!(
        refused(&request_with(authorization(SIGNATURE).replace("/s3/", "/ec2/"))),
        "invalid SigV4 credential scope"
    );
    assert_eq!(
        refused(&request_with(
            "AWS4-HMAC-SHA256 Credential=ACCESS/20260908/us-east-1/s3/aws4_request".to_owned()
        )),
        "SigV4 SignedHeaders is missing"
    );
    assert_eq!(
        refused(&request_with(
            "AWS4-HMAC-SHA256 Credential=ACCESS/20260908/us-east-1/s3/aws4_request, \
             SignedHeaders=host"
                .to_owned()
        )),
        "SigV4 Signature is missing"
    );
    assert_eq!(refused(&request_with(authorization("xyz"))), "invalid SigV4 signature");
    assert_eq!(
        refused(&request_with(authorization(SIGNATURE).replace("host;", "z;"))),
        "SigV4 SignedHeaders must be sorted"
    );
    assert_eq!(
        refused(&request_with(authorization(SIGNATURE).replace("host;", "Host;"))),
        "invalid signed header name"
    );
    assert_eq!(
        refused(&request_with(authorization(SIGNATURE).replace("host;", "accept;host;"))),
        "signed header is missing: accept"
    );
    assert_eq!(
        refused(&request_with(authorization(SIGNATURE).replace("host;", ""))),
        "host and x-amz-date must be signed"
    );
    let mut request = request_with(authorization(SIGNATURE));
    request.payload_hash = "00".to_owned();
    assert_eq!(refused(&request), "x-amz-content-sha256 does not match the request body");
    let mut request = request_with(authorization(SIGNATURE));
    request.method = "GET".to_owned();
    assert_eq!(refused(&request), "signature does not match");
}

#[test]
fn timestamps_are_read_exactly() {
    assert_eq!(parse_amz_timestamp("20260908T120000Z"), Ok(SIGNED_AT));
    assert_eq!(parse_amz_timestamp("19700101T000000Z"), Ok(0));
    assert_eq!(parse_amz_timestamp("20000229T235959Z"), Ok(951_868_799));
    assert_eq!(
        parse_amz_timestamp("20261308T120000Z"),
        Err("x-amz-date contains an invalid month".to_owned())
    );
    assert_eq!(
        parse_amz_timestamp("19000229T000000Z"),
        Err("x-amz-date contains an invalid day".to_owned())
    );
    assert_eq!(
        parse_amz_timestamp("20260908T240000Z"),
        Err("x-amz-date contains an invalid time".to_owned())
    );
    assert_eq!(
        parse_amz_timestamp("2026-09-08"),
        Err("x-amz-date must use YYYYMMDDTHHMMSSZ".to_owned())
    );
}

#[test]
fn encoding_keeps_unreserved_bytes() {
    assert_eq!(aws_percent_encode(b"aZ0-_.~"), "aZ0-_.~");
    assert_eq!(aws_percent_encode(b" /\xff"), "%20%2F%FF");
    assert_eq!(canonical_path_and_query(""), Ok(("/".to_owned(), String::new())));
    assert_eq!(
        canonical_path_and_query("/x?&b&a=2&a=1&"),
        Ok(("/x".to_owned(), "a=1&a=2&b=".to_owned()))
    );
    assert_eq!(
        canonical_path_and_query("/x?a=1&b=2"),
        canonical_path_and_query("/x?b=2&a=1")
    );
}

#[test]
fn codes_and_comparisons() {
    assert_eq!(
        hex_digest(&hmac_sha256(b"key", b"The quick brown fox jumps over the lazy dog")),
        "f7bc83f430538424b13298e6aa6fb143ef4d59a14946175997479dbc2d1a3cd8"
    );
    assert!(constant_time_hex_eq("00ff", "00ff"));
    assert!(!constant_time_hex_eq("00ff", "00fe"));
    assert!(!constant_time_hex_eq("00ff", "00f"));
    let headers = vec![
        ("X-One".to_owned(), "  a b ".to_owned()),
        ("x-one".to_owned(), "c".to_owned()),
    ];
    assert_eq!(header_value(&headers, "x-ONE"), Some("a b".to_owned()));
    assert_eq!(header_value(&headers, "x-two"), None);
}
