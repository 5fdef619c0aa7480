use regbridge::routes::{match_delete_path, match_registration_path, route_request, HttpMethod, Route};
use regbridge::text::{parse_u16, u16_dec_string};

#[test]
fn registration_path_matches() {
    assert_eq!(match_registration_path("/v1/registration/web"), Some("web".to_owned()));
    assert_eq!(match_registration_path("/v1/registration/web/"), Some("web".to_owned()));
    assert_eq!(match_registration_path("/v1/registration/a:b"), Some("a:b".to_owned()));
}

#[test]
fn registration_path_rejects() {
    assert_eq!(match_registration_path("/v1/registration/"), None);
    assert_eq!(match_registration_path("/v1/registration//"), None);
    assert_eq!(match_registration_path("/v1/registration/a/b"), None);
    assert_eq!(match_registration_path("/v2/registration/web"), None);
    assert_eq!(match_registration_path("/"), None);
    assert_eq!(match_registration_path(""), None);
}

#[test]
fn delete_path_matches() {
    assert_eq!(
        match_delete_path("/v1/registration/web/10.0.0.1:8080"),
        Some(("web".to_owned(), "10.0.0.1".to_owned(), "8080".to_owned()))
    );
    assert_eq!(
        match_delete_path("/v1/registration/web/10.0.0.1:8080/"),
        Some(("web".to_owned(), "10.0.0.1".to_owned(), "8080".to_owned()))
    );
    // the service segment may itself contain a colon
    assert_eq!(
        match_delete_path("/v1/registration/a:b/c:d"),
        Some(("a:b".to_owned(), "c".to_owned(), "d".to_owned()))
    );
}

#[test]
fn delete_path_rejects() {
    assert_eq!(match_delete_path("/v1/registration/web"), None);
    assert_eq!(match_delete_path("/v1/registration/web/10.0.0.1"), None);
    assert_eq!(match_delete_path("/v1/registration/web/10.0.0.1:80:80"), None);
    assert_eq!(match_delete_path("/v1/registration/web/a/b:80"), None);
    assert_eq!(match_delete_path("/v1/registration//ip:80"), None);
    assert_eq!(match_delete_path("/v1/registration/web/:80"), None);
    assert_eq!(match_delete_path("/v1/registration/web/ip:"), None);
}

#[test]
fn routing_table() {
    assert!(matches!(route_request(&HttpMethod::Get, "/"), Route::Usage));
    assert!(matches!(route_request(&HttpMethod::Post, "/"), Route::Usage));
    assert!(matches!(route_request(&HttpMethod::Delete, "/hc"), Route::Health));
    assert!(matches!(route_request(&HttpMethod::Get, "/hc"), Route::Health));
    assert!(
        matches!(route_request(&HttpMethod::Post, "/v2/discovery:endpoints"), Route::Discovery)
    );
    assert!(
        matches!(route_request(&HttpMethod::Get, "/v2/discovery:endpoints"), Route::NotFound)
    );
    match route_request(&HttpMethod::Get, "/v1/registration/web") {
        Route::GetRegistration(s) => assert_eq!(s, "web"),
        _ => panic!("expected a registration read"),
    }
    match route_request(&HttpMethod::Post, "/v1/registration/web") {
        Route::RegisterHosts(s) => assert_eq!(s, "web"),
        _ => panic!("expected a registration write"),
    }
    match route_request(&HttpMethod::Delete, "/v1/registration/web/10.0.0.1:8080") {
        Route::DeleteHost(s, ip, port) => {
            assert_eq!(s, "web");
            assert_eq!(ip, "10.0.0.1");
            assert_eq!(port, "8080");
        }
        _ => panic!("expected a deletion"),
    }
    assert!(
        matches!(route_request(&HttpMethod::Get, "/v1/registration/web/10.0.0.1:8080"), Route::NotFound)
    );
    assert!(matches!(route_request(&HttpMethod::Other, "/"), Route::NotFound));
    assert!(matches!(route_request(&HttpMethod::Get, "/nothing"), Route::NotFound));
}

#[test]
fn port_parsing() {
    assert_eq!(parse_u16("8080"), Some(8080));
    assert_eq!(parse_u16("0"), Some(0));
    assert_eq!(parse_u16("65535"), Some(65535));
    assert_eq!(parse_u16("000080"), Some(80));
    // a leading plus sign is accepted, as str::parse takes it
    assert_eq!(parse_u16("+80"), Some(80));
    assert_eq!(parse_u16("+0"), Some(0));
    assert_eq!(parse_u16("65536"), None);
    assert_eq!(parse_u16("+65536"), None);
    assert_eq!(parse_u16("99999999999999999999"), None);
    assert_eq!(parse_u16(""), None);
    assert_eq!(parse_u16("+"), None);
    assert_eq!(parse_u16("++1"), None);
    assert_eq!(parse_u16("12a"), None);
    assert_eq!(parse_u16("-1"), None);
}

#[test]
fn port_rendering() {
    assert_eq!(u16_dec_string(0), "0");
    assert_eq!(u16_dec_string(7), "7");
    assert_eq!(u16_dec_string(80), "80");
    assert_eq!(u16_dec_string(8080), "8080");
    assert_eq!(u16_dec_string(65535), "65535");
}
