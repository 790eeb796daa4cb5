use dadjoke::api::{
    decode_fetch, decode_random, decode_search, effective_limit, effective_page, Client,
    ClientBuilder,
};
use dadjoke::errors::ApiError;

fn default_client() -> Client {
    Client::builder().create().expect("default configuration must build")
}

#[test]
fn effective_limit_clamps_high() {
    assert_eq!(effective_limit(Some(100)), 30);
    assert_eq!(effective_limit(Some(31)), 30);
    assert_eq!(effective_limit(Some(30)), 30);
}

#[test]
fn effective_limit_clamps_low() {
    assert_eq!(effective_limit(Some(0)), 1);
    assert_eq!(effective_limit(Some(-5)), 1);
    assert_eq!(effective_limit(Some(1)), 1);
}

#[test]
fn effective_limit_passes_in_range_and_defaults() {
    assert_eq!(effective_limit(Some(7)), 7);
    assert_eq!(effective_limit(None), 20);
}

#[test]
fn effective_page_defaults_to_one() {
    assert_eq!(effective_page(None), 1);
    assert_eq!(effective_page(Some(4)), 4);
    assert_eq!(effective_page(Some(-2)), -2);
}

#[test]
fn search_url_buffalo_defaults() {
    let client = default_client();
    let url = client.search_url("buffalo", None, None);
    assert_eq!(url, "https://icanhazdadjoke.com/search?term=buffalo&limit=20&page=1");
}

#[test]
fn search_url_clamped_limit_and_page() {
    let client = default_client();
    let url = client.search_url("cow", Some(100), Some(3));
    assert_eq!(url, "https://icanhazdadjoke.com/search?term=cow&limit=30&page=3");
    let url2 = client.search_url("cow", Some(0), Some(-1));
    assert_eq!(url2, "https://icanhazdadjoke.com/search?term=cow&limit=1&page=-1");
}

#[test]
fn fetch_url_interpolates_id() {
    let client = default_client();
    assert_eq!(client.fetch_url("abc123"), "https://icanhazdadjoke.com/j/abc123");
}

#[test]
fn random_url_is_endpoint_root() {
    let client = default_client();
    assert_eq!(client.random_url(), "https://icanhazdadjoke.com");
}

#[test]
fn custom_endpoint_is_used() {
    let client = Client::builder().endpoint("http://localhost:8080").create().unwrap();
    assert_eq!(client.fetch_url("x"), "http://localhost:8080/j/x");
}

#[test]
fn empty_endpoint_is_a_configuration_error() {
    let r = Client::builder().endpoint("").create();
    assert!(matches!(r, Err(ApiError::ConfigurationError)));
}

#[test]
fn default_configuration_always_builds() {
    assert!(ClientBuilder::default().create().is_ok());
}

#[test]
fn status_500_is_request_failed_whatever_the_body() {
    let good_body = "{\"id\":\"a\",\"status\":500,\"joke\":\"b\"}";
    assert!(matches!(decode_random(500, good_body), Err(ApiError::RequestFailedError)));
    assert!(matches!(decode_random(500, "garbage"), Err(ApiError::RequestFailedError)));
    assert!(matches!(decode_fetch(500, "{}"), Err(ApiError::RequestFailedError)));
    assert!(matches!(decode_search(404, ""), Err(ApiError::RequestFailedError)));
}

#[test]
fn random_decodes_flattened_object() {
    let body = "{\"id\":\"R2D2\",\"status\":200,\"joke\":\"I sold my vacuum. It was just gathering dust.\"}";
    let r = decode_random(200, body).unwrap();
    assert_eq!(r.id, "R2D2");
    assert_eq!(r.status, 200);
    assert_eq!(r.joke, "I sold my vacuum. It was just gathering dust.");
}

#[test]
fn missing_joke_field_is_a_decode_error() {
    let body = "{\"id\":\"R2D2\",\"status\":200}";
    assert!(matches!(decode_random(200, body), Err(ApiError::DecodeError)));
}

#[test]
fn mistyped_field_is_a_decode_error() {
    let body = "{\"id\":\"R2D2\",\"status\":\"200\",\"joke\":\"x\"}";
    assert!(matches!(decode_random(200, body), Err(ApiError::DecodeError)));
}

#[test]
fn extra_field_is_a_decode_error() {
    let body = "{\"id\":\"R2D2\",\"status\":200,\"joke\":\"x\",\"more\":1}";
    assert!(matches!(decode_random(200, body), Err(ApiError::DecodeError)));
}

#[test]
fn fetch_decodes_a_joke_record() {
    let body = "{\"id\":\"abc123\",\"joke\":\"Why did the scarecrow win an award?\"}";
    let j = decode_fetch(200, body).unwrap();
    assert_eq!(j.id, "abc123");
    assert_eq!(j.joke, "Why did the scarecrow win an award?");
}

#[test]
fn transport_error_is_its_own_kind() {
    assert_ne!(ApiError::TransportError, ApiError::RequestFailedError);
    assert_ne!(ApiError::TransportError, ApiError::DecodeError);
    assert_ne!(ApiError::TransportError, ApiError::ConfigurationError);
}
