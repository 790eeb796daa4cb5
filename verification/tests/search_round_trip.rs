use dadjoke::api::decode_search;
use dadjoke::errors::ApiError;
use dadjoke::wire::{render_joke, render_jokes};
use dadjoke::responses::Joke;

fn search_body() -> String {
    let mut s = String::new();
    s.push_str("{\"current_page\":1,\"limit\":20,\"next_page\":2,\"previous_page\":-1,");
    s.push_str("\"results\":[{\"id\":\"a1\",\"joke\":\"first\"},{\"id\":\"b2\",\"joke\":\"second\"},{\"id\":\"c3\",\"joke\":\"third\"}],");
    s.push_str("\"search_term\":\"buffalo\",\"status\":200,\"total_jokes\":3,\"total_pages\":1}");
    s
}

#[test]
fn search_decodes_all_fields() {
    let r = decode_search(200, &search_body()).unwrap();
    assert_eq!(r.current_page, 1);
    assert_eq!(r.limit, 20);
    assert_eq!(r.next_page, 2);
    assert_eq!(r.previous_page, -1);
    assert_eq!(r.search_term, "buffalo");
    assert_eq!(r.status, 200);
    assert_eq!(r.total_jokes, 3);
    assert_eq!(r.total_pages, 1);
    assert_eq!(r.results.len(), 3);
    assert_eq!(r.results[0].id, "a1");
    assert_eq!(r.results[0].joke, "first");
    assert_eq!(r.results[2].id, "c3");
}

#[test]
fn search_with_empty_results_decodes() {
    let body = "{\"current_page\":1,\"limit\":20,\"next_page\":1,\"previous_page\":1,\"results\":[],\"search_term\":\"zzz\",\"status\":200,\"total_jokes\":0,\"total_pages\":0}";
    let r = decode_search(200, body).unwrap();
    assert_eq!(r.results.len(), 0);
    assert_eq!(r.total_jokes, 0);
}

#[test]
fn reserializing_results_preserves_order_and_count() {
    let body = search_body();
    let r = decode_search(200, &body).unwrap();
    let count = r.results.len();
    let rendered = render_jokes(&r.results);
    // The re-serialized array is, character for character, the results
    // segment of the original document.
    assert!(body.contains(&rendered));
    // Element order and count survive a decode of the rendering itself.
    let rendered_doc = format!(
        "{{\"current_page\":1,\"limit\":20,\"next_page\":2,\"previous_page\":-1,\"results\":{},\"search_term\":\"buffalo\",\"status\":200,\"total_jokes\":3,\"total_pages\":1}}",
        rendered
    );
    let again = decode_search(200, &rendered_doc).unwrap();
    assert_eq!(again.results.len(), count);
    assert_eq!(again.results, r.results);
}

#[test]
fn render_joke_exact_text() {
    let j = Joke { id: String::from("a1"), joke: String::from("first") };
    assert_eq!(render_joke(&j), "{\"id\":\"a1\",\"joke\":\"first\"}");
}

#[test]
fn render_jokes_exact_text() {
    let js = vec![
        Joke { id: String::from("a1"), joke: String::from("first") },
        Joke { id: String::from("b2"), joke: String::from("second") },
    ];
    assert_eq!(render_jokes(&js), "[{\"id\":\"a1\",\"joke\":\"first\"},{\"id\":\"b2\",\"joke\":\"second\"}]");
    let empty: Vec<Joke> = Vec::new();
    assert_eq!(render_jokes(&empty), "[]");
}

#[test]
fn malformed_search_bodies_fail_to_decode() {
    // missing a required field
    let body = "{\"current_page\":1,\"limit\":20,\"next_page\":1,\"previous_page\":1,\"results\":[],\"search_term\":\"z\",\"status\":200,\"total_jokes\":0}";
    assert!(matches!(decode_search(200, body), Err(ApiError::DecodeError)));
    // trailing garbage
    let body2 = format!("{} ", search_body());
    assert!(matches!(decode_search(200, &body2), Err(ApiError::DecodeError)));
    // leading zero in a number
    let body3 = search_body().replace("\"limit\":20", "\"limit\":020");
    assert!(matches!(decode_search(200, &body3), Err(ApiError::DecodeError)));
}

#[test]
fn negative_numbers_round_trip() {
    let body = "{\"current_page\":-2147483648,\"limit\":1,\"next_page\":-1,\"previous_page\":0,\"results\":[],\"search_term\":\"x\",\"status\":200,\"total_jokes\":2147483647,\"total_pages\":0}";
    let r = decode_search(200, body).unwrap();
    assert_eq!(r.current_page, i32::MIN);
    assert_eq!(r.total_jokes, i32::MAX);
    assert_eq!(r.previous_page, 0);
}
