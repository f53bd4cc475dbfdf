use demo_api::books::{self, Book, QueryParams};
use demo_api::guard::check_content_type_header;
use demo_api::handlers::{custom_error, healthz, question, random};
use demo_api::reply::Failure;

fn text(s: &str) -> Option<String> {
    Some(s.to_string())
}

#[test]
fn failure_statuses() {
    assert_eq!(Failure::MalformedQuery.status(), 400);
    assert_eq!(Failure::MalformedBody.status(), 422);
    assert_eq!(Failure::UnsupportedMediaType.status(), 415);
}

#[test]
fn healthz_says_ok() {
    assert_eq!(healthz(), "OK");
}

#[test]
fn teapot_has_its_status_and_text() {
    let reply = custom_error();
    assert_eq!(reply.status, 418);
    assert_eq!(reply.body, "Sometimes things do not go to plan... 🤷");
}

#[test]
fn random_echoes_q() {
    assert_eq!(random("q=hello"), "Question: hello");
}

#[test]
fn random_without_q_is_bare() {
    assert_eq!(random(""), "Question: ");
    assert_eq!(random("title=Foo&year=2020"), "Question: ");
}

#[test]
fn random_takes_the_first_q() {
    assert_eq!(random("a=1&q=first&q=second"), "Question: first");
}

#[test]
fn random_decodes_the_value() {
    assert_eq!(random("q=a+b%21"), "Question: a b!");
    assert_eq!(random("&&q=x%20y&"), "Question: x y");
}

#[test]
fn random_with_q_without_value() {
    assert_eq!(random("q"), "Question: ");
    assert_eq!(random("q=&q=later"), "Question: ");
}

#[test]
fn question_reads_pairs_in_order() {
    let pairs = vec![
        ("Q".to_string(), "upper".to_string()),
        ("qq".to_string(), "double".to_string()),
        ("q".to_string(), "one".to_string()),
        ("q".to_string(), "two".to_string()),
    ];
    assert_eq!(question(&pairs), "Question: one");
    assert_eq!(question(&Vec::new()), "Question: ");
}

#[test]
fn search_echoes_both_parameters() {
    let body = books::search(text("Foo"), text("2020")).unwrap();
    assert!(body.contains("Title: Foo"));
    assert!(body.contains("Year: 2020"));
    assert_eq!(body, "Hard Questions: \nTitle: Foo\nYear: 2020");
}

#[test]
fn search_without_a_parameter_is_400() {
    let outcome = books::search(text("Foo"), None);
    assert_eq!(outcome, Err(Failure::MalformedQuery));
    assert_eq!(outcome.unwrap_err().status(), 400);
    assert_eq!(books::search(None, text("2020")), Err(Failure::MalformedQuery));
    assert_eq!(books::search(None, None), Err(Failure::MalformedQuery));
}

#[test]
fn query_params_bind() {
    assert_eq!(
        QueryParams::bind(text("Foo"), text("2020")),
        Ok(QueryParams { title: "Foo".to_string(), year: "2020".to_string() })
    );
    assert_eq!(QueryParams::bind(text("Foo"), None), Err(Failure::MalformedQuery));
}

#[test]
fn detail_names_the_id() {
    assert_eq!(books::detail(Some("42")), "Details for book 42");
}

#[test]
fn detail_without_id_is_bare() {
    assert_eq!(books::detail(None), "Details for book ");
    assert_eq!(books::detail(Some("")), "Details for book ");
}

#[test]
fn create_book_reflects_the_fields() {
    assert_eq!(
        books::create(text("Dune"), text("Science fiction")),
        Ok("Title: Dune, Genre: Science fiction".to_string())
    );
}

#[test]
fn create_book_without_genre_is_422() {
    let outcome = books::create(text("X"), None);
    assert_eq!(outcome, Err(Failure::MalformedBody));
    assert_eq!(outcome.unwrap_err().status(), 422);
    assert_eq!(books::create(None, text("Y")), Err(Failure::MalformedBody));
}

#[test]
fn book_bind_needs_both_fields() {
    assert_eq!(
        Book::bind(text("X"), text("Y")),
        Ok(Book { title: "X".to_string(), genre: "Y".to_string() })
    );
    assert_eq!(Book::bind(None, None), Err(Failure::MalformedBody));
}

#[test]
fn book_list_is_fixed() {
    let expected = vec![
        Book { title: "What is so amazing about grace?".to_string(), genre: "Religious".to_string() },
        Book { title: "Memoir".to_string(), genre: "Biography".to_string() },
    ];
    assert_eq!(books::list(), expected);
    assert_eq!(books::list(), books::list());
}

#[test]
fn guard_lets_json_posts_through() {
    let values = vec!["application/json".to_string()];
    assert_eq!(check_content_type_header(true, Some(&values)), Ok(()));
}

#[test]
fn guard_turns_other_posts_away() {
    assert_eq!(check_content_type_header(true, None), Err(Failure::UnsupportedMediaType));
    let plain = vec!["text/plain".to_string()];
    assert_eq!(check_content_type_header(true, Some(&plain)), Err(Failure::UnsupportedMediaType));
    let with_charset = vec!["application/json; charset=utf-8".to_string()];
    assert_eq!(
        check_content_type_header(true, Some(&with_charset)),
        Err(Failure::UnsupportedMediaType)
    );
    let upper = vec!["Application/JSON".to_string()];
    assert_eq!(check_content_type_header(true, Some(&upper)), Err(Failure::UnsupportedMediaType));
    let twice = vec!["application/json".to_string(), "application/json".to_string()];
    assert_eq!(check_content_type_header(true, Some(&twice)), Err(Failure::UnsupportedMediaType));
    let none: Vec<String> = Vec::new();
    assert_eq!(check_content_type_header(true, Some(&none)), Err(Failure::UnsupportedMediaType));
    assert_eq!(
        check_content_type_header(true, None).unwrap_err().status(),
        415
    );
}

#[test]
fn guard_ignores_other_methods() {
    assert_eq!(check_content_type_header(false, None), Ok(()));
    let plain = vec!["text/plain".to_string()];
    assert_eq!(check_content_type_header(false, Some(&plain)), Ok(()));
}

#[test]
fn default_query_params_are_empty() {
    assert_eq!(QueryParams::default(), QueryParams { title: String::new(), year: String::new() });
}

#[test]
fn search_keeps_empty_parameters() {
    assert_eq!(books::search(text(""), text("")), Ok("Hard Questions: \nTitle: \nYear: ".to_string()));
}
