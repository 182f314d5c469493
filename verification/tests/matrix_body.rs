use axyn::matrix_body::{
    first_body, Body, FormattedBody, HasBody, MessageFormat, RoomEvent, TextMessage,
};

fn text(body: &str) -> TextMessage {
    TextMessage { body: body.to_string(), formatted: None }
}

fn formatted(body: &str, format: MessageFormat, markup: &str) -> TextMessage {
    TextMessage {
        body: body.to_string(),
        formatted: Some(FormattedBody { format, body: markup.to_string() }),
    }
}

#[test]
fn body_of_a_plain_text_message() {
    let body = text("hello").get_body().unwrap();
    assert_eq!(body.plain, "hello");
    assert_eq!(body.html, None);
}

#[test]
fn body_of_an_html_message() {
    let body = formatted("hello", MessageFormat::Html, "<b>hello</b>").get_body().unwrap();
    assert_eq!(body.plain, "hello");
    assert_eq!(body.html, Some("<b>hello</b>".to_string()));
}

#[test]
fn body_of_a_message_in_other_markup() {
    let body = formatted("hello", MessageFormat::Custom, "*hello*").get_body().unwrap();
    assert_eq!(body.plain, "hello");
    assert_eq!(body.html, None);
}

#[test]
fn body_of_a_text_event() {
    let event = RoomEvent::Text(formatted("hello", MessageFormat::Html, "<b>hello</b>"));
    let body = event.get_body().unwrap();
    assert_eq!(body.plain, "hello");
    assert_eq!(body.html, Some("<b>hello</b>".to_string()));
}

#[test]
fn body_of_another_event() {
    assert!(RoomEvent::Other.get_body().is_none());
}

#[test]
fn body_copied() {
    let body = Body { plain: "a".to_string(), html: Some("<p>a</p>".to_string()) };
    let copy = body.clone();
    assert_eq!(copy.plain, body.plain);
    assert_eq!(copy.html, body.html);
    let bare = Body { plain: "b".to_string(), html: None };
    let copy = bare.clone();
    assert_eq!(copy.plain, "b");
    assert_eq!(copy.html, None);
}

#[test]
fn first_body_of_no_events() {
    assert!(first_body(&Vec::new()).is_none());
}

#[test]
fn first_body_of_events_without_text() {
    assert!(first_body(&vec![RoomEvent::Other, RoomEvent::Other]).is_none());
}

#[test]
fn first_body_skips_what_has_none() {
    let events = vec![
        RoomEvent::Other,
        RoomEvent::Text(text("nearest")),
        RoomEvent::Other,
        RoomEvent::Text(text("farther")),
    ];
    let body = first_body(&events).unwrap();
    assert_eq!(body.plain, "nearest");
    assert_eq!(body.html, None);
}

#[test]
fn first_body_is_the_first() {
    let events = vec![
        RoomEvent::Text(formatted("one", MessageFormat::Html, "<i>one</i>")),
        RoomEvent::Text(text("two")),
    ];
    let body = first_body(&events).unwrap();
    assert_eq!(body.plain, "one");
    assert_eq!(body.html, Some("<i>one</i>".to_string()));
}
