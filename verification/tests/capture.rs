use core_lib::capture::clipboard::{clipboard_char_capacity, clipboard_text, text_len_before_nul};
use core_lib::capture::should_capture;
use core_lib::capture::websocket::{
    handle_event, handle_message, IncomingMessage, SeenUrls, WsAction, WsEvent, WsSession,
};

fn msg(kind: &str, text: &str, source: &str, title: Option<&str>) -> IncomingMessage {
    IncomingMessage {
        msg_type: kind.to_string(),
        text: text.to_string(),
        source: source.to_string(),
        title: title.map(|t| t.to_string()),
    }
}

fn indexed(a: &WsAction) -> Option<(String, String)> {
    match a {
        WsAction::Index { text, source } => Some((text.clone(), source.clone())),
        _ => None,
    }
}

#[test]
fn short_or_blank_text_is_not_captured() {
    assert!(!should_capture(""));
    assert!(!should_capture("   \n\t  "));
    assert!(!should_capture("  123456789  "));
    assert!(should_capture("  1234567890  "));
    assert!(should_capture("hello world"));
    // Ten bytes of UTF-8 in five characters.
    assert!(should_capture(" ééééé "));
    assert!(!should_capture(" éééé "));
}

#[test]
fn clipboard_capacity_leaves_room_for_nul() {
    assert_eq!(clipboard_char_capacity(0), 0);
    assert_eq!(clipboard_char_capacity(1), 0);
    assert_eq!(clipboard_char_capacity(2), 0);
    assert_eq!(clipboard_char_capacity(10), 4);
    assert_eq!(clipboard_char_capacity(11), 4);
}

#[test]
fn clipboard_text_stops_at_nul() {
    let units: Vec<u16> = "hi there\0garbage".encode_utf16().collect();
    assert_eq!(text_len_before_nul(&units), 8);
    assert_eq!(clipboard_text(&units), Some("hi there".to_string()));
    let no_nul: Vec<u16> = "Привет".encode_utf16().collect();
    assert_eq!(text_len_before_nul(&no_nul), 6);
    assert_eq!(clipboard_text(&no_nul), Some("Привет".to_string()));
}

#[test]
fn clipboard_text_decodes_surrogate_pairs() {
    let units: Vec<u16> = "a😀b".encode_utf16().collect();
    assert_eq!(units.len(), 4);
    assert_eq!(clipboard_text(&units), Some("a😀b".to_string()));
}

#[test]
fn clipboard_without_visible_text_or_invalid_gives_nothing() {
    let blank: Vec<u16> = "  \n ".encode_utf16().collect();
    assert_eq!(clipboard_text(&blank), None);
    assert_eq!(clipboard_text(&[0, 65, 66]), None);
    assert_eq!(clipboard_text(&[65, 0xD800, 66]), None);
    assert_eq!(clipboard_text(&[0xDC00]), None);
}

#[test]
fn page_is_indexed_with_title_label() {
    let mut session = WsSession { current_url: None };
    let mut seen = SeenUrls::new();
    let a = handle_message(&mut session, &mut seen, msg("index", "page text", "https://a", Some("A page")));
    assert_eq!(indexed(&a), Some(("page text".to_string(), "browser:A page".to_string())));
    assert_eq!(session.current_url, Some("https://a".to_string()));
    assert_eq!(seen.urls, vec!["https://a".to_string()]);
}

#[test]
fn page_without_title_is_labelled_by_address() {
    let mut session = WsSession { current_url: None };
    let mut seen = SeenUrls::new();
    let a = handle_message(&mut session, &mut seen, msg("index", "body", "https://b", None));
    assert_eq!(indexed(&a), Some(("body".to_string(), "browser:https://b".to_string())));
}

#[test]
fn later_chunks_of_the_same_page_are_indexed() {
    let mut session = WsSession { current_url: None };
    let mut seen = SeenUrls::new();
    handle_message(&mut session, &mut seen, msg("index", "one", "https://a", None));
    let a = handle_message(&mut session, &mut seen, msg("index", "two", "https://a", None));
    assert_eq!(indexed(&a), Some(("two".to_string(), "browser:https://a".to_string())));
    assert_eq!(seen.urls.len(), 1);
}

#[test]
fn page_seen_by_another_connection_closes_this_one() {
    let mut seen = SeenUrls::new();
    let mut first = WsSession { current_url: None };
    handle_message(&mut first, &mut seen, msg("index", "one", "https://a", None));
    let mut second = WsSession { current_url: None };
    let a = handle_message(&mut second, &mut seen, msg("index", "again", "https://a", None));
    assert!(matches!(a, WsAction::Close));
    assert_eq!(second.current_url, None);
    let b = handle_message(&mut second, &mut seen, msg("index", "other", "https://c", None));
    assert!(indexed(&b).is_some());
    assert_eq!(seen.urls.len(), 2);
}

#[test]
fn other_messages_are_ignored() {
    let mut session = WsSession { current_url: None };
    let mut seen = SeenUrls::new();
    assert!(matches!(
        handle_message(&mut session, &mut seen, msg("ping", "text", "https://a", None)),
        WsAction::Ignore
    ));
    assert!(matches!(
        handle_message(&mut session, &mut seen, msg("index", "   ", "https://a", None)),
        WsAction::Ignore
    ));
    assert!(seen.urls.is_empty());
    assert!(matches!(handle_event(&mut session, &mut seen, WsEvent::Other), WsAction::Ignore));
    assert!(matches!(handle_event(&mut session, &mut seen, WsEvent::Text(None)), WsAction::Ignore));
    assert!(matches!(handle_event(&mut session, &mut seen, WsEvent::Close), WsAction::Close));
}
