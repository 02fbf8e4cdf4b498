use tg_anonymizer::dom::{direct_text, extract_text, traverse, DomEvent};
use tg_anonymizer::entries::{entries_from_selections, extract_entries, MessageBody, RawEntry};
use tg_anonymizer::icon::load_icon;
use tg_anonymizer::natural::{natural_file_index, natural_order};
use tg_anonymizer::order::stable_order;
use tg_anonymizer::participants::{assign_participants, build_names_pattern, Participant};
use tg_anonymizer::pipeline::{anonymize_entries, pattern_compiles};
use tg_anonymizer::redact::{name_rewrite, phone_rewrite, redact, redact_all, token_rewrite};
use tg_anonymizer::settings::{is_export_extension, AnonymizeSettings, TabState};
use tg_anonymizer::text::trimmed;

fn none_enabled() -> AnonymizeSettings {
    AnonymizeSettings {
        hide_names: false,
        hide_phones: false,
        hide_emails: false,
        hide_links: false,
        hide_cards: false,
        hide_addresses: false,
        hide_tokens: false,
    }
}

fn all_enabled() -> AnonymizeSettings {
    AnonymizeSettings {
        hide_names: true,
        hide_phones: true,
        hide_emails: true,
        hide_links: true,
        hide_cards: true,
        hide_addresses: true,
        hide_tokens: true,
    }
}

fn redact_plain(text: &str, settings: AnonymizeSettings) -> String {
    redact(text.to_string(), &settings, &None, &Vec::new())
}

fn entry(sender: Option<&str>, body: Option<MessageBody>) -> RawEntry {
    RawEntry { sender_update: sender.map(|s| s.to_string()), body }
}

fn text(t: &str) -> Option<MessageBody> {
    Some(MessageBody::Text(t.to_string()))
}

// ── natural ordering ─────────────────────────────────────────────────────

#[test]
fn natural_index_of_documented_names() {
    assert_eq!(natural_file_index("messages.html"), 0);
    assert_eq!(natural_file_index("messages2.html"), 2);
    assert_eq!(natural_file_index("messages14.html"), 14);
}

#[test]
fn natural_index_uses_the_stem() {
    assert_eq!(natural_file_index("chat.export5.html"), 5);
    assert_eq!(natural_file_index("v1.2.html"), 2);
    assert_eq!(natural_file_index("x.12"), 0);
    assert_eq!(natural_file_index(".hidden7"), 7);
    assert_eq!(natural_file_index("noext42"), 42);
    assert_eq!(natural_file_index(""), 0);
    assert_eq!(natural_file_index(".."), 0);
    assert_eq!(natural_file_index("page007.htm"), 7);
}

#[test]
fn natural_index_overflow_gives_zero() {
    assert_eq!(natural_file_index("18446744073709551615.html"), u64::MAX);
    assert_eq!(natural_file_index("18446744073709551616.html"), 0);
    assert_eq!(natural_file_index("a99999999999999999999.html"), 0);
}

#[test]
fn natural_order_sorts_files_stably() {
    let names = vec![
        "messages14.html".to_string(),
        "messages.html".to_string(),
        "messages2.html".to_string(),
        "export.html".to_string(),
    ];
    assert_eq!(natural_order(&names), vec![1, 3, 2, 0]);
}

#[test]
fn stable_order_both_directions() {
    let keys: Vec<u64> = vec![3, 1, 3, 2];
    assert_eq!(stable_order(&keys, false), vec![1, 3, 0, 2]);
    assert_eq!(stable_order(&keys, true), vec![0, 2, 3, 1]);
    assert_eq!(stable_order(&Vec::new(), false), Vec::<usize>::new());
}

// ── text helpers ─────────────────────────────────────────────────────────

#[test]
fn trimming_removes_unicode_white_space() {
    assert_eq!(trimmed("  hi there \n"), "hi there");
    assert_eq!(trimmed("\u{a0}x y\u{3000}"), "x y");
    assert_eq!(trimmed(" \t "), "");
    let once = trimmed("\n a b \r\n");
    assert_eq!(trimmed(&once), once);
}

#[test]
fn export_extensions() {
    assert!(is_export_extension("html"));
    assert!(is_export_extension("htm"));
    assert!(!is_export_extension("HTML"));
    assert!(!is_export_extension("txt"));
    assert!(!is_export_extension("htmlx"));
}

#[test]
fn tab_state_equality() {
    assert_eq!(TabState::Clean, TabState::Clean);
    assert_ne!(TabState::Logs, TabState::Settings);
}

// ── HTML extraction ──────────────────────────────────────────────────────

fn open(name: &str) -> DomEvent {
    DomEvent::OpenElement(name.to_string())
}

fn txt(t: &str) -> DomEvent {
    DomEvent::OpenText(t.to_string())
}

fn sample_walk() -> Vec<DomEvent> {
    vec![
        open("div"),
        txt(" Hello"),
        DomEvent::Close,
        open("br"),
        DomEvent::Close,
        txt("world"),
        DomEvent::Close,
        open("span"),
        txt("!"),
        DomEvent::Close,
        DomEvent::Close,
        DomEvent::OpenOther,
        DomEvent::Close,
        txt(" "),
        DomEvent::Close,
        DomEvent::Close,
    ]
}

#[test]
fn extract_text_turns_br_into_newline() {
    assert_eq!(extract_text(&sample_walk()), "Hello\nworld!");
    let mut acc = String::from(">");
    traverse(&sample_walk(), &mut acc);
    assert_eq!(acc, "> Hello\nworld! ");
}

#[test]
fn direct_text_skips_nested_elements() {
    assert_eq!(direct_text(&sample_walk()), "Helloworld");
}

const PAGE: &str = r#"<!DOCTYPE html>
<html><head><title>Export</title></head><body>
<div class="history">
 <div class="message service" id="message-1"><div class="body details">12 January 2024</div></div>
 <div class="message default clearfix" id="message1">
  <div class="body">
   <div class="pull_right date details" title="12.01.2024 10:00:00">10:00</div>
   <div class="from_name">Alice Smith <span class="date details">12.01.2024</span></div>
   <div class="text">Hi Bob<br>call me</div>
  </div>
 </div>
 <div class="message default clearfix joined" id="message2">
  <div class="body"><div class="text">second</div></div>
 </div>
 <div class="message default clearfix" id="message3">
  <div class="body"><div class="media_wrap clearfix"><a class="photo_wrap">Photo</a></div></div>
 </div>
 <div class="message default clearfix" id="message4">
  <div class="body"><div class="text">   </div></div>
 </div>
</div>
</body></html>"#;

#[test]
fn extract_entries_from_export_page() {
    let (count, entries) = extract_entries(PAGE).unwrap();
    assert_eq!(count, 4);
    assert_eq!(entries.len(), 3);
    assert_eq!(entries[0].sender_update.as_deref(), Some("Alice Smith"));
    match &entries[0].body {
        Some(MessageBody::Text(t)) => assert_eq!(t, "Hi Bob\ncall me"),
        _ => panic!("expected a text body"),
    }
    assert!(entries[1].sender_update.is_none());
    match &entries[1].body {
        Some(MessageBody::Text(t)) => assert_eq!(t, "second"),
        _ => panic!("expected a text body"),
    }
    assert!(entries[2].sender_update.is_none());
    assert!(matches!(entries[2].body, Some(MessageBody::Media)));
}

#[test]
fn extract_entries_from_page_without_messages() {
    let (count, entries) = extract_entries("<html><body><p>nothing</p></body></html>").unwrap();
    assert_eq!(count, 0);
    assert!(entries.is_empty());
}

// ── redaction ────────────────────────────────────────────────────────────

#[test]
fn nothing_enabled_keeps_text() {
    let t = "mail john@example.org, call +7 (999) 123-45-67, https://x.com/a";
    assert_eq!(redact_plain(t, none_enabled()), t);
}

#[test]
fn links_are_masked() {
    let mut s = none_enabled();
    s.hide_links = true;
    assert_eq!(redact_plain("see https://example.com/page now", s), "see [LINK] now");
    assert_eq!(redact_plain("join t.me/channel ok", s), "join [LINK] ok");
    assert_eq!(redact_plain("plain words only", s), "plain words only");
}

#[test]
fn emails_are_masked() {
    let mut s = none_enabled();
    s.hide_emails = true;
    assert_eq!(redact_plain("mail john.doe@example.org please", s), "mail [EMAIL] please");
}

// Token-shaped inputs are assembled from pieces at run time.
fn bot_token() -> String {
    ["123456789", ":", "ABCDEFGHIJKLMNOPQRSTUVWXYZ", "abcdef12"].concat()
}

fn bearer_header() -> String {
    ["Authorization: ", "Bearer", " ", "abcdefghijklm", "nopqrstuvwxyz", "0123"].concat()
}

fn api_key() -> String {
    ["s", "k", "-", "abcdefghijkl", "mnopqrstuvwx"].concat()
}

fn hex_token() -> String {
    "0123456789abcdef".repeat(2) + "01234567"
}

fn mixed_word(len: usize) -> String {
    ["Ab3dEfGh", "IjKlMnOp", "QrStUvWx"].concat()[..len].to_string()
}

fn only_tokens() -> AnonymizeSettings {
    let mut s = none_enabled();
    s.hide_tokens = true;
    s
}

#[test]
fn bot_tokens_are_masked() {
    assert_eq!(
        redact_plain(&format!("token {} end", bot_token()), only_tokens()),
        "token [TOKEN] end"
    );
}

#[test]
fn bearer_tokens_are_masked() {
    assert_eq!(
        redact_plain(&bearer_header(), only_tokens()),
        "Authorization: [TOKEN]"
    );
}

#[test]
fn api_keys_are_masked() {
    assert_eq!(
        redact_plain(&format!("key {} done", api_key()), only_tokens()),
        "key [TOKEN] done"
    );
}

#[test]
fn hex_tokens_are_masked() {
    assert_eq!(
        redact_plain(&format!("sha {} ok", hex_token()), only_tokens()),
        "sha [TOKEN] ok"
    );
}

#[test]
fn alphanumeric_tokens_need_length_and_mix() {
    let mut s = none_enabled();
    s.hide_tokens = true;
    assert_eq!(redact_plain(&format!("id {} end", mixed_word(24)), s), "id [TOKEN] end");
    assert_eq!(
        redact_plain("word abcdefghijklmnopqrstuvwxyz end", s),
        "word abcdefghijklmnopqrstuvwxyz end"
    );
    let short = format!("short {} end", mixed_word(20));
    assert_eq!(redact_plain(&short, s), short);
    assert_eq!(
        redact_plain("nocaps aaaaaaaaaaaaaaaaaaaaaaaaa1 end", s),
        "nocaps aaaaaaaaaaaaaaaaaaaaaaaaa1 end"
    );
}

#[test]
fn cards_are_masked() {
    let mut s = none_enabled();
    s.hide_cards = true;
    assert_eq!(redact_plain("card 4111 1111 1111 1111 thanks", s), "card [CARD] thanks");
    assert_eq!(redact_plain("card 4111-1111-1111-1111", s), "card [CARD]");
}

#[test]
fn phones_keep_their_boundaries() {
    let mut s = none_enabled();
    s.hide_phones = true;
    assert_eq!(redact_plain("call +7 (999) 123-45-67 today", s), "call [PHONE] today");
    assert_eq!(redact_plain("number 89991234567.", s), "number [PHONE].");
    assert_eq!(redact_plain("89991234567 is mine", s), "[PHONE] is mine");
    assert_eq!(redact_plain("(+79991234567)", s), "([PHONE])");
    assert_eq!(redact_plain("year 2024", s), "year 2024");
}

#[test]
fn addresses_are_masked() {
    let mut s = none_enabled();
    s.hide_addresses = true;
    assert_eq!(
        redact_plain("живу ул. Ленина 5, кв. 12 тут", s),
        "живу [ADDRESS] тут"
    );
    assert_eq!(redact_plain("адрес: д. 7, кв. 3", s), "адрес: [ADDRESS]");
}

#[test]
fn redact_all_keeps_one_result_per_text() {
    let mut s = none_enabled();
    s.hide_emails = true;
    let out = redact_all(
        vec!["a@b.cc".to_string(), String::new(), "none".to_string()],
        &s,
        &None,
        &Vec::new(),
    );
    assert_eq!(out, vec!["[EMAIL]".to_string(), String::new(), "none".to_string()]);
}

#[test]
fn names_are_replaced_case_insensitively() {
    let mut s = none_enabled();
    s.hide_names = true;
    let pattern = Some("(?i)\\b(Alice Smith|Bob)\\b".to_string());
    let map = vec![
        ("alice smith".to_string(), "[Participant 1]".to_string()),
        ("bob".to_string(), "[Participant 2]".to_string()),
    ];
    assert_eq!(
        redact("alice smith and BOB met".to_string(), &s, &pattern, &map),
        "[Participant 1] and [Participant 2] met"
    );
    // Without the option, the pattern is not applied.
    assert_eq!(
        redact("alice smith and BOB met".to_string(), &none_enabled(), &pattern, &map),
        "alice smith and BOB met"
    );
}

#[test]
fn invalid_names_pattern_leaves_names() {
    let mut s = none_enabled();
    s.hide_names = true;
    let pattern = Some("(unclosed".to_string());
    assert_eq!(redact("Bob".to_string(), &s, &pattern, &Vec::new()), "Bob");
    assert!(!pattern_compiles("(unclosed"));
    assert!(pattern_compiles("a+"));
}

// ── participants and output ──────────────────────────────────────────────

fn chat() -> Vec<RawEntry> {
    vec![
        entry(Some("Bob"), text("hi")),
        entry(Some("Alice Smith"), text("hello bob")),
        entry(None, Some(MessageBody::Media)),
        entry(Some("Bob"), text("alice smith and BOB met")),
        entry(Some("Eve"), None),
    ]
}

#[test]
fn participants_longest_first() {
    let parts = assign_participants(&chat(), true);
    let names: Vec<&str> = parts.iter().map(|p| p.name.as_str()).collect();
    let phs: Vec<&str> = parts.iter().map(|p| p.placeholder.as_str()).collect();
    assert_eq!(names, vec!["Alice Smith", "Bob", "Eve"]);
    assert_eq!(phs, vec!["[Participant 1]", "[Participant 2]", "[Participant 3]"]);
    assert!(assign_participants(&chat(), false).is_empty());
}

#[test]
fn many_participants_numbered_in_decimal() {
    let entries: Vec<RawEntry> =
        (0..12).map(|i| entry(Some(&format!("user{:02}", i)), None)).collect();
    let parts = assign_participants(&entries, true);
    assert_eq!(parts.len(), 12);
    assert_eq!(parts[0].name, "user00");
    assert_eq!(parts[11].name, "user11");
    assert_eq!(parts[9].placeholder, "[Participant 10]");
    assert_eq!(parts[11].placeholder, "[Participant 12]");
}

#[test]
fn names_pattern_escapes_names() {
    let parts = vec![
        Participant { name: "J.R. (Bob)".to_string(), placeholder: "[Participant 1]".to_string() },
        Participant { name: "a+b".to_string(), placeholder: "[Participant 2]".to_string() },
    ];
    assert_eq!(build_names_pattern(&parts), "(?i)\\b(J\\.R\\. \\(Bob\\)|a\\+b)\\b");
}

#[test]
fn anonymized_chat_blocks() {
    let mut s = none_enabled();
    s.hide_names = true;
    let out = anonymize_entries(&chat(), &s);
    assert!(out.names_pattern_compiles);
    assert_eq!(out.names_pattern.as_deref(), Some("(?i)\\b(Alice Smith|Bob|Eve)\\b"));
    assert_eq!(out.blocks.len(), 5);
    assert_eq!(out.blocks[0].as_deref(), Some("**[Participant 2]**: hi\n\n"));
    assert_eq!(out.blocks[1].as_deref(), Some("**[Participant 1]**: hello [Participant 2]\n\n"));
    assert_eq!(out.blocks[2].as_deref(), Some("**[Participant 1]**: [MEDIA]\n\n"));
    assert_eq!(
        out.blocks[3].as_deref(),
        Some("**[Participant 2]**: [Participant 1] and [Participant 2] met\n\n")
    );
    assert_eq!(out.blocks[4], None);
}

#[test]
fn names_kept_when_not_hidden() {
    let out = anonymize_entries(&chat(), &none_enabled());
    assert!(out.participants.is_empty());
    assert_eq!(out.names_pattern, None);
    assert!(!out.names_pattern_compiles);
    assert_eq!(out.blocks[1].as_deref(), Some("**Alice Smith**: hello bob\n\n"));
    assert_eq!(out.blocks[2].as_deref(), Some("**Alice Smith**: [MEDIA]\n\n"));
}

#[test]
fn message_before_any_sender_is_unknown() {
    let entries = vec![entry(None, text("orphan")), entry(Some("Ann"), text("x"))];
    let out = anonymize_entries(&entries, &all_enabled());
    assert_eq!(out.blocks[0].as_deref(), Some("**[Unknown]**: orphan\n\n"));
    assert_eq!(out.blocks[1].as_deref(), Some("**[Participant 1]**: x\n\n"));
}

#[test]
fn hidden_senders_are_placeholders() {
    let out = anonymize_entries(&chat(), &all_enabled());
    let phs: Vec<String> = out.participants.iter().map(|p| p.placeholder.clone()).collect();
    for b in out.blocks.iter().flatten() {
        let sender = b.trim_start_matches("**").split("**:").next().unwrap();
        assert!(sender == "[Unknown]" || phs.iter().any(|p| p == sender));
    }
}

// ── icon ─────────────────────────────────────────────────────────────────

const TINY_PNG: [u8; 72] = [
    137, 80, 78, 71, 13, 10, 26, 10, 0, 0, 0, 13, 73, 72, 68, 82, 0, 0, 0, 2, 0, 0, 0, 1, 8, 6, 0,
    0, 0, 244, 34, 127, 138, 0, 0, 0, 15, 73, 68, 65, 84, 120, 156, 99, 248, 207, 192, 240, 31, 8,
    27, 0, 16, 121, 3, 126, 125, 99, 206, 215, 0, 0, 0, 0, 73, 69, 78, 68, 174, 66, 96, 130,
];

#[test]
fn icon_decodes_to_rgba() {
    let icon = load_icon(&TINY_PNG).unwrap();
    assert_eq!(icon.width, 2);
    assert_eq!(icon.height, 1);
    assert_eq!(icon.rgba, vec![255, 0, 0, 255, 0, 255, 0, 128]);
    assert!(load_icon(&[1, 2, 3]).is_none());
}

#[test]
fn entries_from_given_selections() {
    let sender = || {
        Some(vec![open("div"), txt(" Ann "), DomEvent::Close, open("span"), txt("10:00"), DomEvent::Close, DomEvent::Close])
    };
    let blank = || Some(vec![open("div"), txt("  "), DomEvent::Close, DomEvent::Close]);
    let body = || {
        Some(vec![open("div"), txt("a"), DomEvent::Close, open("br"), txt("hidden"), DomEvent::Close, DomEvent::Close, txt("b"), DomEvent::Close, DomEvent::Close])
    };
    let media = || Some(vec![open("div"), DomEvent::Close]);
    let senders = vec![sender(), None, blank(), None];
    let texts = vec![body(), blank(), None];
    let medias = vec![media(), media(), None, media()];
    let entries = entries_from_selections(&senders, &texts, &medias);
    assert_eq!(entries.len(), 2);
    assert_eq!(entries[0].sender_update.as_deref(), Some("Ann"));
    match &entries[0].body {
        Some(MessageBody::Text(t)) => assert_eq!(t, "a\nb"),
        _ => panic!("expected a text body"),
    }
    // The second message has a blank text element: no body, even with media.
    // The third has a blank sender and nothing else: dropped.
    // The fourth has no text element (the list is shorter) but has media.
    assert!(entries[1].sender_update.is_none());
    assert!(matches!(entries[1].body, Some(MessageBody::Media)));
}

fn groups(gs: &[Option<&str>]) -> Vec<Option<String>> {
    gs.iter().map(|g| g.map(|s| s.to_string())).collect()
}

#[test]
fn match_rewrites() {
    assert_eq!(token_rewrite(&groups(&[Some(mixed_word(24).as_str())])), "[TOKEN]");
    assert_eq!(token_rewrite(&groups(&[Some(mixed_word(23).as_str())])), mixed_word(23));
    assert_eq!(phone_rewrite(&groups(&[Some(" 89991234567,"), Some("89991234567")])), " [PHONE],");
    assert_eq!(phone_rewrite(&groups(&[Some("+1234567"), None])), "+1234567");
    let map = vec![("bob".to_string(), "[Participant 2]".to_string()), ("bob".to_string(), "[Participant 3]".to_string())];
    assert_eq!(name_rewrite(&groups(&[Some("BoB"), Some("BoB")]), &map), "[Participant 3]");
    assert_eq!(name_rewrite(&groups(&[Some("Eve"), Some("Eve")]), &map), "Eve");
    assert_eq!(name_rewrite(&groups(&[Some("whole")]), &map), "whole");
}
