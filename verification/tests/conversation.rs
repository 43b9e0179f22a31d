//! The document of a conversation.

use std::collections::{HashMap, HashSet};

use vireo::document::{
    avatar_face, paints_own_background, recipient_count, split_addr_list, stock_grounds,
    tag_chips_html, CardFacts, Icons, Page, TagChip, Words,
};
use vireo::models::{message_key, Message};
use vireo::password::{script_password, DRAWN};
use vireo::reader_style::{Font, ReaderStyle, Slant, Stretch};

const GROUND: &str = "#ffffff";
const PAGE: &str = "#f1f1f1";

fn words() -> Words {
    let s = |t: &str| t.to_string();
    Words {
        open_hint: s("Double-click to open"),
        actions: s("Actions"),
        reply: s("Reply"),
        reply_all: s("Reply all"),
        forward: s("Forward"),
        toggle_read: s("Toggle read"),
        flag: s("Star"),
        archive: s("Archive"),
        delete: s("Delete"),
        spam: s("Spam"),
        contact: s("Add sender to Contacts"),
        source: s("View source"),
        own_style: s("Your formatting"),
        sender_style: s("Sender formatting"),
        hide_recipients: s("Hide recipients"),
        show_recipients: s("Show recipients"),
    }
}

fn icons() -> Icons {
    let none = String::new;
    Icons {
        more: none(),
        reply: none(),
        reply_all: none(),
        forward: none(),
        read: none(),
        unread: none(),
        star: none(),
        archive: none(),
        trash: none(),
        junk: none(),
        contact: none(),
        source: none(),
        rich: none(),
        verified: none(),
        lock: none(),
        shield: none(),
    }
}

fn facts(m: &Message) -> CardFacts {
    let n = recipient_count(m);
    CardFacts {
        date: "Thursday, 1 January 1970".to_string(),
        avatar: None,
        recipients_label: if n == 1 {
            "1 recipient".to_string()
        } else {
            format!("{n} recipients")
        },
        colors: Vec::new(),
    }
}

fn packed<T: Clone>(map: &HashMap<(u32, u32), T>) -> HashMap<u64, T> {
    map.iter().map(|(k, v)| (message_key(k.0, k.1), v.clone())).collect()
}

#[allow(clippy::too_many_arguments)]
fn conversation_document(
    thread: &[Message],
    labels: &HashMap<(u32, u32), String>,
    _no_autoread: &HashSet<(u32, u32)>,
    heights: &HashMap<(u32, u32), u32>,
    selected: &[(u32, u32)],
    accent: &str,
    restrict: bool,
    dark: bool,
    always_show_recipients: bool,
    single_message_card: bool,
    style: &ReaderStyle,
    sender_style: &HashSet<(u32, u32)>,
) -> String {
    let thread: Vec<Message> = thread.iter().map(|m| m.copy()).collect();
    let facts: Vec<CardFacts> = thread.iter().map(facts).collect();
    let own: HashSet<u64> = sender_style.iter().map(|k| message_key(k.0, k.1)).collect();
    // A script's password of its own for each document.
    let n = std::time::SystemTime::now()
        .duration_since(std::time::UNIX_EPOCH)
        .map(|d| d.as_nanos())
        .unwrap_or(0);
    let accent = accent.to_string();
    let page = Page {
        accent: &accent,
        restrict,
        dark,
        always_show_recipients,
        single_message_card,
        style,
        tags: &Vec::new(),
        grounds: &stock_grounds(dark),
        words: &words(),
        icons: &icons(),
        nonce: &script_password(&n.to_le_bytes()[..DRAWN].to_vec()),
    };
    vireo::document::conversation_document(
        &thread,
        &facts,
        &packed(labels),
        &packed(heights),
        &selected.to_vec(),
        &own,
        &page,
    )
}

fn cantarell() -> Font {
    Font {
        family: Some("Cantarell".to_string()),
        size: 11 * 1024,
        absolute: false,
        weight: 400,
        slant: Slant::Upright,
        stretch: Stretch::Normal,
    }
}

fn msg_for_print() -> Message {
    Message {
        id: 1,
        account_id: 1,
        folder_id: 1,
        uid: 1,
        from_name: "Ada Lovelace".into(),
        from_addr: "ada@example.com".into(),
        reply_to: String::new(),
        to: "me@example.com".into(),
        cc: "carol@example.com".into(),
        subject: "Quarterly numbers".into(),
        preview: String::new(),
        body: "<p>hi</p>".into(),
        date: "09:14".into(),
        timestamp: 0,
        unread: false,
        starred: false,
        keywords: Vec::new(),
        has_attachment: false,
        message_id: String::new(),
        references: String::new(),
    }
}

/// A conversation is a stack of cards in the order it is handed, so the
/// reader shows the message that started it first and the newest last.
#[test]
fn a_conversation_renders_one_card_per_message_in_order() {
    let mut first = msg_for_print();
    first.body = "<p>opening</p>".into();
    let mut second = msg_for_print();
    second.id = 2;
    second.from_name = "Grace Hopper".into();
    second.body = "<p>reply</p>".into();

    let doc = conversation_document(
        &[first, second],
        &std::collections::HashMap::new(),
        &Default::default(),
        &Default::default(),
        &[],
        "#3584e4",
        true,
        false,
        false,
        false,
        &ReaderStyle::none(),
        &Default::default(),
    );
    assert_eq!(
        doc.matches("<section class=\"vireo-msg\"").count(),
        2,
        "each message gets its own card: {doc}"
    );
    let ada = doc.find("Ada Lovelace").expect("first sender present");
    let grace = doc.find("Grace Hopper").expect("second sender present");
    assert!(ada < grace, "cards must keep the order they were handed");
    assert!(doc.contains("<body class=\"vireo-conv\">"), "conversation padding");
    // The cards sit on the deeper page — the same colour the spinner and the
    // cover behind the WebView are painted, so the handover is invisible.
    assert!(doc.contains(&format!("background:{}", PAGE)), "page ground: {doc}");
}

/// Each card names everyone the message went to, collapsed behind a chip so
/// the header stays one line tall — and a recipient list is header text an
/// attacker controls, so it must land escaped in the trusted wrapper.
#[test]
fn every_card_carries_its_recipients_escaped_and_collapsed() {
    let mut first = msg_for_print();
    first.to = "me@example.com, <script>alert(1)</script>@evil.test".into();
    let mut second = msg_for_print();
    second.id = 2;
    second.cc = String::new();

    let doc = conversation_document(
        &[first, second],
        &std::collections::HashMap::new(),
        &Default::default(),
        &Default::default(),
        &[],
        "#3584e4",
        true,
        false,
        false,
        false,
        &ReaderStyle::none(),
        &Default::default(),
    );
    assert_eq!(
        doc.matches("class=\"vireo-rcpt\" hidden").count(),
        2,
        "each card gets a collapsed To/Cc block: {doc}"
    );
    assert_eq!(
        doc.matches("class=\"vireo-rcpt-toggle\"").count(),
        2,
        "each card gets a recipients chip: {doc}"
    );
    // 3 addresses on the first card (2 To + 1 Cc), 1 on the second.
    assert!(doc.contains(">3 recipients<"), "recipient count on the chip: {doc}");
    assert!(doc.contains(">1 recipient<"), "singular for one recipient: {doc}");
    assert!(!doc.contains("<script>alert(1)</script>"), "recipients must be escaped: {doc}");
    assert!(doc.contains("&lt;script&gt;"), "escaped form present: {doc}");
}

/// A message that names no recipients at all gets neither chip nor block.
#[test]
fn a_card_with_no_recipients_shows_no_chip() {
    let mut only = msg_for_print();
    only.to = String::new();
    only.cc = " ".into();
    let mut second = msg_for_print();
    second.id = 2;
    let doc = conversation_document(
        &[only, second],
        &std::collections::HashMap::new(),
        &Default::default(),
        &Default::default(),
        &[],
        "#3584e4",
        true,
        false,
        false,
        false,
        &ReaderStyle::none(),
        &Default::default(),
    );
    assert_eq!(
        doc.matches("<button type=\"button\" class=\"vireo-rcpt-toggle\"").count(),
        1,
        "only the second card: {doc}"
    );
}

/// Each card carries its own Reply/Reply all/Forward, keyed to that message
/// — the toolbar's buttons are disabled in a conversation precisely because
/// they could not say which message they meant.
#[test]
fn every_card_carries_its_own_actions_keyed_to_that_message() {
    let first = msg_for_print();
    let mut second = msg_for_print();
    second.id = 2;
    let doc = conversation_document(
        &[first, second],
        &std::collections::HashMap::new(),
        &Default::default(),
        &Default::default(),
        &[],
        "#3584e4",
        true,
        false,
        false,
        false,
        &ReaderStyle::none(),
        &Default::default(),
    );
    for act in ["reply", "replyall", "forward"] {
        assert_eq!(
            doc.matches(&format!("data-act=\"{act}\"")).count(),
            2,
            "one {act} button per card: {doc}"
        );
    }
    // Keyed per message, so the action can't land on the wrong one.
    assert!(doc.contains("data-act=\"reply\" data-key=\"1:1\""), "{doc}");
    assert!(doc.contains("data-act=\"reply\" data-key=\"1:2\""), "{doc}");
}

/// An unread message in a conversation is marked with its dot; reading is
/// click-driven now, so no scroll sentinel exists for any message.
#[test]
fn only_unread_conversation_messages_are_marked() {
    let read = msg_for_print();
    let mut unread = msg_for_print();
    unread.id = 2;
    unread.unread = true;

    let doc = conversation_document(
        &[read, unread],
        &std::collections::HashMap::new(),
        &Default::default(),
        &Default::default(),
        &[],
        "#3584e4",
        true,
        false,
        false,
        false,
        &ReaderStyle::none(),
        &Default::default(),
    );
    assert_eq!(doc.matches("class=\"vireo-dot\"").count(), 1, "one dot: {doc}");
    assert_eq!(doc.matches("class=\"vireo-end\"").count(), 0, "no sentinel: {doc}");
    // Keyed to the unread message, so reading it can't clear another's.
    assert!(doc.contains("class=\"vireo-dot\" data-key=\"1:2\""), "{doc}");
}

/// Marking a message unread while its conversation is open must survive the
/// message being in view: it keeps its dot, but no sentinel, so nothing
/// reads it back until the conversation is opened afresh.
#[test]
fn a_deliberately_unread_message_keeps_its_mark() {
    let read = msg_for_print();
    let mut unread = msg_for_print();
    unread.id = 2;
    unread.unread = true;
    let suppressed: std::collections::HashSet<(u32, u32)> = [(1u32, 2u32)].into();

    let doc = conversation_document(
        &[read, unread],
        &std::collections::HashMap::new(),
        &suppressed,
        &Default::default(),
        &[],
        "#3584e4",
        true,
        false,
        false,
        false,
        &ReaderStyle::none(),
        &Default::default(),
    );
    assert_eq!(doc.matches("class=\"vireo-dot\"").count(), 1, "still marked: {doc}");
    assert_eq!(doc.matches("class=\"vireo-end\"").count(), 0, "no sentinel: {doc}");
}

/// A frame opens at the height it had last time, so a reopened conversation
/// lays out on its first frame rather than every card jumping once measured.
#[test]
fn a_known_frame_height_is_used_on_reopen() {
    let a = msg_for_print();
    let mut b = msg_for_print();
    b.id = 2;
    let heights: std::collections::HashMap<(u32, u32), u32> = [((1u32, 2u32), 640u32)].into();

    let doc = conversation_document(
        &[a, b],
        &Default::default(),
        &Default::default(),
        &heights,
        &[],
        "#3584e4",
        true,
        false,
        false,
        false,
        &ReaderStyle::none(),
        &Default::default(),
    );
    assert!(doc.contains("style=\"height:640px\""), "known height used: {doc}");
    assert_eq!(doc.matches("style=\"height:").count(), 1, "only the known one");
    // Keyed per message, so a height can't be applied to the wrong frame.
    assert!(doc.contains("data-key=\"1:2\""), "{doc}");
}

/// A selected message is outlined in the accent colour, and only that one.
#[test]
fn a_selected_card_is_outlined_in_the_accent() {
    let a = msg_for_print();
    let mut b = msg_for_print();
    b.id = 2;
    let doc = conversation_document(
        &[a, b],
        &Default::default(),
        &Default::default(),
        &Default::default(),
        &[(1, 2)],
        "#ff8800",
        true,
        false,
        false,
        false,
        &ReaderStyle::none(),
        &Default::default(),
    );
    assert!(doc.contains("class=\"vireo-msg selected\" data-key=\"1:2\""), "{doc}");
    assert_eq!(doc.matches("vireo-msg selected").count(), 1, "only the selected one");
    assert!(doc.contains("box-shadow:0 0 0 2px #ff8800"), "outlined in the accent: {doc}");
}

/// A lone message gets the same in-document header a conversation card
/// does — its own action icons included, since the toolbar carries no
/// per-message actions — but goes full-bleed: no card gutter, so it reads
/// as a message, not a card.
#[test]
fn a_single_message_keeps_the_header_but_goes_full_bleed() {
    let doc = conversation_document(
        &[msg_for_print()],
        &std::collections::HashMap::new(),
        &Default::default(),
        &Default::default(),
        &[],
        "#3584e4",
        true,
        false,
        false,
        false,
        &ReaderStyle::none(),
        &Default::default(),
    );
    assert!(doc.contains("<section class=\"vireo-msg\""), "message chrome: {doc}");
    assert!(doc.contains("class=\"vireo-msg-hdr\""), "in-document header: {doc}");
    assert!(!doc.contains("<body class=\"vireo-conv\">"), "no card gutter: {doc}");
    assert!(doc.contains("data-act=\"reply\""), "card actions present: {doc}");
    // Full-bleed also means the plain ground, not the cards' deeper page.
    assert!(doc.contains(&format!("background:{}", GROUND)), "plain ground: {doc}");
}

/// With the "single messages as cards" preference on, a lone
/// message renders exactly like a one-message conversation: carded, on
/// the deeper page ground.
#[test]
fn a_single_message_cards_up_when_asked() {
    let doc = conversation_document(
        &[msg_for_print()],
        &std::collections::HashMap::new(),
        &Default::default(),
        &Default::default(),
        &[],
        "#3584e4",
        true,
        false,
        false,
        true,
        &ReaderStyle::none(),
        &Default::default(),
    );
    assert!(doc.contains("<body class=\"vireo-conv\">"), "card gutter: {doc}");
    assert!(doc.contains(&format!("background:{}", PAGE)), "deeper page ground: {doc}");
}

#[test]
fn a_message_from_another_folder_is_labelled_with_it() {
    let a = msg_for_print(); // the message on screen
    let mut b = msg_for_print();
    b.id = 2;
    b.folder_id = 3; // pulled in from Sent
    let labels = std::collections::HashMap::from([((1u32, 2u32), "Sent".to_string())]);
    let doc = conversation_document(&[a, b], &labels, &Default::default(), &Default::default(), &[], "#3584e4", true, false, false, false, &ReaderStyle::none(), &Default::default());
    assert_eq!(
        doc.matches("vireo-folder").count(),
        // once in the stylesheet, once on the message that came from Sent —
        // and never on the one the reader is already showing the folder of.
        2,
        "only the message from another folder should carry a folder badge"
    );
    assert!(doc.contains(">Sent</span>"), "the badge should name the folder");
}

#[test]
fn a_folder_label_cannot_smuggle_markup_into_the_header() {
    // Folder names come from the server (a mailbox can be called anything),
    // and this document is the trusted wrapper around the sandboxed frames.
    let a = msg_for_print();
    let mut b = msg_for_print();
    b.id = 2;
    let labels =
        std::collections::HashMap::from([((1u32, 2u32), "<img src=x onerror=alert(1)>".into())]);
    let doc = conversation_document(&[a, b], &labels, &Default::default(), &Default::default(), &[], "#3584e4", true, false, false, false, &ReaderStyle::none(), &Default::default());
    assert!(!doc.contains("<img src=x"), "the label must be escaped, not rendered");
    assert!(doc.contains("&lt;img src=x"));
}

#[test]
fn a_sender_cannot_put_markup_in_the_conversation_header() {
    // The wrapper document has JavaScript enabled (it sizes the message
    // iframes) and the iframes are same-origin, so anything that executes
    // here can read every message body in the thread. A `From:` display name
    // is attacker-controlled and RFC 2047-decoded, so it can carry any bytes
    // at all — it has to reach the page as text, never as markup.
    let mut a = msg_for_print();
    a.from_name = "<script>x=1</script>".into();
    a.from_addr = "<img src=y onerror=z>@example.com".into();
    let mut b = msg_for_print();
    b.id = 2;
    // Two messages: the per-message headers only render in conversation mode.
    let doc = conversation_document(&[a, b], &Default::default(), &Default::default(), &Default::default(),
        &[], "#3584e4", true, false, false, false, &ReaderStyle::none(), &Default::default());

    assert!(!doc.contains("<script>x=1"), "{doc}");
    assert!(!doc.contains("<img src=y"), "{doc}");
    assert!(doc.contains("&lt;script&gt;x=1&lt;/script&gt;"), "{doc}");
    assert!(doc.contains("onerror=z&gt;"), "{doc}");
}

/// Whatever a message holds stays in its frame, and a theme's colours in the sheet.
#[test]
fn no_other_script_comes_with_a_message() {
    let mut a = msg_for_print();
    a.from_name = "<script>1</script>".into();
    a.to = "\"><script>2</script>, x@y".into();
    a.body = "\"><script>3</script>".into();
    let doc = conversation_document(&[a], &Default::default(), &Default::default(), &Default::default(),
        &[], "</style><script>4</script>", true, false, false, false, &ReaderStyle::none(), &Default::default());
    let outside: String = doc
        .split("srcdoc=\"")
        .enumerate()
        .map(|(i, part)| if i == 0 { part } else { part.split_once('"').expect("a value").1 })
        .collect();
    assert_eq!(outside.matches("<script").count(), 1, "{outside}");
    assert_eq!(outside.matches("</script").count(), 1, "{outside}");
    assert_eq!(outside.matches("</style").count(), 1, "{outside}");
    assert!(outside.contains("\\3c /style>"), "{outside}");
}

#[test]
fn the_wrapper_only_runs_its_own_script() {
    let mut a = msg_for_print();
    a.from_name = "Ada".into();
    let mut b = msg_for_print();
    b.id = 2;
    let doc = conversation_document(&[a, b], &Default::default(), &Default::default(), &Default::default(),
        &[], "#3584e4", true, false, false, false, &ReaderStyle::none(), &Default::default());

    // A nonce'd CSP, so an injected `<script>` or `onerror=` is refused by
    // the engine even if the escaping above ever regresses.
    // The wrapper's own policy — not one of the frames', which are embedded
    // in this same string as escaped `srcdoc` payloads.
    let policy = doc
        .split("<meta http-equiv=\"Content-Security-Policy\" content=\"")
        .nth(1)
        .and_then(|r| r.split('"').next())
        .expect("the wrapper declares a CSP");
    let nonce = policy
        .split("script-src 'nonce-")
        .nth(1)
        .and_then(|r| r.split('\'').next())
        .expect("wrapper CSP declares a nonce");
    assert!(nonce.len() >= 16, "nonce is {} chars", nonce.len());
    assert!(doc.contains(&format!("<script nonce=\"{nonce}\">")), "{doc}");
    // The sizing script is the *only* script, and it carries the nonce.
    assert_eq!(doc.matches("<script").count(), 1, "{doc}");
    // No `default-src` here: a wrapper policy is inherited by the srcdoc
    // frames, and one would re-block content the user has allowed. Each
    // frame brings its own `default-src 'none'`.
    assert!(!policy.contains("default-src"), "{policy}");
    // Two renders never share a nonce.
    let again =
        conversation_document(
            &[msg_for_print(), msg_for_print()],
            &Default::default(),
            &Default::default(),
            &Default::default(),
            &[],
            "#3584e4",
            true,
            false,
            false,
            false,
            &ReaderStyle::none(),
            &Default::default(),
        );
    assert!(!again.contains(nonce), "nonce was reused across renders");
}

/// The card's "sender's formatting" toggle: offered on every card while
/// an override is on, lit on the card it was used on, and that card's
/// frame goes out without the reader's sheet.
#[test]
fn sender_style_toggle_escapes_one_card() {
    let mut a = msg_for_print();
    a.body = "<p>one</p>".into();
    let mut b = msg_for_print();
    b.id = 2;
    b.body = "<p>two</p>".into();
    let style = ReaderStyle { font: Some(cantarell()), colors: false };
    let mut escaped = std::collections::HashSet::new();
    escaped.insert((a.account_id, a.id));
    let doc = conversation_document(
        &[a.copy(), b.copy()],
        &Default::default(),
        &Default::default(),
        &Default::default(),
        &[],
        "#3584e4",
        true,
        false,
        false,
        false,
        &style,
        &escaped,
    );
    assert_eq!(doc.matches("data-act=\"senderfmt\"").count(), 2, "{doc}");
    assert_eq!(doc.matches("class=\"vireo-act on\" data-act=\"senderfmt\"").count(), 1, "{doc}");
    assert_eq!(doc.matches(":root :not(#vireo-a)").count(), 1, "only the other card is styled: {doc}");

    // No override: no toggle, nothing injected.
    let plain = conversation_document(
        &[a, b],
        &Default::default(),
        &Default::default(),
        &Default::default(),
        &[],
        "#3584e4",
        true,
        false,
        false,
        false,
        &ReaderStyle::none(),
        &escaped,
    );
    assert!(!plain.contains("senderfmt"), "{plain}");
    assert!(!plain.contains(":not(#vireo-a)"), "{plain}");
}

#[test]
fn an_avatar_shows_the_initial_in_upper_case() {
    let mut m = msg_for_print();
    m.from_name = "ärger".into();
    assert_eq!(avatar_face(&m, false).initial, "Ä");
    m.from_name = String::new();
    assert_eq!(avatar_face(&m, true).initial, "A");
}

#[test]
fn addresses_are_split_outside_of_quotes() {
    assert_eq!(split_addr_list("\"Doe, Jane\" <j@x>, b@x"), vec!["\"Doe, Jane\" <j@x>", " b@x"]);
    let mut m = msg_for_print();
    m.to = "\"Doe, Jane\" <j@x>, b@x,".into();
    m.cc = " ".into();
    assert_eq!(recipient_count(&m), 2);
    assert!(paints_own_background("<td BGCOLOR=red>") && !paints_own_background("<p>x</p>"));
}

/// A password is made of the bytes that were drawn, and of nothing less.
#[test]
fn passwords_come_from_what_was_drawn() {
    let drawn: Vec<u8> = (0..12).map(|i| i * 23).collect();
    assert_eq!(script_password(&drawn).as_deref(), Some("00172e455c738aa1b8cfe6fd"));
    let mut other = drawn.clone();
    other[5] += 1;
    assert_ne!(script_password(&drawn), script_password(&other));
    assert_eq!(script_password(&drawn[..11].to_vec()), None);
    assert_eq!(script_password(&Vec::new()), None);
}

/// A tag's name and colour are text, not markup.
#[test]
fn tags_are_escaped() {
    let tag = |label: &str, color: &str| TagChip {
        keyword: "work".to_string(),
        label: label.to_string(),
        css_class: "x".to_string(),
        color: color.to_string(),
        text_color: "#fff".to_string(),
    };
    let marked = vec!["Work".to_string()];
    assert_eq!(
        tag_chips_html(&vec![tag("<script>", "\">red")], &marked),
        "<span class=\"vireo-tag\" style=\"background:&quot;&gt;red;color:#fff\">&lt;script&gt;</span>"
    );
    assert_eq!(tag_chips_html(&vec![tag("x", "red")], &Vec::new()), "");
}
