//! The reader: what is on screen, and what is done with it.

use std::collections::HashMap;

use vireo::document::{stock_grounds, CardFacts, Icons, TagChip, Words};
use vireo::escape::{attr_escape, escape_markup, escape_text};
use vireo::keys::{carried_key, fetched_key, wants_own_key, KeyNews};
use vireo::message_row::RowAction;
use vireo::message_view::{
    sender_details, CheckLine, GoodSignature, MessageView, MessageViewInput, MessageViewOutput,
    Opening, PgpStatus, ReadMark, SelectMode, SenderCheck, SenderTrust, ViewStep,
};
use vireo::models::{message_key, Message};
use vireo::reader_style::ReaderStyle;
use vireo::render::{cover_css, ground_channels, ReaderSettings, Surroundings};
use vireo::script_messages::{input_of, parse_script_message, ScriptMessage};

fn words() -> Words {
    let s = |t: &str| t.to_string();
    Words {
        open_hint: s("Double-click to open"),
        actions: s("Actions"),
        reply: s("Reply"),
        reply_all: s("Reply all"),
        forward: s("Forward"),
        toggle_read: s("Toggle read"),
        flag: s("Star"),
        archive: s("Archive"),
        delete: s("Delete"),
        spam: s("Spam"),
        contact: s("Add sender to Contacts"),
        source: s("View source"),
        own_style: s("Your formatting"),
        sender_style: s("Sender formatting"),
        hide_recipients: s("Hide recipients"),
        show_recipients: s("Show recipients"),
    }
}

fn icons() -> Icons {
    let none = String::new;
    Icons {
        more: none(),
        reply: none(),
        reply_all: none(),
        forward: none(),
        read: none(),
        unread: none(),
        star: none(),
        archive: none(),
        trash: none(),
        junk: none(),
        contact: none(),
        source: none(),
        rich: none(),
        verified: none(),
        lock: none(),
        shield: none(),
    }
}

fn msg_for_print() -> Message {
    Message {
        id: 1,
        account_id: 1,
        folder_id: 1,
        uid: 1,
        from_name: "Ada Lovelace".into(),
        from_addr: "ada@example.com".into(),
        reply_to: String::new(),
        to: "me@example.com".into(),
        cc: "carol@example.com".into(),
        subject: "Quarterly numbers".into(),
        preview: String::new(),
        body: "<p>hi</p>".into(),
        date: "09:14".into(),
        timestamp: 0,
        unread: false,
        starred: false,
        keywords: Vec::new(),
        has_attachment: false,
        message_id: String::new(),
        references: String::new(),
    }
}

fn reader() -> MessageView {
    MessageView::new(ReaderSettings {
        read_mark: ReadMark::Shown,
        show_banner: true,
        card_actions_hover: false,
        card_actions_auto: true,
        palette_collapse_secs: 3,
    })
}

fn second() -> Message {
    Message { id: 2, timestamp: 9, ..msg_for_print() }
}

fn show(view: &mut MessageView, thread: Vec<Message>, allow_remote: bool) -> Vec<ViewStep> {
    view.update(MessageViewInput::Show(Opening {
        thread,
        allow_remote,
        account_name: None,
        chip_css: None,
        loading: false,
        primary: None,
        instant: false,
        folder_labels: HashMap::new(),
    }))
}

fn around() -> Surroundings {
    Surroundings {
        dark: false,
        accent: "#3584e4".to_string(),
        grounds: stock_grounds(false),
        words: words(),
        icons: icons(),
        nonce: Some("0123456789abcdef".to_string()),
        copied: "\"Copied\"".to_string(),
    }
}

fn facts(n: usize) -> Vec<CardFacts> {
    (0..n)
        .map(|_| CardFacts {
            date: "today".to_string(),
            avatar: None,
            recipients_label: "2 recipients".to_string(),
            colors: Vec::new(),
        })
        .collect()
}

fn check(trust: SenderTrust) -> SenderCheck {
    SenderCheck {
        trust,
        label: "Say \"no\"".to_string(),
        summary: "summary".to_string(),
        findings: vec!["spf".to_string()],
        pgp: None,
    }
}

fn scripts(steps: &[ViewStep]) -> Vec<&str> {
    steps
        .iter()
        .filter_map(|s| match s {
            ViewStep::RunScript(js) => Some(js.as_str()),
            _ => None,
        })
        .collect()
}

// ----- Remote content -----

#[test]
fn remote_content_is_withheld_until_it_is_asked_for() {
    let mut view = reader();
    let nosy = Message { body: "<img src=//t.example/p>".to_string(), ..msg_for_print() };
    show(&mut view, vec![nosy], false);
    assert!(view.content.blocked && view.banner_shown() && !view.content.remote_allowed);
    assert!(!view.document_html(&facts(1), &around()).contains("t.example"));
    view.update(MessageViewInput::SetBannerShown(false));
    assert!(view.content.blocked && !view.banner_shown());
    let steps = view.update(MessageViewInput::AllowSenderAlways);
    assert!(matches!(&steps[..], [
        ViewStep::Output(MessageViewOutput::AllowSender(addr)),
        ViewStep::Render
    ] if addr == "ada@example.com"));
    assert!(!view.content.blocked && view.content.remote_allowed);
    assert!(view.document_html(&facts(1), &around()).contains("t.example"));
}

// ----- Drawing -----

#[test]
fn a_document_is_loaded_once() {
    let mut view = reader();
    assert_eq!(view.body_page(), "loading");
    show(&mut view, vec![msg_for_print(), second()], false);
    let load = view.render(&facts(2), &around()).expect("a document");
    assert_eq!(load.address, "https://vireo.localhost/message/1");
    assert!(load.html.contains(
        "<body data-vireo-acts=\"hover\" data-vireo-actsdelay=\"3000\" data-vireo-newest=\"1:2\" \
         data-vireo-readmark=\"250\" data-vireo-copied=\"&quot;Copied&quot;\" class=\"vireo-conv\">"
    ));
    assert_eq!(view.body_page(), "loading");
    view.update(MessageViewInput::Rendered);
    assert_eq!(view.body_page(), "body");
    assert!(view.render(&facts(2), &around()).is_none());
    view.update(MessageViewInput::ScrollAnchor { account_id: 1, id: 2, offset: 40 });
    let dark = Surroundings { dark: true, ..around() };
    let again = view.render(&facts(2), &dark).expect("another document");
    assert_eq!(again.address, "https://vireo.localhost/message/2");
    assert!(again.html.contains(" data-vireo-noscroll=\"1\" data-vireo-anchor=\"1:2:40\""));
}

#[test]
fn a_change_of_the_looks_is_drawn() {
    let mut view = reader();
    show(&mut view, vec![msg_for_print()], false);
    view.render(&facts(1), &around());
    view.update(MessageViewInput::Rendered);
    for input in [
        MessageViewInput::SetReadMark(ReadMark::Manual),
        MessageViewInput::SetSingleMessageCard(true),
        MessageViewInput::SetAlwaysShowRecipients(true),
        MessageViewInput::SetPaletteCollapse(9),
        MessageViewInput::ToggleSenderStyle { account_id: 1, id: 1 },
    ] {
        view.update(input);
        assert!(view.render(&facts(1), &around()).is_some());
        view.update(MessageViewInput::Rendered);
        assert!(view.render(&facts(1), &around()).is_none());
    }
}

/// What a card shows is drawn anew when it changes: the star, the tags and the accent.
#[test]
fn a_change_of_a_card_is_drawn() {
    let mut view = reader();
    show(&mut view, vec![msg_for_print()], false);
    view.render(&facts(1), &around());
    view.update(MessageViewInput::Rendered);
    assert!(view.render(&facts(1), &around()).is_none());
    view.update(MessageViewInput::SetCardStar { account_id: 1, id: 1, starred: true });
    let load = view.render(&facts(1), &around()).expect("a star");
    assert!(load.html.contains("class=\"vireo-act on\" data-act=\"star\""));
    view.update(MessageViewInput::Rendered);
    let accented = Surroundings { accent: "#ff8800".to_string(), ..around() };
    assert!(view.render(&facts(1), &accented).is_some());
    view.update(MessageViewInput::Rendered);
    assert!(view.render(&facts(1), &accented).is_none());
}

#[test]
fn the_theme_is_the_readers_or_the_desktops() {
    let mut view = reader();
    assert!(view.effective_dark(true) && !view.effective_dark(false));
    view.update(MessageViewInput::SetContentTheme(Some(true)));
    assert!(view.effective_dark(false));
    assert_eq!(
        cover_css("#123456", true),
        ".reader-cover { background-color: #123456; }.reader-loading label, .reader-loading spinner { color: rgba(255,255,255,0.55); }"
    );
    assert_eq!(ground_channels("#1020ff"), (0x10, 0x20, 0xff));
    assert_eq!(ground_channels("#zz20ff"), (0, 0x20, 0xff));
}

#[test]
fn what_is_printed_says_who_sent_it() {
    let mut view = reader();
    assert_eq!(view.job_name(), "Message");
    show(&mut view, vec![msg_for_print(), second()], false);
    assert_eq!(view.job_name(), "Quarterly numbers");
    let dates = vec!["monday".to_string(), "tuesday".to_string()];
    let html = view.print_document_html(&dates, "", "#3584e4");
    assert_eq!(html.matches("<article").count(), 2);
    assert_eq!(html.matches("vireo-print-msghdr\">Ada").count(), 2);
    assert!(html.contains("tuesday"));
}

// ----- Reading -----

#[test]
fn being_in_view_reads_a_message() {
    let mut view = reader();
    let unread = Message { unread: true, ..second() };
    show(&mut view, vec![msg_for_print(), unread], false);
    let steps = view.update(MessageViewInput::MarkSeen { account_id: 1, id: 2 });
    assert!(matches!(&steps[..], [ViewStep::Output(MessageViewOutput::MarkSeen { account_id: 1, id: 2 })]));
    assert!(view.update(MessageViewInput::MarkSeen { account_id: 1, id: 2 }).is_empty());
    view.update(MessageViewInput::SuppressAutoRead { account_id: 1, id: 2 });
    assert!(view.content.thread[1].unread);
    assert!(view.update(MessageViewInput::MarkSeen { account_id: 1, id: 2 }).is_empty());
    assert!(view.content.thread[1].unread);
}

// ----- Selecting -----

#[test]
fn cards_are_selected_in_a_conversation() {
    let mut view = reader();
    show(&mut view, vec![msg_for_print()], false);
    let click = |mode| MessageViewInput::CardClicked { account_id: 1, id: 1, mode };
    assert!(view.update(click(SelectMode::Plain)).is_empty());
    show(&mut view, vec![msg_for_print(), second()], false);
    view.update(click(SelectMode::Plain));
    assert_eq!(view.marks.selected_cards, vec![(1, 1)]);
    view.update(MessageViewInput::CardClicked { account_id: 1, id: 2, mode: SelectMode::Range });
    assert_eq!(view.marks.selected_cards, vec![(1, 1), (1, 2)]);
    view.update(click(SelectMode::Toggle));
    assert_eq!(view.marks.selected_cards, vec![(1, 2)]);
    view.update(MessageViewInput::CardClicked { account_id: 7, id: 7, mode: SelectMode::Plain });
    assert!(view.marks.selected_cards.is_empty());
    view.update(MessageViewInput::SelectAllCards);
    assert_eq!(view.marks.selected_cards, vec![(1, 1), (1, 2)]);
    view.update(MessageViewInput::SetSelectedCards(vec![(1, 2)]));
    assert!(view.marks.selected_cards.is_empty());
}

#[test]
fn heights_of_frames_are_bounded() {
    let mut view = reader();
    for id in 0..2000 {
        view.update(MessageViewInput::FrameSized { account_id: 1, id, height: id + 1 });
    }
    assert!(view.marks.frame_heights.len() <= 513);
    assert_eq!(view.marks.frame_heights.get(&message_key(1, 1999)), Some(&2000));
}

#[test]
fn the_senders_formatting_is_a_toggle() {
    let mut view = reader();
    show(&mut view, vec![msg_for_print()], false);
    let toggle = || MessageViewInput::ToggleSenderStyle { account_id: 1, id: 1 };
    view.update(toggle());
    assert!(view.marks.sender_style.contains(&message_key(1, 1)));
    view.update(toggle());
    assert!(view.marks.sender_style.is_empty());
    assert!(view.update(MessageViewInput::SetReaderStyle(ReaderStyle::none())).is_empty());
}

// ----- Senders -----

#[test]
fn a_verdict_lights_its_seal() {
    let mut view = reader();
    show(&mut view, vec![msg_for_print(), second()], false);
    assert!(view.trust() == SenderTrust::Unverified);
    let verdict = |id, t| MessageViewInput::SenderCheckFor {
        account_id: 1,
        id,
        check: Box::new(check(t)),
    };
    assert!(view.update(verdict(1, SenderTrust::Fail)).is_empty());
    let drawn = view.update(MessageViewInput::Rendered);
    assert_eq!(scripts(&drawn).len(), 1);
    assert!(scripts(&drawn)[0].contains("trust-fail"));
    assert!(scripts(&drawn)[0].contains("\"Say \\\"no\\\"\""));
    view.update(verdict(1, SenderTrust::Pass));
    assert!(view.check_for(1, 1).expect("known").trust == SenderTrust::Pass);
    assert!(view.check_for(1, 2).is_none());
    view.update(MessageViewInput::SetSenderCheck(Box::new(check(SenderTrust::Suspicious))));
    assert!(view.trust() == SenderTrust::Suspicious);
    assert!(view.update(MessageViewInput::PgpTrustKey { account_id: 1, id: 1 }).is_empty());
}

#[test]
fn details_of_a_verdict() {
    let mut c = check(SenderTrust::Pass);
    c.pgp = Some(PgpStatus {
        encrypted: false,
        signed: true,
        class: "good".to_string(),
        summary: "Signed".to_string(),
        notes: vec!["a".to_string(), "b".to_string()],
        key_missing: true,
        key_untrusted: true,
        good: Some(GoodSignature { signer: "Ada".to_string(), key_id: "1".to_string() }),
    });
    let lines = sender_details(&c);
    assert!(matches!(&lines[0], CheckLine::PgpHeading));
    assert!(matches!(&lines[1], CheckLine::Text(t) if t == "Signed"));
    assert!(matches!(&lines[2], CheckLine::Dim(t) if t == "a\nb"));
    assert!(matches!(&lines[3], CheckLine::FetchKey));
}

#[test]
fn news_of_a_key() {
    assert!(carried_key(Some(1)) == Some(KeyNews::FromMessage));
    assert!(carried_key(Some(0)).is_none() && carried_key(None).is_none());
    assert!(fetched_key(2) == KeyNews::Fetched && fetched_key(0) == KeyNews::AlreadyThere);
    assert!(wants_own_key("no default secret key"));
    assert!(wants_own_key("gpg: no secret key"));
    assert!(!wants_own_key("keyserver down"));
}

// ----- Tags -----

fn tag(keyword: &str) -> TagChip {
    let s = |t: &str| t.to_string();
    TagChip {
        keyword: s(keyword),
        label: s(keyword),
        css_class: s("tag-x"),
        color: s("#f00"),
        text_color: s("#fff"),
    }
}

#[test]
fn the_header_shows_the_tags_of_a_lone_message() {
    let mut view = reader();
    let tagged = Message { keywords: vec!["WORK".to_string()], ..msg_for_print() };
    show(&mut view, vec![tagged], false);
    assert!(!view.header_tags_shown());
    view.update(MessageViewInput::SetTags(vec![tag("home"), tag("work")]));
    assert!(view.header_tags_shown());
    assert_eq!(view.sync_header_tags(), Some(vec![1]));
    assert_eq!(view.sync_header_tags(), None);
    let steps = view.update(MessageViewInput::SetCardKeywords {
        account_id: 1,
        id: 1,
        keywords: vec!["home".to_string()],
    });
    assert!(scripts(&steps)[0].contains("home"));
    assert!(scripts(&steps)[0].contains("class=\\\""), "{:?}", scripts(&steps));
    assert_eq!(view.sync_header_tags(), Some(vec![0]));
}

// ----- Finding -----

#[test]
fn finding_opens_and_closes() {
    let mut view = reader();
    let open = |ms| MessageViewInput::OpenFind { since_closed: ms };
    assert!(matches!(&view.update(open(0))[..], [ViewStep::FocusFindEntry]));
    assert!(matches!(&view.update(open(0))[..], [ViewStep::SendCloseFind]));
    view.update(MessageViewInput::CloseFind);
    assert!(view.update(open(100)).is_empty() && !view.find.find_open);
    assert!(matches!(&view.update(open(100))[..], [ViewStep::FocusFindEntry]));
    let steps = view.update(MessageViewInput::FindChanged(" it's \\ ".to_string()));
    assert_eq!(scripts(&steps), vec!["vireoFind('it\\'s \\\\')"]);
    let steps = view.update(MessageViewInput::FindChanged("  ".to_string()));
    assert_eq!(scripts(&steps), vec!["vireoFindClear()"]);
}

#[test]
fn a_focus_that_was_called_off_does_nothing() {
    let mut view = reader();
    let steps = view.update(MessageViewInput::FocusCard { account_id: 1, id: 1 });
    let generation = match &steps[..] {
        [ViewStep::ScheduleFocus { generation, .. }] => *generation,
        _ => panic!("a focus"),
    };
    assert!(view.focus_card_script(generation, 1, 1).is_some());
    view.update(MessageViewInput::BlurCard);
    assert!(view.focus_card_script(generation, 1, 1).is_none());
}

// ----- What the document reports -----

#[test]
fn reports_are_parsed_strictly() {
    assert!(matches!(parse_script_message("ready:0:0"), Some(ScriptMessage::Ready)));
    assert!(matches!(
        parse_script_message("reply:1:2"),
        Some(ScriptMessage::Action { action: RowAction::Reply, account_id: 1, id: 2 })
    ));
    assert!(matches!(parse_script_message("copy:0:0:a:b"), Some(ScriptMessage::Copy(t)) if t == "a:b"));
    assert!(matches!(
        parse_script_message("sel:1:2:t"),
        Some(ScriptMessage::Select { mode: SelectMode::Toggle, .. })
    ));
    assert!(matches!(
        parse_script_message("found:0:0:3,7"),
        Some(ScriptMessage::Found { current: 3, total: 7 })
    ));
    assert!(matches!(
        parse_script_message("found:0:0:x"),
        Some(ScriptMessage::Found { current: 0, total: 0 })
    ));
    assert!(matches!(
        parse_script_message("senderinfo:1:2:1,2.5,3"),
        Some(ScriptMessage::SenderInfo { account_id: 1, id: 2, numbers }) if numbers == vec!["1", "2.5", "3"]
    ));
    assert!(matches!(
        parse_script_message("composeto:0:0: a@b "),
        Some(ScriptMessage::ComposeTo(t)) if t == "a@b"
    ));
    for bad in [
        "", "ready", "ready:1", "ready:x:1", "ready:1:-1", "size:1:1", "size:1:1:x", "copy:0:0:",
        "composeto:0:0:  ", "nonsense:1:1", "open:4294967296:1",
    ] {
        assert!(parse_script_message(bad).is_none(), "{bad}");
    }
    let m = parse_script_message("scrollat:1:2:30").expect("a report");
    assert!(matches!(
        input_of(m),
        Some(MessageViewInput::ScrollAnchor { account_id: 1, id: 2, offset: 30 })
    ));
}

// ----- Escaping -----

#[test]
fn escaped_texts_open_nothing() {
    assert_eq!(escape_text("a<b>&\"c"), "a&lt;b&gt;&amp;\"c");
    assert_eq!(attr_escape("a\"b&c"), "a&quot;b&amp;c");
    assert_eq!(escape_markup("<\"'&>"), "&lt;&quot;'&amp;&gt;");
    assert_eq!(escape_text("plain"), "plain");
}
