//! Printing.

use vireo::escape::attr_escape;
use vireo::models::Message;
use vireo::print::{inline_body, preview_html, scope_styles, PrintedMessage};

const DATE: &str = "Thursday, 1 January 1970, 00:00";

fn print_header_html(m: Option<&Message>) -> String {
    vireo::print::print_header_html(m, DATE)
}

fn print_message_header_html(m: &Message) -> String {
    vireo::print::print_message_header_html(m, DATE)
}

fn print_document(header: &str, messages: &[(String, String)], allow_remote: bool) -> String {
    let messages: Vec<PrintedMessage> = messages
        .iter()
        .map(|(head, doc)| PrintedMessage { head: head.clone(), doc: doc.clone() })
        .collect();
    vireo::print::print_document(header, &messages, allow_remote)
}

fn msg_for_print() -> Message {
    Message {
        id: 1,
        account_id: 1,
        folder_id: 1,
        uid: 1,
        from_name: "Ada Lovelace".into(),
        from_addr: "ada@example.com".into(),
        reply_to: String::new(),
        to: "me@example.com".into(),
        cc: "carol@example.com".into(),
        subject: "Quarterly numbers".into(),
        preview: String::new(),
        body: "<p>hi</p>".into(),
        date: "09:14".into(),
        timestamp: 0,
        unread: false,
        starred: false,
        keywords: Vec::new(),
        has_attachment: false,
        message_id: String::new(),
        references: String::new(),
    }
}

#[test]
fn the_printed_page_carries_the_header() {
    // On screen these facts live in a GTK pane, which WebKit cannot print —
    // so they have to be in the document itself.
    let m = msg_for_print();
    let header = print_header_html(Some(&m));
    assert!(header.contains("Quarterly numbers"), "{header}");
    assert!(header.contains("Ada Lovelace &lt;ada@example.com&gt;"), "{header}");
    assert!(header.contains("me@example.com"), "{header}");
    assert!(header.contains("carol@example.com"), "{header}");
    assert!(header.contains("From:") && header.contains("To:") && header.contains("Date:"));
}

#[test]
fn the_printed_header_is_text_not_markup() {
    let mut m = msg_for_print();
    m.subject = "<script>alert(1)</script>".into();
    m.cc = String::new();
    let header = print_header_html(Some(&m));
    assert!(!header.contains("<script>"), "{header}");
    assert!(header.contains("&lt;script&gt;"), "{header}");
    // An empty field is left out rather than printed as a blank line.
    assert!(!header.contains("Cc:"), "{header}");
    // No message at all: nothing to describe.
    assert_eq!(print_header_html(None), "");
}

#[test]
fn printing_inlines_the_message_instead_of_framing_it() {
    // A frame in print would carry the reader's scrollbars and be
    // cut off at its on-screen height, because a print engine draws an
    // iframe as a box rather than paginating what is inside it.
    let doc = print_document(
        "<div class=\"vireo-print-hdr\">HEADER</div>",
        &[(
            String::new(),
            "<!DOCTYPE html><html><head><style>p{color:red}</style></head>\
             <body class=\"x\"><p>Hello</p></body></html>"
                .to_string(),
        )],
        false,
    );
    assert!(!doc.contains("<iframe"), "{doc}");
    assert!(doc.contains("HEADER"));
    assert!(doc.contains("<p>Hello</p>"));
    // The message keeps its own styling on paper.
    assert!(doc.contains("p{color:red}"));
    // Long URLs wrap rather than running off the sheet, and wide content is
    // scaled down instead of being clipped.
    assert!(doc.contains("overflow-wrap:anywhere"));
    assert!(doc.contains("img,table,pre{max-width:100% !important;}"));
    // Still no scripts, and blocked remote content stays blocked.
    assert!(doc.contains("Content-Security-Policy"));
}

#[test]
fn inlining_keeps_everything_but_the_structure() {
    assert_eq!(
        inline_body("<!doctype html><html><head><meta charset=\"utf-8\"></head><body id=\"a\">hi</body></html>"),
        "<meta charset=\"utf-8\">hi"
    );
    // A tag that merely starts like one of them is content, not structure.
    assert_eq!(inline_body("<bodyguard>x</bodyguard>"), "<bodyguard>x</bodyguard>");
    assert_eq!(inline_body("<p>plain fragment</p>"), "<p>plain fragment</p>");
    // Unterminated tags must not swallow the rest of the message.
    assert_eq!(inline_body("text < 5 and > 2"), "text < 5 and > 2");
}

#[test]
fn one_message_cannot_restyle_the_whole_printout() {
    // A conversation prints as one document, so a sender's body rules have to
    // land on that sender's block and nothing else.
    let out = scope_styles(
        "<style>body{font-family:monospace}\
         @media print{html,body>p{color:red}}\
         .bodyguard{margin:0}</style><p>hi</p>",
        ".vireo-print-m1",
    );
    assert!(out.contains(".vireo-print-m1{font-family:monospace}"), "{out}");
    assert!(
        out.contains("@media print{.vireo-print-m1,.vireo-print-m1>p{color:red}}"),
        "{out}"
    );
    // Only whole tag names: a class that merely contains "body" is untouched,
    // and so are declarations that mention one.
    assert!(out.contains(".bodyguard{margin:0}"), "{out}");
    assert!(out.contains("<p>hi</p>"));
    assert!(!scope_styles("<p>body{x}</p>", ".vireo-print-m0").contains("vireo-print-m0"));
    // Each message gets a class of its own, so the first sender's rules stop
    // at the first message.
    let doc = print_document(
        "",
        &[
            (String::new(), "<style>body{color:red}</style>one".into()),
            (String::new(), "two".into()),
        ],
        false,
    );
    assert!(doc.contains(".vireo-print-m0{color:red}"), "{doc}");
    assert!(doc.contains("vireo-print-msg vireo-print-m1"), "{doc}");
}

#[test]
fn a_printed_conversation_says_who_sent_what() {
    let mut a = msg_for_print();
    a.from_name = "Alfonso".into();
    a.from_addr = "a@example.com".into();
    let head = print_message_header_html(&a);
    assert!(head.contains("Alfonso &lt;a@example.com&gt;"), "{head}");
    assert!(head.contains(&attr_escape(DATE)));
}

#[test]
fn the_preview_wraps_the_sheet() {
    let doc = "<html><head></head><body>x</body></html>";
    assert_eq!(
        preview_html(doc, "p{}"),
        "<html><head><style>p{}</style></head><body><div class=\"vireo-print-sheet\">x</div></body></html>"
    );
}

#[test]
fn unclosed_structural_tags_keep_the_rest() {
    assert_eq!(inline_body("a <body then more"), "a <body then more");
    assert_eq!(inline_body("x<html y"), "x<html y");
    assert_eq!(inline_body("<!doctype html"), "<!doctype html");
}

#[test]
fn no_selector_names_the_page() {
    let out = scope_styles("<style>HTML>BODY.x,a body:hover{}bodyhtml{}#body{}</style>", ".vireo-print-m3");
    assert_eq!(
        out,
        "<style>.vireo-print-m3>.vireo-print-m3.x,a .vireo-print-m3:hover{}bodyhtml{}#body{}</style>"
    );
}

/// Comments, strings and braces in them hide no rule from the scoping.
#[test]
fn nothing_in_a_sheet_hides_a_rule() {
    for (sheet, want) in [
        ("/*{*/body{}", "/*{*/.vireo-print-m2{}"),
        ("a::before{content:'{'}body{}", "a::before{content:'{'}.vireo-print-m2{}"),
        ("/* x */@media print{body{}}", "/* x */@media print{.vireo-print-m2{}}"),
        ("@import 'body.css';body{}", "@import 'body.css';.vireo-print-m2{}"),
        ("p[title=\"body\"]{}", "p[title=\"body\"]{}"),
        ("p{background:url(/*)}HTML{}", "p{background:url(/*)}.vireo-print-m2{}"),
        ("p{x:body}", "p{x:body}"),
    ] {
        let out = scope_styles(&format!("<p>it's</p><style title='>'>{sheet}</style>"), ".vireo-print-m2");
        assert_eq!(out, format!("<p>it's</p><style title='>'>{want}</style>"));
    }
    let comment = "<!--<style>-->it's<style>body{}</style>";
    assert_eq!(
        scope_styles(comment, ".vireo-print-m2"),
        "<!--<style>-->it's<style>.vireo-print-m2{}</style>"
    );
    assert_eq!(
        scope_styles("<style></stylex>body{}</style>", ".vireo-print-m2"),
        "<style></stylex>.vireo-print-m2{}</style>"
    );
    assert_eq!(scope_styles("<style>body{}</style>", "body.x"), "<style>body.x{}</style>");
}

/// A structural tag goes whole, whatever its attributes hold.
#[test]
fn structural_tags_go_whole() {
    assert_eq!(inline_body("<body title=\"a>b\">x</body >y</html>"), "xy");
    assert_eq!(inline_body("<body title=\"a>x"), "<body title=\"a>x");
}
