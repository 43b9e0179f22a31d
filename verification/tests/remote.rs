//! Remote content.

use vireo::remote::{fetches, has_remote_resources, is_remote_url, remote_url_spans, strip_remote};

#[test]
fn the_remote_detector_sees_past_the_obvious_spellings() {
    // Spellings that a search for fixed strings such as `src="http` would miss.
    for html in [
        // Protocol-relative: resolves against https://vireo.localhost.
        r#"<img src="//tracker.example/p.gif">"#,
        // HTML permits whitespace around `=`.
        r#"<img src = "http://tracker.example/p.gif">"#,
        // Attributes other than `src`.
        r#"<svg><image href="http://tracker.example/p.gif"/></svg>"#,
        r#"<video poster="http://tracker.example/p.gif">"#,
        // `@import` in both of its spellings.
        r#"<style>@import url(//tracker.example/x.css)</style>"#,
        r#"<style>@import "https://tracker.example/x.css"</style>"#,
        // Case does not matter.
        r#"<IMG SRC="HTTP://tracker.example/p.gif">"#,
        // Unquoted, and quoted with single quotes.
        r#"<img src=http://tracker.example/p.gif>"#,
        r#"<img src='//tracker.example/p.gif'>"#,
        r#"<div style="background:url('//tracker.example/p.gif')">"#,
        r#"<img srcset="//tracker.example/p.gif 1x, /local.gif 2x">"#,
        r#"<link rel="stylesheet" href="//tracker.example/x.css">"#,
    ] {
        assert!(has_remote_resources(html), "not detected: {html}");
        let stripped = strip_remote(html);
        assert!(
            !stripped.contains("tracker.example"),
            "not stripped: {html} -> {stripped}"
        );
    }
}

#[test]
fn a_stylesheet_does_not_hide_what_follows_it() {
    // The walk has to resume after `</style>`, not treat the closing tag as
    // opening another stylesheet and take the rest of the document for CSS.
    let html = "<html><head><style>.a{background:url(https://cdn.example/b.png)}</style>\
                </head><body><img src=\"https://cdn.example/i.png\"></body></html>";
    let out = strip_remote(html);
    assert!(!out.contains("cdn.example"), "{out}");
    assert_eq!(out.matches("blocked://").count(), 2, "{out}");
}

#[test]
fn the_detector_leaves_self_contained_messages_alone() {
    // A false banner on ordinary mail teaches people to ignore the real one.
    for html in [
        r#"<img src="data:image/png;base64,iVBOR">"#,
        r#"<img src="cid:part1@example.com">"#,
        r#"<p>plain text, no resources at all</p>"#,
        // A link is a destination the user must click, not a fetch.
        r#"<a href="https://example.com/read-more">more</a>"#,
        r#"<div style="color:#333;font-weight:bold">styled</div>"#,
    ] {
        assert!(!has_remote_resources(html), "false positive: {html}");
        assert_eq!(strip_remote(html), html, "needlessly rewritten: {html}");
    }
}

/// A big message: lots of tags, a large stylesheet, many images.
#[test]
fn scanning_a_large_message_is_quick() {
    // A big marketing email: lots of tags, a large stylesheet, many images.
    let mut html = String::from("<html><head><style>");
    for i in 0..2000 {
        html.push_str(&format!(
            ".c{i}{{background:url(https://cdn.example/bg{i}.png);color:#333}}"
        ));
    }
    html.push_str("</style></head><body>");
    for i in 0..5000 {
        html.push_str(&format!(
            "<div class=\"c{i}\" style=\"padding:2px\"><img src=\"https://cdn.example/i{i}.png\"><a href=\"https://example.com/{i}\">x</a></div>"
        ));
    }
    html.push_str("</body></html>");

    assert!(has_remote_resources(&html));
    let stripped = strip_remote(&html);
    assert!(!stripped.contains("cdn.example"));
    // Links are left alone.
    assert!(stripped.contains("https://example.com/4999"));
}

/// What is stripped has nothing left to fetch, and stripping it again changes nothing.
#[test]
fn stripping_leaves_nothing_to_fetch() {
    for html in [
        "<img src=\"//a.example/x\">",
        "<IMG SRCSET='http://a/1 1x, /b 2x,//c/d 3x' alt=x>",
        "<style>@import '//a/b.css'; p{background:url( \"https://c/d\" )}</style><p>x",
        "<div style=\"background:url(//a/b);color:red\" background=//c>",
        "<svg><use xlink:href=http://a/#b></use></svg>",
    ] {
        let out = strip_remote(html);
        assert!(!has_remote_resources(&out), "{out}");
        assert_eq!(strip_remote(&out), out);
        assert_ne!(out, html);
    }
    assert_eq!(
        strip_remote("<img alt=\"a\" src=\"http://t.example/p.gif\" width=1>"),
        "<img alt=\"a\" src=\"blocked://\" width=1>"
    );
    assert_eq!(
        strip_remote("<img srcset=\"//t.example/p.gif 1x, /local.gif 2x\">"),
        "<img srcset=\"blocked:// 1x, /local.gif 2x\">"
    );
}

/// An `@import` that reaches into a `url(…)` brings no other one to light.
#[test]
fn references_across_one_another_are_all_taken_out() {
    let html = "<style>@import \"//a url(//b\"url(//z c)</style>";
    assert_eq!(strip_remote(html), "<style>@import \"blocked://\"url(blocked:// c)</style>");
    let html = "<style>@import \"http://a url(//b\";p{background:url(//c)}</style>";
    let out = strip_remote(html);
    assert_eq!(out, "<style>@import \"blocked://\";p{background:url(blocked://)}</style>");
    assert!(!has_remote_resources(&out));
}

/// With a remote base every relative URL is fetched from there.
#[test]
fn a_remote_base_is_found_and_taken_out() {
    let html = "<base href=//t.example/><img src=p.gif>";
    assert!(has_remote_resources(html));
    assert_eq!(strip_remote(html), "<base href=blocked://><img src=p.gif>");
    assert!(!has_remote_resources("<base href=/x><img src=p.gif>"));
}

#[test]
fn remote_urls_have_a_host_to_reach() {
    let remote = |s: &str| is_remote_url(&s.chars().collect::<Vec<char>>());
    for url in ["//host/x", " HTTP://x", "ftp://x", "x-y.z+1:whatever"] {
        assert!(remote(url), "{url}");
    }
    for url in ["", "/x", "x/y", "data:image/png;x", "CID:1", "mailto:a@b", ":x", "a b:c", "blocked://"] {
        assert!(!remote(url), "{url}");
    }
    assert!(fetches("link", "href") && fetches("base", "href") && !fetches("a", "href"));
    assert!(fetches("object", "data") && !fetches("p", "data"));
    assert!(fetches("p", "src") && fetches("x", "xlink:href"));
}

#[test]
fn spans_are_positions_in_order() {
    let html: Vec<char> = "é<img src=//a><img src='//b'>".chars().collect();
    assert_eq!(remote_url_spans(&html), vec![(10, 13), (24, 27)]);
}

/// No comment, value or other element's text hides a reference.
#[test]
fn nothing_hides_a_reference() {
    for html in [
        "<!--<style>--><img src=//t.example/p>",
        "<title><style></title><img src=\"//t.example/p\">",
        "<title><!--</title><img src=\"//t.example/p\">-->",
        "<!--<a title=\"--><img src=//t.example/p>",
        "<style></stylex>p{background:url(//t.example/p)}</style>",
        "<svg><feImage href=\"//t.example/p\"/></svg>",
    ] {
        assert!(has_remote_resources(html), "{html}");
        let out = strip_remote(html);
        assert!(!out.contains("t.example"), "{out}");
    }
}

/// What stands in a value, a stylesheet or an element's text is no tag.
#[test]
fn what_looks_like_a_tag_in_a_value_is_none() {
    for html in [
        "<a b=\"<i src=//x\"> \" src=//y>",
        "<a title=\"<img src=//x>\">y</a>",
        "<textarea><img src=//x></textarea>",
        "<title><img src=//x></title>",
        "<!-- <img src=//x> -->",
        "<style>p::before{content:'<img src=//x>'}</style>",
    ] {
        assert!(!has_remote_resources(html), "{html}");
        assert_eq!(strip_remote(html), html);
    }
    // In a drawing every tag is one.
    for html in [
        "<svg><title><img src=//x></title></svg>",
        "<svg><svg/></svg><title><!--</title><img src=//x>-->",
        "<math><textarea><img src=//x></textarea></math>",
    ] {
        assert!(has_remote_resources(html), "{html}");
    }
}

/// Without an `@import` one pass rewrites every URL that is found, and nothing else.
#[test]
fn each_url_is_rewritten_once() {
    let html = "<p>a<img src=//x alt='//kept'><i style=\"background:url('http://y')\">\
                <img srcset='//a 1x, b 2x,//c'><style>p{background:url( //z )}</style>//kept";
    let chars: Vec<char> = html.chars().collect();
    let mut want = String::new();
    let mut at = 0;
    for (a, b) in remote_url_spans(&chars) {
        want.extend(&chars[at..a]);
        want.push_str("blocked://");
        at = b;
    }
    want.extend(&chars[at..]);
    assert_eq!(remote_url_spans(&chars).len(), 5);
    assert_eq!(strip_remote(html), want);
}
