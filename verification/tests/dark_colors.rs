//! Colours on a dark ground.

use vireo::colors::{adapt_colors, color_tokens, parse_css_color, ColorForm};
use vireo::schemes::pin_color_scheme;

/// The red, green, blue and opacity of a colour, each from 0 to 1.
fn channels(token: &str, bare_hex: bool) -> Option<[f32; 4]> {
    let percent = |s: &str| s.trim().parse::<f32>().ok().map(|v| v / 100.0);
    match parse_css_color(token, bare_hex)? {
        ColorForm::Bytes(r, g, b, a) => Some([
            r as f32 / 255.0,
            g as f32 / 255.0,
            b as f32 / 255.0,
            a as f32 / 255.0,
        ]),
        ColorForm::Channels(parts) => {
            let chan = |s: &str| match s.strip_suffix('%') {
                Some(p) => percent(p),
                None => s.trim().parse::<f32>().ok().map(|v| v / 255.0),
            };
            let alpha = |s: &str| match s.strip_suffix('%') {
                Some(p) => percent(p),
                None => s.trim().parse::<f32>().ok(),
            };
            Some([
                chan(&parts[0])?.clamp(0.0, 1.0),
                chan(&parts[1])?.clamp(0.0, 1.0),
                chan(&parts[2])?.clamp(0.0, 1.0),
                parts.get(3).and_then(|s| alpha(s)).unwrap_or(1.0).clamp(0.0, 1.0),
            ])
        }
    }
}

fn rgb_to_hsl(r: f32, g: f32, b: f32) -> (f32, f32, f32) {
    let max = r.max(g).max(b);
    let min = r.min(g).min(b);
    let l = (max + min) / 2.0;
    if (max - min).abs() < f32::EPSILON {
        return (0.0, 0.0, l);
    }
    let d = max - min;
    let s = if l > 0.5 { d / (2.0 - max - min) } else { d / (max + min) };
    let h = if (max - r).abs() < f32::EPSILON {
        ((g - b) / d).rem_euclid(6.0)
    } else if (max - g).abs() < f32::EPSILON {
        (b - r) / d + 2.0
    } else {
        (r - g) / d + 4.0
    } / 6.0;
    (h, s, l)
}

fn hsl_to_rgb(h: f32, s: f32, l: f32) -> (f32, f32, f32) {
    if s <= 0.0 {
        return (l, l, l);
    }
    let q = if l < 0.5 { l * (1.0 + s) } else { l + s - l * s };
    let p = 2.0 * l - q;
    let f = |mut t: f32| {
        t = t.rem_euclid(1.0);
        if t < 1.0 / 6.0 {
            p + (q - p) * 6.0 * t
        } else if t < 0.5 {
            q
        } else if t < 2.0 / 3.0 {
            p + (q - p) * (2.0 / 3.0 - t) * 6.0
        } else {
            p
        }
    };
    (f(h + 1.0 / 3.0), f(h), f(h - 1.0 / 3.0))
}

fn adapt_color(token: &str, background: bool, bare_hex: bool) -> Option<String> {
    let [r, g, b, a] = channels(token, bare_hex)?;
    if a <= 0.01 {
        return None; // effectively transparent either way
    }
    let (h, s, l) = rgb_to_hsl(r, g, b);
    let flipped = if background {
        if l <= 0.6 {
            return None;
        }
        (1.0 - l).max(0.08)
    } else {
        if l >= 0.5 {
            return None;
        }
        (1.0 - l).max(0.72)
    };
    let (nr, ng, nb) = hsl_to_rgb(h, s, flipped);
    let to8 = |v: f32| (v * 255.0).round().clamp(0.0, 255.0) as u8;
    Some(if a < 1.0 {
        format!("rgba({},{},{},{:.2})", to8(nr), to8(ng), to8(nb), a)
    } else {
        format!("#{:02x}{:02x}{:02x}", to8(nr), to8(ng), to8(nb))
    })
}

fn new_colors(doc: &str) -> Vec<Option<String>> {
    color_tokens(doc)
        .iter()
        .map(|t| adapt_color(&t.text, t.background, t.bare_hex))
        .collect()
}

fn adapt_colors_for_dark(doc: &str) -> String {
    adapt_colors(doc, &new_colors(doc))
}

/// The core failure: near-black text with no background of its own must
/// come out light, or it vanishes on the dark ground.
#[test]
fn dark_text_is_lightened() {
    let out = adapt_colors_for_dark(r#"<p style="color:#000">x</p>"#);
    assert_eq!(out, r#"<p style="color:#ffffff">x</p>"#);
    let out = adapt_colors_for_dark(r#"<p style="color: #333333;">x</p>"#);
    assert_eq!(out, r#"<p style="color: #cccccc;">x</p>"#);
    let out = adapt_colors_for_dark(r#"<p style="color:rgb(20, 20, 20)">x</p>"#);
    assert!(out.contains("color:#ebebeb"), "{out}");
}

/// Light backgrounds mirror down to surfaces; the floor keeps them above
/// pure black so they still read as cards.
#[test]
fn light_backgrounds_are_darkened() {
    let out = adapt_colors_for_dark(r#"<td style="background-color:#ffffff">x</td>"#);
    assert_eq!(out, r#"<td style="background-color:#141414">x</td>"#);
    let out = adapt_colors_for_dark(r#"<td style="background:#f6f6f6 no-repeat">x</td>"#);
    assert!(out.contains("background:#141414 no-repeat"), "{out}");
}

/// Mail already designed for a dark ground passes through unchanged.
#[test]
fn dark_designed_mail_is_untouched() {
    let doc = r#"<div style="color:#eeeeee;background-color:#222222">x</div>"#;
    assert_eq!(adapt_colors_for_dark(doc), doc);
}

/// Legacy attributes carry colours too — `<font color>` and `bgcolor`,
/// with or without the leading `#`.
#[test]
fn legacy_color_attributes_are_adapted() {
    let out = adapt_colors_for_dark(r##"<font color="#111111">x</font>"##);
    assert_eq!(out, r##"<font color="#eeeeee">x</font>"##);
    let out = adapt_colors_for_dark(r#"<table bgcolor="ffffff"><tr></tr></table>"#);
    assert_eq!(out, r##"<table bgcolor="#141414"><tr></tr></table>"##);
    let out = adapt_colors_for_dark(r#"<body text="black" bgcolor="white">x</body>"#);
    assert_eq!(out, r##"<body text="#ffffff" bgcolor="#141414">x</body>"##);
}

/// `<style>` blocks are rewritten rule by rule — selectors untouched,
/// declarations adapted, nesting (`@media`) survives.
#[test]
fn style_blocks_are_adapted() {
    let doc = "<style>p{color:black}@media screen{.x{background:white}}</style><p>x</p>";
    let out = adapt_colors_for_dark(doc);
    assert!(out.contains("p{color:#ffffff}"), "{out}");
    assert!(out.contains(".x{background:#141414}"), "{out}");
    assert!(out.contains("@media screen"), "{out}");
}

/// A light render must never let an email's `prefers-color-scheme: dark`
/// rules fire — that is the light-grey-on-white bug. A dark render wants
/// the reverse: dark rules on, light rules off. The surrounding query
/// (`only screen and …`) and the declarations inside must survive.
#[test]
fn color_scheme_queries_follow_the_chosen_ground() {
    let css = "@media only screen and (prefers-color-scheme: dark){.a{color:#9aa0a6}}\
               @media (prefers-color-scheme:light){.b{color:#000}}";
    let light = pin_color_scheme(css, false);
    assert!(light.contains("only screen and (min-width:999999px){.a"), "dark off: {light}");
    assert!(light.contains("(min-width:0px){.b"), "light on: {light}");

    let dark = pin_color_scheme(css, true);
    assert!(dark.contains("(min-width:0px){.a"), "dark on: {dark}");
    assert!(dark.contains("(min-width:999999px){.b"), "light off: {dark}");
}

/// The rewrite keys off the real media feature, not the substring: a class
/// or text that merely contains the words is left alone.
#[test]
fn color_scheme_rewrite_ignores_non_feature_text() {
    let doc = "<p>we support prefers-color-scheme detection</p>";
    assert_eq!(pin_color_scheme(doc, false), doc);
    let cls = "<div class=\"prefers-color-scheme-badge\">x</div>";
    assert_eq!(pin_color_scheme(cls, true), cls);
}

/// A data: URL inside a background shorthand contains semicolons and
/// base64 — it must pass through byte-for-byte while the colour beside it
/// is still adapted.
#[test]
fn urls_survive_color_adaptation() {
    let doc = r#"<div style="background:url(data:image/png;base64,AAAA//12) #fff">x</div>"#;
    let out = adapt_colors_for_dark(doc);
    assert!(out.contains("url(data:image/png;base64,AAAA//12)"), "{out}");
    assert!(out.contains("#141414"), "{out}");
}

/// !important must survive, and colours in properties we don't understand
/// must be left alone rather than guessed at.
#[test]
fn important_kept_and_unknown_props_untouched() {
    let out = adapt_colors_for_dark(r#"<p style="color:#000 !important">x</p>"#);
    assert!(out.contains("color:#ffffff !important"), "{out}");
    let doc = r#"<p style="border-color:#000;box-shadow:0 0 2px #000">x</p>"#;
    assert_eq!(adapt_colors_for_dark(doc), doc);
}

/// A CSS comment carrying a semicolon must not split the declaration
/// after it — a real newsletter commented out one background and declared
/// another right behind it, and the white slipped through.
#[test]
fn comments_with_semicolons_do_not_hide_declarations() {
    let doc = "<style>.t{ /* background-color: #f0f2f5; */ background-color: #fff; }</style>";
    let out = adapt_colors_for_dark(doc);
    assert!(out.contains("background-color: #141414;"), "{out}");
    assert!(out.contains("/* background-color: #f0f2f5; */"), "comment kept: {out}");
    let out = adapt_colors_for_dark(r#"<p style="/* x; */ color: #000">x</p>"#);
    assert!(out.contains("/* x; */ color: #ffffff"), "{out}");
}

/// Mid-lightness brand colours sit fine on either ground: leave them.
#[test]
fn mid_tones_are_left_alone() {
    let doc = r#"<a style="color:#3584e4;background-color:#26a269">x</a>"#;
    assert_eq!(adapt_colors_for_dark(doc), doc);
}

/// Without any new colour a document stays as it is.
#[test]
fn documents_without_new_colours_stay() {
    let doc = "<p style='color:#000;background:red'>x</p><font color=blue>y</font>";
    assert_eq!(adapt_colors(doc, &vec![None; color_tokens(doc).len()]), doc);
    assert_eq!(adapt_colors(doc, &Vec::new()), doc);
}

#[test]
fn candidates_come_in_order() {
    let doc = "<p style='color:#123'>x</p><td bgcolor=abcdef>y</td>";
    let tokens = color_tokens(doc);
    assert_eq!(tokens.len(), 2);
    assert_eq!((tokens[0].text.as_str(), tokens[0].background, tokens[0].bare_hex), ("#123", false, false));
    assert_eq!((tokens[1].text.as_str(), tokens[1].background, tokens[1].bare_hex), ("abcdef", true, true));
}

#[test]
fn colours_are_read_in_every_form() {
    let bytes = |t: &str, bare: bool| match parse_css_color(t, bare) {
        Some(ColorForm::Bytes(r, g, b, a)) => Some((r, g, b, a)),
        _ => None,
    };
    assert_eq!(bytes("#1a2", false), Some((0x11, 0xaa, 0x22, 255)));
    assert_eq!(bytes("#1a2b", false), Some((0x11, 0xaa, 0x22, 0xbb)));
    assert_eq!(bytes(" #102030 ", false), Some((0x10, 0x20, 0x30, 255)));
    assert_eq!(bytes("#10203040", false), Some((0x10, 0x20, 0x30, 0x40)));
    assert_eq!(bytes("Teal", false), Some((0, 0x80, 0x80, 255)));
    assert_eq!(bytes("ffffff", true), Some((255, 255, 255, 255)));
    assert_eq!(bytes("ffffff", false), None);
    assert_eq!(bytes("#12345", false), None);
    assert_eq!(bytes("#é1", false), None);
    assert_eq!(bytes("#+f+f+f", false), None);
    match parse_css_color("rgba(1, 2 / 3%)", false) {
        Some(ColorForm::Channels(v)) => assert_eq!(v, vec!["1", "2", "3%"]),
        _ => panic!("channels"),
    }
    assert!(parse_css_color("rgb(1,2)", false).is_none());
}

#[test]
fn no_query_for_a_scheme_is_left() {
    let css = "@media (PREFERS-COLOR-SCHEME :\tDARK){a{}}@media print,(prefers-color-scheme: light){}";
    let out = pin_color_scheme(css, true);
    assert_eq!(out, "@media (min-width:0px){a{}}@media print,(min-width:999999px){}");
    assert_eq!(pin_color_scheme(&out, false), out);
    let kept = "@media (prefers-color-scheme: no-preference){}";
    assert_eq!(pin_color_scheme(kept, true), kept);
}

/// Only a media query asks: not the words in a text, a comment or a declaration.
#[test]
fn only_media_queries_ask_for_a_scheme() {
    for doc in [
        "<p>use prefers-color-scheme: dark here</p>",
        "<p>@media (prefers-color-scheme: dark) {</p>",
        "<p title='prefers-color-scheme: dark'>x</p>",
        "<style>p::before{content:\"@media (prefers-color-scheme: dark)\"}</style>",
        "<style>/* @media (prefers-color-scheme: dark){ */</style>",
        "<!-- <style>@media (prefers-color-scheme: dark){}</style> -->x",
        "<style>(prefers-color-scheme: dark)</style>",
        "<title><style>@media (prefers-color-scheme: dark){}</style></title>",
        "<a href=\"https://x/?q=@media (prefers-color-scheme: dark)\">x</a>",
        "(prefers-color-scheme: light)",
    ] {
        assert_eq!(pin_color_scheme(doc, false), doc);
    }
    for (doc, want) in [
        (
            "<style media=\"(prefers-color-scheme:dark)\">p{}</style>",
            "<style media=\"(min-width:999999px)\">p{}</style>",
        ),
        (
            "<p>don't</p><style>a{}@media/*{*/(prefers-color-scheme:/**/light){}</style>",
            "<p>don't</p><style>a{}@media/*{*/(min-width:0px){}</style>",
        ),
        (
            "<style>p{background:url(/*)}@media (prefers-color-scheme: dark){}</style>",
            "<style>p{background:url(/*)}@media (min-width:999999px){}</style>",
        ),
        (
            "<img sizes=\"(prefers-color-scheme:dark)1px\">",
            "<img sizes=\"(min-width:999999px)1px\">",
        ),
        (
            "<link imagesizes='(prefers-color-scheme: light) 1px'>",
            "<link imagesizes='(min-width:0px) 1px'>",
        ),
        (
            "<link rel=stylesheet href=\"data:text/css,@media (prefers-color-scheme:dark){}\">",
            "<link rel=stylesheet href=\"data:text/css,@media (min-width:999999px){}\">",
        ),
        (
            "<style>@import \"data:text/css,@media (prefers-color-scheme:dark){}\";</style>",
            "<style>@import \"data:text/css,@media (min-width:999999px){}\";</style>",
        ),
        (
            "<p style=\"background:url(data:image/svg+xml,<style>@media(prefers-color-scheme:dark){}</style>)\">",
            "<p style=\"background:url(data:image/svg+xml,<style>@media(min-width:999999px){}</style>)\">",
        ),
        (
            "<style>@import 'a.css' (prefers-color-scheme: dark);</style>",
            "<style>@import 'a.css' (min-width:999999px);</style>",
        ),
    ] {
        assert_eq!(pin_color_scheme(doc, false), want);
    }
}

/// Only a tag's own attributes and a sheet's declarations hold colours.
#[test]
fn texts_and_other_values_hold_no_colours() {
    for doc in [
        "<p>if a < b color=black then</p>",
        "<img alt=\"use color=black here\">",
        "<p title=' style=\"color:black\"'>x</p>",
        "<bodyguard text=black>x</bodyguard>",
        "<textarea><font color=black></textarea>",
        "<p style=\"/*/ x; color:#000 */\">x</p>",
        "<!--><p>x</p><!-- <font color=black> -->",
        "<style>a::before{content:\"p{color:black}\"}</style>",
    ] {
        assert_eq!(color_tokens(doc).len(), 0, "{doc}");
    }
    for (doc, token) in [
        ("<p title='>' style='color:black'>x</p>", "black"),
        ("<body text=black>x</body>", "black"),
        ("<hr color=#000/>", "#000"),
        ("<p style=\"/*/ x; */ color:#000\">x</p>", "#000"),
        ("<style title='>'>p{color:black}</style>", "black"),
        ("<style>a{background:url(/*)}p{color:black}</style>", "black"),
    ] {
        let tokens: Vec<String> = color_tokens(doc).into_iter().map(|t| t.text).collect();
        assert!(tokens.iter().any(|t| t == token), "{doc}: {tokens:?}");
    }
}
