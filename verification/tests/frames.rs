//! Frames, and the reader's own fonts and colours in them.

use vireo::colors::{color_tokens, parse_css_color, ColorForm};
use vireo::frame::{frame_base, inject_csp, inject_reader_style};
use vireo::reader_style::{Font, ReaderStyle, Slant, Stretch};

/// The red, green, blue and opacity of a colour, each from 0 to 1.
fn channels(token: &str, bare_hex: bool) -> Option<[f32; 4]> {
    let percent = |s: &str| s.trim().parse::<f32>().ok().map(|v| v / 100.0);
    match parse_css_color(token, bare_hex)? {
        ColorForm::Bytes(r, g, b, a) => Some([
            r as f32 / 255.0,
            g as f32 / 255.0,
            b as f32 / 255.0,
            a as f32 / 255.0,
        ]),
        ColorForm::Channels(parts) => {
            let chan = |s: &str| match s.strip_suffix('%') {
                Some(p) => percent(p),
                None => s.trim().parse::<f32>().ok().map(|v| v / 255.0),
            };
            let alpha = |s: &str| match s.strip_suffix('%') {
                Some(p) => percent(p),
                None => s.trim().parse::<f32>().ok(),
            };
            Some([
                chan(&parts[0])?.clamp(0.0, 1.0),
                chan(&parts[1])?.clamp(0.0, 1.0),
                chan(&parts[2])?.clamp(0.0, 1.0),
                parts.get(3).and_then(|s| alpha(s)).unwrap_or(1.0).clamp(0.0, 1.0),
            ])
        }
    }
}

fn rgb_to_hsl(r: f32, g: f32, b: f32) -> (f32, f32, f32) {
    let max = r.max(g).max(b);
    let min = r.min(g).min(b);
    let l = (max + min) / 2.0;
    if (max - min).abs() < f32::EPSILON {
        return (0.0, 0.0, l);
    }
    let d = max - min;
    let s = if l > 0.5 { d / (2.0 - max - min) } else { d / (max + min) };
    let h = if (max - r).abs() < f32::EPSILON {
        ((g - b) / d).rem_euclid(6.0)
    } else if (max - g).abs() < f32::EPSILON {
        (b - r) / d + 2.0
    } else {
        (r - g) / d + 4.0
    } / 6.0;
    (h, s, l)
}

fn hsl_to_rgb(h: f32, s: f32, l: f32) -> (f32, f32, f32) {
    if s <= 0.0 {
        return (l, l, l);
    }
    let q = if l < 0.5 { l * (1.0 + s) } else { l + s - l * s };
    let p = 2.0 * l - q;
    let f = |mut t: f32| {
        t = t.rem_euclid(1.0);
        if t < 1.0 / 6.0 {
            p + (q - p) * 6.0 * t
        } else if t < 0.5 {
            q
        } else if t < 2.0 / 3.0 {
            p + (q - p) * (2.0 / 3.0 - t) * 6.0
        } else {
            p
        }
    };
    (f(h + 1.0 / 3.0), f(h), f(h - 1.0 / 3.0))
}

fn adapt_color(token: &str, background: bool, bare_hex: bool) -> Option<String> {
    let [r, g, b, a] = channels(token, bare_hex)?;
    if a <= 0.01 {
        return None; // effectively transparent either way
    }
    let (h, s, l) = rgb_to_hsl(r, g, b);
    let flipped = if background {
        if l <= 0.6 {
            return None;
        }
        (1.0 - l).max(0.08)
    } else {
        if l >= 0.5 {
            return None;
        }
        (1.0 - l).max(0.72)
    };
    let (nr, ng, nb) = hsl_to_rgb(h, s, flipped);
    let to8 = |v: f32| (v * 255.0).round().clamp(0.0, 255.0) as u8;
    Some(if a < 1.0 {
        format!("rgba({},{},{},{:.2})", to8(nr), to8(ng), to8(nb), a)
    } else {
        format!("#{:02x}{:02x}{:02x}", to8(nr), to8(ng), to8(nb))
    })
}

fn new_colors(doc: &str) -> Vec<Option<String>> {
    color_tokens(doc)
        .iter()
        .map(|t| adapt_color(&t.text, t.background, t.bare_hex))
        .collect()
}

/// A frame with the colours of its body adapted to the ground.
fn message_frame(
    body: &str,
    restrict: bool,
    dark: bool,
    key: (u32, u32),
    height: Option<u32>,
    style: &ReaderStyle,
    accent: &str,
) -> String {
    let colors = new_colors(&frame_base(body, restrict));
    vireo::frame::message_frame(body, restrict, dark, key, height, style, accent, &colors)
}

fn face(family: &str, points: f32, weight: i32) -> Font {
    Font {
        family: Some(family.to_string()),
        size: (points * 1024.0) as i32,
        absolute: false,
        weight,
        slant: Slant::Upright,
        stretch: Stretch::Normal,
    }
}

fn css_font(font: Font) -> (String, String, String) {
    let f = vireo::reader_style::css_font(&font);
    (f.family, f.size, f.face)
}

/// The light path never rewrites anything.
#[test]
fn light_mode_frames_are_untouched() {
    let body = r#"<p style="color:#000">x</p>"#;
    let frame = message_frame(body, true, false, (1, 1), None, &ReaderStyle::none(), "#3584e4");
    assert!(frame.contains("color:#000"), "{frame}");
    let frame = message_frame(body, true, true, (1, 1), None, &ReaderStyle::none(), "#3584e4");
    assert!(!frame.contains("color:#000"), "{frame}");
}

/// With nothing overridden the frame carries no reader stylesheet.
#[test]
fn reader_style_none_adds_nothing() {
    let frame = message_frame("<p>x</p>", true, false, (1, 1), None, &ReaderStyle::none(), "#3584e4");
    assert!(!frame.contains(":not(#vireo-a)"), "{frame}");
    assert_eq!(inject_reader_style("<p>x</p>", ""), "<p>x</p>");
}

/// The font override sets one family and size over everything, after the
/// sender's own stylesheet so it has the last word, with headings scaled
/// and code kept monospaced.
#[test]
fn reader_font_lands_after_the_senders_css() {
    let style = ReaderStyle { font: Some(face("DejaVu Serif", 12.0, 400)), colors: false };
    let body = "<html><head><style>p{font-family:Comic Sans MS}</style></head>\
                <body><p style=\"font-size:30px\">x</p></body></html>";
    let frame = message_frame(body, true, false, (1, 1), None, &style, "#3584e4");
    let ours = frame.find(":root :not(#vireo-a):not(#vireo-b):not(#vireo-c)").expect("override sheet");
    let theirs = frame.find("Comic Sans").expect("sender css kept");
    assert!(ours > theirs, "the reader's sheet must come last: {frame}");
    // srcdoc attribute: quotes are escaped, so match the family unquoted.
    assert!(frame.contains("DejaVu Serif&quot;,sans-serif !important;font-size:12pt !important"), "{frame}");
    assert!(frame.contains("h1:not(#vireo-a):not(#vireo-b):not(#vireo-c){font-size:calc(12pt * 1.6) !important"), "{frame}");
    assert!(frame.contains(":is(pre,code,kbd,samp,tt):not(#vireo-a):not(#vireo-b):not(#vireo-c){font-family:monospace !important"), "{frame}");
    // Colours untouched: no colour rule was asked for.
    assert!(!frame.contains("-webkit-text-fill-color"), "{frame}");
}

/// The colour override paints the reader's text and clears backgrounds,
/// links in the accent; on the dark ground the dark adaptation is
/// skipped, since the sender's colours are not shown anyway.
#[test]
fn reader_colours_force_text_and_links() {
    let style = ReaderStyle { font: None, colors: true };
    let body = r#"<p style="color:#000;background:#ff0">x <a href="https://e.example">l</a></p>"#;
    let light = message_frame(body, true, false, (1, 1), None, &style, "#3584e4");
    assert!(light.contains("color:#1a1a1a !important;-webkit-text-fill-color:#1a1a1a !important;background-color:transparent !important;background-image:none !important"), "{light}");
    assert!(light.contains(":root a:not(#vireo-a):not(#vireo-b):not(#vireo-c),:root a:not(#vireo-a):not(#vireo-b):not(#vireo-c) *{color:#3584e4 !important"), "{light}");
    assert!(!light.contains("font-family"), "no font rule was asked for: {light}");
    let dark = message_frame(body, true, true, (1, 1), None, &style, "#3584e4");
    assert!(dark.contains("color:#e6e6e6 !important"), "{dark}");
    assert!(dark.contains("color:#000"), "sender colours left as written when overridden: {dark}");
}

/// Fonts become a quoted CSS family list with a generic
/// fallback, and a point size; a missing size falls back to 11pt.
#[test]
fn css_font_reads_pango_descriptions() {
    let s = |v: &str| v.to_string();
    assert_eq!(css_font(face("Cantarell", 11.0, 400)), (s("\"Cantarell\",sans-serif"), s("11pt"), s("")));
    assert_eq!(
        css_font(face("JetBrains Mono", 10.0, 700)),
        (s("\"JetBrains Mono\",monospace"), s("10pt"), s("font-weight:700 !important;"))
    );
    assert_eq!(css_font(face("Sans", 0.0, 400)), (s("\"Sans\",sans-serif"), s("11pt"), s("")));
    assert_eq!(css_font(face("Noto Serif", 10.5, 400)), (s("\"Noto Serif\",sans-serif"), s("10.5pt"), s("")));
    // The face the user picked reaches the page: black, italic, condensed.
    assert_eq!(
        css_font(face("Adwaita Sans", 16.0, 900)),
        (s("\"Adwaita Sans\",sans-serif"), s("16pt"), s("font-weight:900 !important;"))
    );
    assert_eq!(
        css_font(Font {
            slant: Slant::Italic,
            stretch: Stretch::Condensed,
            ..face("Cantarell", 12.0, 300)
        })
        .2,
        "font-weight:300 !important;font-style:italic !important;font-stretch:condensed !important;"
    );
}

/// The sheet goes in before `</body>` (or `</html>`), and at the very end
/// of a bare fragment.
#[test]
fn reader_style_is_injected_last() {
    assert_eq!(
        inject_reader_style("<html><body><p>x</p></body></html>", "p{}"),
        "<html><body><p>x</p><style>p{}</style></body></html>"
    );
    assert_eq!(
        inject_reader_style("<html><p>x</p></HTML>", "p{}"),
        "<html><p>x</p><style>p{}</style></HTML>"
    );
    assert_eq!(inject_reader_style("<p>x</p>", "p{}"), "<p>x</p><style>p{}</style>");
}

#[test]
fn blocking_follows_the_users_choice_not_the_detector() {
    // The point of the split: even for a body the detector says nothing
    // about, a frame built while remote content is disallowed carries the
    // restrictive policy. A detector miss costs a banner, not the blocking.
    let sneaky = r#"<img data-x="y" src="//tracker.example/p.gif">"#;
    let frame = message_frame(sneaky, true, false, (1, 1), None, &ReaderStyle::none(), "#3584e4");
    assert!(frame.contains("img-src data: cid:"), "{frame}");
    assert!(!frame.contains("img-src http:"), "{frame}");
    assert!(!frame.contains("tracker.example"), "{frame}");

    // And once the user allows it, the same body renders untouched.
    let allowed = message_frame(sneaky, false, false, (1, 1), None, &ReaderStyle::none(), "#3584e4");
    assert!(allowed.contains("img-src http: https:"), "{allowed}");
    assert!(allowed.contains("tracker.example"), "{allowed}");
}

#[test]
fn a_frame_carries_its_policy_whatever_the_body() {
    for body in ["plain", "<p>x</p>", "<html><p>x", "<head></head><body>y</body>"] {
        let closed = message_frame(body, true, true, (3, 4), Some(7), &ReaderStyle::none(), "#fff");
        assert!(closed.contains("content=&quot;default-src 'none'; img-src data: cid:; "), "{closed}");
        assert!(closed.starts_with(
            "<div class=\"vireo-pan\"><iframe class=\"vireo-frame\" data-key=\"3:4\" style=\"height:7px\""
        ));
        assert_eq!(closed.matches("srcdoc=\"").count(), 1);
        assert!(closed.ends_with("\"></iframe></div>"));
    }
}

/// The policy lands in the document's head, and only a real head counts as one.
#[test]
fn the_policy_stands_in_the_head() {
    for (html, lead, rest) in [
        ("<header>x</header>", "<!doctype html><html><head>", "</head><body><header>x</header></body></html>"),
        ("<!--<head>-->x", "<!doctype html><html><head>", "</head><body><!--<head>-->x</body></html>"),
        ("<html data-x='<head>'>x", "<html data-x='<head>'><head>", "</head>x"),
        ("<HTML lang=\"a>b\"><HEAD >x", "<HTML lang=\"a>b\"><HEAD >", "x"),
        ("<!doctype html><!-- a --><html>\n<!--><head>x", "<!doctype html><!-- a --><html>\n<!--><head>", "x"),
        ("<head></head><body>y</body>", "<head>", "</head><body>y</body>"),
        ("<p>y</p><head>", "<!doctype html><html><head>", "</head><body><p>y</p><head></body></html>"),
        ("<!-- <html>", "<!doctype html><html><head>", "</head><body><!-- <html></body></html>"),
    ] {
        let out = inject_csp(html, false, false);
        assert!(out.starts_with(&format!("{lead}<meta name=\"color-scheme\"")), "{out}");
        assert!(out.ends_with(&format!("media-src data:\">{rest}")), "{out}");
    }
}

/// The reader's sheet stands behind all that the sender wrote, and not in a comment.
#[test]
fn the_readers_style_is_the_last_word() {
    for (doc, want) in [
        ("<p>x</p><!-- </body> -->", "<p>x</p><!-- </body> --><style>p{}</style>"),
        ("<p>x</p></body><style>a{}</style>", "<p>x</p></body><style>a{}</style><style>p{}</style>"),
        ("<p title='</body>'>x</p>", "<p title='</body>'>x</p><style>p{}</style>"),
        ("<p>x</p></body>\n<!-- y --></html>\n", "<p>x</p><style>p{}</style></body>\n<!-- y --></html>\n"),
        ("x<!-- y", "x<style>p{}</style><!-- y"),
        ("x<a href=\"", "x<style>p{}</style><a href=\""),
        ("x<textarea></body>", "x<style>p{}</style><textarea></body>"),
        ("x<textarea></body></textarea>", "x<textarea></body></textarea><style>p{}</style>"),
    ] {
        assert_eq!(inject_reader_style(doc, "p{}"), want);
    }
}

#[test]
fn plain_text_becomes_a_document() {
    let doc = frame_base("a & b", true);
    assert!(doc.contains("a &amp; b</body></html>"), "{doc}");
    assert_eq!(frame_base("<p>a & b", false), "<p>a & b");
}

#[test]
fn an_absolute_size_is_in_pixels() {
    let font = Font { absolute: true, ..face("Sans", 13.0, 400) };
    assert_eq!(css_font(font).1, "13px");
}
