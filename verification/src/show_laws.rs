//! What of a message's texts is seen, and in which style.

use vstd::prelude::*;

use crate::document::{
    address_entries, avatar_hue, initial, mail_of, page_ground, recipient_span, recipient_spans,
    upper_case, Grounds,
};
use crate::escape::{content, content_char, markup, markup_char, quoted, quoted_char};
use crate::frame::{body_document, framed, head_meta, height_style, policy};
use crate::message_view::script_quoted;
use crate::models::Message;
use crate::reader_style::{
    color_rules, css_face, css_family, css_size, css_weight, everything, font_rules, stretch_name,
    style_rules, under, Font, ReaderStyle, Slant, Stretch,
};
use crate::text::{
    decimal, holds, is_blank, lemma_holds_at, lemma_holds_inside, lemma_holds_part, lemma_not_trimmed,
    lemma_skip, lemma_skip_to, lower_all, starts, tail_start, trim, Class,
};

verus! {

// ----- Texts -----

/// What a browser makes of a text in markup: each of the four names stands for its
/// character, and every other character for itself.
pub open spec fn seen_as(s: Seq<char>) -> Seq<char>
    decreases s.len(),
{
    if s.len() == 0 {
        seq![]
    } else if starts(s, seq!['&', 'a', 'm', 'p', ';']) {
        seq!['&'] + seen_as(s.skip(5))
    } else if starts(s, seq!['&', 'l', 't', ';']) {
        seq!['<'] + seen_as(s.skip(4))
    } else if starts(s, seq!['&', 'g', 't', ';']) {
        seq!['>'] + seen_as(s.skip(4))
    } else if starts(s, seq!['&', 'q', 'u', 'o', 't', ';']) {
        seq!['"'] + seen_as(s.skip(6))
    } else {
        seq![s[0]] + seen_as(s.skip(1))
    }
}

proof fn lemma_seen(c: char, name: Seq<char>, rest: Seq<char>)
    requires
        ({
            ||| name == seq!['&', 'a', 'm', 'p', ';'] && c == '&'
            ||| name == seq!['&', 'l', 't', ';'] && c == '<'
            ||| name == seq!['&', 'g', 't', ';'] && c == '>'
            ||| name == seq!['&', 'q', 'u', 'o', 't', ';'] && c == '"'
            ||| name == seq![c] && c != '&'
        }),
    ensures
        seen_as(name + rest) == seq![c] + seen_as(rest),
{
    let s = name + rest;
    assert(s.subrange(0, name.len() as int) =~= name);
    assert(s.skip(name.len() as int) =~= rest);
    assert(s[0] == name[0]);
    lemma_begins(s, seq!['&', 'a', 'm', 'p', ';']);
    lemma_begins(s, seq!['&', 'l', 't', ';']);
    lemma_begins(s, seq!['&', 'g', 't', ';']);
    lemma_begins(s, seq!['&', 'q', 'u', 'o', 't', ';']);
    if name.len() > 1 {
        assert(s[1] == name[1]);
    }
}

proof fn lemma_begins(s: Seq<char>, p: Seq<char>)
    requires
        p.len() > 1,
    ensures
        starts(s, p) ==> s.len() > 1 && s[0] == p[0] && s[1] == p[1],
{
    if starts(s, p) {
        assert(s.subrange(0, p.len() as int)[0] == s[0]);
        assert(s.subrange(0, p.len() as int)[1] == s[1]);
    }
}

proof fn lemma_entities()
    ensures
        "&amp;"@ == seq!['&', 'a', 'm', 'p', ';'],
        "&lt;"@ == seq!['&', 'l', 't', ';'],
        "&gt;"@ == seq!['&', 'g', 't', ';'],
        "&quot;"@ == seq!['&', 'q', 'u', 'o', 't', ';'],
{
    reveal_strlit("&amp;");
    reveal_strlit("&lt;");
    reveal_strlit("&gt;");
    reveal_strlit("&quot;");
    assert("&amp;"@ =~= seq!['&', 'a', 'm', 'p', ';']);
    assert("&lt;"@ =~= seq!['&', 'l', 't', ';']);
    assert("&gt;"@ =~= seq!['&', 'g', 't', ';']);
    assert("&quot;"@ =~= seq!['&', 'q', 'u', 'o', 't', ';']);
}

/// A text is seen as it was written, wherever it was put: as content, as the value of an
/// attribute, or as either.
pub proof fn texts_are_seen_as_written(s: Seq<char>)
    ensures
        seen_as(content(s)) == s,
        seen_as(quoted(s)) == s,
        seen_as(markup(s)) == s,
    decreases s.len(),
{
    if s.len() > 0 {
        let rest = s.drop_first();
        texts_are_seen_as_written(rest);
        lemma_entities();
        lemma_seen(s[0], content_char(s[0]), content(rest));
        lemma_seen(s[0], quoted_char(s[0]), quoted(rest));
        lemma_seen(s[0], markup_char(s[0]), markup(rest));
        assert(seq![s[0]] + rest =~= s);
    } else {
        assert(seen_as(content(s)) =~= s);
        assert(seen_as(quoted(s)) =~= s);
        assert(seen_as(markup(s)) =~= s);
    }
}

/// What a script makes of the inside of a string: a backslash stands for the character
/// behind it.
pub open spec fn meant_by(s: Seq<char>) -> Seq<char>
    decreases s.len(),
{
    if s.len() == 0 {
        seq![]
    } else if s[0] == '\\' && s.len() > 1 {
        seq![s[1]] + meant_by(s.skip(2))
    } else {
        seq![s[0]] + meant_by(s.skip(1))
    }
}

/// Whether a text ends within no mark of its own.
spec fn whole(s: Seq<char>) -> bool
    decreases s.len(),
{
    if s.len() == 0 {
        true
    } else if s[0] == '\\' {
        s.len() > 1 && whole(s.skip(2))
    } else {
        whole(s.skip(1))
    }
}

proof fn lemma_meant_parts(a: Seq<char>, b: Seq<char>)
    requires
        whole(a),
    ensures
        meant_by(a + b) == meant_by(a) + meant_by(b),
        whole(b) ==> whole(a + b),
    decreases a.len(),
{
    if a.len() == 0 {
        assert(a + b =~= b);
        assert(meant_by(a) + meant_by(b) =~= meant_by(b));
    } else if a[0] == '\\' {
        lemma_meant_parts(a.skip(2), b);
        assert((a + b).skip(2) =~= a.skip(2) + b);
        assert(meant_by(a + b) =~= meant_by(a) + meant_by(b));
    } else {
        lemma_meant_parts(a.skip(1), b);
        assert((a + b).skip(1) =~= a.skip(1) + b);
        assert(meant_by(a + b) =~= meant_by(a) + meant_by(b));
    }
}

proof fn lemma_meant(s: Seq<char>)
    ensures
        meant_by(script_quoted(s)) == s,
        whole(script_quoted(s)),
    decreases s.len(),
{
    if s.len() > 0 {
        let rest = s.drop_last();
        let c = s.last();
        let last = if c == '\\' {
            seq!['\\', '\\']
        } else if c == '\'' {
            seq!['\\', '\'']
        } else {
            seq![c]
        };
        lemma_meant(rest);
        let none = Seq::<char>::empty();
        assert(last.skip(last.len() as int) =~= none);
        assert(whole(none));
        assert(meant_by(none) =~= none);
        assert(whole(last));
        assert(meant_by(last) =~= seq![c]);
        lemma_meant_parts(script_quoted(rest), last);
        assert(rest + seq![c] =~= s);
    } else {
        assert(meant_by(script_quoted(s)) =~= s);
    }
}

/// What is searched for in a document is what was entered, whatever quotes and backslashes
/// it holds.
pub proof fn searched_as_entered(s: Seq<char>)
    ensures
        meant_by(script_quoted(s)) == s,
{
    lemma_meant(s);
}

// ----- Frames -----

/// The policy of a frame lets nothing in by default, and pictures, styles, fonts and media
/// from the web just where that is permitted.
pub proof fn policy_follows_the_permission()
    ensures
        starts(policy(true), "default-src 'none'; "@),
        starts(policy(false), "default-src 'none'; "@),
        holds(policy(true), "img-src http: https: data: cid:;"@),
        holds(policy(false), "img-src data: cid:;"@),
        forall|k: int| 0 <= k < policy(false).len() - 1 ==> !(#[trigger] policy(false)[k] == 'h'
            && policy(false)[k + 1] == 't'),
{
    reveal_strlit("default-src 'none'; img-src http: https: data: cid:; style-src 'unsafe-inline' http: https: data:; font-src http: https: data:; media-src http: https: data:");
    reveal_strlit("default-src 'none'; img-src data: cid:; style-src 'unsafe-inline' data:; font-src data:; media-src data:");
    reveal_strlit("default-src 'none'; ");
    reveal_strlit("img-src http: https: data: cid:;");
    reveal_strlit("img-src data: cid:;");
    let a = policy(true);
    let b = policy(false);
    assert(a.subrange(0, 20) =~= "default-src 'none'; "@);
    assert(b.subrange(0, 20) =~= "default-src 'none'; "@);
    assert(a.subrange(20, 52) =~= "img-src http: https: data: cid:;"@);
    assert(b.subrange(20, 39) =~= "img-src data: cid:;"@);
    lemma_holds_at(a, "img-src http: https: data: cid:;"@, 20);
    lemma_holds_at(b, "img-src data: cid:;"@, 20);
}

/// A message in plain text is shown as it was written; one in HTML is its own document.
pub proof fn plain_bodies_are_shown(body: Seq<char>)
    ensures
        (forall|k: int| 0 <= k < body.len() ==> #[trigger] body[k] != '<') ==> holds(
            body_document(body),
            "<body>"@ + content(body) + "</body></html>"@,
        ),
        (exists|k: int| 0 <= k < body.len() && #[trigger] body[k] == '<') ==> body_document(body) == body,
{
    let n = body.len() as int;
    lemma_skip(body, 0, n, Class::Not('<'));
    if forall|k: int| 0 <= k < body.len() ==> #[trigger] body[k] != '<' {
        lemma_skip_to(body, 0, n, n, Class::Not('<'));
        reveal_strlit("<!doctype html><html><head><meta charset=\"utf-8\"><style>body{margin:0;padding:20px;font:14px/1.5 system-ui,sans-serif;white-space:pre-wrap;word-wrap:break-word}</style></head><body>");
        reveal_strlit("<!doctype html><html><head><meta charset=\"utf-8\"><style>body{margin:0;padding:20px;font:14px/1.5 system-ui,sans-serif;white-space:pre-wrap;word-wrap:break-word}</style></head>");
        reveal_strlit("<body>");
        let top = "<!doctype html><html><head><meta charset=\"utf-8\"><style>body{margin:0;padding:20px;font:14px/1.5 system-ui,sans-serif;white-space:pre-wrap;word-wrap:break-word}</style></head>"@;
        let shown = "<body>"@ + content(body) + "</body></html>"@;
        let none = Seq::<char>::empty();
        assert(body_document(body) =~= top + shown + none);
        lemma_holds_part(top, shown, none);
    } else {
        let k = choose|k: int| 0 <= k < body.len() && #[trigger] body[k] == '<';
        assert(!Class::Not('<').has(body[k]));
    }
}

/// A frame is its message's, runs no script, and shows the document it was made of.
pub proof fn frames_show_their_document(doc: Seq<char>, key: (u32, u32), height: Option<u32>)
    ensures
        starts(
            framed(doc, key, height),
            "<div class=\"vireo-pan\"><iframe class=\"vireo-frame\" data-key=\""@ + decimal(
                key.0 as nat,
            ) + ":"@ + decimal(key.1 as nat) + "\""@,
        ),
        exists|shown: Seq<char>| #[trigger]
            holds(
                framed(doc, key, height),
                " sandbox=\"allow-same-origin allow-popups\" srcdoc=\""@ + shown + "\"></iframe>"@,
            ) && seen_as(shown) == doc,
        height matches Some(h) ==> holds(
            framed(doc, key, height),
            " style=\"height:"@ + decimal(h as nat) + "px\""@,
        ),
{
    texts_are_seen_as_written(doc);
    reveal_strlit("\"></iframe></div>");
    reveal_strlit("\"></iframe>");
    reveal_strlit("</div>");
    let top = "<div class=\"vireo-pan\"><iframe class=\"vireo-frame\" data-key=\""@ + decimal(
        key.0 as nat,
    ) + ":"@ + decimal(key.1 as nat) + "\""@;
    let tall = height_style(height);
    let shown = quoted(doc);
    let part = " sandbox=\"allow-same-origin allow-popups\" srcdoc=\""@ + shown + "\"></iframe>"@;
    let all = framed(doc, key, height);
    assert("\"></iframe></div>"@ =~= "\"></iframe>"@ + "</div>"@);
    assert(all =~= (top + tall) + part + "</div>"@);
    lemma_holds_part(top + tall, part, "</div>"@);
    assert(all =~= top + tall + (part + "</div>"@));
    lemma_holds_part(top, tall, part + "</div>"@);
    assert(all.subrange(0, top.len() as int) =~= top);
}

/// The head of a frame says which side it is drawn on, and that nothing is told to where its
/// links lead.
pub proof fn heads_say_the_side(allow_remote: bool, dark: bool)
    ensures
        holds(
            head_meta(allow_remote, dark),
            if dark {
                ":root{color-scheme:dark;}"@
            } else {
                ":root{color-scheme:light;}"@
            },
        ),
        holds(
            head_meta(allow_remote, dark),
            "<meta name=\"referrer\" content=\"no-referrer\"><meta http-equiv=\"Content-Security-Policy\" content=\""@
                + policy(allow_remote) + "\">"@,
        ),
{
    reveal_strlit("\"><style>:root{color-scheme:");
    reveal_strlit("\"><style>");
    reveal_strlit(":root{color-scheme:");
    reveal_strlit("dark");
    reveal_strlit("light");
    reveal_strlit(":root{color-scheme:dark;}");
    reveal_strlit(":root{color-scheme:light;}");
    reveal_strlit(";}body{margin:0;padding:20px;box-sizing:border-box;}@media print{:root{color-scheme:light;}html,body{background:#fff !important;}}</style><meta name=\"referrer\" content=\"no-referrer\"><meta http-equiv=\"Content-Security-Policy\" content=\"");
    reveal_strlit(";}");
    reveal_strlit("body{margin:0;padding:20px;box-sizing:border-box;}@media print{:root{color-scheme:light;}html,body{background:#fff !important;}}</style>");
    reveal_strlit("<meta name=\"referrer\" content=\"no-referrer\"><meta http-equiv=\"Content-Security-Policy\" content=\"");
    let supported = if dark {
        "dark light"@
    } else {
        "light dark"@
    };
    let scheme = if dark {
        "dark"@
    } else {
        "light"@
    };
    let side = if dark {
        ":root{color-scheme:dark;}"@
    } else {
        ":root{color-scheme:light;}"@
    };
    let long = ";}body{margin:0;padding:20px;box-sizing:border-box;}@media print{:root{color-scheme:light;}html,body{background:#fff !important;}}</style><meta name=\"referrer\" content=\"no-referrer\"><meta http-equiv=\"Content-Security-Policy\" content=\""@;
    let middle = "body{margin:0;padding:20px;box-sizing:border-box;}@media print{:root{color-scheme:light;}html,body{background:#fff !important;}}</style>"@;
    let told = "<meta name=\"referrer\" content=\"no-referrer\"><meta http-equiv=\"Content-Security-Policy\" content=\""@;
    assert(long =~= ";}"@ + middle + told);
    assert(side =~= ":root{color-scheme:"@ + scheme + ";}"@);
    assert("\"><style>:root{color-scheme:"@ =~= "\"><style>"@ + ":root{color-scheme:"@);
    let top = "<meta name=\"color-scheme\" content=\""@ + supported + "\"><style>"@;
    let last = told + policy(allow_remote) + "\">"@;
    let all = head_meta(allow_remote, dark);
    let none = Seq::<char>::empty();
    assert(all =~= top + side + (middle + last));
    assert(all =~= (top + side + middle) + last + none);
    lemma_holds_part(top, side, middle + last);
    lemma_holds_part(top + side + middle, last, none);
}

// ----- Styles -----

/// In colours of the reader's own, text is light on the dark side and dark on the light one,
/// on no ground of its sender's, and links have the accent.
pub proof fn own_colors_are_laid_over(style: &ReaderStyle, dark: bool, accent: Seq<char>, scope: Seq<char>)
    requires
        style.colors,
    ensures
        holds(
            style_rules(style, dark, accent, scope),
            scope + ","@ + everything(scope) + "{color:"@ + (if dark {
                "#e6e6e6"@
            } else {
                "#1a1a1a"@
            }) + " !important;"@,
        ),
        holds(
            style_rules(style, dark, accent, scope),
            " *{color:"@ + accent + " !important;-webkit-text-fill-color:"@ + accent
                + " !important;}"@,
        ),
{
    reveal_strlit(" !important;-webkit-text-fill-color:");
    reveal_strlit(" !important;");
    reveal_strlit("-webkit-text-fill-color:");
    let fg = if dark {
        "#e6e6e6"@
    } else {
        "#1a1a1a"@
    };
    let fonts = match &style.font {
        Some(f) => font_rules(
            scope,
            (css_family(f), css_size(f), css_face(f)),
        ),
        None => seq![],
    };
    let ground = " !important;background-color:transparent !important;background-image:none !important;text-shadow:none !important;}"@;
    let first = scope + ","@ + everything(scope) + "{color:"@ + fg + " !important;"@;
    let links = " *{color:"@ + accent + " !important;-webkit-text-fill-color:"@ + accent
        + " !important;}"@;
    let middle = "-webkit-text-fill-color:"@ + fg + ground + under(scope, "a"@) + ","@ + under(
        scope,
        "a"@,
    );
    let none = Seq::<char>::empty();
    assert(" !important;-webkit-text-fill-color:"@ =~= " !important;"@ + "-webkit-text-fill-color:"@);
    assert(color_rules(scope, dark, accent) =~= first + middle + links);
    let all = style_rules(style, dark, accent, scope);
    assert(all =~= fonts + first + (middle + links));
    assert(all =~= (fonts + first + middle) + links + none);
    lemma_holds_part(fonts, first, middle + links);
    lemma_holds_part(fonts + first + middle, links, none);
}

/// The reader's font is laid over everything: its family, its size and its face.
pub proof fn own_font_is_laid_over(style: &ReaderStyle, dark: bool, accent: Seq<char>, scope: Seq<char>)
    requires
        style.font is Some,
    ensures
        ({
            let f = &style.font->0;
            holds(
                style_rules(style, dark, accent, scope),
                scope + ","@ + everything(scope) + "{font-family:"@ + css_family(f)
                    + " !important;font-size:"@ + css_size(f)
                    + " !important;line-height:1.45 !important;"@ + css_face(f) + "}"@,
            )
        }),
{
    let f = &style.font->0;
    let size = css_size(f);
    let first = scope + ","@ + everything(scope) + "{font-family:"@ + css_family(f)
        + " !important;font-size:"@ + size + " !important;line-height:1.45 !important;"@ + css_face(f)
        + "}"@;
    let rest = under(scope, ":is(h1,h2,h3,h4,h5,h6)"@) + "{line-height:1.25 !important;}"@ + under(
        scope,
        "h1"@,
    ) + "{font-size:calc("@ + size + " * 1.6) !important;}"@ + under(scope, "h2"@)
        + "{font-size:calc("@ + size + " * 1.35) !important;}"@ + under(scope, "h3"@)
        + "{font-size:calc("@ + size + " * 1.15) !important;}"@ + under(scope, ":is(small,sub,sup)"@)
        + "{font-size:calc("@ + size + " * 0.85) !important;}"@ + under(
        scope,
        ":is(pre,code,kbd,samp,tt)"@,
    ) + "{font-family:monospace !important;font-size:calc("@ + size + " * 0.9) !important;}"@;
    let rules = font_rules(scope, (css_family(f), size, css_face(f)));
    lemma_font_rules(scope, css_family(f), size, css_face(f));
    let colors = if style.colors {
        color_rules(scope, dark, accent)
    } else {
        seq![]
    };
    let none = Seq::<char>::empty();
    lemma_holds_inside(none, rules, colors, first);
    assert(none + rules + colors =~= rules + colors);
}

proof fn lemma_font_rules(scope: Seq<char>, family: Seq<char>, size: Seq<char>, face: Seq<char>)
    ensures
        holds(
            font_rules(scope, (family, size, face)),
            scope + ","@ + everything(scope) + "{font-family:"@ + family + " !important;font-size:"@ + size
                + " !important;line-height:1.45 !important;"@ + face + "}"@,
        ),
{
    let x0 = scope + ","@ + everything(scope) + "{font-family:"@ + family + " !important;font-size:"@
        + size + " !important;line-height:1.45 !important;"@ + face + "}"@;
    let none = Seq::<char>::empty();
    lemma_holds_part(none, x0, none);
    assert(none + x0 + none =~= x0);
    lemma_goes_on(x0, under(scope, ":is(h1,h2,h3,h4,h5,h6)"@), x0);
    let x1 = x0 + under(scope, ":is(h1,h2,h3,h4,h5,h6)"@);
    lemma_goes_on(x1, "{line-height:1.25 !important;}"@, x0);
    let x2 = x1 + "{line-height:1.25 !important;}"@;
    lemma_goes_on(x2, under(scope, "h1"@), x0);
    let x3 = x2 + under(scope, "h1"@);
    lemma_goes_on(x3, "{font-size:calc("@, x0);
    let x4 = x3 + "{font-size:calc("@;
    lemma_goes_on(x4, size, x0);
    let x5 = x4 + size;
    lemma_goes_on(x5, " * 1.6) !important;}"@, x0);
    let x6 = x5 + " * 1.6) !important;}"@;
    lemma_goes_on(x6, under(scope, "h2"@), x0);
    let x7 = x6 + under(scope, "h2"@);
    lemma_goes_on(x7, "{font-size:calc("@, x0);
    let x8 = x7 + "{font-size:calc("@;
    lemma_goes_on(x8, size, x0);
    let x9 = x8 + size;
    lemma_goes_on(x9, " * 1.35) !important;}"@, x0);
    let x10 = x9 + " * 1.35) !important;}"@;
    lemma_goes_on(x10, under(scope, "h3"@), x0);
    let x11 = x10 + under(scope, "h3"@);
    lemma_goes_on(x11, "{font-size:calc("@, x0);
    let x12 = x11 + "{font-size:calc("@;
    lemma_goes_on(x12, size, x0);
    let x13 = x12 + size;
    lemma_goes_on(x13, " * 1.15) !important;}"@, x0);
    let x14 = x13 + " * 1.15) !important;}"@;
    lemma_goes_on(x14, under(scope, ":is(small,sub,sup)"@), x0);
    let x15 = x14 + under(scope, ":is(small,sub,sup)"@);
    lemma_goes_on(x15, "{font-size:calc("@, x0);
    let x16 = x15 + "{font-size:calc("@;
    lemma_goes_on(x16, size, x0);
    let x17 = x16 + size;
    lemma_goes_on(x17, " * 0.85) !important;}"@, x0);
    let x18 = x17 + " * 0.85) !important;}"@;
    lemma_goes_on(x18, under(scope, ":is(pre,code,kbd,samp,tt)"@), x0);
    let x19 = x18 + under(scope, ":is(pre,code,kbd,samp,tt)"@);
    lemma_goes_on(x19, "{font-family:monospace !important;font-size:calc("@, x0);
    let x20 = x19 + "{font-family:monospace !important;font-size:calc("@;
    lemma_goes_on(x20, size, x0);
    let x21 = x20 + size;
    lemma_goes_on(x21, " * 0.9) !important;}"@, x0);
    assert(font_rules(scope, (family, size, face)) == x21 + " * 0.9) !important;}"@);
}

proof fn lemma_goes_on(x: Seq<char>, y: Seq<char>, p: Seq<char>)
    requires
        holds(x, p),
    ensures
        holds(x + y, p),
{
    let none = Seq::<char>::empty();
    lemma_holds_inside(none, x, y, p);
    assert(none + x + y =~= x + y);
}

/// A font's size is written in points, or in pixels where it is absolute; a whole number of
/// them as that number.
pub proof fn sizes_are_written(font: &Font, n: int)
    requires
        font.size == 1024 * n,
        n > 0,
    ensures
        css_size(font) == decimal(n as nat) + (if font.absolute {
            "px"@
        } else {
            "pt"@
        }),
{
    assert(font.size as nat % 1024 == 0);
    assert(font.size as nat / 1024 == n);
}

/// A font's face is written where it is not the regular one: how heavy, how slanted and how
/// wide.
pub proof fn faces_are_written(font: &Font)
    ensures
        1 <= font.weight <= 1000 && font.weight != 400 ==> holds(
            css_face(font),
            "font-weight:"@ + decimal(font.weight as nat) + " !important;"@,
        ),
        font.slant == Slant::Italic ==> holds(css_face(font), "font-style:italic !important;"@),
        font.slant == Slant::Oblique ==> holds(css_face(font), "font-style:oblique !important;"@),
        font.stretch != Stretch::Normal ==> holds(
            css_face(font),
            "font-stretch:"@ + (match font.stretch {
                Stretch::UltraCondensed => "ultra-condensed"@,
                Stretch::ExtraCondensed => "extra-condensed"@,
                Stretch::Condensed => "condensed"@,
                Stretch::SemiCondensed => "semi-condensed"@,
                Stretch::Normal => ""@,
                Stretch::SemiExpanded => "semi-expanded"@,
                Stretch::Expanded => "expanded"@,
                Stretch::ExtraExpanded => "extra-expanded"@,
                Stretch::UltraExpanded => "ultra-expanded"@,
            }) + " !important;"@,
        ),
        font.weight == 400 && font.slant == Slant::Upright && font.stretch == Stretch::Normal
            ==> css_face(font).len() == 0,
{
    let a = if font.weight != 400 {
        "font-weight:"@ + decimal(css_weight(font.weight)) + " !important;"@
    } else {
        seq![]
    };
    let b = match font.slant {
        Slant::Italic => "font-style:italic !important;"@,
        Slant::Oblique => "font-style:oblique !important;"@,
        Slant::Upright => seq![],
    };
    let c = if font.stretch != Stretch::Normal {
        "font-stretch:"@ + stretch_name(font.stretch) + " !important;"@
    } else {
        seq![]
    };
    let none = Seq::<char>::empty();
    let all = css_face(font);
    assert(all =~= none + a + (b + c));
    assert(all =~= a + b + c);
    assert(all =~= (a + b) + c + none);
    lemma_holds_part(none, a, b + c);
    lemma_holds_part(a, b, c);
    lemma_holds_part(a + b, c, none);
}

// ----- People -----

proof fn lemma_open_bracket(s: Seq<char>, m: int, end: int)
    requires
        0 < m <= end <= s.len(),
        s[m - 1] == '<',
        forall|k: int| m <= k < end ==> #[trigger] s[k] != '<',
    ensures
        tail_start(s, end, Class::Not('<')) == m,
    decreases end,
{
    if end > m {
        lemma_open_bracket(s, m, end - 1);
    }
}

proof fn lemma_no_bracket(s: Seq<char>, end: int)
    requires
        0 <= end <= s.len(),
        forall|k: int| 0 <= k < end ==> #[trigger] s[k] != '<',
    ensures
        tail_start(s, end, Class::Not('<')) == 0,
    decreases end,
{
    if end > 0 {
        lemma_no_bracket(s, end - 1);
    }
}

/// Whether a text is an address: something, without brackets and white space.
pub open spec fn is_address(a: Seq<char>) -> bool {
    a.len() > 0 && forall|k: int|
        0 <= k < a.len() ==> #[trigger] a[k] != '<' && a[k] != '>' && !is_blank(a[k])
}

/// The address of a recipient is what stands in brackets behind the name, or all there is.
pub proof fn addresses_are_read(name: Seq<char>, a: Seq<char>)
    requires
        is_address(a),
    ensures
        mail_of(name + "<"@ + a + ">"@) == a,
        mail_of(a) == a,
{
    reveal_strlit("<");
    reveal_strlit(">");
    let s = name + "<"@ + a + ">"@;
    let n = s.len() as int;
    let m = name.len() as int + 1;
    assert(s[m - 1] == '<');
    assert forall|k: int| m <= k < n implies #[trigger] s[k] != '<' by {
        if k < n - 1 {
            assert(s[k] == a[k - m]);
        }
    }
    lemma_open_bracket(s, m, n);
    assert forall|k: int| m <= k < n - 1 implies Class::Not('>').has(#[trigger] s[k]) by {
        assert(s[k] == a[k - m]);
    }
    lemma_skip_to(s, m, n - 1, n, Class::Not('>'));
    assert(s.subrange(m, n - 1) =~= a);
    lemma_not_trimmed(a);
    lemma_no_bracket(a, a.len() as int);
}

/// Whether a text can be one entry of a list of recipients.
pub open spec fn is_entry(e: Seq<char>) -> bool {
    &&& e.len() > 0
    &&& !is_blank(e[0])
    &&& !is_blank(e.last())
    &&& forall|k: int| 0 <= k < e.len() ==> #[trigger] e[k] != ',' && e[k] != '"'
}

proof fn lemma_entries(s: Seq<char>, start: int, i: int, stop: int)
    requires
        0 <= start <= i <= stop <= s.len(),
        forall|k: int| i <= k < stop ==> #[trigger] s[k] != ',' && s[k] != '"',
    ensures
        address_entries(s, start, i, false) == address_entries(s, start, stop, false),
    decreases stop - i,
{
    if i < stop {
        lemma_entries(s, start, i + 1, stop);
    }
}

/// The recipients of a list are shown one by one in its order, each with its own address.
pub proof fn recipients_are_shown(a: Seq<char>, b: Seq<char>)
    requires
        is_entry(a),
        is_entry(b),
    ensures
        recipient_spans(address_entries(a, 0, 0, false)) == recipient_span(a),
        recipient_spans(address_entries(a + ","@ + b, 0, 0, false)) == recipient_span(a) + ", "@
            + recipient_span(b),
{
    reveal_strlit(",");
    let none = Seq::<Seq<char>>::empty();
    lemma_entries(a, 0, 0, a.len() as int);
    assert(a.subrange(0, a.len() as int) =~= a);
    assert(address_entries(a, 0, 0, false) == seq![a]);
    lemma_not_trimmed(a);
    lemma_not_trimmed(b);
    reveal_with_fuel(recipient_spans, 3);
    assert(seq![a].drop_last() =~= none);
    assert(recipient_spans(none) =~= Seq::<char>::empty());
    assert(recipient_spans(seq![a]) == recipient_span(a));
    let s = a + ","@ + b;
    let m = a.len() as int;
    let n = s.len() as int;
    assert forall|k: int| 0 <= k < m implies #[trigger] s[k] != ',' && s[k] != '"' by {
        assert(s[k] == a[k]);
    }
    assert forall|k: int| m + 1 <= k < n implies #[trigger] s[k] != ',' && s[k] != '"' by {
        assert(s[k] == b[k - m - 1]);
    }
    lemma_entries(s, 0, 0, m);
    lemma_entries(s, m + 1, m + 1, n);
    assert(s[m] == ',');
    assert(s.subrange(0, m) =~= a);
    assert(s.subrange(m + 1, n) =~= b);
    assert(address_entries(s, m + 1, n, false) == seq![b]);
    assert(address_entries(s, 0, m, false) == seq![a] + seq![b]);
    let both = seq![a] + seq![b];
    assert(both.drop_last() =~= seq![a]);
    assert(both.last() == b);
    reveal_strlit("<span class=\"vireo-mail\" data-mail=\"");
    assert(recipient_span(a).len() > 0);
}

/// A sender without a picture is shown by the first letter of the name, or of the address
/// where there is none, in a colour that does not depend on how the address is written.
pub proof fn senders_have_their_letter(m: &Message, o: &Message)
    ensures
        trim(m.from_name@).len() > 0 ==> initial(m) == upper_case(trim(m.from_name@)[0]),
        trim(m.from_name@).len() == 0 && trim(m.from_addr@).len() > 0 ==> initial(m) == upper_case(
            trim(m.from_addr@)[0],
        ),
        lower_all(m.from_addr@) == lower_all(o.from_addr@) ==> avatar_hue(m) == avatar_hue(o),
        avatar_hue(m) < 360,
{
}

/// The page behind the cards of a conversation is the deeper ground.
pub proof fn conversations_lie_deeper(thread: Seq<Message>, alone: bool, grounds: &Grounds)
    ensures
        thread.len() > 1 ==> page_ground(thread, alone, grounds) == grounds.page@,
        thread.len() == 1 && alone ==> page_ground(thread, alone, grounds) == grounds.page@,
{
}

} // verus!
