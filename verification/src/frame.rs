//! A message's own document, as it goes into its sandboxed frame.

use vstd::prelude::*;
use vstd::slice::slice_subrange;

use crate::colors::{adapt_colors, adapted, opt_texts};
use crate::escape::{attr_escape, content, escape_text, quoted};
use crate::markup::{
    ending, find_ending, find_head_place, find_root_place, head_place, root_place,
};
use crate::reader_style::{reader_style_css, style_rules, ReaderStyle};
use crate::remote::{strip_remote, stripped};
use crate::schemes::{pin_color_scheme, pinned};
use crate::text::{
    chars_of, copy_of, decimal, decimal_string, push_range, skip, skip_over, string_of, Class,
};

verus! {

// ----- The body as a document -----

/// A message's body as a document: as it is when it holds a tag, and wrapped as
/// plain text when it does not.
pub open spec fn body_document(body: Seq<char>) -> Seq<char> {
    if skip(body, 0, body.len() as int, Class::Not('<')) < body.len() {
        body
    } else {
        "<!doctype html><html><head><meta charset=\"utf-8\"><style>body{margin:0;padding:20px;font:14px/1.5 system-ui,sans-serif;white-space:pre-wrap;word-wrap:break-word}</style></head><body>"@
        + content(body)
        + "</body></html>"@
    }
}

/// The message's body as a document. Bodies are stored ready to render, but an
/// odd one may be tag-less plain text: that is wrapped so that it reads well.
pub fn body_html(body: &str) -> (out: String)
    ensures
        out@ == body_document(body@),
{
    let v = chars_of(body);
    if skip_over(&v, 0, v.len(), Class::Not('<')) < v.len() {
        return copy_of(body);
    }
    let mut out = copy_of("<!doctype html><html><head><meta charset=\"utf-8\"><style>body{margin:0;padding:20px;font:14px/1.5 system-ui,sans-serif;white-space:pre-wrap;word-wrap:break-word}</style></head><body>");
    out.append(escape_text(body).as_str());
    out.append("</body></html>");
    out
}

// ----- The reader's own style -----

/// Where a stylesheet goes to be the last word: behind everything that the document
/// holds, in front of the tags that close it and its body.
pub open spec fn last_word(doc: Seq<char>) -> int {
    ending(doc, 0, None)
}

/// The document with the stylesheet as its last word.
pub open spec fn styled(doc: Seq<char>, css: Seq<char>) -> Seq<char> {
    if css.len() == 0 {
        doc
    } else {
        let at = last_word(doc);
        doc.subrange(0, at) + "<style>"@ + css + "</style>"@ + doc.subrange(at, doc.len() as int)
    }
}

/// Puts a stylesheet at the end of a document's body, behind everything that the
/// sender wrote, so that its rules are the last word.
pub fn inject_reader_style(doc: &str, css: &str) -> (out: String)
    ensures
        out@ == styled(doc@, css@),
{
    if css.is_empty() {
        return copy_of(doc);
    }
    let s = chars_of(doc);
    let at = find_ending(&s);
    let mut out = string_of(slice_subrange(&s, 0, at));
    out.append("<style>");
    out.append(css);
    out.append("</style>");
    push_range(&mut out, &s, at, s.len());
    out
}

// ----- The content policy -----

/// The content policy of a frame: no scripts, and remote content only where it is
/// allowed.
pub open spec fn policy(allow_remote: bool) -> Seq<char> {
    if allow_remote {
        "default-src 'none'; img-src http: https: data: cid:; style-src 'unsafe-inline' http: https: data:; font-src http: https: data:; media-src http: https: data:"@
    } else {
        "default-src 'none'; img-src data: cid:; style-src 'unsafe-inline' data:; font-src data:; media-src data:"@
    }
}

/// What goes into the head of every message's document.
pub open spec fn head_meta(allow_remote: bool, dark: bool) -> Seq<char> {
    let supported = if dark {
        "dark light"@
    } else {
        "light dark"@
    };
    let scheme = if dark {
        "dark"@
    } else {
        "light"@
    };
    "<meta name=\"color-scheme\" content=\""@
    + supported
    + "\"><style>:root{color-scheme:"@
    + scheme
    + ";}body{margin:0;padding:20px;box-sizing:border-box;}@media print{:root{color-scheme:light;}html,body{background:#fff !important;}}</style><meta name=\"referrer\" content=\"no-referrer\"><meta http-equiv=\"Content-Security-Policy\" content=\""@
    + policy(allow_remote)
    + "\">"@
}

/// The document with the meta tags at the beginning of its head: behind its `<head>`,
/// else in a head of their own behind its `<html>`, else in a document of their own
/// around it.
pub open spec fn with_head(html: Seq<char>, meta: Seq<char>) -> Seq<char> {
    let n = html.len() as int;
    match head_place(html) {
        Some(at) => html.subrange(0, at) + meta + html.subrange(at, n),
        None => match root_place(html) {
            Some(at) => html.subrange(0, at) + "<head>"@ + meta + "</head>"@ + html.subrange(at, n),
            None => "<!doctype html><html><head>"@ + meta + "</head><body>"@ + html
                + "</body></html>"@,
        },
    }
}

fn policy_text(allow_remote: bool) -> (out: &'static str)
    ensures
        out@ == policy(allow_remote),
{
    if allow_remote {
        "default-src 'none'; img-src http: https: data: cid:; style-src 'unsafe-inline' http: https: data:; font-src http: https: data:; media-src http: https: data:"
    } else {
        "default-src 'none'; img-src data: cid:; style-src 'unsafe-inline' data:; font-src data:; media-src data:"
    }
}

fn head_meta_text(allow_remote: bool, dark: bool) -> (out: String)
    ensures
        out@ == head_meta(allow_remote, dark),
{
    let supported: &str = if dark {
        "dark light"
    } else {
        "light dark"
    };
    let scheme: &str = if dark {
        "dark"
    } else {
        "light"
    };
    let mut out = copy_of("<meta name=\"color-scheme\" content=\"");
    out.append(supported);
    out.append("\"><style>:root{color-scheme:");
    out.append(scheme);
    out.append(";}body{margin:0;padding:20px;box-sizing:border-box;}@media print{:root{color-scheme:light;}html,body{background:#fff !important;}}</style><meta name=\"referrer\" content=\"no-referrer\"><meta http-equiv=\"Content-Security-Policy\" content=\"");
    out.append(policy_text(allow_remote));
    out.append("\">");
    out
}

/// Puts a content policy, the referrer policy, the colour scheme and the default
/// inset into the document's head. When remote content is not allowed, only inline
/// styles and `data:` URIs are. `allow_remote` is the reader's own choice, never
/// what the detector found: if that misses a reference, the engine still refuses
/// the fetch.
pub fn inject_csp(html: &str, allow_remote: bool, dark: bool) -> (out: String)
    ensures
        out@ == with_head(html@, head_meta(allow_remote, dark)),
{
    let meta = head_meta_text(allow_remote, dark);
    let s = chars_of(html);
    if let Some(at) = find_head_place(&s) {
        let mut out = string_of(slice_subrange(&s, 0, at));
        out.append(meta.as_str());
        push_range(&mut out, &s, at, s.len());
        return out;
    }
    if let Some(at) = find_root_place(&s) {
        let mut out = string_of(slice_subrange(&s, 0, at));
        out.append("<head>");
        out.append(meta.as_str());
        out.append("</head>");
        push_range(&mut out, &s, at, s.len());
        return out;
    }
    let mut out = copy_of("<!doctype html><html><head>");
    out.append(meta.as_str());
    out.append("</head><body>");
    out.append(html);
    out.append("</body></html>");
    out
}

// ----- The frame -----

/// The document of a frame before its colours are looked at: without remote
/// references where they are restricted.
pub open spec fn bare_document(body: Seq<char>, restrict: bool) -> Seq<char> {
    if restrict {
        stripped(body_document(body))
    } else {
        body_document(body)
    }
}

/// The document of a frame: its colours adapted to a dark ground unless the
/// reader's own are laid over it, its queries for a colour scheme settled, the
/// reader's style as its last word, and the content policy in its head.
pub open spec fn frame_document(
    body: Seq<char>,
    restrict: bool,
    dark: bool,
    style: &ReaderStyle,
    accent: Seq<char>,
    colors: Seq<Option<Seq<char>>>,
) -> Seq<char> {
    let bare = bare_document(body, restrict);
    let coloured = if dark && !style.colors {
        adapted(bare, colors)
    } else {
        bare
    };
    let settled = pinned(coloured, dark);
    let over = styled(settled, style_rules(style, dark, accent, ":root"@));
    with_head(over, head_meta(!restrict, dark))
}

/// The height that a frame opens at, if it is known.
pub open spec fn height_style(height: Option<u32>) -> Seq<char> {
    match height {
        Some(h) => " style=\"height:"@ + decimal(h as nat) + "px\""@,
        None => seq![],
    }
}

/// A frame around a document.
pub open spec fn framed(doc: Seq<char>, key: (u32, u32), height: Option<u32>) -> Seq<char> {
    "<div class=\"vireo-pan\"><iframe class=\"vireo-frame\" data-key=\""@
    + decimal(key.0 as nat)
    + ":"@
    + decimal(key.1 as nat)
    + "\""@
    + height_style(height)
    + " sandbox=\"allow-same-origin allow-popups\" srcdoc=\""@
    + quoted(doc)
    + "\"></iframe></div>"@
}

/// The document whose colours [`message_frame`] takes replacements for, in the
/// order of its candidates.
pub fn frame_base(body: &str, restrict: bool) -> (out: String)
    ensures
        out@ == bare_document(body@, restrict),
{
    let doc = body_html(body);
    if restrict {
        strip_remote(doc.as_str())
    } else {
        doc
    }
}

/// One message body as a sandboxed frame: its own document, so that CSS cannot
/// leak to other messages, with no `allow-scripts`, so that the mail cannot run
/// JavaScript. `colors` holds the new colour of each candidate of [`frame_base`],
/// or none where it stays. Opening at the height that it had last time lets a
/// conversation lay out correctly at once.
pub fn message_frame(
    body: &str,
    restrict: bool,
    dark: bool,
    key: (u32, u32),
    height: Option<u32>,
    style: &ReaderStyle,
    accent: &str,
    colors: &Vec<Option<String>>,
) -> (out: String)
    ensures
        out@ == framed(
            frame_document(body@, restrict, dark, style, accent@, opt_texts(colors@)),
            key,
            height,
        ),
{
    let base = frame_base(body, restrict);
    let coloured: String = if dark && !style.colors {
        adapt_colors(base.as_str(), colors)
    } else {
        base
    };
    let settled = pin_color_scheme(coloured.as_str(), dark);
    let css = reader_style_css(style, dark, accent, ":root");
    let over = inject_reader_style(settled.as_str(), css.as_str());
    let doc = inject_csp(over.as_str(), !restrict, dark);
    let style_attr: String = match height {
        Some(h) => {
            let mut t = copy_of(" style=\"height:");
            t.append(decimal_string(h as u64).as_str());
            t.append("px\"");
            t
        },
        None => String::new(),
    };
    let account = decimal_string(key.0 as u64);
    let id = decimal_string(key.1 as u64);
    let mut out = copy_of("<div class=\"vireo-pan\"><iframe class=\"vireo-frame\" data-key=\"");
    out.append(account.as_str());
    out.append(":");
    out.append(id.as_str());
    out.append("\"");
    out.append(style_attr.as_str());
    out.append(" sandbox=\"allow-same-origin allow-popups\" srcdoc=\"");
    out.append(attr_escape(doc.as_str()).as_str());
    out.append("\"></iframe></div>");
    out
}

} // verus!
