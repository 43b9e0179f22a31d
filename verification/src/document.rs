//! The reader's own document: one sandboxed frame for each message, in a card with a
//! header of its own.

use std::collections::{HashMap, HashSet};

use vstd::prelude::*;
use vstd::slice::slice_subrange;

use crate::colors::opt_texts;
use crate::escape::{
    content, escape_markup, escape_script, escape_sheet, escape_text, markup, script_text, sheet_text,
};
use crate::frame::{frame_document, framed, message_frame};
use crate::models::{key_of, message_key, packed, Message};
use crate::print::{replace_once, replaced_once};
use crate::reader_style::ReaderStyle;
use crate::script::SIZE_SCRIPT;
use crate::styles::{
    CARD_CSS, FRAME_CSS, HEADER_CSS, HEADER_LINE_CSS, MENU_CSS, OPEN_PALETTE_CSS, PAGE_CSS,
    PALETTE_CSS, RECIPIENTS_CSS, REVEAL_CSS, SENDER_CSS, TOGGLE_CSS,
};
use crate::text::{
    chars_of, copy_of, decimal, decimal_string, find_from_ci, holds_ci, is_blank_text, lower_all,
    lower_chars, opt_text, same_chars, skip, skip_over, string_of, tail_of, tail_start, texts, trim,
    trimmed, trimmed_string, Class,
};

verus! {

broadcast use vstd::std_specs::hash::group_hash_axioms;

// ----- What the document is given -----

/// The grounds of the reader: a message sits on the first, the cards of a
/// conversation on the slightly deeper second, and the third is the window's own.
pub struct Grounds {
    pub ground: String,
    pub page: String,
    pub chrome: String,
}

/// A tag as a card's header shows it: the keyword that marks a message with it, what it
/// is called, its class outside of the document, its colour, and the colour of its text,
/// which was found to be readable on that.
#[derive(Debug)]
pub struct TagChip {
    pub keyword: String,
    pub label: String,
    pub css_class: String,
    pub color: String,
    pub text_color: String,
}

/// What the document says, in the reader's language and as markup.
pub struct Words {
    pub open_hint: String,
    pub actions: String,
    pub reply: String,
    pub reply_all: String,
    pub forward: String,
    pub toggle_read: String,
    pub flag: String,
    pub archive: String,
    pub delete: String,
    pub spam: String,
    pub contact: String,
    pub source: String,
    pub own_style: String,
    pub sender_style: String,
    pub hide_recipients: String,
    pub show_recipients: String,
}

/// The icons of the document, as inlined SVG.
pub struct Icons {
    pub more: String,
    pub reply: String,
    pub reply_all: String,
    pub forward: String,
    pub read: String,
    pub unread: String,
    pub star: String,
    pub archive: String,
    pub trash: String,
    pub junk: String,
    pub contact: String,
    pub source: String,
    pub rich: String,
    pub verified: String,
    pub lock: String,
    pub shield: String,
}

/// What of a message's card is found out elsewhere: its date in words, a drawn
/// avatar, what its recipients button says, and the new colours of its body.
pub struct CardFacts {
    pub date: String,
    pub avatar: Option<String>,
    pub recipients_label: String,
    pub colors: Vec<Option<String>>,
}

/// How the document looks.
pub struct Page<'a> {
    pub accent: &'a String,
    pub restrict: bool,
    pub dark: bool,
    pub always_show_recipients: bool,
    pub single_message_card: bool,
    pub style: &'a ReaderStyle,
    pub tags: &'a Vec<TagChip>,
    pub grounds: &'a Grounds,
    pub words: &'a Words,
    pub icons: &'a Icons,
    /// The script's password, where one could be made.
    pub nonce: &'a Option<String>,
}

/// The grounds where the theme does not say: those of a stock desktop.
pub fn stock_grounds(dark: bool) -> (g: Grounds)
    ensures
        g.ground@ == (if dark {
            "#1e1e1e"@
        } else {
            "#ffffff"@
        }),
        g.page@ == (if dark {
            "#141414"@
        } else {
            "#f1f1f1"@
        }),
        g.chrome@ == (if dark {
            "#242424"@
        } else {
            "#fafafa"@
        }),
{
    if dark {
        Grounds {
            ground: copy_of("#1e1e1e"),
            page: copy_of("#141414"),
            chrome: copy_of("#242424"),
        }
    } else {
        Grounds {
            ground: copy_of("#ffffff"),
            page: copy_of("#f1f1f1"),
            chrome: copy_of("#fafafa"),
        }
    }
}

// ----- Icons -----

/// An icon's SVG without the declaration in front of it.
pub open spec fn bare_svg(data: Option<Seq<char>>) -> Seq<char> {
    match data {
        Some(s) => trim(
            replaced_once(s, "<?xml version=\"1.0\" encoding=\"UTF-8\"?>"@, ""@),
        ),
        None => seq![],
    }
}

/// The path of an embedded icon.
pub fn icon_path(icon: &str) -> (out: String)
    ensures
        out@ == "/co/hyprlab/Vireo/icons/scalable/actions/co.hyprlab.Vireo-"@ + icon@ + ".svg"@,
{
    let mut out = copy_of("/co/hyprlab/Vireo/icons/scalable/actions/co.hyprlab.Vireo-");
    out.append(icon);
    out.append(".svg");
    out
}

/// An embedded icon's SVG, inlined for the document, from what its file holds;
/// nothing where there is no such file.
pub fn inline_icon_svg(data: Option<String>) -> (out: String)
    ensures
        out@ == bare_svg(opt_text(data)),
{
    match data {
        Some(s) => {
            let bare = replace_once(
                s.as_str(),
                "<?xml version=\"1.0\" encoding=\"UTF-8\"?>",
                "",
            );
            trimmed_string(bare.as_str())
        },
        None => String::new(),
    }
}

// ----- Buttons -----

pub open spec fn action_button(
    key: (u32, u32),
    act: Seq<char>,
    svg: Seq<char>,
    title: Seq<char>,
) -> Seq<char> {
    "<button type=\"button\" class=\"vireo-act\" data-act=\""@
    + act
    + "\" data-key=\""@
    + decimal(key.0 as nat)
    + ":"@
    + decimal(key.1 as nat)
    + "\" title=\""@
    + title
    + "\">"@
    + svg
    + "</button>"@
}

/// One icon button of a card's palette.
pub fn card_action_button(key: (u32, u32), act: &str, svg: &str, title: &str) -> (out: String)
    ensures
        out@ == action_button(key, act@, svg@, title@),
{
    let account = decimal_string(key.0 as u64);
    let id = decimal_string(key.1 as u64);
    let mut out = copy_of("<button type=\"button\" class=\"vireo-act\" data-act=\"");
    out.append(act);
    out.append("\" data-key=\"");
    out.append(account.as_str());
    out.append(":");
    out.append(id.as_str());
    out.append("\" title=\"");
    out.append(title);
    out.append("\">");
    out.append(svg);
    out.append("</button>");
    out
}

pub open spec fn toggle_read_button(key: (u32, u32), words: &Words, icons: &Icons) -> Seq<char> {
    "<button type=\"button\" class=\"vireo-act\" data-act=\"toggleread\" data-key=\""@
    + decimal(key.0 as nat)
    + ":"@
    + decimal(key.1 as nat)
    + "\" title=\""@
    + words.toggle_read@
    + "\"><span class=\"tr-when-unread\">"@
    + icons.read@
    + "</span><span class=\"tr-when-read\">"@
    + icons.unread@
    + "</span></button>"@
}

fn toggle_read_html(key: (u32, u32), words: &Words, icons: &Icons) -> (out: String)
    ensures
        out@ == toggle_read_button(key, words, icons),
{
    let account = decimal_string(key.0 as u64);
    let id = decimal_string(key.1 as u64);
    let mut out = copy_of("<button type=\"button\" class=\"vireo-act\" data-act=\"toggleread\" data-key=\"");
    out.append(account.as_str());
    out.append(":");
    out.append(id.as_str());
    out.append("\" title=\"");
    out.append(words.toggle_read.as_str());
    out.append("\"><span class=\"tr-when-unread\">");
    out.append(icons.read.as_str());
    out.append("</span><span class=\"tr-when-read\">");
    out.append(icons.unread.as_str());
    out.append("</span></button>");
    out
}

pub open spec fn star_button(
    key: (u32, u32),
    starred: bool,
    words: &Words,
    icons: &Icons,
) -> Seq<char> {
    let on = if starred {
        " on"@
    } else {
        ""@
    };
    "<button type=\"button\" class=\"vireo-act"@
    + on
    + "\" data-act=\"star\" data-key=\""@
    + decimal(key.0 as nat)
    + ":"@
    + decimal(key.1 as nat)
    + "\" title=\""@
    + words.flag@
    + "\">"@
    + icons.star@
    + "</button>"@
}

fn star_html(key: (u32, u32), starred: bool, words: &Words, icons: &Icons) -> (out: String)
    ensures
        out@ == star_button(key, starred, words, icons),
{
    let account = decimal_string(key.0 as u64);
    let id = decimal_string(key.1 as u64);
    let on: &str = if starred {
        " on"
    } else {
        ""
    };
    let mut out = copy_of("<button type=\"button\" class=\"vireo-act");
    out.append(on);
    out.append("\" data-act=\"star\" data-key=\"");
    out.append(account.as_str());
    out.append(":");
    out.append(id.as_str());
    out.append("\" title=\"");
    out.append(words.flag.as_str());
    out.append("\">");
    out.append(icons.star.as_str());
    out.append("</button>");
    out
}

pub open spec fn style_button(key: (u32, u32), own: bool, words: &Words, icons: &Icons) -> Seq<
    char,
> {
    let on = if own {
        " on"@
    } else {
        ""@
    };
    let title = if own {
        words.own_style@
    } else {
        words.sender_style@
    };
    "<button type=\"button\" class=\"vireo-act"@
    + on
    + "\" data-act=\"senderfmt\" data-key=\""@
    + decimal(key.0 as nat)
    + ":"@
    + decimal(key.1 as nat)
    + "\" title=\""@
    + title
    + "\">"@
    + icons.rich@
    + "</button>"@
}

fn style_html(key: (u32, u32), own: bool, words: &Words, icons: &Icons) -> (out: String)
    ensures
        out@ == style_button(key, own, words, icons),
{
    let account = decimal_string(key.0 as u64);
    let id = decimal_string(key.1 as u64);
    let on: &str = if own {
        " on"
    } else {
        ""
    };
    let title: &str = if own {
        words.own_style.as_str()
    } else {
        words.sender_style.as_str()
    };
    let mut out = copy_of("<button type=\"button\" class=\"vireo-act");
    out.append(on);
    out.append("\" data-act=\"senderfmt\" data-key=\"");
    out.append(account.as_str());
    out.append(":");
    out.append(id.as_str());
    out.append("\" title=\"");
    out.append(title);
    out.append("\">");
    out.append(icons.rich.as_str());
    out.append("</button>");
    out
}

pub open spec fn palette_toggle_html(key: (u32, u32), page: &Page) -> Seq<char> {
    let words = page.words;
    let icons = page.icons;
    "<button type=\"button\" class=\"vireo-acts-toggle\" title=\""@
    + words.actions@
    + "\" data-key=\""@
    + decimal(key.0 as nat)
    + ":"@
    + decimal(key.1 as nat)
    + "\">"@
    + icons.more@
    + "</button>"@
}

fn palette_toggle_button(key: (u32, u32), page: &Page) -> (out: String)
    ensures
        out@ == palette_toggle_html(key, page),
{
    let words = page.words;
    let icons = page.icons;
    let account = decimal_string(key.0 as u64);
    let id = decimal_string(key.1 as u64);
    let mut out = copy_of("<button type=\"button\" class=\"vireo-acts-toggle\" title=\"");
    out.append(words.actions.as_str());
    out.append("\" data-key=\"");
    out.append(account.as_str());
    out.append(":");
    out.append(id.as_str());
    out.append("\">");
    out.append(icons.more.as_str());
    out.append("</button>");
    out
}

/// The actions of a card, in the order of the toolbar. The last one, the way back to
/// the sender's own fonts and colours, is only offered while the reader's own are
/// laid over the message; `own` tells whether this card shows the sender's.
pub open spec fn palette_html(m: &Message, page: &Page, own: bool) -> Seq<char> {
    let key = key_of(m);
    let w = page.words;
    let i = page.icons;
    "<span class=\"vireo-acts\">"@ + action_button(key, "reply"@, i.reply@, w.reply@)
        + action_button(key, "replyall"@, i.reply_all@, w.reply_all@) + action_button(
        key,
        "forward"@,
        i.forward@,
        w.forward@,
    ) + toggle_read_button(key, w, i) + star_button(key, m.starred, w, i) + action_button(
        key,
        "archive"@,
        i.archive@,
        w.archive@,
    ) + action_button(key, "delete"@, i.trash@, w.delete@) + action_button(
        key,
        "spam"@,
        i.junk@,
        w.spam@,
    ) + action_button(key, "contact"@, i.contact@, w.contact@) + action_button(
        key,
        "viewsource"@,
        i.source@,
        w.source@,
    ) + (if page.style.font is Some || page.style.colors {
        style_button(key, own, w, i)
    } else {
        seq![]
    }) + "</span>"@
}

fn palette(m: &Message, page: &Page, own: bool) -> (out: String)
    ensures
        out@ == palette_html(m, page, own),
{
    let key = (m.account_id, m.id);
    let w = page.words;
    let i = page.icons;
    let mut out = copy_of("<span class=\"vireo-acts\">");
    out.append(card_action_button(key, "reply", i.reply.as_str(), w.reply.as_str()).as_str());
    out.append(
        card_action_button(key, "replyall", i.reply_all.as_str(), w.reply_all.as_str()).as_str(),
    );
    out.append(
        card_action_button(key, "forward", i.forward.as_str(), w.forward.as_str()).as_str(),
    );
    out.append(toggle_read_html(key, w, i).as_str());
    out.append(star_html(key, m.starred, w, i).as_str());
    out.append(
        card_action_button(key, "archive", i.archive.as_str(), w.archive.as_str()).as_str(),
    );
    out.append(card_action_button(key, "delete", i.trash.as_str(), w.delete.as_str()).as_str());
    out.append(card_action_button(key, "spam", i.junk.as_str(), w.spam.as_str()).as_str());
    out.append(
        card_action_button(key, "contact", i.contact.as_str(), w.contact.as_str()).as_str(),
    );
    out.append(
        card_action_button(key, "viewsource", i.source.as_str(), w.source.as_str()).as_str(),
    );
    if page.style.active() {
        out.append(style_html(key, own, w, i).as_str());
    } else {
        proof {
            assert(out@ + seq![] =~= out@);
        }
    }
    out.append("</span>");
    out
}

pub open spec fn seals_html(key: (u32, u32), icons: &Icons) -> Seq<char> {
    "<button type=\"button\" class=\"vireo-verify\" data-key=\""@
    + decimal(key.0 as nat)
    + ":"@
    + decimal(key.1 as nat)
    + "\" title=\"\">"@
    + icons.verified@
    + "</button><button type=\"button\" class=\"vireo-pgp\" data-key=\""@
    + decimal(key.0 as nat)
    + ":"@
    + decimal(key.1 as nat)
    + "\" title=\"\">"@
    + icons.lock@
    + icons.shield@
    + "</button>"@
}

/// The seals behind a sender's name, hidden until a verdict arrives.
fn seals(key: (u32, u32), icons: &Icons) -> (out: String)
    ensures
        out@ == seals_html(key, icons),
{
    let account = decimal_string(key.0 as u64);
    let id = decimal_string(key.1 as u64);
    let mut out = copy_of("<button type=\"button\" class=\"vireo-verify\" data-key=\"");
    out.append(account.as_str());
    out.append(":");
    out.append(id.as_str());
    out.append("\" title=\"\">");
    out.append(icons.verified.as_str());
    out.append("</button><button type=\"button\" class=\"vireo-pgp\" data-key=\"");
    out.append(account.as_str());
    out.append(":");
    out.append(id.as_str());
    out.append("\" title=\"\">");
    out.append(icons.lock.as_str());
    out.append(icons.shield.as_str());
    out.append("</button>");
    out
}

// ----- The sender -----

/// `char::to_uppercase` of the standard library, as a text.
pub uninterp spec fn upper_case(c: char) -> Seq<char>;

/// `char::to_uppercase` of the standard library: the upper-case form of a character,
/// which may be several characters. Which they are is settled by Unicode's tables and
/// left unsaid here.
#[verifier::external_body]
fn uppercase(c: char) -> (out: String)
    ensures
        out@ == upper_case(c),
{
    c.to_uppercase().to_string()
}

/// The initial of a sender: the first letter of the name, else of the address.
pub open spec fn initial(m: &Message) -> Seq<char> {
    if trim(m.from_name@).len() > 0 {
        upper_case(trim(m.from_name@)[0])
    } else if trim(m.from_addr@).len() > 0 {
        upper_case(trim(m.from_addr@)[0])
    } else {
        "?"@
    }
}

/// A number that the bytes add up to.
pub open spec fn byte_sum(bytes: Seq<u8>, from: u32) -> u32
    decreases bytes.len(),
{
    if bytes.len() == 0 {
        from
    } else {
        byte_sum(bytes.drop_first(), from.wrapping_mul(31).wrapping_add(bytes[0] as u32))
    }
}

/// The tint of a sender: by the address, whatever its case.
pub open spec fn avatar_hue(m: &Message) -> u32 {
    byte_sum(vstd::utf8::encode_utf8(lower_all(m.from_addr@)), 0) % 360
}

pub open spec fn avatar_lightness(dark: bool) -> u32 {
    if dark {
        38
    } else {
        45
    }
}

/// A sender's circle: the initial, and its tint as a hue and a lightness in percent.
pub struct AvatarFace {
    pub initial: String,
    pub hue: u32,
    pub lightness: u32,
}

/// The face of a sender's circle.
pub fn avatar_face(m: &Message, dark: bool) -> (face: AvatarFace)
    ensures
        face.initial@ == initial(m),
        face.hue == avatar_hue(m),
        face.lightness == avatar_lightness(dark),
{
    let name = chars_of(m.from_name.as_str());
    let addr = chars_of(m.from_addr.as_str());
    let n = trimmed(&name);
    let a = trimmed(&addr);
    let letter: String = if n.len() > 0 {
        uppercase(n[0])
    } else if a.len() > 0 {
        uppercase(a[0])
    } else {
        copy_of("?")
    };
    let lowered = lower_chars(&addr);
    let text = string_of(&lowered);
    let bytes = text.as_str().as_bytes();
    let mut sum: u32 = 0;
    let mut i: usize = 0;
    proof {
        assert(bytes@.skip(0) =~= bytes@);
    }
    while i < bytes.len()
        invariant
            i <= bytes.len(),
            byte_sum(bytes@.skip(i as int), sum) == byte_sum(bytes@, 0),
        decreases bytes.len() - i,
    {
        proof {
            assert(bytes@.skip(i as int).drop_first() =~= bytes@.skip(i + 1));
        }
        sum = sum.wrapping_mul(31).wrapping_add(bytes[i] as u32);
        i = i + 1;
    }
    AvatarFace {
        initial: letter,
        hue: sum % 360,
        lightness: if dark {
            38
        } else {
            45
        },
    }
}

/// The circle in front of a sender's name: drawn, or in markup where it could not be.
pub open spec fn avatar_html(m: &Message, dark: bool, drawn: Option<String>) -> Seq<char> {
    match drawn {
        Some(uri) => "<img class=\"vireo-ava\" src=\""@ + uri@ + "\" alt=\"\">"@,
        None => "<span class=\"vireo-ava\" style=\"background:hsl("@
    + decimal(avatar_hue(m) as nat)
    + ",52%,"@
    + decimal(avatar_lightness(dark) as nat)
    + "%)\">"@
    + content(initial(m))
    + "</span>"@,
    }
}

fn avatar(m: &Message, dark: bool, drawn: &Option<String>) -> (out: String)
    ensures
        out@ == avatar_html(m, dark, *drawn),
{
    match drawn {
        Some(uri) => {
            let mut out = copy_of("<img class=\"vireo-ava\" src=\"");
            out.append(uri.as_str());
            out.append("\" alt=\"\">");
            out
        },
        None => {
            let face = avatar_face(m, dark);
            let mut out = copy_of("<span class=\"vireo-ava\" style=\"background:hsl(");
            out.append(decimal_string(face.hue as u64).as_str());
            out.append(",52%,");
            out.append(decimal_string(face.lightness as u64).as_str());
            out.append("%)\">");
            out.append(escape_text(face.initial.as_str()).as_str());
            out.append("</span>");
            out
        },
    }
}

/// The sender's address behind the name, nothing where there is none.
pub open spec fn address_html(m: &Message) -> Seq<char> {
    let a = markup(m.from_addr@);
    if m.from_addr@.len() == 0 {
        seq![]
    } else {
        "<span class=\"vireo-addr vireo-mail\" data-mail=\""@
    + a
    + "\" data-addr=\"&lt;"@
    + a
    + "&gt;\">&lt;"@
    + a
    + "&gt;</span>"@
    }
}

fn address(m: &Message) -> (out: String)
    ensures
        out@ == address_html(m),
{
    if m.from_addr.as_str().is_empty() {
        return String::new();
    }
    let a = escape_markup(m.from_addr.as_str());
    let mut out = copy_of("<span class=\"vireo-addr vireo-mail\" data-mail=\"");
    out.append(a.as_str());
    out.append("\" data-addr=\"&lt;");
    out.append(a.as_str());
    out.append("&gt;\">&lt;");
    out.append(a.as_str());
    out.append("&gt;</span>");
    out
}

/// The mark of an unread message.
pub open spec fn unread_dot(m: &Message) -> Seq<char> {
    if m.unread {
        "<span class=\"vireo-dot\" data-key=\""@
    + decimal(m.account_id as nat)
    + ":"@
    + decimal(m.id as nat)
    + "\"></span>"@
    } else {
        seq![]
    }
}

fn dot_html(m: &Message) -> (out: String)
    ensures
        out@ == unread_dot(m),
{
    if !m.unread {
        return String::new();
    }
    let account = decimal_string(m.account_id as u64);
    let id = decimal_string(m.id as u64);
    let mut out = copy_of("<span class=\"vireo-dot\" data-key=\"");
    out.append(account.as_str());
    out.append(":");
    out.append(id.as_str());
    out.append("\"></span>");
    out
}

// ----- Tags -----

/// Whether a message with these keywords is marked with the tag of that keyword,
/// whatever the case of either.
pub open spec fn tagged(keywords: Seq<Seq<char>>, keyword: Seq<char>) -> bool {
    exists|k: int|
        0 <= k < keywords.len() && lower_all(#[trigger] keywords[k]) == lower_all(keyword)
}

/// One tag in a card's header.
pub open spec fn chip_html(t: &TagChip) -> Seq<char> {
    "<span class=\"vireo-tag\" style=\"background:"@
    + markup(t.color@)
    + ";color:"@
    + t.text_color@
    + "\">"@
    + markup(t.label@)
    + "</span>"@
}

/// The first `n` of the tags, as far as the message is marked with them.
pub open spec fn chips_html(tags: Seq<TagChip>, keywords: Seq<Seq<char>>, n: nat) -> Seq<char>
    decreases n,
{
    if n == 0 {
        seq![]
    } else {
        let rest = chips_html(tags, keywords, (n - 1) as nat);
        if tagged(keywords, tags[n - 1].keyword@) {
            rest + chip_html(&tags[n - 1])
        } else {
            rest
        }
    }
}

pub(crate) fn is_tagged(keywords: &Vec<String>, keyword: &str) -> (r: bool)
    ensures
        r == tagged(texts(keywords@), keyword@),
{
    let chars = chars_of(keyword);
    let wanted = lower_chars(&chars);
    let mut k: usize = 0;
    while k < keywords.len()
        invariant
            k <= keywords.len(),
            wanted@ == lower_all(keyword@),
            forall|j: int|
                0 <= j < k ==> lower_all(#[trigger] texts(keywords@)[j]) != lower_all(keyword@),
        decreases keywords.len() - k,
    {
        let one = chars_of(keywords[k].as_str());
        if same_chars(&lower_chars(&one), &wanted) {
            proof {
                assert(lower_all(texts(keywords@)[k as int]) == lower_all(keyword@));
            }
            return true;
        }
        k = k + 1;
    }
    false
}

/// The tag chips of a card's header: one pill for each tag that a keyword names.
pub fn tag_chips_html(tags: &Vec<TagChip>, keywords: &Vec<String>) -> (out: String)
    ensures
        out@ == chips_html(tags@, texts(keywords@), tags@.len()),
{
    let mut all = String::new();
    let mut n: usize = 0;
    while n < tags.len()
        invariant
            n <= tags.len(),
            all@ == chips_html(tags@, texts(keywords@), n as nat),
        decreases tags.len() - n,
    {
        let t = &tags[n];
        if is_tagged(keywords, t.keyword.as_str()) {
            let mut out = copy_of("<span class=\"vireo-tag\" style=\"background:");
            out.append(escape_markup(t.color.as_str()).as_str());
            out.append(";color:");
            out.append(t.text_color.as_str());
            out.append("\">");
            out.append(escape_markup(t.label.as_str()).as_str());
            out.append("</span>");
            all.append(out.as_str());
        }
        n = n + 1;
    }
    all
}

// ----- Recipients -----

/// How many of the texts are more than white space.
pub open spec fn filled(parts: Seq<Seq<char>>) -> nat
    decreases parts.len(),
{
    if parts.len() == 0 {
        0
    } else {
        filled(parts.drop_last()) + (if trim(parts.last()).len() > 0 {
            1nat
        } else {
            0nat
        })
    }
}

/// How many addresses a message's To and Cc headers name. A comma in a quoted display
/// name does not make two of one.
pub open spec fn recipients(m: &Message) -> nat {
    filled(address_entries(m.to@, 0, 0, false)) + filled(address_entries(m.cc@, 0, 0, false))
}

fn count_filled(parts: &Vec<String>) -> (r: usize)
    ensures
        r == filled(texts(parts@)),
        r <= parts@.len(),
{
    let mut count: usize = 0;
    let mut i: usize = 0;
    while i < parts.len()
        invariant
            i <= parts.len(),
            count <= i,
            count == filled(texts(parts@).take(i as int)),
        decreases parts.len() - i,
    {
        proof {
            let next = texts(parts@).take(i as int + 1);
            assert(next.drop_last() =~= texts(parts@).take(i as int));
            assert(next.last() == parts@[i as int]@);
        }
        if !is_blank_text(parts[i].as_str()) {
            count = count + 1;
        }
        i = i + 1;
    }
    proof {
        assert(texts(parts@).take(parts@.len() as int) =~= texts(parts@));
    }
    count
}

/// How many addresses a message's To and Cc headers name, as far as the machine can
/// count.
pub fn recipient_count(m: &Message) -> (r: usize)
    ensures
        recipients(m) <= usize::MAX ==> r == recipients(m),
        recipients(m) > usize::MAX ==> r == usize::MAX,
{
    let a = count_filled(&split_addr_list(m.to.as_str()));
    let b = count_filled(&split_addr_list(m.cc.as_str()));
    a.saturating_add(b)
}

/// The entries of an address list from `start` on, read up to `i`: between commas
/// that do not stand in double quotes.
pub open spec fn address_entries(s: Seq<char>, start: int, i: int, in_quotes: bool) -> Seq<
    Seq<char>,
>
    decreases s.len() - i,
{
    if i >= s.len() {
        seq![s.subrange(start, s.len() as int)]
    } else if s[i] == '"' {
        address_entries(s, start, i + 1, !in_quotes)
    } else if s[i] == ',' && !in_quotes {
        seq![s.subrange(start, i)] + address_entries(s, i + 1, i + 1, in_quotes)
    } else {
        address_entries(s, start, i + 1, in_quotes)
    }
}

/// Splits an address list on commas, and keeps double-quoted display names whole:
/// `"Doe, Jane" <j@x>` is one entry.
pub fn split_addr_list(list: &str) -> (out: Vec<String>)
    ensures
        texts(out@) == address_entries(list@, 0, 0, false),
{
    let s = chars_of(list);
    let mut out: Vec<String> = Vec::new();
    let mut start: usize = 0;
    let mut in_quotes: bool = false;
    let mut i: usize = 0;
    let ghost want = address_entries(list@, 0, 0, false);
    proof {
        assert(texts(out@) + want =~= want);
    }
    while i < s.len()
        invariant
            start <= i <= s.len(),
            texts(out@) + address_entries(s@, start as int, i as int, in_quotes) == want,
        decreases s.len() - i,
    {
        if s[i] == '"' {
            in_quotes = !in_quotes;
        } else if s[i] == ',' && !in_quotes {
            let ghost had = texts(out@);
            let one = string_of(slice_subrange(&s, start, i));
            out.push(one);
            proof {
                assert(texts(out@) =~= had + seq![one@]);
                let rest = address_entries(s@, i + 1, i + 1, in_quotes);
                assert((had + seq![one@]) + rest =~= had + (seq![one@] + rest));
            }
            start = i + 1;
        }
        i = i + 1;
    }
    let ghost had = texts(out@);
    let last = string_of(slice_subrange(&s, start, s.len()));
    out.push(last);
    proof {
        assert(texts(out@) =~= had + seq![last@]);
    }
    out
}

/// The bare address of an entry: what its last angle brackets hold, else all of it.
pub open spec fn mail_of(entry: Seq<char>) -> Seq<char> {
    let n = entry.len() as int;
    let at = tail_start(entry, n, Class::Not('<'));
    let close = skip(entry, at, n, Class::Not('>'));
    if at > 0 && close < n {
        trim(entry.subrange(at, close))
    } else {
        trim(entry)
    }
}

/// One recipient, as something to click on.
pub open spec fn recipient_span(entry: Seq<char>) -> Seq<char> {
    "<span class=\"vireo-mail\" data-mail=\""@
    + markup(mail_of(entry))
    + "\">"@
    + content(entry)
    + "</span>"@
}

/// The entries of an address list as recipients, with commas between them, without
/// the empty ones.
pub open spec fn recipient_spans(entries: Seq<Seq<char>>) -> Seq<char>
    decreases entries.len(),
{
    if entries.len() == 0 {
        seq![]
    } else {
        let rest = recipient_spans(entries.drop_last());
        let entry = trim(entries.last());
        if entry.len() == 0 {
            rest
        } else if rest.len() == 0 {
            recipient_span(entry)
        } else {
            rest + ", "@ + recipient_span(entry)
        }
    }
}

/// One line of recipients, nothing where the header is empty.
pub open spec fn recipients_line(label: Seq<char>, list: Seq<char>) -> Seq<char> {
    let entries = trim(list);
    if entries.len() == 0 {
        seq![]
    } else {
        "<div><b>"@ + label + ":</b> "@ + recipient_spans(address_entries(entries, 0, 0, false))
            + "</div>"@
    }
}

/// The recipients of a message, folded up unless they are always shown; nothing where
/// it names none.
pub open spec fn recipients_block(m: &Message, always_shown: bool) -> Seq<char> {
    let lines = recipients_line("To"@, m.to@) + recipients_line("Cc"@, m.cc@);
    if lines.len() == 0 {
        seq![]
    } else {
        "<div class=\"vireo-rcpt\""@ + (if always_shown {
            ""@
        } else {
            " hidden"@
        }) + ">"@ + lines + "</div>"@
    }
}

fn recipient_html(entry: &[char]) -> (out: String)
    ensures
        out@ == recipient_span(entry@),
{
    let n = entry.len();
    let at = tail_of(entry, Class::Not('<'));
    let close = skip_over(entry, at, n, Class::Not('>'));
    let mail_text: String = if at > 0 && close < n {
        string_of(trimmed(slice_subrange(entry, at, close)))
    } else {
        string_of(trimmed(entry))
    };
    let mail = mail_text.as_str();
    let entry_text = string_of(entry);
    let mut out = copy_of("<span class=\"vireo-mail\" data-mail=\"");
    out.append(escape_markup(mail).as_str());
    out.append("\">");
    out.append(escape_text(entry_text.as_str()).as_str());
    out.append("</span>");
    out
}

fn recipients_line_html(label: &str, list: &str) -> (out: String)
    ensures
        out@ == recipients_line(label@, list@),
{
    let trimmed_list = trimmed_string(list);
    if trimmed_list.as_str().is_empty() {
        return String::new();
    }
    let entries = split_addr_list(trimmed_list.as_str());
    let mut parts = String::new();
    let mut i: usize = 0;
    while i < entries.len()
        invariant
            i <= entries.len(),
            parts@ == recipient_spans(texts(entries@).take(i as int)),
        decreases entries.len() - i,
    {
        proof {
            let next = texts(entries@).take(i as int + 1);
            assert(next.drop_last() =~= texts(entries@).take(i as int));
            assert(next.last() == entries@[i as int]@);
        }
        let chars = chars_of(entries[i].as_str());
        let entry = trimmed(&chars);
        if entry.len() > 0 {
            let one = recipient_html(entry);
            if parts.as_str().is_empty() {
                parts = one;
            } else {
                parts.append(", ");
                parts.append(one.as_str());
            }
        }
        i = i + 1;
    }
    proof {
        assert(texts(entries@).take(entries@.len() as int) =~= texts(entries@));
    }
    let mut out = copy_of("<div><b>");
    out.append(label);
    out.append(":</b> ");
    out.append(parts.as_str());
    out.append("</div>");
    out
}

/// The collapsible block of recipients in a card's header. It starts hidden unless
/// they are always shown, and is empty when the message names none.
pub fn recipients_html(m: &Message, always_shown: bool) -> (out: String)
    ensures
        out@ == recipients_block(m, always_shown),
{
    let mut lines = recipients_line_html("To", m.to.as_str());
    lines.append(recipients_line_html("Cc", m.cc.as_str()).as_str());
    if lines.as_str().is_empty() {
        return String::new();
    }
    let mut out = copy_of("<div class=\"vireo-rcpt\"");
    if always_shown {
        out.append("");
    } else {
        out.append(" hidden");
    }
    out.append(">");
    out.append(lines.as_str());
    out.append("</div>");
    out
}

/// The button that unfolds the recipients: not without any, and not for a single one
/// that is shown anyway.
pub open spec fn recipients_toggle(m: &Message, page: &Page, label: Seq<char>) -> Seq<char> {
    let always = page.always_show_recipients;
    let open = if always {
        " open"@
    } else {
        ""@
    };
    let title = if always {
        page.words.hide_recipients@
    } else {
        page.words.show_recipients@
    };
    if recipients(m) == 0 || (recipients(m) == 1 && always) {
        seq![]
    } else {
        "<button type=\"button\" class=\"vireo-rcpt-toggle"@
    + open
    + "\" title=\""@
    + title
    + "\">"@
    + label
    + "</button>"@
    }
}

fn recipients_button(m: &Message, page: &Page, label: &str) -> (out: String)
    ensures
        out@ == recipients_toggle(m, page, label@),
{
    let always = page.always_show_recipients;
    let count = recipient_count(m);
    if count == 0 || (count == 1 && always) {
        return String::new();
    }
    let open: &str = if always {
        " open"
    } else {
        ""
    };
    let title: &str = if always {
        page.words.hide_recipients.as_str()
    } else {
        page.words.show_recipients.as_str()
    };
    let mut out = copy_of("<button type=\"button\" class=\"vireo-rcpt-toggle");
    out.append(open);
    out.append("\" title=\"");
    out.append(title);
    out.append("\">");
    out.append(label);
    out.append("</button>");
    out
}

// ----- A card -----

/// Where a message was read from, when that is not the folder on screen.
pub open spec fn folder_html(label: Option<Seq<char>>) -> Seq<char> {
    match label {
        Some(l) => "<span class=\"vireo-folder\">"@ + content(l) + "</span>"@,
        None => seq![],
    }
}

/// What a card's frame is laid over with: nothing on a card that shows the sender's
/// own formatting.
#[verifier::opaque]
pub open spec fn card_body(
    m: &Message,
    page: &Page,
    facts: &CardFacts,
    height: Option<u32>,
    own: bool,
) -> Seq<char> {
    if trim(m.body@).len() == 0 {
        "<div class=\"vireo-loading\">Loading…</div>"@
    } else {
        let none = ReaderStyle { font: None, colors: false };
        framed(
            frame_document(
                m.body@,
                page.restrict,
                page.dark,
                if own {
                    &none
                } else {
                    page.style
                },
                page.accent@,
                opt_texts(facts.colors@),
            ),
            key_of(m),
            height,
        )
    }
}

/// One message's card: its header and its body.
#[verifier::opaque]
pub open spec fn card_html(
    m: &Message,
    page: &Page,
    facts: &CardFacts,
    label: Option<Seq<char>>,
    marked: bool,
    own: bool,
    body: Seq<char>,
) -> Seq<char> {
    "<section class=\"vireo-msg"@
    + (if marked {
        " selected"@
    } else {
        ""@
    })
    + (if m.unread {
        " unread"@
    } else {
        ""@
    })
    + "\" data-key=\""@
    + decimal(m.account_id as nat)
    + ":"@
    + decimal(m.id as nat)
    + "\"><header class=\"vireo-msg-hdr\" data-key=\""@
    + decimal(m.account_id as nat)
    + ":"@
    + decimal(m.id as nat)
    + "\" title=\""@
    + page.words.open_hint@
    + "\"><div class=\"vireo-hdr-line\">"@
    + avatar_html(m, page.dark, facts.avatar)
    + unread_dot(m)
    + "<span class=\"vireo-from\">"@
    + content(m.from_name@)
    + "</span>"@
    + seals_html(key_of(m), &page.icons)
    + address_html(m)
    + "<span class=\"vireo-tags\" data-key=\""@
    + decimal(m.account_id as nat)
    + ":"@
    + decimal(m.id as nat)
    + "\">"@
    + chips_html(page.tags@, texts(m.keywords@), page.tags@.len())
    + "</span><span class=\"vireo-hdr-meta\">"@
    + folder_html(label)
    + recipients_toggle(m, page, facts.recipients_label@)
    + "<span class=\"vireo-date\">"@
    + content(facts.date@)
    + "</span></span>"@
    + palette_toggle_html(key_of(m), page)
    + palette_html(m, page, own)
    + "</div>"@
    + recipients_block(m, page.always_show_recipients)
    + "</header>"@
    + body
    + "</section>"@
}

fn card_section(
    m: &Message,
    page: &Page,
    facts: &CardFacts,
    folder_label: Option<&String>,
    marked: bool,
    own: bool,
    body: &str,
) -> (out: String)
    ensures
        out@ == card_html(
            m,
            page,
            facts,
            match folder_label {
                Some(l) => Some(l@),
                None => None,
            },
            marked,
            own,
            body@,
        ),
{
    proof {
        reveal(card_html);
    }
    let key = (m.account_id, m.id);
    let account = decimal_string(m.account_id as u64);
    let id = decimal_string(m.id as u64);
    let sel: &str = if marked {
        " selected"
    } else {
        ""
    };
    let unread: &str = if m.unread {
        " unread"
    } else {
        ""
    };
    let ava = avatar(m, page.dark, &facts.avatar);
    let dot = dot_html(m);
    let seals = seals(key, page.icons);
    let addr = address(m);
    let chips = tag_chips_html(page.tags, &m.keywords);
    let folder: String = match folder_label {
        Some(l) => {
            let mut t = copy_of("<span class=\"vireo-folder\">");
            t.append(escape_text(l.as_str()).as_str());
            t.append("</span>");
            t
        },
        None => String::new(),
    };
    let toggle = recipients_button(m, page, facts.recipients_label.as_str());
    let palette_toggle = palette_toggle_button(key, page);
    let palette = palette(m, page, own);
    let rcpt = recipients_html(m, page.always_show_recipients);
    let mut out = copy_of("<section class=\"vireo-msg");
    out.append(sel);
    out.append(unread);
    out.append("\" data-key=\"");
    out.append(account.as_str());
    out.append(":");
    out.append(id.as_str());
    out.append("\"><header class=\"vireo-msg-hdr\" data-key=\"");
    out.append(account.as_str());
    out.append(":");
    out.append(id.as_str());
    out.append("\" title=\"");
    out.append(page.words.open_hint.as_str());
    out.append("\"><div class=\"vireo-hdr-line\">");
    out.append(ava.as_str());
    out.append(dot.as_str());
    out.append("<span class=\"vireo-from\">");
    out.append(escape_text(m.from_name.as_str()).as_str());
    out.append("</span>");
    out.append(seals.as_str());
    out.append(addr.as_str());
    out.append("<span class=\"vireo-tags\" data-key=\"");
    out.append(account.as_str());
    out.append(":");
    out.append(id.as_str());
    out.append("\">");
    out.append(chips.as_str());
    out.append("</span><span class=\"vireo-hdr-meta\">");
    out.append(folder.as_str());
    out.append(toggle.as_str());
    out.append("<span class=\"vireo-date\">");
    out.append(escape_text(facts.date.as_str()).as_str());
    out.append("</span></span>");
    out.append(palette_toggle.as_str());
    out.append(palette.as_str());
    out.append("</div>");
    out.append(rcpt.as_str());
    out.append("</header>");
    out.append(body);
    out.append("</section>");
    out
}

/// The folder that a message is labelled with.
pub open spec fn label_of(labels: Map<u64, String>, m: &Message) -> Option<Seq<char>> {
    if labels.contains_key(packed(key_of(m))) {
        Some(labels[packed(key_of(m))]@)
    } else {
        None
    }
}

/// The height that a message's frame had last time.
pub open spec fn height_of(heights: Map<u64, u32>, m: &Message) -> Option<u32> {
    if heights.contains_key(packed(key_of(m))) {
        Some(heights[packed(key_of(m))])
    } else {
        None
    }
}

/// The card of the message with that number. A lone message never wears the mark of a
/// selected card: it is the selection already.
pub open spec fn card_at(
    thread: Seq<Message>,
    facts: Seq<CardFacts>,
    labels: Map<u64, String>,
    heights: Map<u64, u32>,
    selected: Seq<(u32, u32)>,
    sender_style: Set<u64>,
    page: &Page,
    k: int,
) -> Seq<char> {
    let m = &thread[k];
    let own = sender_style.contains(packed(key_of(m)));
    card_html(
        m,
        page,
        &facts[k],
        label_of(labels, m),
        thread.len() > 1 && selected.contains(key_of(m)),
        own,
        card_body(m, page, &facts[k], height_of(heights, m), own),
    )
}

/// The cards of the first `n` messages.
pub open spec fn cards(
    thread: Seq<Message>,
    facts: Seq<CardFacts>,
    labels: Map<u64, String>,
    heights: Map<u64, u32>,
    selected: Seq<(u32, u32)>,
    sender_style: Set<u64>,
    page: &Page,
    n: nat,
) -> Seq<char>
    decreases n,
{
    if n == 0 {
        seq![]
    } else {
        cards(thread, facts, labels, heights, selected, sender_style, page, (n - 1) as nat)
            + card_at(thread, facts, labels, heights, selected, sender_style, page, n - 1)
    }
}

fn holds_key(keys: &Vec<(u32, u32)>, key: (u32, u32)) -> (r: bool)
    ensures
        r == keys@.contains(key),
{
    let mut i: usize = 0;
    while i < keys.len()
        invariant
            i <= keys.len(),
            forall|j: int| 0 <= j < i ==> keys@[j] != key,
        decreases keys.len() - i,
    {
        if keys[i].0 == key.0 && keys[i].1 == key.1 {
            proof {
                assert(keys@[i as int] == key);
            }
            return true;
        }
        i = i + 1;
    }
    false
}

fn card_frame(m: &Message, page: &Page, facts: &CardFacts, height: Option<u32>, own: bool) -> (out:
    String)
    ensures
        out@ == card_body(m, page, facts, height, own),
{
    proof {
        reveal(card_body);
    }
    if is_blank_text(m.body.as_str()) {
        return copy_of("<div class=\"vireo-loading\">Loading…</div>");
    }
    let none = ReaderStyle::none();
    message_frame(
        m.body.as_str(),
        page.restrict,
        page.dark,
        (m.account_id, m.id),
        height,
        if own {
            &none
        } else {
            page.style
        },
        page.accent.as_str(),
        &facts.colors,
    )
}

// ----- The whole document -----

/// Whether a message body paints a background of its own. The colon and the equals
/// sign keep prose that merely mentions a background from counting.
pub open spec fn paints_background(body: Seq<char>) -> bool {
    ||| holds_ci(body, "background:"@)
    ||| holds_ci(body, "background-color:"@)
    ||| holds_ci(body, "background-image:"@)
    ||| holds_ci(body, "bgcolor="@)
}

/// Whether a message body paints a background of its own.
pub fn paints_own_background(body: &str) -> (r: bool)
    ensures
        r == paints_background(body@),
{
    let s = chars_of(body);
    let n = s.len();
    find_from_ci(&s, &chars_of("background:"), 0, n).is_some() || find_from_ci(
        &s,
        &chars_of("background-color:"),
        0,
        n,
    ).is_some() || find_from_ci(&s, &chars_of("background-image:"), 0, n).is_some()
        || find_from_ci(&s, &chars_of("bgcolor="), 0, n).is_some()
}

/// Whether the messages are carded: a conversation always is, a lone message when the
/// reader asks for it.
pub open spec fn carded(thread: Seq<Message>, single_message_card: bool) -> bool {
    thread.len() > 1 || (thread.len() > 0 && single_message_card)
}

/// Whether it is a lone message, not carded, that paints no background of its own: its
/// whole pane takes the window's ground.
pub open spec fn lone_and_plain(thread: Seq<Message>, single_message_card: bool) -> bool {
    &&& !carded(thread, single_message_card)
    &&& thread.len() == 1
    &&& !paints_background(thread[0].body@)
}

/// The ground behind everything: the deeper one behind cards, the window's own behind
/// a plain lone message, and the message's otherwise.
pub open spec fn page_ground(
    thread: Seq<Message>,
    single_message_card: bool,
    grounds: &Grounds,
) -> Seq<char> {
    if carded(thread, single_message_card) {
        grounds.page@
    } else if lone_and_plain(thread, single_message_card) {
        grounds.chrome@
    } else {
        grounds.ground@
    }
}

/// The ground behind everything, to paint what stands in for the document too.
pub fn reader_ground<'a>(thread: &Vec<Message>, single_message_card: bool, grounds: &'a Grounds) -> (r:
    &'a str)
    ensures
        r@ == page_ground(thread@, single_message_card, grounds),
{
    if thread.len() > 1 || (thread.len() > 0 && single_message_card) {
        grounds.page.as_str()
    } else if thread.len() == 1 && !paints_own_background(thread[0].body.as_str()) {
        grounds.chrome.as_str()
    } else {
        grounds.ground.as_str()
    }
}

/// The policy of the document: the only script that may run is the one with this
/// document's password, and none may without one.
pub open spec fn script_policy_meta(nonce: Option<Seq<char>>) -> Seq<char> {
    match nonce {
        Some(n) => "<meta http-equiv=\"Content-Security-Policy\" content=\"script-src 'nonce-"@
    + n
    + "'; object-src 'none'; base-uri 'none'\">"@,
        None => "<meta http-equiv=\"Content-Security-Policy\" content=\"script-src 'none'; object-src 'none'; base-uri 'none'\">"@,
    }
}

fn script_policy(nonce: &Option<String>) -> (out: String)
    ensures
        out@ == script_policy_meta(opt_text(*nonce)),
{
    match nonce {
        Some(n) => {
            let mut out = copy_of("<meta http-equiv=\"Content-Security-Policy\" content=\"script-src 'nonce-");
            out.append(n.as_str());
            out.append("'; object-src 'none'; base-uri 'none'\">");
            out
        },
        None => copy_of("<meta http-equiv=\"Content-Security-Policy\" content=\"script-src 'none'; object-src 'none'; base-uri 'none'\">"),
    }
}

/// The document's script, with its password; none without one.
pub open spec fn script_html(nonce: Option<Seq<char>>) -> Seq<char> {
    match nonce {
        Some(n) => "<script nonce=\""@ + n + "\">"@ + script_text(SIZE_SCRIPT@) + "</script>"@,
        None => seq![],
    }
}

fn script_tag(nonce: &Option<String>) -> (out: String)
    ensures
        out@ == script_html(opt_text(*nonce)),
{
    match nonce {
        Some(n) => {
            let mut out = copy_of("<script nonce=\"");
            out.append(n.as_str());
            out.append("\">");
            out.append(escape_script(SIZE_SCRIPT).as_str());
            out.append("</script>");
            out
        },
        None => String::new(),
    }
}

/// The rules of a plain lone message.
pub open spec fn plain_rules(plain: bool, grounds: &Grounds) -> Seq<char> {
    if plain {
        "body:not(.vireo-conv) .vireo-msg,body:not(.vireo-conv) iframe.vireo-frame{background:"@
    + grounds.chrome@
    + ";}"@
    } else {
        seq![]
    }
}

fn plain_css_text(plain: bool, grounds: &Grounds) -> (out: String)
    ensures
        out@ == plain_rules(plain, grounds),
{
    if !plain {
        return String::new();
    }
    let mut out = copy_of("body:not(.vireo-conv) .vireo-msg,body:not(.vireo-conv) iframe.vireo-frame{background:");
    out.append(grounds.chrome.as_str());
    out.append(";}");
    out
}

pub open spec fn scheme_name(dark: bool) -> Seq<char> {
    if dark {
        "dark"@
    } else {
        "light"@
    }
}

/// The document's stylesheet.
#[verifier::opaque]
pub open spec fn sheet(
    dark: bool,
    accent: Seq<char>,
    grounds: &Grounds,
    page: Seq<char>,
    plain: bool,
) -> Seq<char> {
    let toggle_color = if dark {
        "#ffffff"@
    } else {
        "inherit"@
    };
    ":root{color-scheme:"@
    + scheme_name(dark)
    + ";}body{margin:0;padding:0;background:"@
    + page
    + PAGE_CSS@
    + grounds.ground@
    + FRAME_CSS@
    + grounds.ground@
    + CARD_CSS@
    + accent
    + HEADER_CSS@
    + grounds.ground@
    + HEADER_LINE_CSS@
    + grounds.chrome@
    + ";}"@
    + plain_rules(plain, grounds)
    + SENDER_CSS@
    + grounds.ground@
    + MENU_CSS@
    + grounds.ground@
    + REVEAL_CSS@
    + grounds.chrome@
    + PALETTE_CSS@
    + grounds.ground@
    + OPEN_PALETTE_CSS@
    + grounds.chrome@
    + TOGGLE_CSS@
    + toggle_color
    + RECIPIENTS_CSS@
}

fn sheet_css(dark: bool, accent: &str, grounds: &Grounds, page: &str, plain: bool) -> (out: String)
    ensures
        out@ == sheet(dark, accent@, grounds, page@, plain),
{
    proof {
        reveal(sheet);
    }
    let toggle_color: &str = if dark {
        "#ffffff"
    } else {
        "inherit"
    };
    let plain_css = plain_css_text(plain, grounds);
    let mut out = copy_of(":root{color-scheme:");
    out.append(scheme_text(dark));
    out.append(";}body{margin:0;padding:0;background:");
    out.append(page);
    out.append(PAGE_CSS);
    out.append(grounds.ground.as_str());
    out.append(FRAME_CSS);
    out.append(grounds.ground.as_str());
    out.append(CARD_CSS);
    out.append(accent);
    out.append(HEADER_CSS);
    out.append(grounds.ground.as_str());
    out.append(HEADER_LINE_CSS);
    out.append(grounds.chrome.as_str());
    out.append(";}");
    out.append(plain_css.as_str());
    out.append(SENDER_CSS);
    out.append(grounds.ground.as_str());
    out.append(MENU_CSS);
    out.append(grounds.ground.as_str());
    out.append(REVEAL_CSS);
    out.append(grounds.chrome.as_str());
    out.append(PALETTE_CSS);
    out.append(grounds.ground.as_str());
    out.append(OPEN_PALETTE_CSS);
    out.append(grounds.chrome.as_str());
    out.append(TOGGLE_CSS);
    out.append(toggle_color);
    out.append(RECIPIENTS_CSS);
    out
}

fn scheme_text(dark: bool) -> (r: &'static str)
    ensures
        r@ == scheme_name(dark),
{
    if dark {
        "dark"
    } else {
        "light"
    }
}

/// What stands in front of the document's script: its policy and its stylesheet, in
/// which nothing can end it.
pub open spec fn opening(nonce: Option<Seq<char>>, dark: bool, css: Seq<char>) -> Seq<char> {
    "<!doctype html><html><head><meta charset=\"utf-8\">"@
    + script_policy_meta(nonce)
    + "<meta name=\"color-scheme\" content=\""@
    + scheme_name(dark)
    + "\"><style>"@
    + sheet_text(css)
    + "</style>"@
}

/// What stands behind the document's script: its cards.
pub open spec fn closing(are_carded: bool, sections: Seq<char>) -> Seq<char> {
    "</head><body"@
    + (if are_carded {
        " class=\"vireo-conv\""@
    } else {
        ""@
    })
    + ">"@
    + sections
    + "</body></html>"@
}

/// The document around its cards.
pub open spec fn document(
    sections: Seq<char>,
    nonce_text: Option<Seq<char>>,
    dark: bool,
    accent: Seq<char>,
    grounds: &Grounds,
    page: Seq<char>,
    are_carded: bool,
    plain: bool,
) -> Seq<char> {
    opening(nonce_text, dark, sheet(dark, accent, grounds, page, plain)) + script_html(nonce_text)
        + closing(are_carded, sections)
}

fn assemble(
    sections: &str,
    nonce: &Option<String>,
    dark: bool,
    accent: &str,
    grounds: &Grounds,
    page: &str,
    are_carded: bool,
    plain: bool,
) -> (out: String)
    ensures
        out@ == document(
            sections@,
            opt_text(*nonce),
            dark,
            accent@,
            grounds,
            page@,
            are_carded,
            plain,
        ),
{
    let css = sheet_css(dark, accent, grounds, page, plain);
    let mut out = copy_of("<!doctype html><html><head><meta charset=\"utf-8\">");
    out.append(script_policy(nonce).as_str());
    out.append("<meta name=\"color-scheme\" content=\"");
    out.append(scheme_text(dark));
    out.append("\"><style>");
    out.append(escape_sheet(css.as_str()).as_str());
    out.append("</style>");
    out.append(script_tag(nonce).as_str());
    let body_class: &str = if are_carded {
        " class=\"vireo-conv\""
    } else {
        ""
    };
    let mut end = copy_of("</head><body");
    end.append(body_class);
    end.append(">");
    end.append(sections);
    end.append("</body></html>");
    out.append(end.as_str());
    out
}

/// The document of a thread.
pub open spec fn thread_document(
    thread: Seq<Message>,
    facts: Seq<CardFacts>,
    labels: Map<u64, String>,
    heights: Map<u64, u32>,
    selected: Seq<(u32, u32)>,
    sender_style: Set<u64>,
    page: &Page,
) -> Seq<char> {
    document(
        cards(thread, facts, labels, heights, selected, sender_style, page, thread.len()),
        opt_text(*page.nonce),
        page.dark,
        page.accent@,
        page.grounds,
        page_ground(thread, page.single_message_card, page.grounds),
        carded(thread, page.single_message_card),
        lone_and_plain(thread, page.single_message_card),
    )
}

/// The document of what is on screen: one sandboxed frame for each message, so that
/// each one's CSS is isolated and its scripts cannot run, with a header for each, and
/// a small script that sizes the frames to their content.
pub fn conversation_document(
    thread: &Vec<Message>,
    facts: &Vec<CardFacts>,
    folder_labels: &HashMap<u64, String>,
    heights: &HashMap<u64, u32>,
    selected: &Vec<(u32, u32)>,
    sender_style: &HashSet<u64>,
    page: &Page,
) -> (out: String)
    requires
        facts@.len() == thread@.len(),
    ensures
        out@ == thread_document(
            thread@,
            facts@,
            folder_labels@,
            heights@,
            selected@,
            sender_style@,
            page,
        ),
{
    let mut sections = String::new();
    let mut n: usize = 0;
    while n < thread.len()
        invariant
            n <= thread.len(),
            facts@.len() == thread@.len(),
            sections@ == cards(
                thread@,
                facts@,
                folder_labels@,
                heights@,
                selected@,
                sender_style@,
                page,
                n as nat,
            ),
        decreases thread.len() - n,
    {
        let m = &thread[n];
        let key = message_key(m.account_id, m.id);
        let own = sender_style.contains(&key);
        let height: Option<u32> = match heights.get(&key) {
            Some(h) => Some(*h),
            None => None,
        };
        let body = card_frame(m, page, &facts[n], height, own);
        let marked = thread.len() > 1 && holds_key(selected, (m.account_id, m.id));
        let label = folder_labels.get(&key);
        let card = card_section(m, page, &facts[n], label, marked, own, body.as_str());
        sections.append(card.as_str());
        n = n + 1;
    }
    let are_carded = thread.len() > 1 || (thread.len() > 0 && page.single_message_card);
    let plain = !are_carded && thread.len() == 1 && !paints_own_background(
        thread[0].body.as_str(),
    );
    let ground = reader_ground(thread, page.single_message_card, page.grounds);
    assemble(
        sections.as_str(),
        page.nonce,
        page.dark,
        page.accent.as_str(),
        page.grounds,
        ground,
        are_carded,
        plain,
    )
}

} // verus!
