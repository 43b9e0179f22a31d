//! What runs in the reader's document: its own script and nothing else.

use vstd::prelude::*;

use crate::colors::opt_texts;
use crate::document::{
    action_button, address_entries, address_html, avatar_html, avatar_hue, avatar_lightness,
    card_at, card_body, card_html, cards, carded, chip_html, chips_html, closing, folder_html,
    height_of, initial, label_of, lone_and_plain, mail_of, opening, page_ground, palette_html,
    palette_toggle_html, recipient_span, recipient_spans, recipients, recipients_block,
    recipients_line, recipients_toggle, scheme_name, script_html, script_policy_meta, seals_html,
    sheet, star_button, style_button, thread_document, toggle_read_button, unread_dot, CardFacts,
    Icons, Page, TagChip, Words,
};
use crate::escape::{
    closes_at, content, content_opens_no_tag, markup, markup_opens_and_closes_nothing, quoted,
    quoted_closes_no_value, script_ends_nowhere, script_text, sheet_ends_nowhere, sheet_text,
};
use crate::frame::{frame_document, framed, height_style};
use crate::models::{key_of, packed, Message};
use crate::password::{hex_text, password_is_plain, DRAWN};
use crate::reader_style::ReaderStyle;
use crate::script::SIZE_SCRIPT;
use crate::text::{decimal, lemma_decimal_digits, lower, opt_text, stands_at, texts, trim};

verus! {

// ----- Reading a document -----

/// Where a reading of a document stands: in its text, behind the `<` of a tag or behind
/// an `s` that its name begins with, further on in the tag, in a quoted value in it, or
/// in a tag that may open a script.
pub enum Reading {
    Text,
    Open,
    OpenS,
    Tag,
    Value,
    Script,
}

/// Where the reading stands behind one more character.
pub open spec fn step(r: Reading, c: char) -> Reading {
    match r {
        Reading::Text => if c == '<' {
            Reading::Open
        } else {
            Reading::Text
        },
        Reading::Open => if lower(c) == 's' {
            Reading::OpenS
        } else if c == '>' {
            Reading::Text
        } else if c == '"' || c == '<' {
            Reading::Script
        } else {
            Reading::Tag
        },
        Reading::OpenS => if lower(c) == 'c' || c == '"' {
            Reading::Script
        } else if c == '>' {
            Reading::Text
        } else {
            Reading::Tag
        },
        Reading::Tag => if c == '>' {
            Reading::Text
        } else if c == '"' {
            Reading::Value
        } else {
            Reading::Tag
        },
        Reading::Value => if c == '"' {
            Reading::Tag
        } else {
            Reading::Value
        },
        Reading::Script => Reading::Script,
    }
}

/// Where the reading stands behind the text from `i` on. Once in a tag that may open a
/// script, it stays there.
#[verifier::opaque]
pub open spec fn read(s: Seq<char>, i: int, r: Reading) -> Reading
    decreases s.len() - i,
{
    if i >= s.len() {
        r
    } else {
        read(s, i + 1, step(r, s[i]))
    }
}

/// Whether a text, read from within a document's text, opens no script and ends in the
/// document's text again.
pub open spec fn calm(s: Seq<char>) -> bool {
    read(s, 0, Reading::Text) == Reading::Text
}

/// Whether a text ends no quoted value.
pub open spec fn quoteless(s: Seq<char>) -> bool {
    forall|i: int| 0 <= i < s.len() ==> s[i] != '"'
}

proof fn lemma_read_tail(a: Seq<char>, b: Seq<char>, j: int, r: Reading)
    requires
        0 <= j <= b.len(),
    ensures
        read(a + b, a.len() + j, r) == read(b, j, r),
    decreases b.len() - j,
{
    reveal_with_fuel(read, 2);
    if j < b.len() {
        assert((a + b)[a.len() + j] == b[j]);
        lemma_read_tail(a, b, j + 1, step(r, b[j]));
    }
}

proof fn lemma_read_from(a: Seq<char>, b: Seq<char>, i: int, r: Reading)
    requires
        0 <= i <= a.len(),
    ensures
        read(a + b, i, r) == read(b, 0, read(a, i, r)),
    decreases a.len() - i,
{
    reveal_with_fuel(read, 2);
    if i < a.len() {
        assert((a + b)[i] == a[i]);
        lemma_read_from(a, b, i + 1, step(r, a[i]));
    } else {
        lemma_read_tail(a, b, 0, r);
    }
}

/// A text is read part by part.
proof fn lemma_read_parts(a: Seq<char>, b: Seq<char>, r: Reading)
    ensures
        read(a + b, 0, r) == read(b, 0, read(a, 0, r)),
{
    lemma_read_from(a, b, 0, r);
}

proof fn lemma_stays(s: Seq<char>, i: int, r: Reading)
    requires
        0 <= i,
        forall|k: int| 0 <= k < s.len() ==> step(r, #[trigger] s[k]) == r,
    ensures
        read(s, i, r) == r,
    decreases s.len() - i,
{
    reveal_with_fuel(read, 2);
    if i < s.len() {
        lemma_stays(s, i + 1, r);
    }
}

proof fn lemma_nothing(r: Reading)
    ensures
        read(seq![], 0, r) == r,
{
    lemma_stays(seq![], 0, r);
}

proof fn lemma_value(s: Seq<char>)
    requires
        quoteless(s),
    ensures
        read(s, 0, Reading::Value) == Reading::Value,
{
    lemma_stays(s, 0, Reading::Value);
}

proof fn lemma_plain(s: Seq<char>)
    requires
        forall|i: int| 0 <= i < s.len() ==> s[i] != '<',
    ensures
        calm(s),
{
    lemma_stays(s, 0, Reading::Text);
}

proof fn lemma_number(n: nat)
    ensures
        read(decimal(n), 0, Reading::Value) == Reading::Value,
{
    assert forall|k: int| 0 <= k < decimal(n).len() implies step(
        Reading::Value,
        #[trigger] decimal(n)[k],
    ) == Reading::Value by {
        lemma_decimal_digits(n, k);
    }
    lemma_stays(decimal(n), 0, Reading::Value);
}

proof fn lemma_content(s: Seq<char>)
    ensures
        calm(content(s)),
{
    content_opens_no_tag(s);
    lemma_plain(content(s));
}

proof fn lemma_markup(s: Seq<char>)
    ensures
        calm(markup(s)),
        read(markup(s), 0, Reading::Value) == Reading::Value,
{
    markup_opens_and_closes_nothing(s);
    lemma_plain(markup(s));
    lemma_value(markup(s));
}

// ----- What the application brings -----

/// Whether none of the words ends the value that it stands in.
pub open spec fn sound_words(w: &Words) -> bool {
    &&& quoteless(w.open_hint@)
    &&& quoteless(w.actions@)
    &&& quoteless(w.reply@)
    &&& quoteless(w.reply_all@)
    &&& quoteless(w.forward@)
    &&& quoteless(w.toggle_read@)
    &&& quoteless(w.flag@)
    &&& quoteless(w.archive@)
    &&& quoteless(w.delete@)
    &&& quoteless(w.spam@)
    &&& quoteless(w.contact@)
    &&& quoteless(w.source@)
    &&& quoteless(w.own_style@)
    &&& quoteless(w.sender_style@)
    &&& quoteless(w.hide_recipients@)
    &&& quoteless(w.show_recipients@)
}

/// Whether none of the icons opens a script or leaves a tag open.
pub open spec fn sound_icons(i: &Icons) -> bool {
    &&& calm(i.more@)
    &&& calm(i.reply@)
    &&& calm(i.reply_all@)
    &&& calm(i.forward@)
    &&& calm(i.read@)
    &&& calm(i.unread@)
    &&& calm(i.star@)
    &&& calm(i.archive@)
    &&& calm(i.trash@)
    &&& calm(i.junk@)
    &&& calm(i.contact@)
    &&& calm(i.source@)
    &&& calm(i.rich@)
    &&& calm(i.verified@)
    &&& calm(i.lock@)
    &&& calm(i.shield@)
}

/// Whether the colour of a tag's text ends no value.
pub open spec fn sound_chip(t: TagChip) -> bool {
    quoteless(t.text_color@)
}

/// Whether a drawn avatar ends no value and the words of the recipients' button open no
/// script.
pub open spec fn sound_facts(f: CardFacts) -> bool {
    &&& f.avatar matches Some(uri) ==> quoteless(uri@)
    &&& calm(f.recipients_label@)
}

/// Whether what the application brings to a page is sound.
pub open spec fn sound_page(p: &Page) -> bool {
    &&& sound_words(p.words)
    &&& sound_icons(p.icons)
    &&& forall|k: int| 0 <= k < p.tags@.len() ==> sound_chip(#[trigger] p.tags@[k])
    &&& opt_text(*p.nonce) matches Some(n) ==> quoteless(n)
}

// ----- The words of the markup -----

proof fn read_action_button()
    ensures
        read("<button type=\"button\" class=\"vireo-act\" data-act=\""@, 0, Reading::Text) == Reading::Value,
{
    reveal_strlit("<button type=\"button\" class=\"vireo-act\" data-act=\"");
    reveal_with_fuel(read, 42);
    assert(read("<button type=\"button\" class=\"vireo-act\" data-act=\""@, 40, Reading::Tag) == Reading::Value);
}

proof fn read_data_key()
    ensures
        read("\" data-key=\""@, 0, Reading::Value) == Reading::Value,
{
    reveal_strlit("\" data-key=\"");
    reveal_with_fuel(read, 14);
}

proof fn read_colon()
    ensures
        read(":"@, 0, Reading::Value) == Reading::Value,
{
    reveal_strlit(":");
    reveal_with_fuel(read, 3);
}

proof fn read_title()
    ensures
        read("\" title=\""@, 0, Reading::Value) == Reading::Value,
{
    reveal_strlit("\" title=\"");
    reveal_with_fuel(read, 11);
}

proof fn read_value_and_tag_end()
    ensures
        read("\">"@, 0, Reading::Value) == Reading::Text,
{
    reveal_strlit("\">");
    reveal_with_fuel(read, 4);
}

proof fn read_button()
    ensures
        read("</button>"@, 0, Reading::Text) == Reading::Text,
{
    reveal_strlit("</button>");
    reveal_with_fuel(read, 11);
}

proof fn read_toggle_read_button()
    ensures
        read("<button type=\"button\" class=\"vireo-act\" data-act=\"toggleread\" data-key=\""@, 0, Reading::Text) == Reading::Value,
{
    reveal_strlit("<button type=\"button\" class=\"vireo-act\" data-act=\"toggleread\" data-key=\"");
    reveal_with_fuel(read, 42);
    assert(read("<button type=\"button\" class=\"vireo-act\" data-act=\"toggleread\" data-key=\""@, 40, Reading::Tag) == Reading::Value);
}

proof fn read_span_class_tr_when()
    ensures
        read("\"><span class=\"tr-when-unread\">"@, 0, Reading::Value) == Reading::Text,
{
    reveal_strlit("\"><span class=\"tr-when-unread\">");
    reveal_with_fuel(read, 33);
}

proof fn read_span_span_class_tr()
    ensures
        read("</span><span class=\"tr-when-read\">"@, 0, Reading::Text) == Reading::Text,
{
    reveal_strlit("</span><span class=\"tr-when-read\">");
    reveal_with_fuel(read, 36);
}

proof fn read_span_button()
    ensures
        read("</span></button>"@, 0, Reading::Text) == Reading::Text,
{
    reveal_strlit("</span></button>");
    reveal_with_fuel(read, 18);
}

proof fn read_pressed_button()
    ensures
        read("<button type=\"button\" class=\"vireo-act"@, 0, Reading::Text) == Reading::Value,
{
    reveal_strlit("<button type=\"button\" class=\"vireo-act");
    reveal_with_fuel(read, 40);
}

proof fn read_data_act_star_data()
    ensures
        read("\" data-act=\"star\" data-key=\""@, 0, Reading::Value) == Reading::Value,
{
    reveal_strlit("\" data-act=\"star\" data-key=\"");
    reveal_with_fuel(read, 30);
}

proof fn read_data_act_senderfmt_data()
    ensures
        read("\" data-act=\"senderfmt\" data-key=\""@, 0, Reading::Value) == Reading::Value,
{
    reveal_strlit("\" data-act=\"senderfmt\" data-key=\"");
    reveal_with_fuel(read, 35);
}

proof fn read_palette_toggle()
    ensures
        read("<button type=\"button\" class=\"vireo-acts-toggle\" title=\""@, 0, Reading::Text) == Reading::Value,
{
    reveal_strlit("<button type=\"button\" class=\"vireo-acts-toggle\" title=\"");
    reveal_with_fuel(read, 42);
    assert(read("<button type=\"button\" class=\"vireo-acts-toggle\" title=\""@, 40, Reading::Value) == Reading::Value);
}

proof fn read_span_class_vireo_acts()
    ensures
        read("<span class=\"vireo-acts\">"@, 0, Reading::Text) == Reading::Text,
{
    reveal_strlit("<span class=\"vireo-acts\">");
    reveal_with_fuel(read, 27);
}

proof fn read_span()
    ensures
        read("</span>"@, 0, Reading::Text) == Reading::Text,
{
    reveal_strlit("</span>");
    reveal_with_fuel(read, 9);
}

proof fn read_verify_button()
    ensures
        read("<button type=\"button\" class=\"vireo-verify\" data-key=\""@, 0, Reading::Text) == Reading::Value,
{
    reveal_strlit("<button type=\"button\" class=\"vireo-verify\" data-key=\"");
    reveal_with_fuel(read, 42);
    assert(read("<button type=\"button\" class=\"vireo-verify\" data-key=\""@, 40, Reading::Value) == Reading::Value);
}

proof fn read_empty_title()
    ensures
        read("\" title=\"\">"@, 0, Reading::Value) == Reading::Text,
{
    reveal_strlit("\" title=\"\">");
    reveal_with_fuel(read, 13);
}

proof fn read_pgp_button()
    ensures
        read("</button><button type=\"button\" class=\"vireo-pgp\" data-key=\""@, 0, Reading::Text) == Reading::Value,
{
    reveal_strlit("</button><button type=\"button\" class=\"vireo-pgp\" data-key=\"");
    reveal_with_fuel(read, 42);
    assert(read("</button><button type=\"button\" class=\"vireo-pgp\" data-key=\""@, 40, Reading::Value) == Reading::Value);
}

proof fn read_img_class_vireo_ava()
    ensures
        read("<img class=\"vireo-ava\" src=\""@, 0, Reading::Text) == Reading::Value,
{
    reveal_strlit("<img class=\"vireo-ava\" src=\"");
    reveal_with_fuel(read, 30);
}

proof fn read_alt()
    ensures
        read("\" alt=\"\">"@, 0, Reading::Value) == Reading::Text,
{
    reveal_strlit("\" alt=\"\">");
    reveal_with_fuel(read, 11);
}

proof fn read_span_class_vireo_ava()
    ensures
        read("<span class=\"vireo-ava\" style=\"background:hsl("@, 0, Reading::Text) == Reading::Value,
{
    reveal_strlit("<span class=\"vireo-ava\" style=\"background:hsl(");
    reveal_with_fuel(read, 42);
    assert(read("<span class=\"vireo-ava\" style=\"background:hsl("@, 40, Reading::Value) == Reading::Value);
}

proof fn read_saturation()
    ensures
        read(",52%,"@, 0, Reading::Value) == Reading::Value,
{
    reveal_strlit(",52%,");
    reveal_with_fuel(read, 7);
}

proof fn read_lightness_end()
    ensures
        read("%)\">"@, 0, Reading::Value) == Reading::Text,
{
    reveal_strlit("%)\">");
    reveal_with_fuel(read, 6);
}

proof fn read_span_class_vireo_addr()
    ensures
        read("<span class=\"vireo-addr vireo-mail\" data-mail=\""@, 0, Reading::Text) == Reading::Value,
{
    reveal_strlit("<span class=\"vireo-addr vireo-mail\" data-mail=\"");
    reveal_with_fuel(read, 42);
    assert(read("<span class=\"vireo-addr vireo-mail\" data-mail=\""@, 40, Reading::Tag) == Reading::Value);
}

proof fn read_data_addr_lt()
    ensures
        read("\" data-addr=\"&lt;"@, 0, Reading::Value) == Reading::Value,
{
    reveal_strlit("\" data-addr=\"&lt;");
    reveal_with_fuel(read, 19);
}

proof fn read_gt_lt()
    ensures
        read("&gt;\">&lt;"@, 0, Reading::Value) == Reading::Text,
{
    reveal_strlit("&gt;\">&lt;");
    reveal_with_fuel(read, 12);
}

proof fn read_gt_span()
    ensures
        read("&gt;</span>"@, 0, Reading::Text) == Reading::Text,
{
    reveal_strlit("&gt;</span>");
    reveal_with_fuel(read, 13);
}

proof fn read_span_class_vireo_dot()
    ensures
        read("<span class=\"vireo-dot\" data-key=\""@, 0, Reading::Text) == Reading::Value,
{
    reveal_strlit("<span class=\"vireo-dot\" data-key=\"");
    reveal_with_fuel(read, 36);
}

proof fn read_empty_span()
    ensures
        read("\"></span>"@, 0, Reading::Value) == Reading::Text,
{
    reveal_strlit("\"></span>");
    reveal_with_fuel(read, 11);
}

proof fn read_span_class_vireo_tag()
    ensures
        read("<span class=\"vireo-tag\" style=\"background:"@, 0, Reading::Text) == Reading::Value,
{
    reveal_strlit("<span class=\"vireo-tag\" style=\"background:");
    reveal_with_fuel(read, 42);
    assert(read("<span class=\"vireo-tag\" style=\"background:"@, 40, Reading::Value) == Reading::Value);
}

proof fn read_color()
    ensures
        read(";color:"@, 0, Reading::Value) == Reading::Value,
{
    reveal_strlit(";color:");
    reveal_with_fuel(read, 9);
}

proof fn read_span_class_vireo_mail()
    ensures
        read("<span class=\"vireo-mail\" data-mail=\""@, 0, Reading::Text) == Reading::Value,
{
    reveal_strlit("<span class=\"vireo-mail\" data-mail=\"");
    reveal_with_fuel(read, 38);
}

proof fn read_comma()
    ensures
        read(", "@, 0, Reading::Text) == Reading::Text,
{
    reveal_strlit(", ");
    reveal_with_fuel(read, 4);
}

proof fn read_div_b()
    ensures
        read("<div><b>"@, 0, Reading::Text) == Reading::Text,
{
    reveal_strlit("<div><b>");
    reveal_with_fuel(read, 10);
}

proof fn read_b()
    ensures
        read(":</b> "@, 0, Reading::Text) == Reading::Text,
{
    reveal_strlit(":</b> ");
    reveal_with_fuel(read, 8);
}

proof fn read_div()
    ensures
        read("</div>"@, 0, Reading::Text) == Reading::Text,
{
    reveal_strlit("</div>");
    reveal_with_fuel(read, 8);
}

proof fn read_div_class_vireo_rcpt()
    ensures
        read("<div class=\"vireo-rcpt\""@, 0, Reading::Text) == Reading::Tag,
{
    reveal_strlit("<div class=\"vireo-rcpt\"");
    reveal_with_fuel(read, 25);
}

proof fn read_tag_end()
    ensures
        read(">"@, 0, Reading::Tag) == Reading::Text,
{
    reveal_strlit(">");
    reveal_with_fuel(read, 3);
}

proof fn read_to()
    ensures
        read("To"@, 0, Reading::Text) == Reading::Text,
{
    reveal_strlit("To");
    reveal_with_fuel(read, 4);
}

proof fn read_cc()
    ensures
        read("Cc"@, 0, Reading::Text) == Reading::Text,
{
    reveal_strlit("Cc");
    reveal_with_fuel(read, 4);
}

proof fn read_hidden()
    ensures
        read(" hidden"@, 0, Reading::Tag) == Reading::Tag,
{
    reveal_strlit(" hidden");
    reveal_with_fuel(read, 9);
}

proof fn read_no_attribute()
    ensures
        read(""@, 0, Reading::Tag) == Reading::Tag,
{
    reveal_strlit("");
    reveal_with_fuel(read, 2);
}

proof fn read_recipients_button()
    ensures
        read("<button type=\"button\" class=\"vireo-rcpt-toggle"@, 0, Reading::Text) == Reading::Value,
{
    reveal_strlit("<button type=\"button\" class=\"vireo-rcpt-toggle");
    reveal_with_fuel(read, 42);
    assert(read("<button type=\"button\" class=\"vireo-rcpt-toggle"@, 40, Reading::Value) == Reading::Value);
}

proof fn read_span_class_vireo_folder()
    ensures
        read("<span class=\"vireo-folder\">"@, 0, Reading::Text) == Reading::Text,
{
    reveal_strlit("<span class=\"vireo-folder\">");
    reveal_with_fuel(read, 29);
}

proof fn read_style_height()
    ensures
        read(" style=\"height:"@, 0, Reading::Tag) == Reading::Value,
{
    reveal_strlit(" style=\"height:");
    reveal_with_fuel(read, 17);
}

proof fn read_px()
    ensures
        read("px\""@, 0, Reading::Value) == Reading::Tag,
{
    reveal_strlit("px\"");
    reveal_with_fuel(read, 5);
}

proof fn read_div_class_vireo_pan()
    ensures
        read("<div class=\"vireo-pan\"><iframe class=\"vireo-frame\" data-key=\""@, 0, Reading::Text) == Reading::Value,
{
    reveal_strlit("<div class=\"vireo-pan\"><iframe class=\"vireo-frame\" data-key=\"");
    reveal_with_fuel(read, 42);
    assert(read("<div class=\"vireo-pan\"><iframe class=\"vireo-frame\" data-key=\""@, 40, Reading::Value) == Reading::Value);
}

proof fn read_quote()
    ensures
        read("\""@, 0, Reading::Value) == Reading::Tag,
{
    reveal_strlit("\"");
    reveal_with_fuel(read, 3);
}

proof fn read_sandbox_allow_same_origin()
    ensures
        read(" sandbox=\"allow-same-origin allow-popups\" srcdoc=\""@, 0, Reading::Tag) == Reading::Value,
{
    reveal_strlit(" sandbox=\"allow-same-origin allow-popups\" srcdoc=\"");
    reveal_with_fuel(read, 42);
    assert(read(" sandbox=\"allow-same-origin allow-popups\" srcdoc=\""@, 40, Reading::Value) == Reading::Value);
}

proof fn read_iframe_div()
    ensures
        read("\"></iframe></div>"@, 0, Reading::Value) == Reading::Text,
{
    reveal_strlit("\"></iframe></div>");
    reveal_with_fuel(read, 19);
}

proof fn read_div_class_vireo_loading()
    ensures
        read("<div class=\"vireo-loading\">Loading…</div>"@, 0, Reading::Text) == Reading::Text,
{
    reveal_strlit("<div class=\"vireo-loading\">Loading…</div>");
    reveal_with_fuel(read, 42);
    assert(read("<div class=\"vireo-loading\">Loading…</div>"@, 40, Reading::Tag) == Reading::Text);
}

proof fn read_section_class_vireo_msg()
    ensures
        read("<section class=\"vireo-msg"@, 0, Reading::Text) == Reading::Value,
{
    reveal_strlit("<section class=\"vireo-msg");
    reveal_with_fuel(read, 27);
}

proof fn read_header_class_vireo_msg()
    ensures
        read("\"><header class=\"vireo-msg-hdr\" data-key=\""@, 0, Reading::Value) == Reading::Value,
{
    reveal_strlit("\"><header class=\"vireo-msg-hdr\" data-key=\"");
    reveal_with_fuel(read, 42);
    assert(read("\"><header class=\"vireo-msg-hdr\" data-key=\""@, 40, Reading::Tag) == Reading::Value);
}

proof fn read_div_class_vireo_hdr()
    ensures
        read("\"><div class=\"vireo-hdr-line\">"@, 0, Reading::Value) == Reading::Text,
{
    reveal_strlit("\"><div class=\"vireo-hdr-line\">");
    reveal_with_fuel(read, 32);
}

proof fn read_span_class_vireo_from()
    ensures
        read("<span class=\"vireo-from\">"@, 0, Reading::Text) == Reading::Text,
{
    reveal_strlit("<span class=\"vireo-from\">");
    reveal_with_fuel(read, 27);
}

proof fn read_span_class_vireo_tags()
    ensures
        read("<span class=\"vireo-tags\" data-key=\""@, 0, Reading::Text) == Reading::Value,
{
    reveal_strlit("<span class=\"vireo-tags\" data-key=\"");
    reveal_with_fuel(read, 37);
}

proof fn read_span_span_class_vireo()
    ensures
        read("</span><span class=\"vireo-hdr-meta\">"@, 0, Reading::Text) == Reading::Text,
{
    reveal_strlit("</span><span class=\"vireo-hdr-meta\">");
    reveal_with_fuel(read, 38);
}

proof fn read_span_class_vireo_date()
    ensures
        read("<span class=\"vireo-date\">"@, 0, Reading::Text) == Reading::Text,
{
    reveal_strlit("<span class=\"vireo-date\">");
    reveal_with_fuel(read, 27);
}

proof fn read_span_span()
    ensures
        read("</span></span>"@, 0, Reading::Text) == Reading::Text,
{
    reveal_strlit("</span></span>");
    reveal_with_fuel(read, 16);
}

proof fn read_header()
    ensures
        read("</header>"@, 0, Reading::Text) == Reading::Text,
{
    reveal_strlit("</header>");
    reveal_with_fuel(read, 11);
}

proof fn read_section()
    ensures
        read("</section>"@, 0, Reading::Text) == Reading::Text,
{
    reveal_strlit("</section>");
    reveal_with_fuel(read, 12);
}

proof fn read_class_vireo_conv()
    ensures
        read(" class=\"vireo-conv\""@, 0, Reading::Tag) == Reading::Tag,
{
    reveal_strlit(" class=\"vireo-conv\"");
    reveal_with_fuel(read, 21);
}

proof fn read_head_body()
    ensures
        read("</head><body"@, 0, Reading::Text) == Reading::Tag,
{
    reveal_strlit("</head><body");
    reveal_with_fuel(read, 14);
}

proof fn read_body_html()
    ensures
        read("</body></html>"@, 0, Reading::Text) == Reading::Text,
{
    reveal_strlit("</body></html>");
    reveal_with_fuel(read, 16);
}

proof fn read_policy()
    ensures
        read("<meta http-equiv=\"Content-Security-Policy\" content=\"script-src 'nonce-"@, 0, Reading::Text) == Reading::Value,
{
    reveal_strlit("<meta http-equiv=\"Content-Security-Policy\" content=\"script-src 'nonce-");
    reveal_with_fuel(read, 42);
    assert(read("<meta http-equiv=\"Content-Security-Policy\" content=\"script-src 'nonce-"@, 40, Reading::Value) == Reading::Value);
}

proof fn read_object_src_none_base()
    ensures
        read("'; object-src 'none'; base-uri 'none'\">"@, 0, Reading::Value) == Reading::Text,
{
    reveal_strlit("'; object-src 'none'; base-uri 'none'\">");
    reveal_with_fuel(read, 41);
}

proof fn read_closed_policy()
    ensures
        read("<meta http-equiv=\"Content-Security-Policy\" content=\"script-src 'none'; object-src 'none'; base-uri 'none'\">"@, 0, Reading::Text) == Reading::Text,
{
    reveal_strlit("<meta http-equiv=\"Content-Security-Policy\" content=\"script-src 'none'; object-src 'none'; base-uri 'none'\">");
    reveal_with_fuel(read, 42);
    assert(read("<meta http-equiv=\"Content-Security-Policy\" content=\"script-src 'none'; object-src 'none'; base-uri 'none'\">"@, 80, Reading::Value) == Reading::Text);
    assert(read("<meta http-equiv=\"Content-Security-Policy\" content=\"script-src 'none'; object-src 'none'; base-uri 'none'\">"@, 40, Reading::Value) == Reading::Text);
}

proof fn read_doctype_html_html_head()
    ensures
        read("<!doctype html><html><head><meta charset=\"utf-8\">"@, 0, Reading::Text) == Reading::Text,
{
    reveal_strlit("<!doctype html><html><head><meta charset=\"utf-8\">");
    reveal_with_fuel(read, 42);
    assert(read("<!doctype html><html><head><meta charset=\"utf-8\">"@, 40, Reading::Tag) == Reading::Text);
}

proof fn read_meta_name_color_scheme()
    ensures
        read("<meta name=\"color-scheme\" content=\""@, 0, Reading::Text) == Reading::Value,
{
    reveal_strlit("<meta name=\"color-scheme\" content=\"");
    reveal_with_fuel(read, 37);
}

proof fn read_style()
    ensures
        read("\"><style>"@, 0, Reading::Value) == Reading::Text,
{
    reveal_strlit("\"><style>");
    reveal_with_fuel(read, 11);
}

proof fn read_sheet_end()
    ensures
        read("</style>"@, 0, Reading::Text) == Reading::Text,
{
    reveal_strlit("</style>");
    reveal_with_fuel(read, 10);
}

// ----- The parts of a card -----

proof fn lemma_action_button(key: (u32, u32), act: Seq<char>, svg: Seq<char>, title: Seq<char>)
    requires
        quoteless(act),
        calm(svg),
        quoteless(title),
    ensures
        calm(action_button(key, act, svg, title)),
{
    read_action_button();
    let x0 = "<button type=\"button\" class=\"vireo-act\" data-act=\""@;
    lemma_value(act);
    lemma_read_parts(x0, act, Reading::Text);
    let x1 = x0 + act;
    read_data_key();
    lemma_read_parts(x1, "\" data-key=\""@, Reading::Text);
    let x2 = x1 + "\" data-key=\""@;
    lemma_number(key.0 as nat);
    lemma_read_parts(x2, decimal(key.0 as nat), Reading::Text);
    let x3 = x2 + decimal(key.0 as nat);
    read_colon();
    lemma_read_parts(x3, ":"@, Reading::Text);
    let x4 = x3 + ":"@;
    lemma_number(key.1 as nat);
    lemma_read_parts(x4, decimal(key.1 as nat), Reading::Text);
    let x5 = x4 + decimal(key.1 as nat);
    read_title();
    lemma_read_parts(x5, "\" title=\""@, Reading::Text);
    let x6 = x5 + "\" title=\""@;
    lemma_value(title);
    lemma_read_parts(x6, title, Reading::Text);
    let x7 = x6 + title;
    read_value_and_tag_end();
    lemma_read_parts(x7, "\">"@, Reading::Text);
    let x8 = x7 + "\">"@;
    lemma_read_parts(x8, svg, Reading::Text);
    let x9 = x8 + svg;
    read_button();
    lemma_read_parts(x9, "</button>"@, Reading::Text);
    let x10 = x9 + "</button>"@;
    assert(x10 == action_button(key, act, svg, title));
}

proof fn lemma_toggle_read(key: (u32, u32), words: &Words, icons: &Icons)
    requires
        sound_words(words),
        sound_icons(icons),
    ensures
        calm(toggle_read_button(key, words, icons)),
{
    read_toggle_read_button();
    let x0 = "<button type=\"button\" class=\"vireo-act\" data-act=\"toggleread\" data-key=\""@;
    lemma_number(key.0 as nat);
    lemma_read_parts(x0, decimal(key.0 as nat), Reading::Text);
    let x1 = x0 + decimal(key.0 as nat);
    read_colon();
    lemma_read_parts(x1, ":"@, Reading::Text);
    let x2 = x1 + ":"@;
    lemma_number(key.1 as nat);
    lemma_read_parts(x2, decimal(key.1 as nat), Reading::Text);
    let x3 = x2 + decimal(key.1 as nat);
    read_title();
    lemma_read_parts(x3, "\" title=\""@, Reading::Text);
    let x4 = x3 + "\" title=\""@;
    lemma_value(words.toggle_read@);
    lemma_read_parts(x4, words.toggle_read@, Reading::Text);
    let x5 = x4 + words.toggle_read@;
    read_span_class_tr_when();
    lemma_read_parts(x5, "\"><span class=\"tr-when-unread\">"@, Reading::Text);
    let x6 = x5 + "\"><span class=\"tr-when-unread\">"@;
    lemma_read_parts(x6, icons.read@, Reading::Text);
    let x7 = x6 + icons.read@;
    read_span_span_class_tr();
    lemma_read_parts(x7, "</span><span class=\"tr-when-read\">"@, Reading::Text);
    let x8 = x7 + "</span><span class=\"tr-when-read\">"@;
    lemma_read_parts(x8, icons.unread@, Reading::Text);
    let x9 = x8 + icons.unread@;
    read_span_button();
    lemma_read_parts(x9, "</span></button>"@, Reading::Text);
    let x10 = x9 + "</span></button>"@;
    assert(x10 == toggle_read_button(key, words, icons));
}

proof fn lemma_star(key: (u32, u32), starred: bool, words: &Words, icons: &Icons)
    requires
        sound_words(words),
        sound_icons(icons),
    ensures
        calm(star_button(key, starred, words, icons)),
{
    let on = if starred {
        " on"@
    } else {
        ""@
    };
    assert(quoteless(on)) by {
        reveal_strlit(" on");
        reveal_strlit("");
    }
    read_pressed_button();
    let x0 = "<button type=\"button\" class=\"vireo-act"@;
    lemma_value(on);
    lemma_read_parts(x0, on, Reading::Text);
    let x1 = x0 + on;
    read_data_act_star_data();
    lemma_read_parts(x1, "\" data-act=\"star\" data-key=\""@, Reading::Text);
    let x2 = x1 + "\" data-act=\"star\" data-key=\""@;
    lemma_number(key.0 as nat);
    lemma_read_parts(x2, decimal(key.0 as nat), Reading::Text);
    let x3 = x2 + decimal(key.0 as nat);
    read_colon();
    lemma_read_parts(x3, ":"@, Reading::Text);
    let x4 = x3 + ":"@;
    lemma_number(key.1 as nat);
    lemma_read_parts(x4, decimal(key.1 as nat), Reading::Text);
    let x5 = x4 + decimal(key.1 as nat);
    read_title();
    lemma_read_parts(x5, "\" title=\""@, Reading::Text);
    let x6 = x5 + "\" title=\""@;
    lemma_value(words.flag@);
    lemma_read_parts(x6, words.flag@, Reading::Text);
    let x7 = x6 + words.flag@;
    read_value_and_tag_end();
    lemma_read_parts(x7, "\">"@, Reading::Text);
    let x8 = x7 + "\">"@;
    lemma_read_parts(x8, icons.star@, Reading::Text);
    let x9 = x8 + icons.star@;
    read_button();
    lemma_read_parts(x9, "</button>"@, Reading::Text);
    let x10 = x9 + "</button>"@;
    assert(x10 == star_button(key, starred, words, icons));
}

proof fn lemma_style_button(key: (u32, u32), own: bool, words: &Words, icons: &Icons)
    requires
        sound_words(words),
        sound_icons(icons),
    ensures
        calm(style_button(key, own, words, icons)),
{
    let on = if own {
        " on"@
    } else {
        ""@
    };
    assert(quoteless(on)) by {
        reveal_strlit(" on");
        reveal_strlit("");
    }
    let title = if own {
        words.own_style@
    } else {
        words.sender_style@
    };
    read_pressed_button();
    let x0 = "<button type=\"button\" class=\"vireo-act"@;
    lemma_value(on);
    lemma_read_parts(x0, on, Reading::Text);
    let x1 = x0 + on;
    read_data_act_senderfmt_data();
    lemma_read_parts(x1, "\" data-act=\"senderfmt\" data-key=\""@, Reading::Text);
    let x2 = x1 + "\" data-act=\"senderfmt\" data-key=\""@;
    lemma_number(key.0 as nat);
    lemma_read_parts(x2, decimal(key.0 as nat), Reading::Text);
    let x3 = x2 + decimal(key.0 as nat);
    read_colon();
    lemma_read_parts(x3, ":"@, Reading::Text);
    let x4 = x3 + ":"@;
    lemma_number(key.1 as nat);
    lemma_read_parts(x4, decimal(key.1 as nat), Reading::Text);
    let x5 = x4 + decimal(key.1 as nat);
    read_title();
    lemma_read_parts(x5, "\" title=\""@, Reading::Text);
    let x6 = x5 + "\" title=\""@;
    lemma_value(title);
    lemma_read_parts(x6, title, Reading::Text);
    let x7 = x6 + title;
    read_value_and_tag_end();
    lemma_read_parts(x7, "\">"@, Reading::Text);
    let x8 = x7 + "\">"@;
    lemma_read_parts(x8, icons.rich@, Reading::Text);
    let x9 = x8 + icons.rich@;
    read_button();
    lemma_read_parts(x9, "</button>"@, Reading::Text);
    let x10 = x9 + "</button>"@;
    assert(x10 == style_button(key, own, words, icons));
}

proof fn lemma_palette_toggle(key: (u32, u32), page: &Page)
    requires
        sound_words(page.words),
        sound_icons(page.icons),
    ensures
        calm(palette_toggle_html(key, page)),
{
    read_palette_toggle();
    let x0 = "<button type=\"button\" class=\"vireo-acts-toggle\" title=\""@;
    lemma_value(page.words.actions@);
    lemma_read_parts(x0, page.words.actions@, Reading::Text);
    let x1 = x0 + page.words.actions@;
    read_data_key();
    lemma_read_parts(x1, "\" data-key=\""@, Reading::Text);
    let x2 = x1 + "\" data-key=\""@;
    lemma_number(key.0 as nat);
    lemma_read_parts(x2, decimal(key.0 as nat), Reading::Text);
    let x3 = x2 + decimal(key.0 as nat);
    read_colon();
    lemma_read_parts(x3, ":"@, Reading::Text);
    let x4 = x3 + ":"@;
    lemma_number(key.1 as nat);
    lemma_read_parts(x4, decimal(key.1 as nat), Reading::Text);
    let x5 = x4 + decimal(key.1 as nat);
    read_value_and_tag_end();
    lemma_read_parts(x5, "\">"@, Reading::Text);
    let x6 = x5 + "\">"@;
    lemma_read_parts(x6, page.icons.more@, Reading::Text);
    let x7 = x6 + page.icons.more@;
    read_button();
    lemma_read_parts(x7, "</button>"@, Reading::Text);
    let x8 = x7 + "</button>"@;
    assert(x8 == palette_toggle_html(key, page));
}

proof fn lemma_palette(m: &Message, page: &Page, own: bool)
    requires
        sound_words(page.words),
        sound_icons(page.icons),
    ensures
        calm(palette_html(m, page, own)),
{
    lemma_nothing(Reading::Text);
    let key = key_of(m);
    let w = page.words;
    let i = page.icons;
    let last = if page.style.font is Some || page.style.colors {
        style_button(key, own, w, i)
    } else {
        seq![]
    };
    lemma_style_button(key, own, w, i);
    read_span_class_vireo_acts();
    let x0 = "<span class=\"vireo-acts\">"@;
    reveal_strlit("reply");
    lemma_action_button(key, "reply"@, i.reply@, w.reply@);
    lemma_read_parts(x0, action_button(key, "reply"@, i.reply@, w.reply@), Reading::Text);
    let x1 = x0 + action_button(key, "reply"@, i.reply@, w.reply@);
    reveal_strlit("replyall");
    lemma_action_button(key, "replyall"@, i.reply_all@, w.reply_all@);
    lemma_read_parts(x1, action_button(key, "replyall"@, i.reply_all@, w.reply_all@), Reading::Text);
    let x2 = x1 + action_button(key, "replyall"@, i.reply_all@, w.reply_all@);
    reveal_strlit("forward");
    lemma_action_button(key, "forward"@, i.forward@, w.forward@);
    lemma_read_parts(x2, action_button(key, "forward"@, i.forward@, w.forward@), Reading::Text);
    let x3 = x2 + action_button(key, "forward"@, i.forward@, w.forward@);
    lemma_toggle_read(key, w, i);
    lemma_read_parts(x3, toggle_read_button(key, w, i), Reading::Text);
    let x4 = x3 + toggle_read_button(key, w, i);
    lemma_star(key, m.starred, w, i);
    lemma_read_parts(x4, star_button(key, m.starred, w, i), Reading::Text);
    let x5 = x4 + star_button(key, m.starred, w, i);
    reveal_strlit("archive");
    lemma_action_button(key, "archive"@, i.archive@, w.archive@);
    lemma_read_parts(x5, action_button(key, "archive"@, i.archive@, w.archive@), Reading::Text);
    let x6 = x5 + action_button(key, "archive"@, i.archive@, w.archive@);
    reveal_strlit("delete");
    lemma_action_button(key, "delete"@, i.trash@, w.delete@);
    lemma_read_parts(x6, action_button(key, "delete"@, i.trash@, w.delete@), Reading::Text);
    let x7 = x6 + action_button(key, "delete"@, i.trash@, w.delete@);
    reveal_strlit("spam");
    lemma_action_button(key, "spam"@, i.junk@, w.spam@);
    lemma_read_parts(x7, action_button(key, "spam"@, i.junk@, w.spam@), Reading::Text);
    let x8 = x7 + action_button(key, "spam"@, i.junk@, w.spam@);
    reveal_strlit("contact");
    lemma_action_button(key, "contact"@, i.contact@, w.contact@);
    lemma_read_parts(x8, action_button(key, "contact"@, i.contact@, w.contact@), Reading::Text);
    let x9 = x8 + action_button(key, "contact"@, i.contact@, w.contact@);
    reveal_strlit("viewsource");
    lemma_action_button(key, "viewsource"@, i.source@, w.source@);
    lemma_read_parts(x9, action_button(key, "viewsource"@, i.source@, w.source@), Reading::Text);
    let x10 = x9 + action_button(key, "viewsource"@, i.source@, w.source@);
    lemma_read_parts(x10, last, Reading::Text);
    let x11 = x10 + last;
    read_span();
    lemma_read_parts(x11, "</span>"@, Reading::Text);
    let x12 = x11 + "</span>"@;
    assert(x12 == palette_html(m, page, own));
}

proof fn lemma_seals(key: (u32, u32), icons: &Icons)
    requires
        sound_icons(icons),
    ensures
        calm(seals_html(key, icons)),
{
    read_verify_button();
    let x0 = "<button type=\"button\" class=\"vireo-verify\" data-key=\""@;
    lemma_number(key.0 as nat);
    lemma_read_parts(x0, decimal(key.0 as nat), Reading::Text);
    let x1 = x0 + decimal(key.0 as nat);
    read_colon();
    lemma_read_parts(x1, ":"@, Reading::Text);
    let x2 = x1 + ":"@;
    lemma_number(key.1 as nat);
    lemma_read_parts(x2, decimal(key.1 as nat), Reading::Text);
    let x3 = x2 + decimal(key.1 as nat);
    read_empty_title();
    lemma_read_parts(x3, "\" title=\"\">"@, Reading::Text);
    let x4 = x3 + "\" title=\"\">"@;
    lemma_read_parts(x4, icons.verified@, Reading::Text);
    let x5 = x4 + icons.verified@;
    read_pgp_button();
    lemma_read_parts(x5, "</button><button type=\"button\" class=\"vireo-pgp\" data-key=\""@, Reading::Text);
    let x6 = x5 + "</button><button type=\"button\" class=\"vireo-pgp\" data-key=\""@;
    lemma_number(key.0 as nat);
    lemma_read_parts(x6, decimal(key.0 as nat), Reading::Text);
    let x7 = x6 + decimal(key.0 as nat);
    read_colon();
    lemma_read_parts(x7, ":"@, Reading::Text);
    let x8 = x7 + ":"@;
    lemma_number(key.1 as nat);
    lemma_read_parts(x8, decimal(key.1 as nat), Reading::Text);
    let x9 = x8 + decimal(key.1 as nat);
    read_empty_title();
    lemma_read_parts(x9, "\" title=\"\">"@, Reading::Text);
    let x10 = x9 + "\" title=\"\">"@;
    lemma_read_parts(x10, icons.lock@, Reading::Text);
    let x11 = x10 + icons.lock@;
    lemma_read_parts(x11, icons.shield@, Reading::Text);
    let x12 = x11 + icons.shield@;
    read_button();
    lemma_read_parts(x12, "</button>"@, Reading::Text);
    let x13 = x12 + "</button>"@;
    assert(x13 == seals_html(key, icons));
}

proof fn lemma_avatar(m: &Message, dark: bool, drawn: Option<String>)
    requires
        drawn matches Some(uri) ==> quoteless(uri@),
    ensures
        calm(avatar_html(m, dark, drawn)),
{
    match drawn {
        Some(uri) => {
            read_img_class_vireo_ava();
            let x0 = "<img class=\"vireo-ava\" src=\""@;
            lemma_value(uri@);
            lemma_read_parts(x0, uri@, Reading::Text);
            let x1 = x0 + uri@;
            read_alt();
            lemma_read_parts(x1, "\" alt=\"\">"@, Reading::Text);
            let x2 = x1 + "\" alt=\"\">"@;
            assert(x2 == avatar_html(m, dark, drawn));
        },
        None => {
            read_span_class_vireo_ava();
            let x0 = "<span class=\"vireo-ava\" style=\"background:hsl("@;
            lemma_number(avatar_hue(m) as nat);
            lemma_read_parts(x0, decimal(avatar_hue(m) as nat), Reading::Text);
            let x1 = x0 + decimal(avatar_hue(m) as nat);
            read_saturation();
            lemma_read_parts(x1, ",52%,"@, Reading::Text);
            let x2 = x1 + ",52%,"@;
            lemma_number(avatar_lightness(dark) as nat);
            lemma_read_parts(x2, decimal(avatar_lightness(dark) as nat), Reading::Text);
            let x3 = x2 + decimal(avatar_lightness(dark) as nat);
            read_lightness_end();
            lemma_read_parts(x3, "%)\">"@, Reading::Text);
            let x4 = x3 + "%)\">"@;
            lemma_content(initial(m));
            lemma_read_parts(x4, content(initial(m)), Reading::Text);
            let x5 = x4 + content(initial(m));
            read_span();
            lemma_read_parts(x5, "</span>"@, Reading::Text);
            let x6 = x5 + "</span>"@;
            assert(x6 == avatar_html(m, dark, drawn));
        },
    }
}

proof fn lemma_address(m: &Message)
    ensures
        calm(address_html(m)),
{
    lemma_nothing(Reading::Text);
    let a = markup(m.from_addr@);
    lemma_markup(m.from_addr@);
    if m.from_addr@.len() > 0 {
        read_span_class_vireo_addr();
        let x0 = "<span class=\"vireo-addr vireo-mail\" data-mail=\""@;
        lemma_read_parts(x0, a, Reading::Text);
        let x1 = x0 + a;
        read_data_addr_lt();
        lemma_read_parts(x1, "\" data-addr=\"&lt;"@, Reading::Text);
        let x2 = x1 + "\" data-addr=\"&lt;"@;
        lemma_read_parts(x2, a, Reading::Text);
        let x3 = x2 + a;
        read_gt_lt();
        lemma_read_parts(x3, "&gt;\">&lt;"@, Reading::Text);
        let x4 = x3 + "&gt;\">&lt;"@;
        lemma_read_parts(x4, a, Reading::Text);
        let x5 = x4 + a;
        read_gt_span();
        lemma_read_parts(x5, "&gt;</span>"@, Reading::Text);
        let x6 = x5 + "&gt;</span>"@;
        assert(x6 == address_html(m));
    }
}

proof fn lemma_dot(m: &Message)
    ensures
        calm(unread_dot(m)),
{
    lemma_nothing(Reading::Text);
    if m.unread {
        read_span_class_vireo_dot();
        let x0 = "<span class=\"vireo-dot\" data-key=\""@;
        lemma_number(m.account_id as nat);
        lemma_read_parts(x0, decimal(m.account_id as nat), Reading::Text);
        let x1 = x0 + decimal(m.account_id as nat);
        read_colon();
        lemma_read_parts(x1, ":"@, Reading::Text);
        let x2 = x1 + ":"@;
        lemma_number(m.id as nat);
        lemma_read_parts(x2, decimal(m.id as nat), Reading::Text);
        let x3 = x2 + decimal(m.id as nat);
        read_empty_span();
        lemma_read_parts(x3, "\"></span>"@, Reading::Text);
        let x4 = x3 + "\"></span>"@;
        assert(x4 == unread_dot(m));
    }
}

proof fn lemma_chip(t: &TagChip)
    requires
        sound_chip(*t),
    ensures
        calm(chip_html(t)),
{
    read_span_class_vireo_tag();
    let x0 = "<span class=\"vireo-tag\" style=\"background:"@;
    lemma_markup(t.color@);
    lemma_read_parts(x0, markup(t.color@), Reading::Text);
    let x1 = x0 + markup(t.color@);
    read_color();
    lemma_read_parts(x1, ";color:"@, Reading::Text);
    let x2 = x1 + ";color:"@;
    lemma_value(t.text_color@);
    lemma_read_parts(x2, t.text_color@, Reading::Text);
    let x3 = x2 + t.text_color@;
    read_value_and_tag_end();
    lemma_read_parts(x3, "\">"@, Reading::Text);
    let x4 = x3 + "\">"@;
    lemma_markup(t.label@);
    lemma_read_parts(x4, markup(t.label@), Reading::Text);
    let x5 = x4 + markup(t.label@);
    read_span();
    lemma_read_parts(x5, "</span>"@, Reading::Text);
    let x6 = x5 + "</span>"@;
    assert(x6 == chip_html(t));
}

proof fn lemma_chips(tags: Seq<TagChip>, keywords: Seq<Seq<char>>, n: nat)
    requires
        n <= tags.len(),
        forall|k: int| 0 <= k < tags.len() ==> sound_chip(#[trigger] tags[k]),
    ensures
        calm(chips_html(tags, keywords, n)),
    decreases n,
{
    lemma_nothing(Reading::Text);
    if n > 0 {
        let rest = chips_html(tags, keywords, (n - 1) as nat);
        lemma_chips(tags, keywords, (n - 1) as nat);
        lemma_chip(&tags[n - 1]);
        lemma_read_parts(rest, chip_html(&tags[n - 1]), Reading::Text);
    }
}

proof fn lemma_recipient(entry: Seq<char>)
    ensures
        calm(recipient_span(entry)),
{
    read_span_class_vireo_mail();
    let x0 = "<span class=\"vireo-mail\" data-mail=\""@;
    lemma_markup(mail_of(entry));
    lemma_read_parts(x0, markup(mail_of(entry)), Reading::Text);
    let x1 = x0 + markup(mail_of(entry));
    read_value_and_tag_end();
    lemma_read_parts(x1, "\">"@, Reading::Text);
    let x2 = x1 + "\">"@;
    lemma_content(entry);
    lemma_read_parts(x2, content(entry), Reading::Text);
    let x3 = x2 + content(entry);
    read_span();
    lemma_read_parts(x3, "</span>"@, Reading::Text);
    let x4 = x3 + "</span>"@;
    assert(x4 == recipient_span(entry));
}

proof fn lemma_recipients(entries: Seq<Seq<char>>)
    ensures
        calm(recipient_spans(entries)),
    decreases entries.len(),
{
    lemma_nothing(Reading::Text);
    if entries.len() > 0 {
        let rest = recipient_spans(entries.drop_last());
        let entry = trim(entries.last());
        lemma_recipients(entries.drop_last());
        lemma_recipient(entry);
        read_comma();
        lemma_read_parts(rest, ", "@, Reading::Text);
        lemma_read_parts(rest + ", "@, recipient_span(entry), Reading::Text);
    }
}

proof fn lemma_recipients_line(label: Seq<char>, list: Seq<char>)
    requires
        calm(label),
    ensures
        calm(recipients_line(label, list)),
{
    lemma_nothing(Reading::Text);
    let spans = recipient_spans(address_entries(trim(list), 0, 0, false));
    if trim(list).len() > 0 {
        read_div_b();
        let x0 = "<div><b>"@;
        lemma_read_parts(x0, label, Reading::Text);
        let x1 = x0 + label;
        read_b();
        lemma_read_parts(x1, ":</b> "@, Reading::Text);
        let x2 = x1 + ":</b> "@;
        lemma_recipients(address_entries(trim(list), 0, 0, false));
        lemma_read_parts(x2, spans, Reading::Text);
        let x3 = x2 + spans;
        read_div();
        lemma_read_parts(x3, "</div>"@, Reading::Text);
        let x4 = x3 + "</div>"@;
        assert(x4 == recipients_line(label, list));
    }
}

proof fn lemma_recipients_block(m: &Message, always_shown: bool)
    ensures
        calm(recipients_block(m, always_shown)),
{
    lemma_nothing(Reading::Text);
    read_to();
    read_cc();
    read_hidden();
    read_no_attribute();
    let to = recipients_line("To"@, m.to@);
    let cc = recipients_line("Cc"@, m.cc@);
    let lines = to + cc;
    lemma_recipients_line("To"@, m.to@);
    lemma_recipients_line("Cc"@, m.cc@);
    lemma_read_parts(to, cc, Reading::Text);
    let hidden = if always_shown {
        ""@
    } else {
        " hidden"@
    };
    if lines.len() > 0 {
        read_div_class_vireo_rcpt();
        let x0 = "<div class=\"vireo-rcpt\""@;
        lemma_read_parts(x0, hidden, Reading::Text);
        let x1 = x0 + hidden;
        read_tag_end();
        lemma_read_parts(x1, ">"@, Reading::Text);
        let x2 = x1 + ">"@;
        lemma_read_parts(x2, lines, Reading::Text);
        let x3 = x2 + lines;
        read_div();
        lemma_read_parts(x3, "</div>"@, Reading::Text);
        let x4 = x3 + "</div>"@;
        assert(x4 == recipients_block(m, always_shown));
    }
}

proof fn lemma_recipients_toggle(m: &Message, page: &Page, label: Seq<char>)
    requires
        sound_words(page.words),
        calm(label),
    ensures
        calm(recipients_toggle(m, page, label)),
{
    lemma_nothing(Reading::Text);
    let always = page.always_show_recipients;
    let open = if always {
        " open"@
    } else {
        ""@
    };
    assert(quoteless(open)) by {
        reveal_strlit(" open");
        reveal_strlit("");
    }
    let title = if always {
        page.words.hide_recipients@
    } else {
        page.words.show_recipients@
    };
    if !(recipients(m) == 0 || (recipients(m) == 1 && always)) {
        read_recipients_button();
        let x0 = "<button type=\"button\" class=\"vireo-rcpt-toggle"@;
        lemma_value(open);
        lemma_read_parts(x0, open, Reading::Text);
        let x1 = x0 + open;
        read_title();
        lemma_read_parts(x1, "\" title=\""@, Reading::Text);
        let x2 = x1 + "\" title=\""@;
        lemma_value(title);
        lemma_read_parts(x2, title, Reading::Text);
        let x3 = x2 + title;
        read_value_and_tag_end();
        lemma_read_parts(x3, "\">"@, Reading::Text);
        let x4 = x3 + "\">"@;
        lemma_read_parts(x4, label, Reading::Text);
        let x5 = x4 + label;
        read_button();
        lemma_read_parts(x5, "</button>"@, Reading::Text);
        let x6 = x5 + "</button>"@;
        assert(x6 == recipients_toggle(m, page, label));
    }
}

proof fn lemma_folder(label: Option<Seq<char>>)
    ensures
        calm(folder_html(label)),
{
    lemma_nothing(Reading::Text);
    if let Some(l) = label {
        read_span_class_vireo_folder();
        let x0 = "<span class=\"vireo-folder\">"@;
        lemma_content(l);
        lemma_read_parts(x0, content(l), Reading::Text);
        let x1 = x0 + content(l);
        read_span();
        lemma_read_parts(x1, "</span>"@, Reading::Text);
        let x2 = x1 + "</span>"@;
        assert(x2 == folder_html(label));
    }
}

/// Whatever a frame's document holds, it stays within the frame's attribute.
proof fn lemma_framed(doc: Seq<char>, key: (u32, u32), height: Option<u32>)
    ensures
        calm(framed(doc, key, height)),
{
    assert(read(height_style(height), 0, Reading::Tag) == Reading::Tag) by {
        lemma_nothing(Reading::Tag);
        if let Some(h) = height {
            read_style_height();
            let h0 = " style=\"height:"@;
            lemma_number(h as nat);
            lemma_read_parts(h0, decimal(h as nat), Reading::Tag);
            let h1 = h0 + decimal(h as nat);
            read_px();
            lemma_read_parts(h1, "px\""@, Reading::Tag);
            let h2 = h1 + "px\""@;
            assert(h2 == height_style(height));
        }
    }
    read_div_class_vireo_pan();
    let x0 = "<div class=\"vireo-pan\"><iframe class=\"vireo-frame\" data-key=\""@;
    lemma_number(key.0 as nat);
    lemma_read_parts(x0, decimal(key.0 as nat), Reading::Text);
    let x1 = x0 + decimal(key.0 as nat);
    read_colon();
    lemma_read_parts(x1, ":"@, Reading::Text);
    let x2 = x1 + ":"@;
    lemma_number(key.1 as nat);
    lemma_read_parts(x2, decimal(key.1 as nat), Reading::Text);
    let x3 = x2 + decimal(key.1 as nat);
    read_quote();
    lemma_read_parts(x3, "\""@, Reading::Text);
    let x4 = x3 + "\""@;
    lemma_read_parts(x4, height_style(height), Reading::Text);
    let x5 = x4 + height_style(height);
    read_sandbox_allow_same_origin();
    lemma_read_parts(x5, " sandbox=\"allow-same-origin allow-popups\" srcdoc=\""@, Reading::Text);
    let x6 = x5 + " sandbox=\"allow-same-origin allow-popups\" srcdoc=\""@;
    quoted_closes_no_value(doc);
    lemma_value(quoted(doc));
    lemma_read_parts(x6, quoted(doc), Reading::Text);
    let x7 = x6 + quoted(doc);
    read_iframe_div();
    lemma_read_parts(x7, "\"></iframe></div>"@, Reading::Text);
    let x8 = x7 + "\"></iframe></div>"@;
    assert(x8 == framed(doc, key, height));
}

proof fn lemma_body(m: &Message, page: &Page, facts: &CardFacts, height: Option<u32>, own: bool)
    ensures
        calm(card_body(m, page, facts, height, own)),
{
    reveal(card_body);
    read_div_class_vireo_loading();
    let none = ReaderStyle { font: None, colors: false };
    lemma_framed(
        frame_document(
            m.body@,
            page.restrict,
            page.dark,
            if own {
                &none
            } else {
                page.style
            },
            page.accent@,
            opt_texts(facts.colors@),
        ),
        key_of(m),
        height,
    );
}

#[verifier::rlimit(60)]
#[verifier::spinoff_prover]
proof fn lemma_card(
    m: &Message,
    page: &Page,
    facts: &CardFacts,
    label: Option<Seq<char>>,
    marked: bool,
    own: bool,
    body: Seq<char>,
)
    requires
        sound_page(page),
        sound_facts(*facts),
        calm(body),
    ensures
        calm(card_html(m, page, facts, label, marked, own, body)),
{
    reveal(card_html);
    let selected = if marked {
        " selected"@
    } else {
        ""@
    };
    let unread = if m.unread {
        " unread"@
    } else {
        ""@
    };
    assert(quoteless(selected) && quoteless(unread)) by {
        reveal_strlit(" selected");
        reveal_strlit(" unread");
        reveal_strlit("");
    }
    let chips = chips_html(page.tags@, texts(m.keywords@), page.tags@.len());
    read_section_class_vireo_msg();
    let x0 = "<section class=\"vireo-msg"@;
    lemma_value(selected);
    lemma_read_parts(x0, selected, Reading::Text);
    let x1 = x0 + selected;
    lemma_value(unread);
    lemma_read_parts(x1, unread, Reading::Text);
    let x2 = x1 + unread;
    read_data_key();
    lemma_read_parts(x2, "\" data-key=\""@, Reading::Text);
    let x3 = x2 + "\" data-key=\""@;
    lemma_number(m.account_id as nat);
    lemma_read_parts(x3, decimal(m.account_id as nat), Reading::Text);
    let x4 = x3 + decimal(m.account_id as nat);
    read_colon();
    lemma_read_parts(x4, ":"@, Reading::Text);
    let x5 = x4 + ":"@;
    lemma_number(m.id as nat);
    lemma_read_parts(x5, decimal(m.id as nat), Reading::Text);
    let x6 = x5 + decimal(m.id as nat);
    read_header_class_vireo_msg();
    lemma_read_parts(x6, "\"><header class=\"vireo-msg-hdr\" data-key=\""@, Reading::Text);
    let x7 = x6 + "\"><header class=\"vireo-msg-hdr\" data-key=\""@;
    lemma_number(m.account_id as nat);
    lemma_read_parts(x7, decimal(m.account_id as nat), Reading::Text);
    let x8 = x7 + decimal(m.account_id as nat);
    read_colon();
    lemma_read_parts(x8, ":"@, Reading::Text);
    let x9 = x8 + ":"@;
    lemma_number(m.id as nat);
    lemma_read_parts(x9, decimal(m.id as nat), Reading::Text);
    let x10 = x9 + decimal(m.id as nat);
    read_title();
    lemma_read_parts(x10, "\" title=\""@, Reading::Text);
    let x11 = x10 + "\" title=\""@;
    lemma_value(page.words.open_hint@);
    lemma_read_parts(x11, page.words.open_hint@, Reading::Text);
    let x12 = x11 + page.words.open_hint@;
    read_div_class_vireo_hdr();
    lemma_read_parts(x12, "\"><div class=\"vireo-hdr-line\">"@, Reading::Text);
    let x13 = x12 + "\"><div class=\"vireo-hdr-line\">"@;
    lemma_avatar(m, page.dark, facts.avatar);
    lemma_read_parts(x13, avatar_html(m, page.dark, facts.avatar), Reading::Text);
    let x14 = x13 + avatar_html(m, page.dark, facts.avatar);
    lemma_dot(m);
    lemma_read_parts(x14, unread_dot(m), Reading::Text);
    let x15 = x14 + unread_dot(m);
    read_span_class_vireo_from();
    lemma_read_parts(x15, "<span class=\"vireo-from\">"@, Reading::Text);
    let x16 = x15 + "<span class=\"vireo-from\">"@;
    lemma_content(m.from_name@);
    lemma_read_parts(x16, content(m.from_name@), Reading::Text);
    let x17 = x16 + content(m.from_name@);
    read_span();
    lemma_read_parts(x17, "</span>"@, Reading::Text);
    let x18 = x17 + "</span>"@;
    lemma_seals(key_of(m), &page.icons);
    lemma_read_parts(x18, seals_html(key_of(m), &page.icons), Reading::Text);
    let x19 = x18 + seals_html(key_of(m), &page.icons);
    lemma_address(m);
    lemma_read_parts(x19, address_html(m), Reading::Text);
    let x20 = x19 + address_html(m);
    read_span_class_vireo_tags();
    lemma_read_parts(x20, "<span class=\"vireo-tags\" data-key=\""@, Reading::Text);
    let x21 = x20 + "<span class=\"vireo-tags\" data-key=\""@;
    lemma_number(m.account_id as nat);
    lemma_read_parts(x21, decimal(m.account_id as nat), Reading::Text);
    let x22 = x21 + decimal(m.account_id as nat);
    read_colon();
    lemma_read_parts(x22, ":"@, Reading::Text);
    let x23 = x22 + ":"@;
    lemma_number(m.id as nat);
    lemma_read_parts(x23, decimal(m.id as nat), Reading::Text);
    let x24 = x23 + decimal(m.id as nat);
    read_value_and_tag_end();
    lemma_read_parts(x24, "\">"@, Reading::Text);
    let x25 = x24 + "\">"@;
    lemma_chips(page.tags@, texts(m.keywords@), page.tags@.len());
    lemma_read_parts(x25, chips, Reading::Text);
    let x26 = x25 + chips;
    read_span_span_class_vireo();
    lemma_read_parts(x26, "</span><span class=\"vireo-hdr-meta\">"@, Reading::Text);
    let x27 = x26 + "</span><span class=\"vireo-hdr-meta\">"@;
    lemma_folder(label);
    lemma_read_parts(x27, folder_html(label), Reading::Text);
    let x28 = x27 + folder_html(label);
    lemma_recipients_toggle(m, page, facts.recipients_label@);
    lemma_read_parts(x28, recipients_toggle(m, page, facts.recipients_label@), Reading::Text);
    let x29 = x28 + recipients_toggle(m, page, facts.recipients_label@);
    read_span_class_vireo_date();
    lemma_read_parts(x29, "<span class=\"vireo-date\">"@, Reading::Text);
    let x30 = x29 + "<span class=\"vireo-date\">"@;
    lemma_content(facts.date@);
    lemma_read_parts(x30, content(facts.date@), Reading::Text);
    let x31 = x30 + content(facts.date@);
    read_span_span();
    lemma_read_parts(x31, "</span></span>"@, Reading::Text);
    let x32 = x31 + "</span></span>"@;
    lemma_palette_toggle(key_of(m), page);
    lemma_read_parts(x32, palette_toggle_html(key_of(m), page), Reading::Text);
    let x33 = x32 + palette_toggle_html(key_of(m), page);
    lemma_palette(m, page, own);
    lemma_read_parts(x33, palette_html(m, page, own), Reading::Text);
    let x34 = x33 + palette_html(m, page, own);
    read_div();
    lemma_read_parts(x34, "</div>"@, Reading::Text);
    let x35 = x34 + "</div>"@;
    lemma_recipients_block(m, page.always_show_recipients);
    lemma_read_parts(x35, recipients_block(m, page.always_show_recipients), Reading::Text);
    let x36 = x35 + recipients_block(m, page.always_show_recipients);
    read_header();
    lemma_read_parts(x36, "</header>"@, Reading::Text);
    let x37 = x36 + "</header>"@;
    lemma_read_parts(x37, body, Reading::Text);
    let x38 = x37 + body;
    read_section();
    lemma_read_parts(x38, "</section>"@, Reading::Text);
    let x39 = x38 + "</section>"@;
    assert(x39 == card_html(m, page, facts, label, marked, own, body));
}

proof fn lemma_cards(
    thread: Seq<Message>,
    facts: Seq<CardFacts>,
    labels: Map<u64, String>,
    heights: Map<u64, u32>,
    selected: Seq<(u32, u32)>,
    sender_style: Set<u64>,
    page: &Page,
    n: nat,
)
    requires
        sound_page(page),
        n <= facts.len(),
        forall|k: int| 0 <= k < facts.len() ==> sound_facts(#[trigger] facts[k]),
    ensures
        calm(cards(thread, facts, labels, heights, selected, sender_style, page, n)),
    decreases n,
{
    lemma_nothing(Reading::Text);
    if n > 0 {
        let k = n - 1;
        lemma_cards(thread, facts, labels, heights, selected, sender_style, page, k as nat);
        let m = &thread[k];
        let own = sender_style.contains(packed(key_of(m)));
        let body = card_body(m, page, &facts[k], height_of(heights, m), own);
        lemma_body(m, page, &facts[k], height_of(heights, m), own);
        lemma_card(
            m,
            page,
            &facts[k],
            label_of(labels, m),
            thread.len() > 1 && selected.contains(key_of(m)),
            own,
            body,
        );
        lemma_read_parts(
            cards(thread, facts, labels, heights, selected, sender_style, page, k as nat),
            card_at(thread, facts, labels, heights, selected, sender_style, page, k),
            Reading::Text,
        );
    }
}

proof fn lemma_closing(are_carded: bool, sections: Seq<char>)
    requires
        calm(sections),
    ensures
        calm(closing(are_carded, sections)),
{
    read_class_vireo_conv();
    read_no_attribute();
    let class = if are_carded {
        " class=\"vireo-conv\""@
    } else {
        ""@
    };
    read_head_body();
    let x0 = "</head><body"@;
    lemma_read_parts(x0, class, Reading::Text);
    let x1 = x0 + class;
    read_tag_end();
    lemma_read_parts(x1, ">"@, Reading::Text);
    let x2 = x1 + ">"@;
    lemma_read_parts(x2, sections, Reading::Text);
    let x3 = x2 + sections;
    read_body_html();
    lemma_read_parts(x3, "</body></html>"@, Reading::Text);
    let x4 = x3 + "</body></html>"@;
    assert(x4 == closing(are_carded, sections));
}

proof fn lemma_opening(nonce: Option<Seq<char>>, dark: bool, css: Seq<char>)
    requires
        nonce matches Some(n) ==> quoteless(n),
    ensures
        calm(opening(nonce, dark, css)),
{
    match nonce {
        Some(n) => {
            read_policy();
            let x0 = "<meta http-equiv=\"Content-Security-Policy\" content=\"script-src 'nonce-"@;
            lemma_value(n);
            lemma_read_parts(x0, n, Reading::Text);
            let x1 = x0 + n;
            read_object_src_none_base();
            lemma_read_parts(x1, "'; object-src 'none'; base-uri 'none'\">"@, Reading::Text);
            let x2 = x1 + "'; object-src 'none'; base-uri 'none'\">"@;
            assert(x2 == script_policy_meta(nonce));
        },
        None => {
            read_closed_policy();
        },
    }
    assert(quoteless(scheme_name(dark))) by {
        reveal_strlit("dark");
        reveal_strlit("light");
    }
    read_doctype_html_html_head();
    let x0 = "<!doctype html><html><head><meta charset=\"utf-8\">"@;
    lemma_read_parts(x0, script_policy_meta(nonce), Reading::Text);
    let x1 = x0 + script_policy_meta(nonce);
    read_meta_name_color_scheme();
    lemma_read_parts(x1, "<meta name=\"color-scheme\" content=\""@, Reading::Text);
    let x2 = x1 + "<meta name=\"color-scheme\" content=\""@;
    lemma_value(scheme_name(dark));
    lemma_read_parts(x2, scheme_name(dark), Reading::Text);
    let x3 = x2 + scheme_name(dark);
    read_style();
    lemma_read_parts(x3, "\"><style>"@, Reading::Text);
    let x4 = x3 + "\"><style>"@;
    sheet_ends_nowhere(css);
    lemma_plain(sheet_text(css));
    lemma_read_parts(x4, sheet_text(css), Reading::Text);
    let x5 = x4 + sheet_text(css);
    read_sheet_end();
    lemma_read_parts(x5, "</style>"@, Reading::Text);
    let x6 = x5 + "</style>"@;
    assert(x6 == opening(nonce, dark, css));
}

// ----- The law -----

/// The reader's document runs its own script and nothing else, whatever the messages
/// hold: in front of the one script, which carries the document's password, and behind
/// it no script is opened, nothing in it ends it early, and without a password there is
/// none. The policy that names the password stands in front of everything that a message
/// or the theme brings.
pub proof fn only_its_own_script_runs(
    thread: Seq<Message>,
    facts: Seq<CardFacts>,
    labels: Map<u64, String>,
    heights: Map<u64, u32>,
    selected: Seq<(u32, u32)>,
    sender_style: Set<u64>,
    page: &Page,
)
    requires
        facts.len() == thread.len(),
        sound_page(page),
        forall|k: int| 0 <= k < facts.len() ==> sound_facts(#[trigger] facts[k]),
    ensures
        ({
            let doc = thread_document(thread, facts, labels, heights, selected, sender_style, page);
            let nonce = opt_text(*page.nonce);
            let lead = opening(
                nonce,
                page.dark,
                sheet(
                    page.dark,
                    page.accent@,
                    page.grounds,
                    page_ground(thread, page.single_message_card, page.grounds),
                    lone_and_plain(thread, page.single_message_card),
                ),
            );
            let rest = closing(
                carded(thread, page.single_message_card),
                cards(thread, facts, labels, heights, selected, sender_style, page, thread.len()),
            );
            &&& doc == lead + script_html(nonce) + rest
            &&& calm(lead)
            &&& calm(rest)
            &&& match nonce {
                Some(n) => script_html(nonce) == "<script nonce=\""@ + n + "\">"@ + script_text(
                    SIZE_SCRIPT@,
                ) + "</script>"@,
                None => script_html(nonce).len() == 0,
            }
            &&& forall|i: int| !#[trigger] closes_at(script_text(SIZE_SCRIPT@), i)
            &&& stands_at(doc, script_policy_meta(nonce), 49)
        }),
{
    let nonce = opt_text(*page.nonce);
    let css = sheet(
        page.dark,
        page.accent@,
        page.grounds,
        page_ground(thread, page.single_message_card, page.grounds),
        lone_and_plain(thread, page.single_message_card),
    );
    let sections = cards(
        thread,
        facts,
        labels,
        heights,
        selected,
        sender_style,
        page,
        thread.len(),
    );
    lemma_cards(thread, facts, labels, heights, selected, sender_style, page, thread.len());
    lemma_opening(nonce, page.dark, css);
    lemma_closing(carded(thread, page.single_message_card), sections);
    script_ends_nowhere(SIZE_SCRIPT@);
    reveal_strlit("<!doctype html><html><head><meta charset=\"utf-8\">");
    let doc = thread_document(thread, facts, labels, heights, selected, sender_style, page);
    let meta = script_policy_meta(nonce);
    assert(doc.subrange(49, 49 + meta.len() as int) =~= meta);
}

/// A password that was made of drawn bytes is a sound one, of 24 characters.
pub proof fn drawn_passwords_are_sound(page: &Page, drawn: Seq<u8>)
    requires
        sound_words(page.words),
        sound_icons(page.icons),
        forall|k: int| 0 <= k < page.tags@.len() ==> sound_chip(#[trigger] page.tags@[k]),
        drawn.len() == DRAWN,
        opt_text(*page.nonce) == Some(hex_text(drawn)),
    ensures
        sound_page(page),
        hex_text(drawn).len() == 24,
{
    password_is_plain(drawn);
}

/// The policy of a document with such a password says nothing of anything but scripts,
/// plug-ins and the base: a default would be inherited by the frames, and block what the
/// reader has allowed in them.
pub proof fn policy_sets_no_default(drawn: Seq<u8>, k: int)
    ensures
        !stands_at(script_policy_meta(Some(hex_text(drawn))), "default-src"@, k),
{
    let n = hex_text(drawn);
    let m = script_policy_meta(Some(n));
    let a = "<meta http-equiv=\"Content-Security-Policy\" content=\"script-src 'nonce-"@;
    let b = "'; object-src 'none'; base-uri 'none'\">"@;
    password_is_plain(drawn);
    reveal_strlit("<meta http-equiv=\"Content-Security-Policy\" content=\"script-src 'nonce-");
    reveal_strlit("'; object-src 'none'; base-uri 'none'\">");
    reveal_strlit("default-src");
    assert(m == a + n + b);
    if stands_at(m, "default-src"@, k) {
        let w = m.subrange(k, k + 11);
        assert(w[3] == m[k + 3] && w[4] == m[k + 4]);
        let i = k + 3;
        assert(m[i] == 'a' && m[i + 1] == 'u');
        if i + 1 < a.len() {
            assert(m[i] == a[i] && m[i + 1] == a[i + 1]);
        } else if i + 1 < a.len() + n.len() {
            assert(m[i + 1] == n[i + 1 - a.len()]);
        } else if i >= a.len() + n.len() {
            let j = i - a.len() - n.len();
            assert(m[i] == b[j] && m[i + 1] == b[j + 1]);
        } else {
            assert(m[i + 1] == b[0]);
        }
        assert(false);
    }
}

} // verus!
