//! What a card shows of its message, and what its buttons do.

use vstd::prelude::*;

use crate::document::{
    action_button, address_entries, address_html, avatar_html, card_at, card_html, carded, cards,
    chip_html, chips_html, closing, document, folder_html, lone_and_plain, opening, page_ground,
    palette_html, palette_toggle_html, recipient_spans, recipients_block, recipients_line,
    recipients_toggle, script_html, seals_html, sheet, star_button, style_button, tagged,
    thread_document, toggle_read_button, unread_dot, CardFacts, Grounds, Icons, Page, TagChip, Words,
};
use crate::escape::{content, markup};
use crate::message_row::RowAction;
use crate::models::{key_of, Message};
use crate::script_laws::{actions_are_read, asks_for, marks_are_read, posted};
use crate::script_messages::{parsed_report, ScriptReport};
use crate::text::{
    decimal, find, holds, lemma_find, lemma_holds_inside, lemma_holds_part, lower_all, opt_text, starts,
    texts, trim,
};

verus! {

// ----- Texts in texts -----

/// A text that goes on holds what it held, and what was put behind it.
pub proof fn lemma_grows(x: Seq<char>, y: Seq<char>)
    ensures
        forall|p: Seq<char>| #[trigger] holds(x, p) ==> holds(x + y, p),
        forall|p: Seq<char>| #[trigger] holds(y, p) ==> holds(x + y, p),
        holds(x + y, y),
{
    let none = Seq::<char>::empty();
    assert(none + x + y =~= x + y);
    assert(x + y + none =~= x + y);
    assert forall|p: Seq<char>| #[trigger] holds(x, p) implies holds(x + y, p) by {
        lemma_holds_inside(none, x, y, p);
    }
    assert forall|p: Seq<char>| #[trigger] holds(y, p) implies holds(x + y, p) by {
        lemma_holds_inside(x, y, none, p);
    }
    lemma_holds_part(x, y, none);
}

/// Three parts at the end of a text stand there as one.
proof fn lemma_ends(x: Seq<char>, a: Seq<char>, b: Seq<char>, c: Seq<char>)
    ensures
        holds(x + a + b + c, a + b + c),
{
    let none = Seq::<char>::empty();
    lemma_holds_part(x, a + b + c, none);
    assert(x + (a + b + c) + none =~= x + a + b + c);
}

// ----- Buttons -----

/// A button of a message: what it asks for, of which message, how it is called and what it
/// shows.
pub open spec fn button(
    verb: Seq<char>,
    key: (u32, u32),
    title: Seq<char>,
    inner: Seq<char>,
) -> Seq<char> {
    " data-act=\""@ + verb + "\" data-key=\""@ + decimal(key.0 as nat) + ":"@ + decimal(key.1 as nat)
        + "\" title=\""@ + title + "\">"@ + inner + "</button>"@
}

/// Whether a document has a button with this title and this inside whose click is read as
/// this report.
pub open spec fn offers(
    doc: Seq<char>,
    key: (u32, u32),
    title: Seq<char>,
    inner: Seq<char>,
    meaning: ScriptReport,
) -> bool {
    exists|verb: Seq<char>| #[trigger]
        holds(doc, button(verb, key, title, inner)) && parsed_report(posted(verb, key)) == Some(
            meaning,
        )
}

/// What an action is called.
pub open spec fn title_of(action: RowAction, w: &Words) -> Seq<char> {
    match action {
        RowAction::Reply => w.reply@,
        RowAction::ReplyAll => w.reply_all@,
        RowAction::Forward => w.forward@,
        RowAction::ToggleStar => w.flag@,
        RowAction::ToggleRead => w.toggle_read@,
        RowAction::Spam => w.spam@,
        RowAction::Archive => w.archive@,
        RowAction::Delete => w.delete@,
        RowAction::ViewSource => w.source@,
    }
}

/// What the button of an action shows: its icon, and for the mark of a message that was
/// read the one that fits how the message is marked.
pub open spec fn inside_of(action: RowAction, i: &Icons) -> Seq<char> {
    match action {
        RowAction::Reply => i.reply@,
        RowAction::ReplyAll => i.reply_all@,
        RowAction::Forward => i.forward@,
        RowAction::ToggleStar => i.star@,
        RowAction::ToggleRead => "<span class=\"tr-when-unread\">"@ + i.read@
            + "</span><span class=\"tr-when-read\">"@ + i.unread@ + "</span>"@,
        RowAction::Spam => i.junk@,
        RowAction::Archive => i.archive@,
        RowAction::Delete => i.trash@,
        RowAction::ViewSource => i.source@,
    }
}

proof fn lemma_action_button(key: (u32, u32), act: Seq<char>, svg: Seq<char>, title: Seq<char>)
    ensures
        holds(action_button(key, act, svg, title), button(act, key, title, svg)),
{
    reveal_strlit("<button type=\"button\" class=\"vireo-act\" data-act=\"");
    reveal_strlit("<button type=\"button\" class=\"vireo-act\"");
    reveal_strlit(" data-act=\"");
    let open = "<button type=\"button\" class=\"vireo-act\""@;
    let b = button(act, key, title, svg);
    let none = Seq::<char>::empty();
    assert("<button type=\"button\" class=\"vireo-act\" data-act=\""@ =~= open + " data-act=\""@);
    assert(action_button(key, act, svg, title) =~= open + b + none);
    lemma_holds_part(open, b, none);
}

proof fn lemma_toggle_read(key: (u32, u32), w: &Words, i: &Icons)
    ensures
        holds(
            toggle_read_button(key, w, i),
            button("toggleread"@, key, w.toggle_read@, inside_of(RowAction::ToggleRead, i)),
        ),
{
    reveal_strlit("<button type=\"button\" class=\"vireo-act\" data-act=\"toggleread\" data-key=\"");
    reveal_strlit("<button type=\"button\" class=\"vireo-act\"");
    reveal_strlit(" data-act=\"");
    reveal_strlit("toggleread");
    reveal_strlit("\" data-key=\"");
    reveal_strlit("\"><span class=\"tr-when-unread\">");
    reveal_strlit("\">");
    reveal_strlit("<span class=\"tr-when-unread\">");
    reveal_strlit("</span></button>");
    reveal_strlit("</span>");
    reveal_strlit("</button>");
    let open = "<button type=\"button\" class=\"vireo-act\""@;
    let b = button("toggleread"@, key, w.toggle_read@, inside_of(RowAction::ToggleRead, i));
    let none = Seq::<char>::empty();
    assert("<button type=\"button\" class=\"vireo-act\" data-act=\"toggleread\" data-key=\""@ =~= open
        + (" data-act=\""@ + "toggleread"@ + "\" data-key=\""@));
    assert("\"><span class=\"tr-when-unread\">"@ =~= "\">"@ + "<span class=\"tr-when-unread\">"@);
    assert("</span></button>"@ =~= "</span>"@ + "</button>"@);
    assert(toggle_read_button(key, w, i) =~= open + b + none);
    lemma_holds_part(open, b, none);
}

/// How a button stands that is pressed or not.
pub open spec fn pressed(on: bool) -> Seq<char> {
    if on {
        "class=\"vireo-act on\""@
    } else {
        "class=\"vireo-act\""@
    }
}

proof fn lemma_star(key: (u32, u32), starred: bool, w: &Words, i: &Icons)
    ensures
        holds(star_button(key, starred, w, i), button("star"@, key, w.flag@, i.star@)),
        holds(star_button(key, starred, w, i), pressed(starred) + button("star"@, key, w.flag@, i.star@)),
{
    reveal_strlit("<button type=\"button\" class=\"vireo-act");
    reveal_strlit("<button type=\"button\" ");
    reveal_strlit("class=\"vireo-act on\"");
    reveal_strlit("class=\"vireo-act\"");
    reveal_strlit(" on");
    reveal_strlit("");
    reveal_strlit("\" data-act=\"star\" data-key=\"");
    reveal_strlit(" data-act=\"");
    reveal_strlit("star");
    reveal_strlit("\" data-key=\"");
    let open = "<button type=\"button\" "@;
    let b = button("star"@, key, w.flag@, i.star@);
    let none = Seq::<char>::empty();
    let on = if starred {
        " on"@
    } else {
        ""@
    };
    assert("<button type=\"button\" class=\"vireo-act"@ + on + "\" data-act=\"star\" data-key=\""@ =~= open
        + pressed(starred) + (" data-act=\""@ + "star"@ + "\" data-key=\""@));
    assert(star_button(key, starred, w, i) =~= open + pressed(starred) + b);
    assert(open + pressed(starred) + b =~= open + (pressed(starred) + b) + none);
    assert(open + pressed(starred) + b =~= (open + pressed(starred)) + b + none);
    lemma_holds_part(open, pressed(starred) + b, none);
    lemma_holds_part(open + pressed(starred), b, none);
}

proof fn lemma_style(key: (u32, u32), own: bool, w: &Words, i: &Icons)
    ensures
        ({
            let title = if own {
                w.own_style@
            } else {
                w.sender_style@
            };
            let b = button("senderfmt"@, key, title, i.rich@);
            &&& holds(style_button(key, own, w, i), b)
            &&& holds(style_button(key, own, w, i), pressed(own) + b)
        }),
{
    reveal_strlit("<button type=\"button\" class=\"vireo-act");
    reveal_strlit("<button type=\"button\" ");
    reveal_strlit("class=\"vireo-act on\"");
    reveal_strlit("class=\"vireo-act\"");
    reveal_strlit(" on");
    reveal_strlit("");
    reveal_strlit("\" data-act=\"senderfmt\" data-key=\"");
    reveal_strlit(" data-act=\"");
    reveal_strlit("senderfmt");
    reveal_strlit("\" data-key=\"");
    let open = "<button type=\"button\" "@;
    let title = if own {
        w.own_style@
    } else {
        w.sender_style@
    };
    let b = button("senderfmt"@, key, title, i.rich@);
    let none = Seq::<char>::empty();
    let on = if own {
        " on"@
    } else {
        ""@
    };
    assert("<button type=\"button\" class=\"vireo-act"@ + on + "\" data-act=\"senderfmt\" data-key=\""@
        =~= open + pressed(own) + (" data-act=\""@ + "senderfmt"@ + "\" data-key=\""@));
    assert(style_button(key, own, w, i) =~= open + pressed(own) + b);
    assert(open + pressed(own) + b =~= open + (pressed(own) + b) + none);
    assert(open + pressed(own) + b =~= (open + pressed(own)) + b + none);
    lemma_holds_part(open, pressed(own) + b, none);
    lemma_holds_part(open + pressed(own), b, none);
}

/// The buttons of a message as its card writes them.
#[verifier::opaque]
spec fn has_buttons(doc: Seq<char>, m: &Message, page: &Page, own: bool) -> bool {
    let key = key_of(m);
    let w = page.words;
    let i = page.icons;
    let title = if own {
        w.own_style@
    } else {
        w.sender_style@
    };
    &&& holds(doc, button("reply"@, key, w.reply@, i.reply@))
    &&& holds(doc, button("replyall"@, key, w.reply_all@, i.reply_all@))
    &&& holds(doc, button("forward"@, key, w.forward@, i.forward@))
    &&& holds(doc, button("toggleread"@, key, w.toggle_read@, inside_of(RowAction::ToggleRead, i)))
    &&& holds(doc, button("star"@, key, w.flag@, i.star@))
    &&& holds(doc, pressed(m.starred) + button("star"@, key, w.flag@, i.star@))
    &&& holds(doc, button("archive"@, key, w.archive@, i.archive@))
    &&& holds(doc, button("delete"@, key, w.delete@, i.trash@))
    &&& holds(doc, button("spam"@, key, w.spam@, i.junk@))
    &&& holds(doc, button("contact"@, key, w.contact@, i.contact@))
    &&& holds(doc, button("viewsource"@, key, w.source@, i.source@))
    &&& page.style.font is Some || page.style.colors ==> holds(doc, button("senderfmt"@, key, title, i.rich@)) && holds(doc, pressed(own) + button("senderfmt"@, key, title, i.rich@))
}

#[verifier::spinoff_prover]
#[verifier::rlimit(60)]
proof fn lemma_palette(m: &Message, page: &Page, own: bool)
    ensures
        has_buttons(palette_html(m, page, own), m, page, own),
{
    reveal(has_buttons);
    let key = key_of(m);
    let w = page.words;
    let i = page.icons;
    let last = if page.style.font is Some || page.style.colors {
        style_button(key, own, w, i)
    } else {
        seq![]
    };
    lemma_style(key, own, w, i);
    let x0 = "<span class=\"vireo-acts\">"@;
    lemma_action_button(key, "reply"@, i.reply@, w.reply@);
    lemma_grows(x0, action_button(key, "reply"@, i.reply@, w.reply@));
    let x1 = x0 + action_button(key, "reply"@, i.reply@, w.reply@);
    lemma_action_button(key, "replyall"@, i.reply_all@, w.reply_all@);
    lemma_grows(x1, action_button(key, "replyall"@, i.reply_all@, w.reply_all@));
    let x2 = x1 + action_button(key, "replyall"@, i.reply_all@, w.reply_all@);
    lemma_action_button(key, "forward"@, i.forward@, w.forward@);
    lemma_grows(x2, action_button(key, "forward"@, i.forward@, w.forward@));
    let x3 = x2 + action_button(key, "forward"@, i.forward@, w.forward@);
    lemma_toggle_read(key, w, i);
    lemma_grows(x3, toggle_read_button(key, w, i));
    let x4 = x3 + toggle_read_button(key, w, i);
    lemma_star(key, m.starred, w, i);
    lemma_grows(x4, star_button(key, m.starred, w, i));
    let x5 = x4 + star_button(key, m.starred, w, i);
    lemma_action_button(key, "archive"@, i.archive@, w.archive@);
    lemma_grows(x5, action_button(key, "archive"@, i.archive@, w.archive@));
    let x6 = x5 + action_button(key, "archive"@, i.archive@, w.archive@);
    lemma_action_button(key, "delete"@, i.trash@, w.delete@);
    lemma_grows(x6, action_button(key, "delete"@, i.trash@, w.delete@));
    let x7 = x6 + action_button(key, "delete"@, i.trash@, w.delete@);
    lemma_action_button(key, "spam"@, i.junk@, w.spam@);
    lemma_grows(x7, action_button(key, "spam"@, i.junk@, w.spam@));
    let x8 = x7 + action_button(key, "spam"@, i.junk@, w.spam@);
    lemma_action_button(key, "contact"@, i.contact@, w.contact@);
    lemma_grows(x8, action_button(key, "contact"@, i.contact@, w.contact@));
    let x9 = x8 + action_button(key, "contact"@, i.contact@, w.contact@);
    lemma_action_button(key, "viewsource"@, i.source@, w.source@);
    lemma_grows(x9, action_button(key, "viewsource"@, i.source@, w.source@));
    let x10 = x9 + action_button(key, "viewsource"@, i.source@, w.source@);
    lemma_grows(x10, last);
    let x11 = x10 + last;
    lemma_grows(x11, "</span>"@);
    assert(palette_html(m, page, own) == x11 + "</span>"@);
}

// ----- Cards -----

proof fn lemma_date(x: Seq<char>, date: Seq<char>)
    ensures
        holds(
            x + "<span class=\"vireo-date\">"@ + date + "</span></span>"@,
            "<span class=\"vireo-date\">"@ + date + "</span>"@,
        ),
{
    reveal_strlit("</span></span>");
    reveal_strlit("</span>");
    let p = "<span class=\"vireo-date\">"@ + date + "</span>"@;
    lemma_holds_part(x, p, "</span>"@);
    assert(x + "<span class=\"vireo-date\">"@ + date + "</span></span>"@ =~= x + p + "</span>"@);
}

/// A line of recipients.
pub open spec fn line_of(label: Seq<char>, list: Seq<char>) -> Seq<char> {
    "<div><b>"@ + label + ":</b> "@ + recipient_spans(address_entries(trim(list), 0, 0, false))
        + "</div>"@
}

proof fn lemma_recipients(m: &Message, shown: bool)
    ensures
        trim(m.to@).len() > 0 ==> holds(recipients_block(m, shown), line_of("To"@, m.to@)),
        trim(m.cc@).len() > 0 ==> holds(recipients_block(m, shown), line_of("Cc"@, m.cc@)),
{
    let to = recipients_line("To"@, m.to@);
    let cc = recipients_line("Cc"@, m.cc@);
    let lines = to + cc;
    reveal_strlit("</div>");
    lemma_grows(to, cc);
    lemma_grows(Seq::<char>::empty(), to);
    assert(Seq::<char>::empty() + to =~= to);
    let top = "<div class=\"vireo-rcpt\""@ + (if shown {
        ""@
    } else {
        " hidden"@
    }) + ">"@;
    if lines.len() > 0 {
        lemma_grows(top, lines);
        lemma_grows(top + lines, "</div>"@);
        assert(recipients_block(m, shown) == top + lines + "</div>"@);
    }
}

/// A tag as a card shows it.
pub open spec fn shown_tag(t: &TagChip) -> Seq<char> {
    "style=\"background:"@ + markup(t.color@) + ";color:"@ + t.text_color@ + "\">"@ + markup(t.label@)
        + "</span>"@
}

proof fn lemma_chip(t: &TagChip)
    ensures
        holds(chip_html(t), shown_tag(t)),
{
    reveal_strlit("<span class=\"vireo-tag\" style=\"background:");
    reveal_strlit("<span class=\"vireo-tag\" ");
    reveal_strlit("style=\"background:");
    let open = "<span class=\"vireo-tag\" "@;
    let none = Seq::<char>::empty();
    assert("<span class=\"vireo-tag\" style=\"background:"@ =~= open + "style=\"background:"@);
    assert(chip_html(t) =~= open + shown_tag(t) + none);
    lemma_holds_part(open, shown_tag(t), none);
}

proof fn lemma_chips(tags: Seq<TagChip>, keywords: Seq<Seq<char>>, n: nat, k: int)
    requires
        0 <= k < n <= tags.len(),
        tagged(keywords, tags[k].keyword@),
    ensures
        holds(chips_html(tags, keywords, n), shown_tag(&tags[k])),
    decreases n,
{
    let rest = chips_html(tags, keywords, (n - 1) as nat);
    let last = chip_html(&tags[n - 1]);
    lemma_grows(rest, last);
    if k == n - 1 {
        lemma_chip(&tags[k]);
    } else {
        lemma_chips(tags, keywords, (n - 1) as nat, k);
    }
}

/// A message without a keyword of any tag shows none.
pub proof fn untagged_shows_no_tag(tags: Seq<TagChip>, keywords: Seq<Seq<char>>, n: nat)
    requires
        n <= tags.len(),
        forall|k: int, j: int|
            0 <= k < n && 0 <= j < keywords.len() ==> lower_all(#[trigger] tags[k].keyword@) != lower_all(
                #[trigger] keywords[j],
            ),
    ensures
        chips_html(tags, keywords, n) == Seq::<char>::empty(),
    decreases n,
{
    if n > 0 {
        untagged_shows_no_tag(tags, keywords, (n - 1) as nat);
    }
}

/// Whether a message is marked with a keyword, in whatever case.
pub open spec fn marked_with(m: &Message, keyword: Seq<char>) -> bool {
    exists|j: int|
        0 <= j < m.keywords@.len() && lower_all(#[trigger] m.keywords@[j]@) == lower_all(keyword)
}

/// What a card shows of its message: who wrote it, from which address, when, to whom, in
/// which folder, with which tags, and its body.
pub open spec fn shows_message(
    doc: Seq<char>,
    m: &Message,
    page: &Page,
    facts: &CardFacts,
    label: Option<Seq<char>>,
    body: Seq<char>,
) -> bool {
    &&& holds(doc, "<span class=\"vireo-from\">"@ + content(m.from_name@) + "</span>"@)
    &&& m.from_addr@.len() > 0 ==> holds(doc, "data-mail=\""@ + markup(m.from_addr@) + "\""@)
    &&& m.from_addr@.len() > 0 ==> holds(doc, ">&lt;"@ + markup(m.from_addr@) + "&gt;</span>"@)
    &&& holds(doc, "<span class=\"vireo-date\">"@ + content(facts.date@) + "</span>"@)
    &&& trim(m.to@).len() > 0 ==> holds(doc, line_of("To"@, m.to@))
    &&& trim(m.cc@).len() > 0 ==> holds(doc, line_of("Cc"@, m.cc@))
    &&& label matches Some(l) ==> holds(doc, "<span class=\"vireo-folder\">"@ + content(l) + "</span>"@)
    &&& forall|k: int|
        0 <= k < page.tags@.len() && marked_with(m, page.tags@[k].keyword@) ==> holds(
            doc,
            #[trigger] shown_tag(&page.tags@[k]),
        )
    &&& m.unread ==> holds(
        doc,
        "<span class=\"vireo-dot\" data-key=\""@ + decimal(m.account_id as nat) + ":"@ + decimal(
            m.id as nat,
        ) + "\"></span>"@,
    )
    &&& holds(doc, body)
}

proof fn lemma_address(m: &Message)
    requires
        m.from_addr@.len() > 0,
    ensures
        holds(address_html(m), "data-mail=\""@ + markup(m.from_addr@) + "\""@),
        holds(address_html(m), ">&lt;"@ + markup(m.from_addr@) + "&gt;</span>"@),
{
    let a = markup(m.from_addr@);
    let one = "<span class=\"vireo-addr vireo-mail\" data-mail=\""@;
    let two = "\" data-addr=\"&lt;"@;
    let three = "&gt;\">&lt;"@;
    let four = "&gt;</span>"@;
    reveal_strlit("<span class=\"vireo-addr vireo-mail\" data-mail=\"");
    reveal_strlit("\" data-addr=\"&lt;");
    reveal_strlit("&gt;\">&lt;");
    reveal_strlit("&gt;</span>");
    reveal_strlit("<span class=\"vireo-addr vireo-mail\" ");
    reveal_strlit("data-mail=\"");
    reveal_strlit("\"");
    reveal_strlit(" data-addr=\"&lt;");
    reveal_strlit("&gt;\"");
    reveal_strlit(">&lt;");
    let x = "<span class=\"vireo-addr vireo-mail\" "@;
    let y = " data-addr=\"&lt;"@;
    let z = "&gt;\""@;
    let none = Seq::<char>::empty();
    assert(one =~= x + "data-mail=\""@);
    assert(two =~= "\""@ + y);
    assert(three =~= z + ">&lt;"@);
    let first = "data-mail=\""@ + a + "\""@;
    let second = ">&lt;"@ + a + four;
    assert(address_html(m) =~= x + first + (y + a + z + second));
    assert(address_html(m) =~= (x + first + y + a + z) + second + none);
    lemma_holds_part(x, first, y + a + z + second);
    lemma_holds_part(x + first + y + a + z, second, none);
}

proof fn lemma_through(doc: Seq<char>, part: Seq<char>, p: Seq<char>)
    requires
        holds(doc, part),
        holds(part, p),
    ensures
        holds(doc, p),
{
    lemma_find(doc, part, 0, doc.len() as int);
    let k = find(doc, part, 0, doc.len() as int)->0;
    let e = k + part.len();
    let n = doc.len() as int;
    assert(doc =~= doc.subrange(0, k) + part + doc.subrange(e, n));
    lemma_holds_inside(doc.subrange(0, k), part, doc.subrange(e, n), p);
}

/// The parts of a card.
#[verifier::opaque]
spec fn has_parts(
    doc: Seq<char>,
    m: &Message,
    page: &Page,
    facts: &CardFacts,
    label: Option<Seq<char>>,
    own: bool,
    body: Seq<char>,
) -> bool {
    &&& holds(doc, avatar_html(m, page.dark, facts.avatar))
    &&& holds(doc, unread_dot(m))
    &&& holds(doc, "<span class=\"vireo-from\">"@ + content(m.from_name@) + "</span>"@)
    &&& holds(doc, seals_html(key_of(m), &page.icons))
    &&& holds(doc, address_html(m))
    &&& holds(doc, chips_html(page.tags@, texts(m.keywords@), page.tags@.len()))
    &&& holds(doc, folder_html(label))
    &&& holds(doc, recipients_toggle(m, page, facts.recipients_label@))
    &&& holds(doc, "<span class=\"vireo-date\">"@ + content(facts.date@) + "</span>"@)
    &&& holds(doc, palette_toggle_html(key_of(m), page))
    &&& holds(doc, palette_html(m, page, own))
    &&& holds(doc, recipients_block(m, page.always_show_recipients))
    &&& holds(doc, body)
}

#[verifier::spinoff_prover]
#[verifier::rlimit(100)]
proof fn lemma_parts(
    m: &Message,
    page: &Page,
    facts: &CardFacts,
    label: Option<Seq<char>>,
    marked: bool,
    own: bool,
    body: Seq<char>,
)
    ensures
        has_parts(card_html(m, page, facts, label, marked, own, body), m, page, facts, label, own, body),
{
    reveal(card_html);
    reveal(has_parts);
    let x0 = "<section class=\"vireo-msg"@;
    let p1 = (if marked { " selected"@ } else { ""@ });
    lemma_grows(x0, p1);
    let x1 = x0 + p1;
    let p2 = (if m.unread { " unread"@ } else { ""@ });
    lemma_grows(x1, p2);
    let x2 = x1 + p2;
    let p3 = "\" data-key=\""@;
    lemma_grows(x2, p3);
    let x3 = x2 + p3;
    let p4 = decimal(m.account_id as nat);
    lemma_grows(x3, p4);
    let x4 = x3 + p4;
    let p5 = ":"@;
    lemma_grows(x4, p5);
    let x5 = x4 + p5;
    let p6 = decimal(m.id as nat);
    lemma_grows(x5, p6);
    let x6 = x5 + p6;
    let p7 = "\"><header class=\"vireo-msg-hdr\" data-key=\""@;
    lemma_grows(x6, p7);
    let x7 = x6 + p7;
    let p8 = decimal(m.account_id as nat);
    lemma_grows(x7, p8);
    let x8 = x7 + p8;
    let p9 = ":"@;
    lemma_grows(x8, p9);
    let x9 = x8 + p9;
    let p10 = decimal(m.id as nat);
    lemma_grows(x9, p10);
    let x10 = x9 + p10;
    let p11 = "\" title=\""@;
    lemma_grows(x10, p11);
    let x11 = x10 + p11;
    let p12 = page.words.open_hint@;
    lemma_grows(x11, p12);
    let x12 = x11 + p12;
    let p13 = "\"><div class=\"vireo-hdr-line\">"@;
    lemma_grows(x12, p13);
    let x13 = x12 + p13;
    let p14 = avatar_html(m, page.dark, facts.avatar);
    lemma_grows(x13, p14);
    let x14 = x13 + p14;
    let p15 = unread_dot(m);
    lemma_grows(x14, p15);
    let x15 = x14 + p15;
    let p16 = "<span class=\"vireo-from\">"@;
    lemma_grows(x15, p16);
    let x16 = x15 + p16;
    let p17 = content(m.from_name@);
    lemma_grows(x16, p17);
    let x17 = x16 + p17;
    let p18 = "</span>"@;
    lemma_grows(x17, p18);
    let x18 = x17 + p18;
    lemma_ends(x15, p16, p17, p18);
    let p19 = seals_html(key_of(m), &page.icons);
    lemma_grows(x18, p19);
    let x19 = x18 + p19;
    let p20 = address_html(m);
    lemma_grows(x19, p20);
    let x20 = x19 + p20;
    let p21 = "<span class=\"vireo-tags\" data-key=\""@;
    lemma_grows(x20, p21);
    let x21 = x20 + p21;
    let p22 = decimal(m.account_id as nat);
    lemma_grows(x21, p22);
    let x22 = x21 + p22;
    let p23 = ":"@;
    lemma_grows(x22, p23);
    let x23 = x22 + p23;
    let p24 = decimal(m.id as nat);
    lemma_grows(x23, p24);
    let x24 = x23 + p24;
    let p25 = "\">"@;
    lemma_grows(x24, p25);
    let x25 = x24 + p25;
    let p26 = chips_html(page.tags@, texts(m.keywords@), page.tags@.len());
    lemma_grows(x25, p26);
    let x26 = x25 + p26;
    let p27 = "</span><span class=\"vireo-hdr-meta\">"@;
    lemma_grows(x26, p27);
    let x27 = x26 + p27;
    let p28 = folder_html(label);
    lemma_grows(x27, p28);
    let x28 = x27 + p28;
    let p29 = recipients_toggle(m, page, facts.recipients_label@);
    lemma_grows(x28, p29);
    let x29 = x28 + p29;
    let p30 = "<span class=\"vireo-date\">"@;
    lemma_grows(x29, p30);
    let x30 = x29 + p30;
    let p31 = content(facts.date@);
    lemma_grows(x30, p31);
    let x31 = x30 + p31;
    let p32 = "</span></span>"@;
    lemma_grows(x31, p32);
    let x32 = x31 + p32;
    lemma_date(x29, content(facts.date@));
    assert(p32 == "</span></span>"@);
    let p33 = palette_toggle_html(key_of(m), page);
    lemma_grows(x32, p33);
    let x33 = x32 + p33;
    let p34 = palette_html(m, page, own);
    lemma_grows(x33, p34);
    let x34 = x33 + p34;
    let p35 = "</div>"@;
    lemma_grows(x34, p35);
    let x35 = x34 + p35;
    let p36 = recipients_block(m, page.always_show_recipients);
    lemma_grows(x35, p36);
    let x36 = x35 + p36;
    let p37 = "</header>"@;
    lemma_grows(x36, p37);
    let x37 = x36 + p37;
    let p38 = body;
    lemma_grows(x37, p38);
    let x38 = x37 + p38;
    let p39 = "</section>"@;
    lemma_grows(x38, p39);
    let x39 = x38 + p39;
    assert(x39 == card_html(m, page, facts, label, marked, own, body));
}

/// A card shows its message.
pub proof fn cards_show_their_message(
    m: &Message,
    page: &Page,
    facts: &CardFacts,
    label: Option<Seq<char>>,
    marked: bool,
    own: bool,
    body: Seq<char>,
)
    ensures
        shows_message(
            card_html(m, page, facts, label, marked, own, body),
            m,
            page,
            facts,
            label,
            body,
        ),
{
    let doc = card_html(m, page, facts, label, marked, own, body);
    lemma_parts(m, page, facts, label, marked, own, body);
    reveal(has_parts);
    let rcpt = recipients_block(m, page.always_show_recipients);
    let tags = page.tags@;
    let words = texts(m.keywords@);
    let chips = chips_html(tags, words, tags.len());
    lemma_recipients(m, page.always_show_recipients);
    if trim(m.to@).len() > 0 {
        lemma_through(doc, rcpt, line_of("To"@, m.to@));
    }
    if trim(m.cc@).len() > 0 {
        lemma_through(doc, rcpt, line_of("Cc"@, m.cc@));
    }
    if m.from_addr@.len() > 0 {
        lemma_address(m);
        lemma_through(doc, address_html(m), "data-mail=\""@ + markup(m.from_addr@) + "\""@);
        lemma_through(doc, address_html(m), ">&lt;"@ + markup(m.from_addr@) + "&gt;</span>"@);
    }
    assert forall|k: int| 0 <= k < tags.len() && marked_with(m, tags[k].keyword@) implies holds(
        doc,
        #[trigger] shown_tag(&tags[k]),
    ) by {
        let j = choose|j: int|
            0 <= j < m.keywords@.len() && lower_all(#[trigger] m.keywords@[j]@) == lower_all(
                tags[k].keyword@,
            );
        assert(words[j] == m.keywords@[j]@);
        lemma_chips(tags, words, tags.len(), k);
        lemma_through(doc, chips, shown_tag(&tags[k]));
    }
}

/// Each action of a card is offered by a button with the action's title and icon, and a
/// click on it is read as that action, of that message.
pub proof fn buttons_do_what_they_say(
    m: &Message,
    page: &Page,
    facts: &CardFacts,
    label: Option<Seq<char>>,
    marked: bool,
    own: bool,
    body: Seq<char>,
    action: RowAction,
)
    ensures
        offers(
            card_html(m, page, facts, label, marked, own, body),
            key_of(m),
            title_of(action, page.words),
            inside_of(action, page.icons),
            ScriptReport::Action { action, key: key_of(m) },
        ),
{
    let doc = card_html(m, page, facts, label, marked, own, body);
    let key = key_of(m);
    let palette = palette_html(m, page, own);
    let title = title_of(action, page.words);
    let inner = inside_of(action, page.icons);
    let verb = match action {
        RowAction::Reply => "reply"@,
        RowAction::ReplyAll => "replyall"@,
        RowAction::Forward => "forward"@,
        RowAction::ToggleStar => "star"@,
        RowAction::ToggleRead => "toggleread"@,
        RowAction::Spam => "spam"@,
        RowAction::Archive => "archive"@,
        RowAction::Delete => "delete"@,
        RowAction::ViewSource => "viewsource"@,
    };
    lemma_parts(m, page, facts, label, marked, own, body);
    assert(holds(doc, palette)) by {
        reveal(has_parts);
    }
    lemma_palette(m, page, own);
    assert(holds(palette, button(verb, key, title, inner))) by {
        reveal(has_buttons);
    }
    lemma_through(doc, palette, button(verb, key, title, inner));
    assert(asks_for(verb, action));
    actions_are_read(verb, action, key);
}

/// A card offers to make its sender a contact, and, where the reader has a style of its
/// own, to show the message in its sender's instead or back in the reader's; its star is
/// pressed where the message has one, and the style's button where it shows its sender's.
pub proof fn marks_show_on_buttons(
    m: &Message,
    page: &Page,
    facts: &CardFacts,
    label: Option<Seq<char>>,
    marked: bool,
    own: bool,
    body: Seq<char>,
)
    ensures
        ({
            let doc = card_html(m, page, facts, label, marked, own, body);
            let key = key_of(m);
            let w = page.words;
            let i = page.icons;
            let title = if own {
                w.own_style@
            } else {
                w.sender_style@
            };
            &&& offers(doc, key, w.contact@, i.contact@, ScriptReport::Contact { key })
            &&& holds(doc, pressed(m.starred) + button("star"@, key, w.flag@, i.star@))
            &&& page.style.font is Some || page.style.colors ==> {
                &&& offers(doc, key, title, i.rich@, ScriptReport::SenderStyle { key })
                &&& holds(doc, pressed(own) + button("senderfmt"@, key, title, i.rich@))
            }
        }),
{
    let doc = card_html(m, page, facts, label, marked, own, body);
    let key = key_of(m);
    let w = page.words;
    let i = page.icons;
    let palette = palette_html(m, page, own);
    let title = if own {
        w.own_style@
    } else {
        w.sender_style@
    };
    lemma_parts(m, page, facts, label, marked, own, body);
    assert(holds(doc, palette)) by {
        reveal(has_parts);
    }
    lemma_palette(m, page, own);
    reveal(has_buttons);
    marks_are_read(key);
    lemma_through(doc, palette, button("contact"@, key, w.contact@, i.contact@));
    lemma_through(doc, palette, pressed(m.starred) + button("star"@, key, w.flag@, i.star@));
    if page.style.font is Some || page.style.colors {
        lemma_through(doc, palette, button("senderfmt"@, key, title, i.rich@));
        lemma_through(doc, palette, pressed(own) + button("senderfmt"@, key, title, i.rich@));
    }
}

/// A card begins with how its message stands: selected or not, read or not, and its key.
pub proof fn cards_say_how_they_stand(
    m: &Message,
    page: &Page,
    facts: &CardFacts,
    label: Option<Seq<char>>,
    marked: bool,
    own: bool,
    body: Seq<char>,
)
    ensures
        starts(
            card_html(m, page, facts, label, marked, own, body),
            "<section class=\"vireo-msg"@ + (if marked {
                " selected"@
            } else {
                ""@
            }) + (if m.unread {
                " unread"@
            } else {
                ""@
            }) + "\" data-key=\""@ + decimal(m.account_id as nat) + ":"@ + decimal(m.id as nat)
                + "\">"@,
        ),
{
    reveal(card_html);
    reveal_strlit("\">");
    reveal_strlit("\"><header class=\"vireo-msg-hdr\" data-key=\"");
    let x0 = "<section class=\"vireo-msg"@;
    let x1 = x0 + (if marked { " selected"@ } else { ""@ });
    let x2 = x1 + (if m.unread { " unread"@ } else { ""@ });
    let x3 = x2 + "\" data-key=\""@;
    let x4 = x3 + decimal(m.account_id as nat);
    let x5 = x4 + ":"@;
    let x6 = x5 + decimal(m.id as nat);
    let x7 = x6 + "\"><header class=\"vireo-msg-hdr\" data-key=\""@;
    let begun = x6 + "\">"@;
    assert(x7.subrange(0, begun.len() as int) =~= begun);
    let x8 = x7 + decimal(m.account_id as nat);
    lemma_begins(x7, decimal(m.account_id as nat), begun);
    let x9 = x8 + ":"@;
    lemma_begins(x8, ":"@, begun);
    let x10 = x9 + decimal(m.id as nat);
    lemma_begins(x9, decimal(m.id as nat), begun);
    let x11 = x10 + "\" title=\""@;
    lemma_begins(x10, "\" title=\""@, begun);
    let x12 = x11 + page.words.open_hint@;
    lemma_begins(x11, page.words.open_hint@, begun);
    let x13 = x12 + "\"><div class=\"vireo-hdr-line\">"@;
    lemma_begins(x12, "\"><div class=\"vireo-hdr-line\">"@, begun);
    let x14 = x13 + avatar_html(m, page.dark, facts.avatar);
    lemma_begins(x13, avatar_html(m, page.dark, facts.avatar), begun);
    let x15 = x14 + unread_dot(m);
    lemma_begins(x14, unread_dot(m), begun);
    let x16 = x15 + "<span class=\"vireo-from\">"@;
    lemma_begins(x15, "<span class=\"vireo-from\">"@, begun);
    let x17 = x16 + content(m.from_name@);
    lemma_begins(x16, content(m.from_name@), begun);
    let x18 = x17 + "</span>"@;
    lemma_begins(x17, "</span>"@, begun);
    let x19 = x18 + seals_html(key_of(m), &page.icons);
    lemma_begins(x18, seals_html(key_of(m), &page.icons), begun);
    let x20 = x19 + address_html(m);
    lemma_begins(x19, address_html(m), begun);
    let x21 = x20 + "<span class=\"vireo-tags\" data-key=\""@;
    lemma_begins(x20, "<span class=\"vireo-tags\" data-key=\""@, begun);
    let x22 = x21 + decimal(m.account_id as nat);
    lemma_begins(x21, decimal(m.account_id as nat), begun);
    let x23 = x22 + ":"@;
    lemma_begins(x22, ":"@, begun);
    let x24 = x23 + decimal(m.id as nat);
    lemma_begins(x23, decimal(m.id as nat), begun);
    let x25 = x24 + "\">"@;
    lemma_begins(x24, "\">"@, begun);
    let x26 = x25 + chips_html(page.tags@, texts(m.keywords@), page.tags@.len());
    lemma_begins(x25, chips_html(page.tags@, texts(m.keywords@), page.tags@.len()), begun);
    let x27 = x26 + "</span><span class=\"vireo-hdr-meta\">"@;
    lemma_begins(x26, "</span><span class=\"vireo-hdr-meta\">"@, begun);
    let x28 = x27 + folder_html(label);
    lemma_begins(x27, folder_html(label), begun);
    let x29 = x28 + recipients_toggle(m, page, facts.recipients_label@);
    lemma_begins(x28, recipients_toggle(m, page, facts.recipients_label@), begun);
    let x30 = x29 + "<span class=\"vireo-date\">"@;
    lemma_begins(x29, "<span class=\"vireo-date\">"@, begun);
    let x31 = x30 + content(facts.date@);
    lemma_begins(x30, content(facts.date@), begun);
    let x32 = x31 + "</span></span>"@;
    lemma_begins(x31, "</span></span>"@, begun);
    let x33 = x32 + palette_toggle_html(key_of(m), page);
    lemma_begins(x32, palette_toggle_html(key_of(m), page), begun);
    let x34 = x33 + palette_html(m, page, own);
    lemma_begins(x33, palette_html(m, page, own), begun);
    let x35 = x34 + "</div>"@;
    lemma_begins(x34, "</div>"@, begun);
    let x36 = x35 + recipients_block(m, page.always_show_recipients);
    lemma_begins(x35, recipients_block(m, page.always_show_recipients), begun);
    let x37 = x36 + "</header>"@;
    lemma_begins(x36, "</header>"@, begun);
    let x38 = x37 + body;
    lemma_begins(x37, body, begun);
    let x39 = x38 + "</section>"@;
    lemma_begins(x38, "</section>"@, begun);
    assert(x39 == card_html(m, page, facts, label, marked, own, body));
}

proof fn lemma_begins(x: Seq<char>, y: Seq<char>, p: Seq<char>)
    requires
        starts(x, p),
    ensures
        starts(x + y, p),
{
    assert((x + y).subrange(0, p.len() as int) =~= x.subrange(0, p.len() as int));
}

// ----- Documents -----

/// The document of a conversation holds the card of each of its messages.
pub proof fn every_message_has_its_card(
    thread: Seq<Message>,
    facts: Seq<CardFacts>,
    labels: Map<u64, String>,
    heights: Map<u64, u32>,
    selected: Seq<(u32, u32)>,
    sender_style: Set<u64>,
    page: &Page,
    k: int,
)
    requires
        0 <= k < thread.len(),
    ensures
        holds(
            thread_document(thread, facts, labels, heights, selected, sender_style, page),
            card_at(thread, facts, labels, heights, selected, sender_style, page, k),
        ),
{
    let all = cards(thread, facts, labels, heights, selected, sender_style, page, thread.len());
    let doc = thread_document(thread, facts, labels, heights, selected, sender_style, page);
    let card = card_at(thread, facts, labels, heights, selected, sender_style, page, k);
    lemma_cards(thread, facts, labels, heights, selected, sender_style, page, thread.len(), k);
    lemma_document(
        all,
        opt_text(*page.nonce),
        page.dark,
        page.accent@,
        page.grounds,
        page_ground(thread, page.single_message_card, page.grounds),
        carded(thread, page.single_message_card),
        lone_and_plain(thread, page.single_message_card),
    );
    lemma_through(doc, all, card);
}

proof fn lemma_cards(
    thread: Seq<Message>,
    facts: Seq<CardFacts>,
    labels: Map<u64, String>,
    heights: Map<u64, u32>,
    selected: Seq<(u32, u32)>,
    sender_style: Set<u64>,
    page: &Page,
    n: nat,
    k: int,
)
    requires
        0 <= k < n <= thread.len(),
    ensures
        holds(
            cards(thread, facts, labels, heights, selected, sender_style, page, n),
            card_at(thread, facts, labels, heights, selected, sender_style, page, k),
        ),
    decreases n,
{
    let less = cards(thread, facts, labels, heights, selected, sender_style, page, (n - 1) as nat);
    let last = card_at(thread, facts, labels, heights, selected, sender_style, page, n - 1);
    lemma_grows(less, last);
    if k < n - 1 {
        lemma_cards(thread, facts, labels, heights, selected, sender_style, page, (n - 1) as nat, k);
    }
}

proof fn lemma_document(
    sections: Seq<char>,
    nonce: Option<Seq<char>>,
    dark: bool,
    accent: Seq<char>,
    grounds: &Grounds,
    page: Seq<char>,
    are_carded: bool,
    plain: bool,
)
    ensures
        holds(document(sections, nonce, dark, accent, grounds, page, are_carded, plain), sections),
{
    let top = opening(nonce, dark, sheet(dark, accent, grounds, page, plain)) + script_html(nonce);
    let start = "</head><body"@ + (if are_carded {
        " class=\"vireo-conv\""@
    } else {
        ""@
    }) + ">"@;
    lemma_grows(start, sections);
    lemma_grows(start + sections, "</body></html>"@);
    assert(closing(are_carded, sections) == start + sections + "</body></html>"@);
    lemma_grows(top, closing(are_carded, sections));
}

} // verus!
