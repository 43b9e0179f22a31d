//! From the reader's state to the documents it shows and prints.

use std::collections::{HashMap, HashSet};

use vstd::prelude::*;

use crate::colors::{long_channel, opt_texts, read_long};
use crate::document::{
    address_html, avatar_html, card_body, card_html, cards, chips_html, conversation_document,
    height_of, is_tagged, lone_and_plain, page_ground, palette_html,
    palette_toggle_html, plain_rules, reader_ground, recipients_block, recipients_toggle,
    sheet, tag_chips_html, tagged, thread_document, unread_dot, CardFacts, Grounds, Icons, Page, TagChip,
    Words,
};
use crate::frame::{bare_document, frame_base, inject_reader_style, styled};
use crate::message_view::{
    Canvas, Checks, Content, Drawing, Finding, Labels, Looks, Marks, MessageView, ReadMark, ReaderState,
    SenderTrust, Tags,
};
use crate::models::{copy_strings, key_of, message_key, packed, Mail, Message};
use crate::print::{
    article, articles, block_class, message_header, print_block_class, print_document,
    print_header_html, print_message_header_html, printed_header, printed_page, replace_once,
    replaced_once, PrintedMessage,
};
use crate::reader_style::{reader_style_css, style_rules, ReaderStyle};
use crate::text::{
    chars_of, copy_of, decimal, decimal_string, decimals_differ, is_blank_text, opt_text, same, texts, trim,
};

verus! {

broadcast use vstd::std_specs::hash::group_hash_axioms;

// ----- What a document depends on -----

pub open spec fn flag(b: bool) -> Seq<char> {
    if b {
        "1"@
    } else {
        "0"@
    }
}

pub open spec fn read_mark_mark(p: ReadMark) -> Seq<char> {
    match p {
        ReadMark::Shown => "0"@,
        ReadMark::Delay => "1"@,
        ReadMark::Manual => "2"@,
    }
}

pub open spec fn text_or_nothing(s: Option<Seq<char>>) -> Seq<char> {
    match s {
        Some(s) => s,
        None => seq![],
    }
}

/// The marks of the page that the messages stand on, and of what the reader lays over
/// them.
pub open spec fn page_marks(
    s: ReaderState,
    dark: bool,
    accent: Seq<char>,
    grounds: &Grounds,
) -> Seq<Seq<char>> {
    ground_marks(s, dark, grounds) + over_marks(s, dark, accent)
}

/// The marks of what the reader lays over the messages.
pub open spec fn over_marks(s: ReaderState, dark: bool, accent: Seq<char>) -> Seq<Seq<char>> {
    seq![
        accent,
        flag(s.reader_style.font is Some),
        flag(s.reader_style.colors),
        style_rules(&s.reader_style, dark, accent, ":root"@),
    ]
}

/// The marks of the page that the messages stand on.
pub open spec fn ground_marks(s: ReaderState, dark: bool, grounds: &Grounds) -> Seq<Seq<char>> {
    seq![
        flag(dark),
        grounds.ground@,
        grounds.page@,
        grounds.chrome@,
        flag(s.content.remote_allowed),
        flag(s.looks.card_actions_hover),
        flag(s.looks.card_actions_auto),
        decimal(s.looks.palette_collapse_secs as nat),
        flag(s.looks.always_show_recipients),
        flag(s.looks.single_message_card),
        read_mark_mark(s.looks.read_mark),
    ]
}

pub open spec fn label_of(labels: Map<u64, String>, key: u64) -> Option<Seq<char>> {
    if labels.contains_key(key) {
        Some(labels[key]@)
    } else {
        None
    }
}

/// The marks of what a message says.
pub open spec fn letter_marks(m: Mail) -> Seq<Seq<char>> {
    seq![
        decimal(m.account_id as nat),
        decimal(m.id as nat),
        flag(m.unread),
        m.from_name,
        m.from_addr,
        m.to,
        m.cc,
        m.body,
    ]
}

/// The marks of what a message's card shows besides, with what is found out elsewhere.
pub open spec fn card_marks(s: ReaderState, m: Mail, facts: CardFacts) -> Seq<Seq<char>> {
    let key = packed(m.key());
    let label = label_of(s.content.folder_labels, key);
    seq![
        facts.date@,
        flag(s.marks.no_autoread.contains(key)),
        flag(s.marks.sender_style.contains(key)),
        flag(label is Some),
        text_or_nothing(label),
        flag(m.starred),
        chips_html(s.labels.tags, m.keywords, s.labels.tags.len()),
        flag(facts.avatar is Some),
        text_or_nothing(opt_text(facts.avatar)),
        facts.recipients_label@,
    ]
}

/// The marks of one message.
pub open spec fn mail_marks(s: ReaderState, m: Mail, facts: CardFacts) -> Seq<Seq<char>> {
    letter_marks(m) + card_marks(s, m, facts)
}

/// The marks of the first `n` messages.
pub open spec fn thread_marks(s: ReaderState, facts: Seq<CardFacts>, n: nat) -> Seq<Seq<char>>
    decreases n,
{
    if n == 0 {
        seq![]
    } else {
        thread_marks(s, facts, (n - 1) as nat) + mail_marks(
            s,
            s.content.thread[n - 1],
            facts[n - 1],
        )
    }
}

/// Everything that the document on screen depends on, in the order of the thread. What
/// is put in place by the document's own script is no part of it: which cards are
/// selected, and how high the frames are.
pub open spec fn fingerprint(
    s: ReaderState,
    dark: bool,
    accent: Seq<char>,
    grounds: &Grounds,
    facts: Seq<CardFacts>,
) -> Seq<Seq<char>> {
    page_marks(s, dark, accent, grounds) + thread_marks(s, facts, s.content.thread.len())
}

proof fn lemma_flags_differ(a: bool, b: bool)
    ensures
        flag(a) == flag(b) <==> a == b,
{
    reveal_strlit("0");
    reveal_strlit("1");
    assert("0"@[0] != "1"@[0]);
}

proof fn lemma_thread_marks(s: ReaderState, facts: Seq<CardFacts>, n: nat)
    ensures
        thread_marks(s, facts, n).len() == 18 * n,
    decreases n,
{
    if n > 0 {
        lemma_thread_marks(s, facts, (n - 1) as nat);
    }
}

proof fn lemma_mail_marks(
    s: ReaderState,
    t: ReaderState,
    f: Seq<CardFacts>,
    g: Seq<CardFacts>,
    n: nat,
    k: int,
)
    requires
        thread_marks(s, f, n) == thread_marks(t, g, n),
        0 <= k < n,
    ensures
        mail_marks(s, s.content.thread[k], f[k]) == mail_marks(t, t.content.thread[k], g[k]),
    decreases n,
{
    let m = (n - 1) as nat;
    lemma_thread_marks(s, f, m);
    lemma_thread_marks(t, g, m);
    let a = thread_marks(s, f, n);
    let b = thread_marks(t, g, n);
    assert(a.subrange(0, 18 * m as int) =~= thread_marks(s, f, m));
    assert(b.subrange(0, 18 * m as int) =~= thread_marks(t, g, m));
    assert(a.subrange(18 * m as int, 18 * n as int) =~= mail_marks(
        s,
        s.content.thread[n - 1],
        f[n - 1],
    ));
    assert(b.subrange(18 * m as int, 18 * n as int) =~= mail_marks(
        t,
        t.content.thread[n - 1],
        g[n - 1],
    ));
    if k < m {
        lemma_mail_marks(s, t, f, g, m, k);
    }
}

proof fn lemma_same_parts(
    s: ReaderState,
    t: ReaderState,
    dark: bool,
    was_dark: bool,
    accent: Seq<char>,
    old_accent: Seq<char>,
    grounds: &Grounds,
    old_grounds: &Grounds,
    facts: Seq<CardFacts>,
    old_facts: Seq<CardFacts>,
)
    requires
        fingerprint(s, dark, accent, grounds, facts) == fingerprint(
            t,
            was_dark,
            old_accent,
            old_grounds,
            old_facts,
        ),
    ensures
        page_marks(s, dark, accent, grounds) == page_marks(t, was_dark, old_accent, old_grounds),
        s.content.thread.len() == t.content.thread.len(),
        thread_marks(s, facts, s.content.thread.len()) == thread_marks(
            t,
            old_facts,
            s.content.thread.len(),
        ),
{
    let n = s.content.thread.len();
    let o = t.content.thread.len();
    lemma_thread_marks(s, facts, n);
    lemma_thread_marks(t, old_facts, o);
    let page = page_marks(s, dark, accent, grounds);
    let old_page = page_marks(t, was_dark, old_accent, old_grounds);
    assert(page.len() == 15 && old_page.len() == 15);
    lemma_parts(page, thread_marks(s, facts, n));
    lemma_parts(old_page, thread_marks(t, old_facts, o));
}

proof fn lemma_parts(a: Seq<Seq<char>>, b: Seq<Seq<char>>)
    ensures
        (a + b).len() == a.len() + b.len(),
        (a + b).subrange(0, a.len() as int) == a,
        (a + b).subrange(a.len() as int, (a + b).len() as int) == b,
{
    assert((a + b).subrange(0, a.len() as int) =~= a);
    assert((a + b).subrange(a.len() as int, (a + b).len() as int) =~= b);
}

proof fn lemma_same_page(
    s: ReaderState,
    t: ReaderState,
    dark: bool,
    was_dark: bool,
    accent: Seq<char>,
    old_accent: Seq<char>,
    grounds: &Grounds,
    old_grounds: &Grounds,
)
    requires
        page_marks(s, dark, accent, grounds) == page_marks(t, was_dark, old_accent, old_grounds),
    ensures
        dark == was_dark,
        accent == old_accent,
        grounds.ground@ == old_grounds.ground@,
        grounds.page@ == old_grounds.page@,
        grounds.chrome@ == old_grounds.chrome@,
        s.content.remote_allowed == t.content.remote_allowed,
        s.looks.always_show_recipients == t.looks.always_show_recipients,
        s.looks.single_message_card == t.looks.single_message_card,
        s.reader_style.font is Some == t.reader_style.font is Some,
        s.reader_style.colors == t.reader_style.colors,
        style_rules(&s.reader_style, dark, accent, ":root"@) == style_rules(
            &t.reader_style,
            dark,
            accent,
            ":root"@,
        ),
{
    let a = page_marks(s, dark, accent, grounds);
    let b = page_marks(t, was_dark, old_accent, old_grounds);
    assert(a[0] == b[0] && a[1] == b[1] && a[2] == b[2] && a[3] == b[3] && a[4] == b[4]);
    assert(a[8] == b[8] && a[9] == b[9] && a[11] == b[11] && a[12] == b[12] && a[13] == b[13]
        && a[14] == b[14]);
    lemma_flags_differ(dark, was_dark);
    lemma_flags_differ(s.content.remote_allowed, t.content.remote_allowed);
    lemma_flags_differ(s.looks.always_show_recipients, t.looks.always_show_recipients);
    lemma_flags_differ(s.looks.single_message_card, t.looks.single_message_card);
    lemma_flags_differ(s.reader_style.font is Some, t.reader_style.font is Some);
    lemma_flags_differ(s.reader_style.colors, t.reader_style.colors);
}

/// Whether two messages look alike in a document, with what is found out of them
/// elsewhere.
pub open spec fn alike(
    s: ReaderState,
    t: ReaderState,
    m: Mail,
    o: Mail,
    facts: CardFacts,
    old_facts: CardFacts,
) -> bool {
    let key = packed(m.key());
    &&& m.key() == o.key()
    &&& m.unread == o.unread
    &&& m.from_name == o.from_name
    &&& m.from_addr == o.from_addr
    &&& m.to == o.to
    &&& m.cc == o.cc
    &&& m.body == o.body
    &&& m.starred == o.starred
    &&& chips_html(s.labels.tags, m.keywords, s.labels.tags.len()) == chips_html(
        t.labels.tags,
        o.keywords,
        t.labels.tags.len(),
    )
    &&& facts.date@ == old_facts.date@
    &&& opt_text(facts.avatar) == opt_text(old_facts.avatar)
    &&& facts.recipients_label@ == old_facts.recipients_label@
    &&& s.marks.sender_style.contains(key) == t.marks.sender_style.contains(key)
    &&& label_of(s.content.folder_labels, key) == label_of(t.content.folder_labels, key)
}

proof fn lemma_same_mail(
    s: ReaderState,
    t: ReaderState,
    m: Mail,
    o: Mail,
    facts: CardFacts,
    old_facts: CardFacts,
)
    requires
        mail_marks(s, m, facts) == mail_marks(t, o, old_facts),
    ensures
        alike(s, t, m, o, facts, old_facts),
{
    let x = mail_marks(s, m, facts);
    let y = mail_marks(t, o, old_facts);
    assert(x[0] == y[0] && x[1] == y[1] && x[2] == y[2] && x[3] == y[3] && x[4] == y[4] && x[5]
        == y[5] && x[6] == y[6] && x[7] == y[7] && x[8] == y[8]);
    assert(x[10] == y[10] && x[11] == y[11] && x[12] == y[12] && x[13] == y[13] && x[14] == y[14]
        && x[15] == y[15] && x[16] == y[16] && x[17] == y[17]);
    decimals_differ(m.account_id as nat, o.account_id as nat);
    decimals_differ(m.id as nat, o.id as nat);
    let key = packed(m.key());
    lemma_flags_differ(m.unread, o.unread);
    lemma_flags_differ(
        s.marks.sender_style.contains(key),
        t.marks.sender_style.contains(key),
    );
    lemma_flags_differ(
        label_of(s.content.folder_labels, key) is Some,
        label_of(t.content.folder_labels, key) is Some,
    );
    lemma_flags_differ(m.starred, o.starred);
    lemma_flags_differ(facts.avatar is Some, old_facts.avatar is Some);
}

/// A document that is taken for the one on screen shows the same messages: as many of
/// them, and each alike, with remote content allowed or not just as before.
pub proof fn same_fingerprint_same_messages(
    s: ReaderState,
    t: ReaderState,
    dark: bool,
    was_dark: bool,
    accent: Seq<char>,
    old_accent: Seq<char>,
    grounds: &Grounds,
    old_grounds: &Grounds,
    facts: Seq<CardFacts>,
    old_facts: Seq<CardFacts>,
    k: int,
)
    requires
        fingerprint(s, dark, accent, grounds, facts) == fingerprint(
            t,
            was_dark,
            old_accent,
            old_grounds,
            old_facts,
        ),
        0 <= k < s.content.thread.len(),
    ensures
        dark == was_dark,
        s.content.remote_allowed == t.content.remote_allowed,
        s.content.thread.len() == t.content.thread.len(),
        alike(s, t, s.content.thread[k], t.content.thread[k], facts[k], old_facts[k]),
{
    lemma_same_parts(
        s,
        t,
        dark,
        was_dark,
        accent,
        old_accent,
        grounds,
        old_grounds,
        facts,
        old_facts,
    );
    lemma_mail_marks(s, t, facts, old_facts, s.content.thread.len(), k);
    lemma_same_page(s, t, dark, was_dark, accent, old_accent, grounds, old_grounds);
    lemma_same_mail(
        s,
        t,
        s.content.thread[k],
        t.content.thread[k],
        facts[k],
        old_facts[k],
    );
}

/// Whether two pages look alike but for what is laid over the messages.
spec fn same_page(p: &Page, q: &Page) -> bool {
    &&& p.accent@ == q.accent@
    &&& p.restrict == q.restrict
    &&& p.dark == q.dark
    &&& p.always_show_recipients == q.always_show_recipients
    &&& p.single_message_card == q.single_message_card
    &&& p.style.font is Some == q.style.font is Some
    &&& p.style.colors == q.style.colors
    &&& style_rules(p.style, p.dark, p.accent@, ":root"@) == style_rules(
        q.style,
        q.dark,
        q.accent@,
        ":root"@,
    )
    &&& p.grounds.ground@ == q.grounds.ground@
    &&& p.grounds.page@ == q.grounds.page@
    &&& p.grounds.chrome@ == q.grounds.chrome@
    &&& p.words == q.words
    &&& p.icons == q.icons
    &&& opt_text(*p.nonce) == opt_text(*q.nonce)
}

/// Whether two messages make the same card, on their pages.
spec fn same_card(m: &Message, o: &Message, p: &Page, q: &Page, f: &CardFacts, g: &CardFacts) -> bool {
    &&& m.account_id == o.account_id
    &&& m.id == o.id
    &&& m.unread == o.unread
    &&& m.from_name@ == o.from_name@
    &&& m.from_addr@ == o.from_addr@
    &&& m.to@ == o.to@
    &&& m.cc@ == o.cc@
    &&& m.body@ == o.body@
    &&& m.starred == o.starred
    &&& chips_html(p.tags@, texts(m.keywords@), p.tags@.len()) == chips_html(
        q.tags@,
        texts(o.keywords@),
        q.tags@.len(),
    )
    &&& f.date@ == g.date@
    &&& opt_text(f.avatar) == opt_text(g.avatar)
    &&& f.recipients_label@ == g.recipients_label@
    &&& opt_texts(f.colors@) == opt_texts(g.colors@)
}

proof fn lemma_card_body(
    m: &Message,
    o: &Message,
    p: &Page,
    q: &Page,
    f: &CardFacts,
    g: &CardFacts,
    height: Option<u32>,
    own: bool,
)
    requires
        same_page(p, q),
        same_card(m, o, p, q, f, g),
    ensures
        card_body(m, p, f, height, own) == card_body(o, q, g, height, own),
{
    reveal(card_body);
}

proof fn lemma_card(
    m: &Message,
    o: &Message,
    p: &Page,
    q: &Page,
    f: &CardFacts,
    g: &CardFacts,
    label: Option<Seq<char>>,
    marked: bool,
    own: bool,
    body: Seq<char>,
)
    requires
        same_page(p, q),
        same_card(m, o, p, q, f, g),
    ensures
        card_html(m, p, f, label, marked, own, body) == card_html(
            o,
            q,
            g,
            label,
            marked,
            own,
            body,
        ),
{
    reveal(card_html);
    assert(avatar_html(m, p.dark, f.avatar) == avatar_html(o, q.dark, g.avatar));
    assert(unread_dot(m) == unread_dot(o));
    assert(address_html(m) == address_html(o));
    assert(recipients_toggle(m, p, f.recipients_label@) == recipients_toggle(
        o,
        q,
        g.recipients_label@,
    ));
    assert(palette_toggle_html(key_of(m), p) == palette_toggle_html(key_of(o), q));
    assert(palette_html(m, p, own) == palette_html(o, q, own));
    assert(recipients_block(m, p.always_show_recipients) == recipients_block(
        o,
        q.always_show_recipients,
    ));
}

/// Everything of two readers on which their documents depend, but for their messages.
spec fn same_setting(v: &MessageView, w: &MessageView, a: &Surroundings, b: &Surroundings) -> bool {
    &&& same_page(&page_of(v, a), &page_of(w, b))
    &&& v.marks.frame_heights@ == w.marks.frame_heights@
    &&& v.marks.selected_cards@ == w.marks.selected_cards@
    &&& v.content.thread@.len() == w.content.thread@.len()
}

proof fn lemma_cards(
    v: &MessageView,
    w: &MessageView,
    facts: Seq<CardFacts>,
    old_facts: Seq<CardFacts>,
    a: &Surroundings,
    b: &Surroundings,
    n: nat,
)
    requires
        same_setting(v, w, a, b),
        n <= v.content.thread@.len(),
        forall|k: int|
            0 <= k < n ==> alike(
                v@,
                w@,
                v@.content.thread[k],
                w@.content.thread[k],
                #[trigger] facts[k],
                old_facts[k],
            ) && opt_texts(facts[k].colors@) == opt_texts(old_facts[k].colors@),
    ensures
        cards(
            v.content.thread@,
            facts,
            v.content.folder_labels@,
            v.marks.frame_heights@,
            v.marks.selected_cards@,
            v.marks.sender_style@,
            &page_of(v, a),
            n,
        ) == cards(
            w.content.thread@,
            old_facts,
            w.content.folder_labels@,
            w.marks.frame_heights@,
            w.marks.selected_cards@,
            w.marks.sender_style@,
            &page_of(w, b),
            n,
        ),
    decreases n,
{
    if n > 0 {
        let k = n - 1;
        lemma_cards(v, w, facts, old_facts, a, b, k as nat);
        let m = &v.content.thread@[k];
        let o = &w.content.thread@[k];
        assert(v@.content.thread[k] == m@);
        assert(w@.content.thread[k] == o@);
        assert(alike(v@, w@, m@, o@, facts[k], old_facts[k]));
        let p = page_of(v, a);
        let q = page_of(w, b);
        let key = packed(key_of(m));
        let own = v.marks.sender_style@.contains(key);
        let height = height_of(v.marks.frame_heights@, m);
        let marked = v.content.thread@.len() > 1 && v.marks.selected_cards@.contains(key_of(m));
        assert(same_card(m, o, &p, &q, &facts[k], &old_facts[k]));
        lemma_card_body(m, o, &p, &q, &facts[k], &old_facts[k], height, own);
        lemma_card(
            m,
            o,
            &p,
            &q,
            &facts[k],
            &old_facts[k],
            crate::document::label_of(v.content.folder_labels@, m),
            marked,
            own,
            card_body(m, &p, &facts[k], height, own),
        );
        assert(crate::document::label_of(v.content.folder_labels@, m)
            == crate::document::label_of(w.content.folder_labels@, o));
    }
}

/// A document that is taken for the one on screen is the one on screen: with one
/// fingerprint two readers have one document, under the same words, icons and password
/// and with the same new colours, as long as the same cards are selected and the frames
/// are as high, which is put in place without another document.
pub proof fn same_fingerprint_same_document(
    v: &MessageView,
    w: &MessageView,
    facts: Seq<CardFacts>,
    old_facts: Seq<CardFacts>,
    around: &Surroundings,
    old_around: &Surroundings,
)
    requires
        fingerprint(v@, around.dark, around.accent@, &around.grounds, facts) == fingerprint(
            w@,
            old_around.dark,
            old_around.accent@,
            &old_around.grounds,
            old_facts,
        ),
        around.words == old_around.words,
        around.icons == old_around.icons,
        opt_text(around.nonce) == opt_text(old_around.nonce),
        forall|k: int|
            0 <= k < v.content.thread@.len() ==> opt_texts((#[trigger] facts[k]).colors@)
                == opt_texts(old_facts[k].colors@),
        v.marks.selected_cards@ == w.marks.selected_cards@,
        v.marks.frame_heights@ == w.marks.frame_heights@,
    ensures
        reader_document(v, facts, around) == reader_document(w, old_facts, old_around),
{
    let n = v.content.thread@.len();
    lemma_same_parts(
        v@,
        w@,
        around.dark,
        old_around.dark,
        around.accent@,
        old_around.accent@,
        &around.grounds,
        &old_around.grounds,
        facts,
        old_facts,
    );
    lemma_same_page(
        v@,
        w@,
        around.dark,
        old_around.dark,
        around.accent@,
        old_around.accent@,
        &around.grounds,
        &old_around.grounds,
    );
    assert(v@.content.thread.len() == n);
    assert forall|k: int| 0 <= k < n implies alike(
        v@,
        w@,
        v@.content.thread[k],
        w@.content.thread[k],
        #[trigger] facts[k],
        old_facts[k],
    ) && opt_texts(facts[k].colors@) == opt_texts(old_facts[k].colors@) by {
        lemma_mail_marks(v@, w@, facts, old_facts, n, k);
        lemma_same_mail(
            v@,
            w@,
            v@.content.thread[k],
            w@.content.thread[k],
            facts[k],
            old_facts[k],
        );
    }
    assert(same_page(&page_of(v, around), &page_of(w, old_around)));
    lemma_cards(v, w, facts, old_facts, around, old_around, n);
    if n > 0 {
        assert(alike(
            v@,
            w@,
            v@.content.thread[0],
            w@.content.thread[0],
            facts[0],
            old_facts[0],
        ));
        assert(v@.content.thread[0] == v.content.thread@[0]@);
        assert(w@.content.thread[0] == w.content.thread@[0]@);
        assert(v.content.thread@[0].body@ == w.content.thread@[0].body@);
    }
    reveal(sheet);
    assert(plain_rules(
        lone_and_plain(v.content.thread@, v.looks.single_message_card),
        &around.grounds,
    ) == plain_rules(
        lone_and_plain(w.content.thread@, w.looks.single_message_card),
        &old_around.grounds,
    ));
}

fn add_mark(marks: &mut Vec<String>, mark: &str)
    ensures
        texts(final(marks)@) == texts(old(marks)@).push(mark@),
{
    marks.push(copy_of(mark));
    assert(texts(marks@) =~= texts(old(marks)@).push(mark@));
}

fn flag_text(b: bool) -> (r: &'static str)
    ensures
        r@ == flag(b),
{
    if b {
        "1"
    } else {
        "0"
    }
}

fn read_mark_text(p: ReadMark) -> (r: &'static str)
    ensures
        r@ == read_mark_mark(p),
{
    match p {
        ReadMark::Shown => "0",
        ReadMark::Delay => "1",
        ReadMark::Manual => "2",
    }
}

// ----- What a document is stamped with -----

/// The newest of the first `n` messages; the last of them where several are.
pub open spec fn newest(thread: Seq<Mail>, n: nat) -> int
    decreases n,
{
    if n <= 1 {
        0
    } else {
        let k = newest(thread, (n - 1) as nat);
        if thread[n - 1].timestamp >= thread[k].timestamp {
            n - 1
        } else {
            k
        }
    }
}

/// The newest message is one of the thread, and none is newer.
pub proof fn newest_is_newest(thread: Seq<Mail>, n: nat, i: int)
    requires
        n <= thread.len(),
        0 <= i < n,
    ensures
        0 <= newest(thread, n) < n,
        thread[i].timestamp <= thread[newest(thread, n)].timestamp,
        i > newest(thread, n) ==> thread[i].timestamp < thread[newest(thread, n)].timestamp,
    decreases n,
{
    if n > 1 {
        newest_is_newest(thread, (n - 1) as nat, 0);
        if i < n - 1 {
            newest_is_newest(thread, (n - 1) as nat, i);
        }
    }
}

/// Where the new document stays: only a conversation's first one may scroll to the
/// unread mark, every later one keeps the reader's place.
pub open spec fn place_stamp(d: Drawing) -> Seq<char> {
    if d.did_autoscroll {
        " data-vireo-noscroll=\"1\""@ + (match d.saved_anchor {
            Some((a, i, o)) => " data-vireo-anchor=\""@ + decimal(a as nat) + ":"@ + decimal(
                i as nat,
            ) + ":"@ + decimal(o as nat) + "\""@,
            None => seq![],
        })
    } else {
        seq![]
    }
}

/// How the actions of a card show: behind their toggle, under the pointer, or always.
pub open spec fn actions_stamp(l: Looks) -> Seq<char> {
    if l.card_actions_hover {
        " data-vireo-acts=\"toggle\""@
    } else if l.card_actions_auto {
        " data-vireo-acts=\"hover\""@
    } else {
        seq![]
    }
}

/// For how long an opened palette lingers, in milliseconds; a second at least.
pub open spec fn delay_stamp(secs: u64) -> Seq<char> {
    let lasting: nat = if secs == 0 {
        1
    } else {
        secs as nat
    };
    " data-vireo-actsdelay=\""@ + decimal(lasting * 1000) + "\""@
}

/// The newest message of a conversation.
pub open spec fn newest_stamp(thread: Seq<Mail>) -> Seq<char> {
    if thread.len() > 1 {
        let m = thread[newest(thread, thread.len())];
        " data-vireo-newest=\""@ + decimal(m.account_id as nat) + ":"@ + decimal(m.id as nat)
            + "\""@
    } else {
        seq![]
    }
}

/// After how many milliseconds in view a message counts as read.
pub open spec fn read_stamp(p: ReadMark) -> Seq<char> {
    match p {
        ReadMark::Shown => " data-vireo-readmark=\"250\""@,
        ReadMark::Delay => " data-vireo-readmark=\"2000\""@,
        ReadMark::Manual => seq![],
    }
}

/// What a document is stamped with; `copied` is what its note of a copied text says.
pub open spec fn stamps(s: ReaderState, copied: Seq<char>) -> Seq<char> {
    place_stamp(s.drawing) + actions_stamp(s.looks) + delay_stamp(s.looks.palette_collapse_secs)
        + newest_stamp(s.content.thread) + read_stamp(s.looks.read_mark)
        + " data-vireo-copied=\""@ + unquoted_value(copied) + "\""@
}

/// The text with its double quotes written as entities.
pub open spec fn unquoted_value(s: Seq<char>) -> Seq<char>
    decreases s.len(),
{
    if s.len() == 0 {
        seq![]
    } else if s.last() == '"' {
        unquoted_value(s.drop_last()) + "&quot;"@
    } else {
        unquoted_value(s.drop_last()).push(s.last())
    }
}

fn without_quotes(s: &str) -> (out: String)
    ensures
        out@ == unquoted_value(s@),
{
    let v = chars_of(s);
    let mut out = String::new();
    let mut i: usize = 0;
    while i < v.len()
        invariant
            i <= v.len(),
            v@ == s@,
            out@ == unquoted_value(s@.take(i as int)),
        decreases v.len() - i,
    {
        assert(s@.take(i + 1).drop_last() =~= s@.take(i as int));
        if v[i] == '"' {
            out.append("&quot;");
        } else {
            out.push(v[i]);
        }
        i = i + 1;
    }
    assert(s@.take(i as int) =~= s@);
    out
}

proof fn lemma_thousandfold(n: nat)
    requires
        n > 0,
    ensures
        decimal(n * 1000) == decimal(n) + "000"@,
{
    reveal_strlit("000");
    lemma_tenfold(n);
    lemma_tenfold(n * 10);
    lemma_tenfold(n * 100);
    assert(decimal(n * 1000) =~= decimal(n) + "000"@);
}

proof fn lemma_tenfold(n: nat)
    requires
        n > 0,
    ensures
        decimal(n * 10) == decimal(n).push('0'),
{
    assert((n * 10) / 10 == n);
    assert((n * 10) % 10 == 0);
}

/// A key between the quotes of an attribute.
fn push_numbers(out: &mut String, a: u32, b: u32)
    ensures
        final(out)@ == old(out)@ + decimal(a as nat) + ":"@ + decimal(b as nat),
{
    out.append(decimal_string(a as u64).as_str());
    out.append(":");
    out.append(decimal_string(b as u64).as_str());
}

/// A document to load, and its address.
pub struct Load {
    pub html: String,
    pub address: String,
}

/// What the application gives a document besides the reader's own state. `copied`
/// is what the note of a copied text says.
pub struct Surroundings {
    pub dark: bool,
    pub accent: String,
    pub grounds: Grounds,
    pub words: Words,
    pub icons: Icons,
    pub nonce: Option<String>,
    pub copied: String,
}

/// What a reader starts with.
pub struct ReaderSettings {
    pub read_mark: ReadMark,
    pub show_banner: bool,
    pub card_actions_hover: bool,
    pub card_actions_auto: bool,
    pub palette_collapse_secs: u64,
}

/// How the document of a reader looks.
pub open spec fn page_of<'a>(v: &'a MessageView, around: &'a Surroundings) -> Page<'a> {
    Page {
        accent: &around.accent,
        restrict: !v.content.remote_allowed,
        dark: around.dark,
        always_show_recipients: v.looks.always_show_recipients,
        single_message_card: v.looks.single_message_card,
        style: &v.reader_style,
        tags: &v.labels.tags,
        grounds: &around.grounds,
        words: &around.words,
        icons: &around.icons,
        nonce: &around.nonce,
    }
}

/// The document of a reader.
pub open spec fn reader_document(
    v: &MessageView,
    facts: Seq<CardFacts>,
    around: &Surroundings,
) -> Seq<char> {
    thread_document(
        v.content.thread@,
        facts,
        v.content.folder_labels@,
        v.marks.frame_heights@,
        v.marks.selected_cards@,
        v.marks.sender_style@,
        &page_of(v, around),
    )
}

/// The number that a document is loaded under after one under `n`.
pub open spec fn next_number(n: u64) -> u64 {
    if n == u64::MAX {
        0
    } else {
        (n + 1) as u64
    }
}

/// The reader once the document has been handed over: it is covered until a
/// conversation's new document has been drawn, unless it came ready-made.
pub open spec fn rendering(s: ReaderState, print: Seq<Seq<char>>) -> ReaderState {
    let covered = s.content.thread.len() > 1 && !s.content.instant;
    ReaderState {
        drawing: Drawing {
            fingerprint: Some(print),
            webview_ready: s.drawing.webview_ready && !covered,
            did_autoscroll: true,
            seq: next_number(s.drawing.seq),
            ..s.drawing
        },
        ..s
    }
}

/// The colour of the cover's text.
pub open spec fn cover_text(dark: bool) -> Seq<char> {
    if dark {
        "rgba(255,255,255,0.55)"@
    } else {
        "rgba(0,0,0,0.45)"@
    }
}

/// The stylesheet of the cover that stands in for a message.
pub open spec fn cover_rules(ground: Seq<char>, dark: bool) -> Seq<char> {
    ".reader-cover { background-color: "@ + ground
        + "; }.reader-loading label, .reader-loading spinner { color: "@ + cover_text(dark)
        + "; }"@
}

/// The stylesheet of the cover that stands in for a message: on the ground of the
/// document that is to come, with a dimmed text from the same side.
pub fn cover_css(ground: &str, dark: bool) -> (out: String)
    ensures
        out@ == cover_rules(ground@, dark),
{
    let mut out = copy_of(".reader-cover { background-color: ");
    out.append(ground);
    out.append("; }.reader-loading label, .reader-loading spinner { color: ");
    out.append(
        if dark {
            "rgba(255,255,255,0.55)"
        } else {
            "rgba(0,0,0,0.45)"
        },
    );
    out.append("; }");
    out
}

/// The channel that begins at `i`, nothing of it where no hexadecimal number stands
/// there.
pub open spec fn ground_channel(s: Seq<char>, i: int) -> u8 {
    match long_channel(s[i], s[i + 1]) {
        Some(v) => v,
        None => 0,
    }
}

fn channel_at(s: &[char], i: usize) -> (r: u8)
    requires
        i + 1 < s@.len(),
    ensures
        r == ground_channel(s@, i as int),
{
    match read_long(s[i], s[i + 1]) {
        Some(v) => v,
        None => 0,
    }
}

/// The red, green and blue of a ground written as `#rrggbb`.
pub fn ground_channels(hex: &str) -> (r: (u8, u8, u8))
    requires
        hex@.len() >= 7,
    ensures
        r.0 == ground_channel(hex@, 1),
        r.1 == ground_channel(hex@, 3),
        r.2 == ground_channel(hex@, 5),
{
    let s = chars_of(hex);
    (channel_at(&s, 1), channel_at(&s, 3), channel_at(&s, 5))
}

/// Which of the first `n` tags a message with these keywords shows.
pub open spec fn chips_shown(tags: Seq<TagChip>, keywords: Seq<Seq<char>>, n: nat) -> Seq<usize>
    decreases n,
{
    if n == 0 {
        seq![]
    } else {
        let rest = chips_shown(tags, keywords, (n - 1) as nat);
        if tagged(keywords, tags[n - 1].keyword@) {
            rest.push((n - 1) as usize)
        } else {
            rest
        }
    }
}

fn shown_chips(tags: &Vec<TagChip>, keywords: &Vec<String>) -> (out: Vec<usize>)
    ensures
        out@ == chips_shown(tags@, texts(keywords@), tags@.len()),
{
    let mut out: Vec<usize> = Vec::new();
    let mut k: usize = 0;
    while k < tags.len()
        invariant
            k <= tags.len(),
            out@ == chips_shown(tags@, texts(keywords@), k as nat),
        decreases tags.len() - k,
    {
        if is_tagged(keywords, tags[k].keyword.as_str()) {
            out.push(k);
        }
        k = k + 1;
    }
    out
}

proof fn lemma_same_thread_marks(s: ReaderState, t: ReaderState, facts: Seq<CardFacts>, n: nat)
    requires
        s.content == t.content,
        s.marks == t.marks,
        s.labels == t.labels,
    ensures
        thread_marks(s, facts, n) == thread_marks(t, facts, n),
    decreases n,
{
    if n > 0 {
        lemma_same_thread_marks(s, t, facts, (n - 1) as nat);
    }
}

/// A document that was handed over and has been drawn is not loaded again as long as
/// nothing changed.
pub proof fn drawn_document_is_shown(
    s: ReaderState,
    dark: bool,
    accent: Seq<char>,
    grounds: &Grounds,
    facts: Seq<CardFacts>,
)
    ensures
        ({
            let t = rendering(s, fingerprint(s, dark, accent, grounds, facts)).drawn().0;
            &&& t.drawing.webview_ready
            &&& t.drawing.fingerprint == Some(fingerprint(t, dark, accent, grounds, facts))
            &&& t.drawing.did_autoscroll
            &&& t.content == s.content
        }),
{
    reveal(ReaderState::drawn);
    let t = rendering(s, fingerprint(s, dark, accent, grounds, facts)).drawn().0;
    lemma_same_thread_marks(s, t, facts, s.content.thread.len());
    assert(page_marks(s, dark, accent, grounds) =~= page_marks(t, dark, accent, grounds));
}

// ----- On paper -----

/// The document of one message as it is printed, under the reader's own fonts and
/// colours unless it is shown as its sender formatted it.
pub open spec fn printed_body(v: &MessageView, k: int, accent: Seq<char>) -> Seq<char> {
    let m = v.content.thread@[k];
    let base = bare_document(m.body@, !v.content.remote_allowed);
    if v.marks.sender_style@.contains(packed((m.account_id, m.id))) {
        base
    } else {
        styled(base, style_rules(&v.reader_style, false, accent, "."@ + block_class(k as nat)))
    }
}

/// The first `n` messages of a reader as they are printed. In a conversation each says
/// who sent it and when.
pub open spec fn printed_thread(
    v: &MessageView,
    dates: Seq<String>,
    accent: Seq<char>,
    n: nat,
) -> Seq<char>
    decreases n,
{
    if n == 0 {
        seq![]
    } else {
        let k = n - 1;
        let head = if v.content.thread@.len() > 1 {
            message_header(&v.content.thread@[k], dates[k]@)
        } else {
            seq![]
        };
        printed_thread(v, dates, accent, k as nat) + article(
            k as nat,
            head,
            printed_body(v, k, accent),
        )
    }
}

/// The header of what is printed: that of the first message, or of the current one.
pub open spec fn printed_top(v: &MessageView, dates: Seq<String>, date: Seq<char>) -> Seq<char> {
    if v.content.thread@.len() > 0 {
        printed_header(&v.content.thread@[0], dates[0]@)
    } else {
        match v.content.current {
            Some(m) => printed_header(&m, date),
            None => seq![],
        }
    }
}

proof fn lemma_printed(
    v: &MessageView,
    dates: Seq<String>,
    accent: Seq<char>,
    messages: Seq<PrintedMessage>,
    n: nat,
)
    requires
        n <= messages.len(),
        forall|k: int|
            0 <= k < n ==> (#[trigger] messages[k]).doc@ == printed_body(v, k, accent)
                && messages[k].head@ == (if v.content.thread@.len() > 1 {
                message_header(&v.content.thread@[k], dates[k]@)
            } else {
                seq![]
            }),
    ensures
        articles(messages, n) == printed_thread(v, dates, accent, n),
    decreases n,
{
    if n > 0 {
        lemma_printed(v, dates, accent, messages, (n - 1) as nat);
        assert(messages[n - 1].doc@ == printed_body(v, n - 1, accent));
    }
}

impl ReaderState {
    /// The keywords of the current message.
    pub open spec fn keywords(self) -> Seq<Seq<char>> {
        match self.content.current {
            Some(m) => m.keywords,
            None => seq![],
        }
    }
}

/// Whether two lists hold the same texts.
fn same_texts(a: &Vec<String>, b: &Vec<String>) -> (r: bool)
    ensures
        r == (texts(a@) == texts(b@)),
{
    if a.len() != b.len() {
        assert(texts(a@).len() != texts(b@).len());
        return false;
    }
    let mut k: usize = 0;
    while k < a.len()
        invariant
            k <= a.len(),
            a@.len() == b@.len(),
            forall|j: int| 0 <= j < k ==> #[trigger] texts(a@)[j] == texts(b@)[j],
        decreases a.len() - k,
    {
        if !same(a[k].as_str(), b[k].as_str()) {
            assert(texts(a@)[k as int] != texts(b@)[k as int]);
            return false;
        }
        assert(texts(a@)[k as int] == texts(b@)[k as int]);
        k = k + 1;
    }
    assert(texts(a@) =~= texts(b@));
    true
}

impl MessageView {
    /// A reader with nothing on screen.
    pub fn new(settings: ReaderSettings) -> (v: MessageView)
        ensures
            v.looks == (Looks {
                single_message_card: false,
                always_show_recipients: false,
                read_mark: settings.read_mark,
                show_banner: settings.show_banner,
                card_actions_hover: settings.card_actions_hover,
                card_actions_auto: settings.card_actions_auto,
                palette_collapse_secs: settings.palette_collapse_secs,
                content_dark: None,
            }),
            v@.content.current is None,
            v@.content.thread == Seq::<Mail>::empty(),
            v@.content.folder_labels == Map::<u64, String>::empty(),
            !v.content.blocked && !v.content.remote_allowed,
            v.content.account_name is None,
            !v.content.loading && !v.content.instant,
            v@.marks.no_autoread == Set::<u64>::empty(),
            v@.marks.sender_style == Set::<u64>::empty(),
            v@.marks.frame_heights == Map::<u64, u32>::empty(),
            v@.marks.selected_cards == Seq::<(u32, u32)>::empty(),
            v@.labels.tags == Seq::<TagChip>::empty(),
            v.labels.header_tags is None,
            v.reader_style.font is None && !v.reader_style.colors,
            v@.drawing == (Drawing {
                fingerprint: None,
                webview_ready: false,
                did_autoscroll: false,
                saved_anchor: None,
                seq: 0,
                focus_gen: 0,
            }),
            v.find == (Finding { find_open: false, find_matches: None, find_closed: false }),
            v.checks.sender_check is None,
            v.checks.member_checks@.len() == 0,
    {
        let v = MessageView {
            looks: Looks {
                single_message_card: false,
                always_show_recipients: false,
                read_mark: settings.read_mark,
                show_banner: settings.show_banner,
                card_actions_hover: settings.card_actions_hover,
                card_actions_auto: settings.card_actions_auto,
                palette_collapse_secs: settings.palette_collapse_secs,
                content_dark: None,
            },
            content: Content {
                current: None,
                thread: Vec::new(),
                folder_labels: HashMap::new(),
                blocked: false,
                remote_allowed: false,
                account_name: None,
                loading: false,
                instant: false,
            },
            marks: Marks {
                no_autoread: HashSet::new(),
                sender_style: HashSet::new(),
                frame_heights: HashMap::new(),
                selected_cards: Vec::new(),
            },
            labels: Tags { tags: Vec::new(), header_tags: None },
            reader_style: ReaderStyle::none(),
            drawing: Canvas {
                fingerprint: None,
                webview_ready: false,
                did_autoscroll: false,
                saved_anchor: None,
                seq: 0,
                focus_gen: 0,
            },
            find: Finding { find_open: false, find_matches: None, find_closed: false },
            checks: Checks { sender_check: None, member_checks: Vec::new() },
        };
        assert(v@.content.thread =~= Seq::<Mail>::empty());
        v
    }

    /// Whether messages are shown in dark: as the reader chose, or as the desktop is.
    pub fn effective_dark(&self, system_dark: bool) -> (dark: bool)
        ensures
            dark == (match self.looks.content_dark {
                Some(d) => d,
                None => system_dark,
            }),
    {
        match self.looks.content_dark {
            Some(d) => d,
            None => system_dark,
        }
    }

    /// The verdict on the sender, unverified before there is one.
    pub fn trust(&self) -> (t: SenderTrust)
        ensures
            t == (match self.checks.sender_check {
                Some(c) => c.trust,
                None => SenderTrust::Unverified,
            }),
    {
        match &self.checks.sender_check {
            Some(c) => c.trust,
            None => SenderTrust::Unverified,
        }
    }

    /// Which page to show: a document that was handed over but has not been drawn is
    /// still loading.
    pub fn body_page(&self) -> (page: &'static str)
        ensures
            page@ == (if self.content.loading || !self.drawing.webview_ready {
                "loading"@
            } else {
                "body"@
            }),
    {
        if self.content.loading || !self.drawing.webview_ready {
            "loading"
        } else {
            "body"
        }
    }

    /// Whether the notice that remote content is withheld shows. It gates the notice
    /// alone: what is withheld stays withheld without it.
    pub fn banner_shown(&self) -> (r: bool)
        ensures
            r == (self.content.blocked && self.looks.show_banner),
    {
        self.content.blocked && self.looks.show_banner
    }

    /// What to call the print job.
    pub fn job_name(&self) -> (name: String)
        ensures
            name@ == (match self@.content.current {
                Some(m) => if trim(m.subject).len() > 0 {
                    m.subject
                } else {
                    "Message"@
                },
                None => "Message"@,
            }),
    {
        match &self.content.current {
            Some(m) => if is_blank_text(m.subject.as_str()) {
                copy_of("Message")
            } else {
                copy_of(m.subject.as_str())
            },
            None => copy_of("Message"),
        }
    }

    /// Whether the header shows tags: a lone message that is not a card and has a tag.
    pub fn header_tags_shown(&self) -> (r: bool)
        ensures
            r == (self@.content.thread.len() == 1 && !self.looks.single_message_card
                && self@.content.current is Some && exists|k: int|
                0 <= k < self.labels.tags@.len() && tagged(
                    self@.keywords(),
                    #[trigger] self.labels.tags@[k].keyword@,
                )),
    {
        if self.content.thread.len() != 1 || self.looks.single_message_card {
            return false;
        }
        let m = match &self.content.current {
            Some(m) => m,
            None => {
                return false;
            },
        };
        let mut k: usize = 0;
        while k < self.labels.tags.len()
            invariant
                k <= self.labels.tags.len(),
                self@.content.thread.len() == 1 && !self.looks.single_message_card,
                self@.content.current == Some(m@),
                forall|j: int|
                    0 <= j < k ==> !tagged(
                        self@.keywords(),
                        #[trigger] self.labels.tags@[j].keyword@,
                    ),
            decreases self.labels.tags.len() - k,
        {
            if is_tagged(&m.keywords, self.labels.tags[k].keyword.as_str()) {
                return true;
            }
            k = k + 1;
        }
        false
    }

    /// Which tags the header's chips are to be built for again, if the keywords of
    /// the message changed since they were last built.
    pub fn sync_header_tags(&mut self) -> (chips: Option<Vec<usize>>)
        ensures
            final(self)@ == (ReaderState {
                labels: Labels { header_tags: Some(old(self)@.keywords()), ..old(self)@.labels },
                ..old(self)@
            }),
            match chips {
                Some(c) => old(self)@.labels.header_tags != Some(old(self)@.keywords()) && c@
                    == chips_shown(
                    old(self)@.labels.tags,
                    old(self)@.keywords(),
                    old(self)@.labels.tags.len(),
                ),
                None => old(self)@.labels.header_tags == Some(old(self)@.keywords()),
            },
    {
        let keywords: Vec<String> = match &self.content.current {
            Some(m) => copy_strings(&m.keywords),
            None => Vec::new(),
        };
        assert(texts(keywords@) =~= self@.keywords());
        if let Some(had) = &self.labels.header_tags {
            if same_texts(had, &keywords) {
                return None;
            }
        }
        let chips = shown_chips(&self.labels.tags, &keywords);
        self.labels.header_tags = Some(keywords);
        Some(chips)
    }

    /// The ground of what is on screen.
    pub fn ground<'a>(&self, grounds: &'a Grounds) -> (r: &'a str)
        ensures
            r@ == page_ground(self.content.thread@, self.looks.single_message_card, grounds),
    {
        reader_ground(&self.content.thread, self.looks.single_message_card, grounds)
    }

    fn add_over_marks(&self, marks: &mut Vec<String>, dark: bool, accent: &str)
        ensures
            texts(final(marks)@) == texts(old(marks)@) + over_marks(self@, dark, accent@),
    {
        add_mark(marks, accent);
        add_mark(marks, flag_text(self.reader_style.font.is_some()));
        add_mark(marks, flag_text(self.reader_style.colors));
        let rules = reader_style_css(&self.reader_style, dark, accent, ":root");
        add_mark(marks, rules.as_str());
        assert(texts(marks@) =~= texts(old(marks)@) + over_marks(self@, dark, accent@));
    }

    fn add_ground_marks(&self, marks: &mut Vec<String>, dark: bool, grounds: &Grounds)
        ensures
            texts(final(marks)@) == texts(old(marks)@) + ground_marks(self@, dark, grounds),
    {
        add_mark(marks, flag_text(dark));
        add_mark(marks, grounds.ground.as_str());
        add_mark(marks, grounds.page.as_str());
        add_mark(marks, grounds.chrome.as_str());
        add_mark(marks, flag_text(self.content.remote_allowed));
        add_mark(marks, flag_text(self.looks.card_actions_hover));
        add_mark(marks, flag_text(self.looks.card_actions_auto));
        add_mark(marks, decimal_string(self.looks.palette_collapse_secs).as_str());
        add_mark(marks, flag_text(self.looks.always_show_recipients));
        add_mark(marks, flag_text(self.looks.single_message_card));
        add_mark(marks, read_mark_text(self.looks.read_mark));
        assert(texts(marks@) =~= texts(old(marks)@) + ground_marks(self@, dark, grounds));
    }

    fn add_card_marks(&self, marks: &mut Vec<String>, m: &Message, facts: &CardFacts)
        ensures
            texts(final(marks)@) == texts(old(marks)@) + card_marks(self@, m@, *facts),
    {
        let key = message_key(m.account_id, m.id);
        let ghost had = texts(marks@);
        let ghost want = card_marks(self@, m@, *facts);
        add_mark(marks, facts.date.as_str());
        add_mark(marks, flag_text(self.marks.no_autoread.contains(&key)));
        add_mark(marks, flag_text(self.marks.sender_style.contains(&key)));
        match self.content.folder_labels.get(&key) {
            Some(label) => {
                add_mark(marks, "1");
                add_mark(marks, label.as_str());
            },
            None => {
                add_mark(marks, "0");
                let none = String::new();
                add_mark(marks, none.as_str());
                assert(none@ =~= seq![]);
            },
        }
        assert(texts(marks@) =~= had + want.take(5));
        add_mark(marks, flag_text(m.starred));
        let chips = tag_chips_html(&self.labels.tags, &m.keywords);
        add_mark(marks, chips.as_str());
        match &facts.avatar {
            Some(uri) => {
                add_mark(marks, "1");
                add_mark(marks, uri.as_str());
            },
            None => {
                add_mark(marks, "0");
                let none = String::new();
                add_mark(marks, none.as_str());
                assert(none@ =~= seq![]);
            },
        }
        add_mark(marks, facts.recipients_label.as_str());
        assert(texts(marks@) =~= had + want);
    }

    fn add_mail_marks(&self, marks: &mut Vec<String>, m: &Message, facts: &CardFacts)
        ensures
            texts(final(marks)@) == texts(old(marks)@) + mail_marks(self@, m@, *facts),
    {
        let ghost had = texts(marks@);
        add_mark(marks, decimal_string(m.account_id as u64).as_str());
        add_mark(marks, decimal_string(m.id as u64).as_str());
        add_mark(marks, flag_text(m.unread));
        add_mark(marks, m.from_name.as_str());
        add_mark(marks, m.from_addr.as_str());
        add_mark(marks, m.to.as_str());
        add_mark(marks, m.cc.as_str());
        add_mark(marks, m.body.as_str());
        assert(texts(marks@) =~= had + letter_marks(m@));
        self.add_card_marks(marks, m, facts);
        assert(texts(marks@) =~= had + mail_marks(self@, m@, *facts));
    }

    /// Everything that the document on screen depends on.
    fn render_fingerprint(
        &self,
        dark: bool,
        accent: &str,
        grounds: &Grounds,
        facts: &Vec<CardFacts>,
    ) -> (marks: Vec<String>)
        requires
            facts@.len() == self.content.thread@.len(),
        ensures
            texts(marks@) == fingerprint(self@, dark, accent@, grounds, facts@),
    {
        let mut marks: Vec<String> = Vec::new();
        self.add_ground_marks(&mut marks, dark, grounds);
        self.add_over_marks(&mut marks, dark, accent);
        let ghost head = page_marks(self@, dark, accent@, grounds);
        assert(texts(marks@) =~= head + thread_marks(self@, facts@, 0));
        let mut n: usize = 0;
        while n < self.content.thread.len()
            invariant
                n <= self.content.thread.len(),
                facts@.len() == self.content.thread@.len(),
                texts(marks@) == head + thread_marks(self@, facts@, n as nat),
            decreases self.content.thread.len() - n,
        {
            self.add_mail_marks(&mut marks, &self.content.thread[n], &facts[n]);
            assert(texts(marks@) =~= head + thread_marks(self@, facts@, (n + 1) as nat));
            n = n + 1;
        }
        marks
    }

    /// The newest message of the thread.
    fn newest_message(&self) -> (k: usize)
        requires
            self.content.thread@.len() > 0,
        ensures
            k == newest(self@.content.thread, self@.content.thread.len()),
            k < self.content.thread@.len(),
    {
        let mut k: usize = 0;
        let mut n: usize = 1;
        while n < self.content.thread.len()
            invariant
                1 <= n <= self.content.thread.len(),
                k < n,
                k == newest(self@.content.thread, n as nat),
            decreases self.content.thread.len() - n,
        {
            if self.content.thread[n].timestamp >= self.content.thread[k].timestamp {
                k = n;
            }
            n = n + 1;
        }
        k
    }

    /// What a document of this reader is stamped with.
    fn stamp_text(&self, copied: &str) -> (out: String)
        ensures
            out@ == stamps(self@, copied@),
    {
        let mut place = String::new();
        if self.drawing.did_autoscroll {
            place.append(" data-vireo-noscroll=\"1\"");
            if let Some((a, i, o)) = self.drawing.saved_anchor {
                let mut anchor = copy_of(" data-vireo-anchor=\"");
                push_numbers(&mut anchor, a, i);
                anchor.append(":");
                anchor.append(decimal_string(o as u64).as_str());
                anchor.append("\"");
                place.append(anchor.as_str());
            }
        }
        assert(place@ =~= place_stamp(self@.drawing));
        let actions: &str = if self.looks.card_actions_hover {
            " data-vireo-acts=\"toggle\""
        } else if self.looks.card_actions_auto {
            " data-vireo-acts=\"hover\""
        } else {
            ""
        };
        let lasting: u64 = if self.looks.palette_collapse_secs == 0 {
            1
        } else {
            self.looks.palette_collapse_secs
        };
        let mut delay = copy_of(" data-vireo-actsdelay=\"");
        delay.append(decimal_string(lasting).as_str());
        delay.append("000");
        delay.append("\"");
        proof {
            reveal_strlit("");
            assert(actions@ =~= actions_stamp(self@.looks));
            lemma_thousandfold(lasting as nat);
            let start = " data-vireo-actsdelay=\""@;
            assert(start + decimal(lasting as nat) + "000"@ =~= start + (decimal(lasting as nat)
                + "000"@));
        }
        let mut latest = String::new();
        if self.content.thread.len() > 1 {
            let m = &self.content.thread[self.newest_message()];
            latest = copy_of(" data-vireo-newest=\"");
            push_numbers(&mut latest, m.account_id, m.id);
            latest.append("\"");
        }
        assert(latest@ =~= newest_stamp(self@.content.thread));
        let read: &str = match self.looks.read_mark {
            ReadMark::Shown => " data-vireo-readmark=\"250\"",
            ReadMark::Delay => " data-vireo-readmark=\"2000\"",
            ReadMark::Manual => "",
        };
        assert(read@ =~= read_stamp(self@.looks.read_mark));
        let mut out = place;
        out.append(actions);
        out.append(delay.as_str());
        out.append(latest.as_str());
        out.append(read);
        out.append(" data-vireo-copied=\"");
        out.append(without_quotes(copied).as_str());
        out.append("\"");
        out
    }

    /// The document of what is on screen.
    pub fn document_html(&self, facts: &Vec<CardFacts>, around: &Surroundings) -> (html: String)
        requires
            facts@.len() == self.content.thread@.len(),
        ensures
            html@ == reader_document(self, facts@, around),
    {
        let page = Page {
            accent: &around.accent,
            restrict: !self.content.remote_allowed,
            dark: around.dark,
            always_show_recipients: self.looks.always_show_recipients,
            single_message_card: self.looks.single_message_card,
            style: &self.reader_style,
            tags: &self.labels.tags,
            grounds: &around.grounds,
            words: &around.words,
            icons: &around.icons,
            nonce: &around.nonce,
        };
        conversation_document(
            &self.content.thread,
            facts,
            &self.content.folder_labels,
            &self.marks.frame_heights,
            &self.marks.selected_cards,
            &self.marks.sender_style,
            &page,
        )
    }

    /// The document to load for what is on screen, none where it is shown already:
    /// loading it again would only blank the view and paint the same picture back.
    pub fn render(&mut self, facts: &Vec<CardFacts>, around: &Surroundings) -> (load: Option<Load>)
        requires
            facts@.len() == old(self).content.thread@.len(),
        ensures
            ({
                let s = old(self)@;
                let print = fingerprint(s, around.dark, around.accent@, &around.grounds, facts@);
                let shown = s.drawing.webview_ready && s.drawing.fingerprint == Some(print);
                match load {
                    None => shown && final(self)@ == s,
                    Some(l) => {
                        &&& !shown
                        &&& final(self)@ == rendering(s, print)
                        &&& l.html@ == replaced_once(
                            reader_document(old(self), facts@, around),
                            "<body"@,
                            "<body"@ + stamps(s, around.copied@),
                        )
                        &&& l.address@ == "https://vireo.localhost/message/"@ + decimal(
                            final(self)@.drawing.seq as nat,
                        )
                    },
                }
            }),
    {
        let print = self.render_fingerprint(
            around.dark,
            around.accent.as_str(),
            &around.grounds,
            facts,
        );
        if self.drawing.webview_ready {
            if let Some(had) = &self.drawing.fingerprint {
                if same_texts(had, &print) {
                    return None;
                }
            }
        }
        let document = self.document_html(facts, around);
        let mut tag = copy_of("<body");
        tag.append(self.stamp_text(around.copied.as_str()).as_str());
        let html = replace_once(document.as_str(), "<body", tag.as_str());
        let number: u64 = if self.drawing.seq == u64::MAX {
            0
        } else {
            self.drawing.seq + 1
        };
        let mut address = copy_of("https://vireo.localhost/message/");
        address.append(decimal_string(number).as_str());
        self.drawing.fingerprint = Some(print);
        if self.content.thread.len() > 1 && !self.content.instant {
            self.drawing.webview_ready = false;
        }
        self.drawing.did_autoscroll = true;
        self.drawing.seq = number;
        Some(Load { html, address })
    }

    fn printed_document(&self, k: usize, accent: &str) -> (doc: String)
        requires
            k < self.content.thread@.len(),
        ensures
            doc@ == printed_body(self, k as int, accent@),
    {
        let m = &self.content.thread[k];
        let base = frame_base(m.body.as_str(), !self.content.remote_allowed);
        if self.marks.sender_style.contains(&message_key(m.account_id, m.id)) {
            base
        } else {
            let mut scope = copy_of(".");
            scope.append(print_block_class(k).as_str());
            let css = reader_style_css(&self.reader_style, false, accent, scope.as_str());
            inject_reader_style(base.as_str(), css.as_str())
        }
    }

    /// The document that is printed: the header, then each message inlined into the
    /// page. The reader's own document would not do: a print engine draws its frames
    /// at their size on screen and clips the rest. `dates` holds the date of each
    /// message, `date` that of the current one.
    #[verifier::spinoff_prover]
    #[verifier::rlimit(50)]
    pub fn print_document_html(&self, dates: &Vec<String>, date: &str, accent: &str) -> (html:
        String)
        requires
            dates@.len() == self.content.thread@.len(),
        ensures
            html@ == printed_page(
                printed_top(self, dates@, date@) + printed_thread(
                    self,
                    dates@,
                    accent@,
                    self.content.thread@.len(),
                ),
                self.content.remote_allowed,
            ),
    {
        let conversation = self.content.thread.len() > 1;
        let mut messages: Vec<PrintedMessage> = Vec::new();
        let mut k: usize = 0;
        while k < self.content.thread.len()
            invariant
                k <= self.content.thread.len(),
                dates@.len() == self.content.thread@.len(),
                conversation == (self.content.thread@.len() > 1),
                messages@.len() == k,
                forall|j: int|
                    0 <= j < k ==> (#[trigger] messages@[j]).doc@ == printed_body(self, j, accent@)
                        && messages@[j].head@ == (if self.content.thread@.len() > 1 {
                        message_header(&self.content.thread@[j], dates@[j]@)
                    } else {
                        seq![]
                    }),
            decreases self.content.thread.len() - k,
        {
            let doc = self.printed_document(k, accent);
            let head: String = if conversation {
                print_message_header_html(&self.content.thread[k], dates[k].as_str())
            } else {
                String::new()
            };
            messages.push(PrintedMessage { head, doc });
            k = k + 1;
        }
        let top: String = if self.content.thread.len() > 0 {
            print_header_html(Some(&self.content.thread[0]), dates[0].as_str())
        } else {
            match &self.content.current {
                Some(m) => print_header_html(Some(m), date),
                None => print_header_html(None, date),
            }
        };
        proof {
            lemma_printed(self, dates@, accent@, messages@, k as nat);
        }
        print_document(top.as_str(), &messages, self.content.remote_allowed)
    }
}

} // verus!
