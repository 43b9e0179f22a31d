//! What the reader does when it is asked, told from the clicks and inputs themselves.

use vstd::prelude::*;

use crate::message_row::RowAction;
use crate::message_view::{
    badge_script, debug_quoted, find_mail, find_pair, find_script, pgp_parts, pgp_patch, star_script,
    trust_class_name, verdict_parts, view_step, CheckPart, Finding, Looks, MessageViewInput, ReadMark,
    ReaderState, SelectMode, SenderCheck, SenderTrust, Wish,
};
use crate::models::{packed, Mail};
use crate::script_laws::{
    actions_are_read, asks_for, marks_are_read, numbers_are_read, posted, posted_with,
    search_counts_are_read,
};
use crate::script_messages::{input_for, parsed_report, ScriptMessage};
use crate::text::{decimal, holds, lemma_holds_part, trim};

verus! {

// ----- Clicks -----

/// Whether this is the only message of a conversation with its key.
pub open spec fn stands_out(thread: Seq<Mail>, i: int) -> bool {
    &&& 0 <= i < thread.len()
    &&& forall|k: int| 0 <= k < thread.len() && k != i ==> (#[trigger] thread[k]).key() != thread[i].key()
}

proof fn lemma_find_mail(thread: Seq<Mail>, i: int, k: int)
    requires
        stands_out(thread, i),
        0 <= k <= i,
    ensures
        find_mail(thread, thread[i].key(), k) == i,
    decreases i - k,
{
    if k < i {
        lemma_find_mail(thread, i, k + 1);
    }
}

/// A click on an action of a card asks the application for that action on the message of
/// that card, and changes nothing else.
pub proof fn clicks_act_on_their_message(
    s: ReaderState,
    i: int,
    verb: Seq<char>,
    action: RowAction,
    msg: ScriptMessage,
)
    requires
        stands_out(s.content.thread, i),
        asks_for(verb, action),
        parsed_report(posted(verb, s.content.thread[i].key())) == Some(msg@),
    ensures
        input_for(msg) is Some,
        view_step(s, input_for(msg)->0) == (
            s,
            seq![Wish::CardAction(action, s.content.thread[i])],
        ),
{
    actions_are_read(verb, action, s.content.thread[i].key());
    reveal(ReaderState::card_action);
    lemma_find_mail(s.content.thread, i, 0);
}

/// Opening a card's header opens its message; asking for its sender as a contact asks for
/// the sender of that message; what came into view is marked as read; the sender's style is
/// for that message.
pub proof fn marks_act_on_their_message(
    s: ReaderState,
    i: int,
    opened: ScriptMessage,
    contact: ScriptMessage,
    seen: ScriptMessage,
    styled: ScriptMessage,
)
    requires
        stands_out(s.content.thread, i),
        parsed_report(posted("open"@, s.content.thread[i].key())) == Some(opened@),
        parsed_report(posted("contact"@, s.content.thread[i].key())) == Some(contact@),
        parsed_report(posted("seen"@, s.content.thread[i].key())) == Some(seen@),
        parsed_report(posted("senderfmt"@, s.content.thread[i].key())) == Some(styled@),
    ensures
        ({
            let m = s.content.thread[i];
            &&& view_step(s, input_for(opened)->0) == (s, seq![Wish::OpenWindow(m)])
            &&& view_step(s, input_for(contact)->0) == (s, seq![Wish::ContactSender(m)])
            &&& view_step(s, input_for(seen)->0) == s.mark_seen(m.key())
            &&& view_step(s, input_for(styled)->0).0.marks.sender_style.contains(packed(m.key()))
                != s.marks.sender_style.contains(packed(m.key()))
        }),
{
    marks_are_read(s.content.thread[i].key());
    reveal(ReaderState::open_header);
    reveal(ReaderState::card_contact);
    reveal(ReaderState::toggle_sender_style);
    lemma_find_mail(s.content.thread, i, 0);
}

/// A frame's height is kept for its message, a place of the view for where it was, and the
/// count of a search as it was posted.
pub proof fn numbers_are_kept(
    s: ReaderState,
    key: (u32, u32),
    n: u32,
    total: u32,
    sized: ScriptMessage,
    place: ScriptMessage,
    count: ScriptMessage,
)
    requires
        parsed_report(posted_with("size"@, key, decimal(n as nat))) == Some(sized@),
        parsed_report(posted_with("scrollat"@, key, decimal(n as nat))) == Some(place@),
        parsed_report(
            posted_with("found"@, key, decimal(n as nat) + ","@ + decimal(total as nat)),
        ) == Some(count@),
    ensures
        ({
            let t = view_step(s, input_for(sized)->0).0;
            &&& t.marks.frame_heights.contains_key(packed(key))
            &&& t.marks.frame_heights[packed(key)] == n
        }),
        view_step(s, input_for(place)->0).0.drawing.saved_anchor == Some((key.0, key.1, n)),
        view_step(s, input_for(count)->0).0.find.find_matches == Some((n, total)),
{
    numbers_are_read(key, n);
    search_counts_are_read(key, n, total);
    reveal(ReaderState::frame_sized);
}

// ----- Marks -----

/// Each mark is set on the message it is for as it was asked: the star, that it is read, and
/// that it is not.
pub proof fn marks_are_set(s: ReaderState, i: int, on: bool)
    requires
        0 <= i < s.content.thread.len(),
    ensures
        ({
            let m = s.content.thread[i];
            let key = m.key();
            &&& s.set_card_star(key, on).0.content.thread[i] == (Mail { starred: on, ..m })
            &&& s.clear_dot(key).0.content.thread[i] == (Mail { unread: false, ..m })
            &&& s.suppress_auto_read(key).0.content.thread[i] == (Mail { unread: true, ..m })
        }),
{
    reveal(ReaderState::set_card_star);
    reveal(ReaderState::clear_dot);
    reveal(ReaderState::suppress_auto_read);
}

/// The keywords of a message are those that were set, in the conversation and where the
/// message is the one that is open.
pub proof fn keywords_are_set(s: ReaderState, i: int, keywords: Seq<Seq<char>>)
    requires
        0 <= i < s.content.thread.len(),
    ensures
        ({
            let m = s.content.thread[i];
            let t = s.set_card_keywords(m.key(), keywords).0;
            &&& t.content.thread[i] == (Mail { keywords, ..m })
            &&& s.content.current == Some(m) ==> t.content.current == Some(Mail { keywords, ..m })
        }),
{
    reveal(ReaderState::set_card_keywords);
}

/// The name of a message in a script's selector.
pub open spec fn named(class: Seq<char>, key: (u32, u32)) -> Seq<char> {
    class + "[data-key=\""@ + decimal(key.0 as nat) + ":"@ + decimal(key.1 as nat) + "\"]"@
}

/// The star of a card is lit where its message has one and put out where it has none, and
/// it is that card's star.
pub proof fn stars_follow_their_message(s: ReaderState, key: (u32, u32), starred: bool)
    ensures
        s.set_card_star(key, starred).1 == seq![
            Wish::RunScript(
                "(function(){var b=document.querySelector('"@ + named(
                    ".vireo-act[data-act=\"star\"]"@,
                    key,
                ) + "');if(b)b.classList."@ + (if starred {
                    "add"@
                } else {
                    "remove"@
                }) + "('on');})()"@,
            ),
        ],
{
    reveal(ReaderState::set_card_star);
    reveal_strlit("(function(){var b=document.querySelector('.vireo-act[data-act=\"star\"][data-key=\"");
    reveal_strlit("(function(){var b=document.querySelector('");
    reveal_strlit(".vireo-act[data-act=\"star\"]");
    reveal_strlit("[data-key=\"");
    reveal_strlit("\"]');if(b)b.classList.");
    reveal_strlit("\"]");
    reveal_strlit("');if(b)b.classList.");
    let verb = if starred {
        "add"@
    } else {
        "remove"@
    };
    assert("(function(){var b=document.querySelector('.vireo-act[data-act=\"star\"][data-key=\""@
        =~= "(function(){var b=document.querySelector('"@ + (".vireo-act[data-act=\"star\"]"@
        + "[data-key=\""@));
    assert("\"]');if(b)b.classList."@ =~= "\"]"@ + "');if(b)b.classList."@);
    assert(star_script(key, starred) =~= "(function(){var b=document.querySelector('"@ + named(
        ".vireo-act[data-act=\"star\"]"@,
        key,
    ) + "');if(b)b.classList."@ + verb + "('on');})()"@);
}

// ----- Permission -----

/// Who allows a sender for good allows the sender of the message that is open, and what was
/// withheld is shown at once.
pub proof fn the_open_sender_is_allowed(s: ReaderState, m: Mail)
    requires
        s.content.current == Some(m),
    ensures
        ({
            let (t, asked) = view_step(s, MessageViewInput::AllowSenderAlways);
            &&& asked == seq![Wish::AllowSender(m.from_addr), Wish::Render]
            &&& t.content.remote_allowed
            &&& !t.content.blocked
            &&& t.content.thread == s.content.thread
        }),
        ({
            let (t, asked) = view_step(s, MessageViewInput::LoadRemoteOnce);
            &&& asked == seq![Wish::Render]
            &&& t.content.remote_allowed
            &&& !t.content.blocked
        }),
{
    reveal(ReaderState::allow_sender_always);
    assert(view_step(s, MessageViewInput::AllowSenderAlways).1 =~= seq![
        Wish::AllowSender(m.from_addr),
        Wish::Render,
    ]);
}

// ----- Selecting -----

proof fn lemma_find_pair(keys: Seq<(u32, u32)>, i: int, k: int)
    requires
        0 <= k <= i < keys.len(),
        keys.no_duplicates(),
    ensures
        find_pair(keys, keys[i], k) == i,
    decreases i - k,
{
    if k < i {
        assert(keys[k] != keys[i]);
        lemma_find_pair(keys, i, k + 1);
    }
}

proof fn lemma_find_none(keys: Seq<(u32, u32)>, key: (u32, u32), k: int)
    requires
        0 <= k <= keys.len(),
        !keys.contains(key),
    ensures
        find_pair(keys, key, k) == keys.len(),
    decreases keys.len() - k,
{
    if k < keys.len() {
        assert(keys[k] != key);
        lemma_find_none(keys, key, k + 1);
    }
}

/// A click that goes on to there selects the cards from the first selected one to the
/// clicked one, both included, in whichever direction.
pub proof fn ranges_reach_both_ends(s: ReaderState, a: int, b: int)
    requires
        s.order().no_duplicates(),
        0 <= a < s.order().len(),
        0 <= b < s.order().len(),
        s.marks.selected_cards == seq![s.order()[a]],
    ensures
        s.clicked_keys(s.order()[b], SelectMode::Range) == (if a <= b {
            s.order().subrange(a, b + 1)
        } else {
            s.order().subrange(b, a + 1)
        }),
{
    lemma_find_pair(s.order(), a, 0);
    lemma_find_pair(s.order(), b, 0);
}

/// A click that adds or takes away turns the one card around: it is selected if and only if
/// it was not, and the others stay as they were.
pub proof fn toggling_turns_one_around(s: ReaderState, key: (u32, u32), other: (u32, u32))
    requires
        s.marks.selected_cards.no_duplicates(),
        other != key,
    ensures
        ({
            let had = s.marks.selected_cards;
            let now = s.clicked_keys(key, SelectMode::Toggle);
            &&& now.contains(key) != had.contains(key)
            &&& now.contains(other) == had.contains(other)
        }),
{
    let had = s.marks.selected_cards;
    let now = s.clicked_keys(key, SelectMode::Toggle);
    if had.contains(key) {
        let k = choose|k: int| 0 <= k < had.len() && had[k] == key;
        lemma_find_pair(had, k, 0);
        assert(now == had.remove(k));
        assert forall|x: int| 0 <= x < now.len() implies now[x] != key by {
            assert(now[x] == had[if x < k {
                x
            } else {
                x + 1
            }]);
        }
        if had.contains(other) {
            let j = choose|j: int| 0 <= j < had.len() && had[j] == other;
            assert(now[if j < k {
                j
            } else {
                j - 1
            }] == other);
        }
        if now.contains(other) {
            let j = choose|j: int| 0 <= j < now.len() && now[j] == other;
            assert(had[if j < k {
                j
            } else {
                j + 1
            }] == other);
        }
    } else {
        lemma_find_none(had, key, 0);
        assert(now == had.push(key));
        assert(now[had.len() as int] == key);
        if had.contains(other) {
            let j = choose|j: int| 0 <= j < had.len() && had[j] == other;
            assert(now[j] == other);
        }
        if now.contains(other) {
            let j = choose|j: int| 0 <= j < now.len() && now[j] == other;
            assert(had[j] == other);
        }
    }
}

/// Selecting all selects each card of the conversation, and clearing leaves none.
pub proof fn all_and_none(s: ReaderState)
    requires
        s.content.thread.len() > 1,
    ensures
        s.select_all_cards().0.marks.selected_cards == s.order(),
        s.clear_cards().0.marks.selected_cards.len() == 0,
{
    reveal(ReaderState::select_all_cards);
    reveal(ReaderState::clear_cards);
}

// ----- Settings -----

/// Each setting of the reader sets what it is called after, and nothing else of its looks.
pub proof fn settings_set_themselves(s: ReaderState, on: bool, other: bool, secs: u64, mark: ReadMark)
    ensures
        view_step(s, MessageViewInput::SetBannerShown(on)).0.looks == (Looks {
            show_banner: on,
            ..s.looks
        }),
        view_step(s, MessageViewInput::SetAlwaysShowRecipients(on)).0.looks == (Looks {
            always_show_recipients: on,
            ..s.looks
        }),
        view_step(s, MessageViewInput::SetSingleMessageCard(on)).0.looks == (Looks {
            single_message_card: on,
            ..s.looks
        }),
        view_step(s, MessageViewInput::SetContentTheme(Some(on))).0.looks == (Looks {
            content_dark: Some(on),
            ..s.looks
        }),
        view_step(s, MessageViewInput::SetContentTheme(None)).0.looks == (Looks {
            content_dark: None,
            ..s.looks
        }),
        view_step(
            s,
            MessageViewInput::SetCardActionsMode { hover_toggle: on, hover_auto: other },
        ).0.looks == (Looks { card_actions_hover: on, card_actions_auto: other, ..s.looks }),
        view_step(s, MessageViewInput::SetPaletteCollapse(secs)).0.looks == (Looks {
            palette_collapse_secs: secs,
            ..s.looks
        }),
        view_step(s, MessageViewInput::SetReadMark(mark)).0.looks == (Looks {
            read_mark: mark,
            ..s.looks
        }),
{
    reveal(ReaderState::set_content_theme);
    reveal(ReaderState::set_card_actions_mode);
    reveal(ReaderState::set_palette_collapse);
    reveal(ReaderState::set_read_mark);
}

// ----- Finding -----

/// The search goes forward and back as it was asked, and is for what was entered.
pub proof fn search_goes_where_asked(s: ReaderState, text: String)
    ensures
        view_step(s, MessageViewInput::FindNext) == (s, seq![Wish::RunScript("vireoFindStep(1)"@)]),
        view_step(s, MessageViewInput::FindPrev) == (s, seq![Wish::RunScript("vireoFindStep(-1)"@)]),
        trim(text@).len() > 0 ==> view_step(s, MessageViewInput::FindChanged(text)) == (
            s,
            seq![Wish::RunScript(find_script(trim(text@)))],
        ),
        trim(text@).len() == 0 ==> view_step(s, MessageViewInput::FindChanged(text)).1 == seq![
            Wish::RunScript("vireoFindClear()"@),
        ],
        view_step(s, MessageViewInput::CloseFind).0.find == (Finding {
            find_open: false,
            find_closed: true,
            find_matches: None,
            ..s.find
        }),
{
    reveal(ReaderState::find_changed);
    reveal(ReaderState::close_find);
}

/// Asking for the search opens it where it is closed, and closes it where it is open; the
/// click that closed it a moment ago does not open it again.
pub proof fn search_opens_and_closes(s: ReaderState, since_closed: u64)
    ensures
        s.find.find_open ==> s.open_find(since_closed) == (s, seq![Wish::SendCloseFind]),
        !s.find.find_open && (!s.find.find_closed || since_closed >= 300) ==> s.open_find(
            since_closed,
        ).0.find.find_open && s.open_find(since_closed).1 == seq![Wish::FocusFindEntry],
        !s.find.find_open && s.find.find_closed && since_closed < 300 ==> !s.open_find(
            since_closed,
        ).0.find.find_open && s.open_find(since_closed).1.len() == 0,
{
    reveal(ReaderState::open_find);
}

// ----- Verdicts -----

/// The seal of a card shows the verdict on its own message: passed, not verified,
/// suspicious or failed.
pub proof fn seals_show_the_verdict(key: (u32, u32), check: SenderCheck)
    ensures
        holds(
            badge_script(key, check),
            "'.vireo-verify[data-key=\""@ + decimal(key.0 as nat) + ":"@ + decimal(key.1 as nat)
                + "\"]');if(!b)return;b.className='vireo-verify on "@ + (match check.trust {
                SenderTrust::Pass => "trust-pass"@,
                SenderTrust::Unverified => "trust-unverified"@,
                SenderTrust::Suspicious => "trust-suspicious"@,
                SenderTrust::Fail => "trust-fail"@,
            }) + "'"@,
        ),
{
    reveal_strlit("var b=document.querySelector('.vireo-verify[data-key=\"");
    reveal_strlit("var b=document.querySelector(");
    reveal_strlit("'.vireo-verify[data-key=\"");
    reveal_strlit("';b.title=");
    reveal_strlit("'");
    reveal_strlit(";b.title=");
    let class = trust_class_name(check.trust);
    let a = decimal(key.0 as nat);
    let i = decimal(key.1 as nat);
    let top = "(function(){"@ + pgp_patch(key, check.pgp) + "var b=document.querySelector("@;
    let part = "'.vireo-verify[data-key=\""@ + a + ":"@ + i
        + "\"]');if(!b)return;b.className='vireo-verify on "@ + class + "'"@;
    let rest = ";b.title="@ + debug_quoted(check.label@) + ";})()"@;
    assert("var b=document.querySelector('.vireo-verify[data-key=\""@
        =~= "var b=document.querySelector("@ + "'.vireo-verify[data-key=\""@);
    assert("';b.title="@ =~= "'"@ + ";b.title="@);
    assert(badge_script(key, check) =~= top + part + rest);
    lemma_holds_part(top, part, rest);
}

/// The details of a verdict offer to fetch a key where one is missing, and to vouch for one
/// where nobody does; and they say what the verdict says.
pub proof fn details_offer_what_helps(c: &SenderCheck)
    ensures
        ({
            let v = verdict_parts(c);
            &&& v.contains(CheckPart::Heading(c.label@))
            &&& v.contains(CheckPart::Text(c.summary@))
            &&& v.last() == CheckPart::Footnote
            &&& v.contains(CheckPart::FetchKey) <==> c.pgp is Some && (c.pgp->0).key_missing
            &&& v.contains(CheckPart::TrustKey) <==> c.pgp is Some && !(c.pgp->0).key_missing
                && (c.pgp->0).key_untrusted
            &&& c.pgp matches Some(p) ==> v[0] == CheckPart::PgpHeading && v[1] == CheckPart::Text(
                p.summary@,
            )
        }),
{
    let v = verdict_parts(c);
    let n: int = match &c.pgp {
        Some(p) => pgp_parts(p).len() as int,
        None => 0,
    };
    assert(v[n] == CheckPart::Heading(c.label@));
    assert(v[n + 1] == CheckPart::Text(c.summary@));
    if let Some(p) = &c.pgp {
        let k: int = if p.notes@.len() > 0 {
            3
        } else {
            2
        };
        if p.key_missing {
            assert(v[k] == CheckPart::FetchKey);
        } else if p.key_untrusted {
            assert(v[k] == CheckPart::TrustKey);
        }
    }
}

} // verus!
