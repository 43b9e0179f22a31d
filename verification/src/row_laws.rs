//! What a row of the list does, which servers are known, and what goes on paper.

use vstd::prelude::*;

use crate::document::{recipients_block, recipients_line, recipients_toggle, tagged, Page, TagChip};
use crate::frame::bare_document;
use crate::message_list::{conversation_members, ListState};
use crate::message_row::{
    avatar_step, row_step, AvatarLookup, AvatarStep, MessageRowInput, RowAction, RowDemand,
    RowFace, RowState,
};
use crate::message_view::MessageView;
use crate::models::{packed, Mail, Message};
use crate::order_laws::dates_are_in_order;
use crate::print::printed_header;
use crate::providers::{table, ProviderKind};
use crate::render::{
    chips_shown, cover_rules, page_of, printed_body, printed_top, Surroundings,
};
use crate::sorting::{sorting_keeps_all, SortOrder};
use crate::text::{holds, lemma_holds_part, lower_all, starts, trim};
use crate::threads::threads;

verus! {

// ----- Rows -----

/// Each mark that a row is told of is the one that changes, as it was told.
pub proof fn rows_take_their_marks(s: RowState, on: bool, secs: u64)
    ensures
        row_step(s, MessageRowInput::SetRead(on), secs).0 == (RowState {
            face: RowFace { mail: Mail { unread: !on, ..s.face.mail }, ..s.face },
            ..s
        }),
        row_step(s, MessageRowInput::SetStarred(on), secs).0 == (RowState {
            face: RowFace { mail: Mail { starred: on, ..s.face.mail }, ..s.face },
            ..s
        }),
        row_step(s, MessageRowInput::SetHasAttachment(on), secs).0 == (RowState {
            face: RowFace { mail: Mail { has_attachment: on, ..s.face.mail }, ..s.face },
            ..s
        }),
        row_step(s, MessageRowInput::SetThreadUnread(on), secs).0 == (RowState {
            face: RowFace { thread_unread: on, ..s.face },
            ..s
        }),
        row_step(s, MessageRowInput::SetRowHover(on), secs).0 == (RowState { row_hovered: on, ..s }),
{
}

/// An action in a row is asked for its own message, and a click on a conversation's count
/// for its own conversation.
pub proof fn rows_ask_for_their_own(s: RowState, action: RowAction, secs: u64)
    ensures
        row_step(s, MessageRowInput::Action(action), secs) == (
            s,
            seq![RowDemand::Action(action, s.face.mail)],
        ),
        s.face.thread_key matches Some(key) ==> row_step(
            s,
            MessageRowInput::ToggleThreadClicked,
            secs,
        ) == (s, seq![RowDemand::ToggleThread(key)]),
{
}

/// The actions of a row open and close with a click, stay while the pointer is over them,
/// and close a while after it left.
pub proof fn palettes_open_and_close(s: RowState, secs: u64)
    requires
        1 <= secs <= u32::MAX,
    ensures
        ({
            let (t, asked) = row_step(s, MessageRowInput::TogglePalette, secs);
            &&& t.palette_open == !s.palette_open
            &&& t.palette_open ==> asked.last() == RowDemand::StartTimer(secs as u32)
            &&& !t.palette_open ==> !t.collapse_pending
            &&& t.face == s.face
        }),
        ({
            let (t, asked) = row_step(s, MessageRowInput::PaletteEnter, secs);
            &&& t.palette_open == s.palette_open
            &&& !t.collapse_pending
            &&& s.collapse_pending ==> asked == seq![RowDemand::StopTimer]
        }),
        ({
            let (t, asked) = row_step(s, MessageRowInput::PaletteLeave, secs);
            &&& t.palette_open == s.palette_open
            &&& s.palette_open ==> t.collapse_pending && asked.last() == RowDemand::StartTimer(
                secs as u32,
            )
        }),
        !row_step(s, MessageRowInput::CollapsePalette, secs).0.palette_open,
{
}

/// A picture is for the sender it was looked up for, however the address is written, and
/// for no other.
pub proof fn pictures_are_their_senders(
    addr: Seq<char>,
    email: Seq<char>,
    lookup: AvatarLookup,
    retry: bool,
)
    ensures
        lower_all(addr) != lower_all(email) ==> avatar_step(addr, email, lookup, retry)
            == AvatarStep::Ignore,
        lower_all(addr) == lower_all(email) ==> {
            &&& avatar_step(addr, email, AvatarLookup::Texture, retry) == AvatarStep::Show
            &&& avatar_step(addr, email, AvatarLookup::Missing, retry) == AvatarStep::Forget
            &&& avatar_step(addr, email, AvatarLookup::Fetch, true) == AvatarStep::ForgetAndFetch
            &&& avatar_step(addr, email, AvatarLookup::Fetch, false) == AvatarStep::Forget
        },
{
}

// ----- Conversations -----

/// A message that is opened is shown in its conversation or alone: it is the first of what
/// is shown, and what follows is never newer.
pub proof fn opened_stands_first(s: ListState, m: Mail, i: int)
    ensures
        ({
            let shown = s.conversation_for(m);
            &&& shown.len() > 0
            &&& shown[0].key() == m.key()
            &&& 0 < i < shown.len() ==> shown[i].timestamp <= shown[0].timestamp
        }),
{
    let map = threads(s.source());
    if s.mail.threading && map.contains_key(m.key()) {
        let members = conversation_members(s.source(), map, map[m.key()]);
        sorting_keeps_all(SortOrder::DateNewest, members);
        if 0 < i < members.len() {
            dates_are_in_order(members, 0, i);
        }
    }
}

// ----- Providers -----

/// Whether a provider of this name is offered with these servers.
pub open spec fn offered(
    label: &'static str,
    host: &'static str,
    port: u16,
    smtp_host: &'static str,
    smtp_port: u16,
) -> bool {
    exists|k: int|
        0 <= k < table().len() && (#[trigger] table()[k]).label == label && table()[k].kind
            == ProviderKind::Preset && table()[k].imap_host == host && table()[k].imap_port == port
            && table()[k].smtp_host == smtp_host && table()[k].smtp_port == smtp_port
}

/// The servers that are known are those that their providers publish.
pub proof fn servers_are_as_published()
    ensures
        offered("iCloud", "imap.mail.me.com", 993, "smtp.mail.me.com", 587),
        offered("Yahoo Mail", "imap.mail.yahoo.com", 993, "smtp.mail.yahoo.com", 465),
        offered("Proton Mail (Bridge)", "127.0.0.1", 1143, "127.0.0.1", 1025),
        offered("Fastmail", "imap.fastmail.com", 993, "smtp.fastmail.com", 465),
        offered("AOL Mail", "imap.aol.com", 993, "smtp.aol.com", 465),
        offered("Zoho Mail", "imap.zoho.com", 993, "smtp.zoho.com", 465),
        offered("GMX", "imap.gmx.com", 993, "mail.gmx.com", 587),
        offered("Yandex Mail", "imap.yandex.com", 993, "smtp.yandex.com", 465),
        offered("Mail.com", "imap.mail.com", 993, "smtp.mail.com", 587),
{
    assert(table()[2].label == "iCloud");
    assert(table()[3].label == "Yahoo Mail");
    assert(table()[4].label == "Proton Mail (Bridge)");
    assert(table()[5].label == "Fastmail");
    assert(table()[6].label == "AOL Mail");
    assert(table()[7].label == "Zoho Mail");
    assert(table()[8].label == "GMX");
    assert(table()[9].label == "Yandex Mail");
    assert(table()[10].label == "Mail.com");
}

// ----- Recipients and tags of a card -----

/// The recipients of a card are shown at once where that was asked for, and hidden behind
/// their button otherwise.
pub proof fn recipients_are_hidden_or_not(m: &Message)
    requires
        trim(m.to@).len() > 0,
    ensures
        starts(recipients_block(m, true), "<div class=\"vireo-rcpt\">"@),
        starts(recipients_block(m, false), "<div class=\"vireo-rcpt\" hidden>"@),
{
    reveal_strlit("<div class=\"vireo-rcpt\"");
    reveal_strlit("<div class=\"vireo-rcpt\">");
    reveal_strlit("<div class=\"vireo-rcpt\" hidden>");
    reveal_strlit("");
    reveal_strlit(" hidden");
    reveal_strlit(">");
    reveal_strlit("</div>");
    let lines = recipients_line("To"@, m.to@) + recipients_line("Cc"@, m.cc@);
    assert(lines.len() > 0);
    let a = "<div class=\"vireo-rcpt\">"@;
    let b = "<div class=\"vireo-rcpt\" hidden>"@;
    assert(recipients_block(m, true).subrange(0, a.len() as int) =~= a);
    assert(recipients_block(m, false).subrange(0, b.len() as int) =~= b);
}

/// The button of the recipients says what a click on it does.
pub proof fn toggle_says_what_it_does(m: &Message, page: &Page, label: Seq<char>)
    ensures
        ({
            let html = recipients_toggle(m, page, label);
            html.len() > 0 ==> holds(
                html,
                "\" title=\""@ + (if page.always_show_recipients {
                    page.words.hide_recipients@
                } else {
                    page.words.show_recipients@
                }) + "\">"@ + label + "</button>"@,
            )
        }),
{
    let html = recipients_toggle(m, page, label);
    if html.len() > 0 {
        let open = if page.always_show_recipients {
            " open"@
        } else {
            ""@
        };
        let title = if page.always_show_recipients {
            page.words.hide_recipients@
        } else {
            page.words.show_recipients@
        };
        let top = "<button type=\"button\" class=\"vireo-rcpt-toggle"@ + open;
        let rest = "\" title=\""@ + title + "\">"@ + label + "</button>"@;
        let none = Seq::<char>::empty();
        assert(html =~= top + rest + none);
        lemma_holds_part(top, rest, none);
    }
}

/// The tags that a message shows are those whose keyword it has, in whatever case.
pub proof fn tags_are_the_keywords(tags: Seq<TagChip>, keywords: Seq<Seq<char>>, n: nat, k: int)
    requires
        n <= tags.len() <= usize::MAX,
        0 <= k < n,
    ensures
        chips_shown(tags, keywords, n).contains(k as usize) <==> exists|j: int|
            0 <= j < keywords.len() && lower_all(#[trigger] keywords[j]) == lower_all(
                tags[k].keyword@,
            ),
    decreases n,
{
    let rest = chips_shown(tags, keywords, (n - 1) as nat);
    let all = chips_shown(tags, keywords, n);
    lemma_chips_below(tags, keywords, (n - 1) as nat);
    if k < n - 1 {
        tags_are_the_keywords(tags, keywords, (n - 1) as nat, k);
        if rest.contains(k as usize) {
            let j = choose|j: int| 0 <= j < rest.len() && rest[j] == k as usize;
            assert(all[j] == k as usize);
        }
        if all.contains(k as usize) {
            let j = choose|j: int| 0 <= j < all.len() && all[j] == k as usize;
            assert(j < rest.len());
            assert(rest[j] == k as usize);
        }
    } else if tagged(keywords, tags[k].keyword@) {
        assert(all[rest.len() as int] == k as usize);
    } else if all.contains(k as usize) {
        let j = choose|j: int| 0 <= j < all.len() && all[j] == k as usize;
        assert(rest[j] < n - 1);
    }
}

proof fn lemma_chips_below(tags: Seq<TagChip>, keywords: Seq<Seq<char>>, n: nat)
    requires
        n <= tags.len() <= usize::MAX,
    ensures
        forall|j: int|
            0 <= j < chips_shown(tags, keywords, n).len() ==> #[trigger] chips_shown(tags, keywords, n)[j]
                < n,
    decreases n,
{
    if n > 0 {
        lemma_chips_below(tags, keywords, (n - 1) as nat);
        let rest = chips_shown(tags, keywords, (n - 1) as nat);
        let all = chips_shown(tags, keywords, n);
        assert forall|j: int| 0 <= j < all.len() implies #[trigger] all[j] < n by {
            if j < rest.len() {
                assert(rest[j] < n - 1);
            }
        }
    }
}

// ----- The reader's document and its paper -----

/// The document withholds remote content just where it was not permitted, and looks as the
/// reader was set.
pub proof fn settings_reach_the_document(v: &MessageView, around: &Surroundings)
    ensures
        page_of(v, around).restrict == !v.content.remote_allowed,
        page_of(v, around).dark == around.dark,
        page_of(v, around).always_show_recipients == v.looks.always_show_recipients,
        page_of(v, around).single_message_card == v.looks.single_message_card,
        page_of(v, around).style == &v.reader_style,
        page_of(v, around).tags == &v.labels.tags,
        page_of(v, around).nonce == &around.nonce,
{
}

/// The cover of a message to come lies on its ground, with a light text on the dark side and
/// a dark one on the light.
pub proof fn covers_fit_their_side(ground: Seq<char>, dark: bool)
    ensures
        starts(cover_rules(ground, dark), ".reader-cover { background-color: "@ + ground + "; }"@),
        holds(
            cover_rules(ground, dark),
            if dark {
                "{ color: rgba(255,255,255,0.55); }"@
            } else {
                "{ color: rgba(0,0,0,0.45); }"@
            },
        ),
{
    reveal_strlit("; }.reader-loading label, .reader-loading spinner { color: ");
    reveal_strlit("; }");
    reveal_strlit(".reader-loading label, .reader-loading spinner ");
    reveal_strlit("{ color: ");
    reveal_strlit("rgba(255,255,255,0.55)");
    reveal_strlit("rgba(0,0,0,0.45)");
    reveal_strlit("{ color: rgba(255,255,255,0.55); }");
    reveal_strlit("{ color: rgba(0,0,0,0.45); }");
    let all = cover_rules(ground, dark);
    let top = ".reader-cover { background-color: "@ + ground + "; }"@;
    let middle = ".reader-loading label, .reader-loading spinner "@;
    let text = if dark {
        "rgba(255,255,255,0.55)"@
    } else {
        "rgba(0,0,0,0.45)"@
    };
    let last = "{ color: "@ + text + "; }"@;
    let none = Seq::<char>::empty();
    assert("; }.reader-loading label, .reader-loading spinner { color: "@ =~= "; }"@ + middle
        + "{ color: "@);
    assert(all =~= top + middle + last);
    assert(all.subrange(0, top.len() as int) =~= top);
    assert(all =~= (top + middle) + last + none);
    lemma_holds_part(top + middle, last, none);
    assert(last =~= if dark {
        "{ color: rgba(255,255,255,0.55); }"@
    } else {
        "{ color: rgba(0,0,0,0.45); }"@
    });
}

/// On paper stands the header of the conversation's first message, or of the message that is
/// open.
pub proof fn paper_has_the_first_header(v: &MessageView, dates: Seq<String>, date: Seq<char>)
    ensures
        v.content.thread@.len() > 0 ==> printed_top(v, dates, date) == printed_header(
            &v.content.thread@[0],
            dates[0]@,
        ),
        v.content.thread@.len() == 0 && v.content.current is Some ==> printed_top(v, dates, date)
            == printed_header(&v.content.current->0, date),
{
}

/// On paper too remote content stands only where it was permitted, and a message that is
/// shown as its sender formatted it is printed so.
pub proof fn paper_follows_the_reader(v: &MessageView, k: int, accent: Seq<char>)
    requires
        0 <= k < v.content.thread@.len(),
    ensures
        ({
            let m = v.content.thread@[k];
            let base = bare_document(m.body@, !v.content.remote_allowed);
            &&& v.marks.sender_style@.contains(packed((m.account_id, m.id))) ==> printed_body(
                v,
                k,
                accent,
            ) == base
            &&& v.reader_style.font is None && !v.reader_style.colors ==> printed_body(v, k, accent)
                == base
        }),
{
}

} // verus!
