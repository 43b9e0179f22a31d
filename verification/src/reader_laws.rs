//! What holds of the reader whatever is done to it.

use vstd::prelude::*;

use crate::message_view::{
    among, any_remote, changed, find_check, view_step, MessageViewInput, ReaderState, SelectMode,
    SenderCheck, Wish,
};
use crate::models::{mails, packed, packed_keys_differ, Mail};

verus! {

/// Whether what the banner says is true: content counts as withheld only while it was
/// not permitted.
pub open spec fn sound(s: ReaderState) -> bool {
    s.content.blocked ==> !s.content.remote_allowed
}

/// Whatever happens, the banner speaks of withheld content only while remote content is
/// not permitted.
pub proof fn withheld_only_while_not_permitted(s: ReaderState, msg: MessageViewInput)
    requires
        sound(s),
    ensures
        sound(view_step(s, msg).0),
{
    match msg {
        MessageViewInput::Show(_) => {
            reveal(ReaderState::show);
        },
        MessageViewInput::AllowSenderAlways => {
            reveal(ReaderState::allow_sender_always);
        },
        MessageViewInput::SetContentTheme(_) => {
            reveal(ReaderState::set_content_theme);
        },
        MessageViewInput::SetReaderStyle(_) => {
            reveal(ReaderState::set_reader_style);
        },
        MessageViewInput::ToggleSenderStyle { .. } => {
            reveal(ReaderState::toggle_sender_style);
        },
        MessageViewInput::SenderCheckFor { .. } => {
            reveal(ReaderState::sender_check_for);
        },
        MessageViewInput::SenderInfoAt { .. } => {
            reveal(ReaderState::sender_info_at);
        },
        MessageViewInput::PgpFetchKey { .. } => {
            reveal(ReaderState::pgp_fetch_key);
        },
        MessageViewInput::PgpTrustKey { .. } => {
            reveal(ReaderState::pgp_trust_key);
        },
        MessageViewInput::PgpDone { .. } => {
            reveal(ReaderState::pgp_done);
        },
        MessageViewInput::Rendered => {
            reveal(ReaderState::drawn);
        },
        MessageViewInput::SuppressAutoRead { .. } => {
            reveal(ReaderState::suppress_auto_read);
        },
        MessageViewInput::ClearCards => {
            reveal(ReaderState::clear_cards);
        },
        MessageViewInput::CardClicked { .. } => {
            reveal(ReaderState::card_clicked);
        },
        MessageViewInput::SelectAllCards => {
            reveal(ReaderState::select_all_cards);
        },
        MessageViewInput::SetSelectedCards(_) => {
            reveal(ReaderState::set_selected_cards);
        },
        MessageViewInput::FrameSized { .. } => {
            reveal(ReaderState::frame_sized);
        },
        MessageViewInput::MarkSeen { .. } => {
            reveal(ReaderState::mark_seen);
        },
        MessageViewInput::CardAction { .. } => {
            reveal(ReaderState::card_action);
        },
        MessageViewInput::CardContact { .. } => {
            reveal(ReaderState::card_contact);
        },
        MessageViewInput::OpenHeader { .. } => {
            reveal(ReaderState::open_header);
        },
        MessageViewInput::SetCardActionsMode { .. } => {
            reveal(ReaderState::set_card_actions_mode);
        },
        MessageViewInput::SetPaletteCollapse(_) => {
            reveal(ReaderState::set_palette_collapse);
        },
        MessageViewInput::ClearDot { .. } => {
            reveal(ReaderState::clear_dot);
        },
        MessageViewInput::SetCardStar { .. } => {
            reveal(ReaderState::set_card_star);
        },
        MessageViewInput::SetCardKeywords { .. } => {
            reveal(ReaderState::set_card_keywords);
        },
        MessageViewInput::SetTags(_) => {
            reveal(ReaderState::set_tags);
        },
        MessageViewInput::SetReadMark(_) => {
            reveal(ReaderState::set_read_mark);
        },
        MessageViewInput::OpenFind { .. } => {
            reveal(ReaderState::open_find);
        },
        MessageViewInput::CloseFind => {
            reveal(ReaderState::close_find);
        },
        MessageViewInput::FindChanged(_) => {
            reveal(ReaderState::find_changed);
        },
        MessageViewInput::FocusCard { .. } => {
            reveal(ReaderState::focus_card);
        },
        MessageViewInput::BlurCard => {
            reveal(ReaderState::blur_card);
        },
        _ => {},
    }
}

/// Remote content is permitted by the opening of a conversation, by asking for it once
/// or by trusting the sender, and by nothing else.
pub proof fn permission_is_asked_for(s: ReaderState, msg: MessageViewInput)
    requires
        !(msg is Show),
        !(msg is LoadRemoteOnce),
        !(msg is AllowSenderAlways),
    ensures
        view_step(s, msg).0.content.remote_allowed == s.content.remote_allowed,
        view_step(s, msg).0.content.blocked == s.content.blocked,
{
    match msg {
        MessageViewInput::Show(_) => {
            reveal(ReaderState::show);
        },
        MessageViewInput::AllowSenderAlways => {
            reveal(ReaderState::allow_sender_always);
        },
        MessageViewInput::SetContentTheme(_) => {
            reveal(ReaderState::set_content_theme);
        },
        MessageViewInput::SetReaderStyle(_) => {
            reveal(ReaderState::set_reader_style);
        },
        MessageViewInput::ToggleSenderStyle { .. } => {
            reveal(ReaderState::toggle_sender_style);
        },
        MessageViewInput::SenderCheckFor { .. } => {
            reveal(ReaderState::sender_check_for);
        },
        MessageViewInput::SenderInfoAt { .. } => {
            reveal(ReaderState::sender_info_at);
        },
        MessageViewInput::PgpFetchKey { .. } => {
            reveal(ReaderState::pgp_fetch_key);
        },
        MessageViewInput::PgpTrustKey { .. } => {
            reveal(ReaderState::pgp_trust_key);
        },
        MessageViewInput::PgpDone { .. } => {
            reveal(ReaderState::pgp_done);
        },
        MessageViewInput::Rendered => {
            reveal(ReaderState::drawn);
        },
        MessageViewInput::SuppressAutoRead { .. } => {
            reveal(ReaderState::suppress_auto_read);
        },
        MessageViewInput::ClearCards => {
            reveal(ReaderState::clear_cards);
        },
        MessageViewInput::CardClicked { .. } => {
            reveal(ReaderState::card_clicked);
        },
        MessageViewInput::SelectAllCards => {
            reveal(ReaderState::select_all_cards);
        },
        MessageViewInput::SetSelectedCards(_) => {
            reveal(ReaderState::set_selected_cards);
        },
        MessageViewInput::FrameSized { .. } => {
            reveal(ReaderState::frame_sized);
        },
        MessageViewInput::MarkSeen { .. } => {
            reveal(ReaderState::mark_seen);
        },
        MessageViewInput::CardAction { .. } => {
            reveal(ReaderState::card_action);
        },
        MessageViewInput::CardContact { .. } => {
            reveal(ReaderState::card_contact);
        },
        MessageViewInput::OpenHeader { .. } => {
            reveal(ReaderState::open_header);
        },
        MessageViewInput::SetCardActionsMode { .. } => {
            reveal(ReaderState::set_card_actions_mode);
        },
        MessageViewInput::SetPaletteCollapse(_) => {
            reveal(ReaderState::set_palette_collapse);
        },
        MessageViewInput::ClearDot { .. } => {
            reveal(ReaderState::clear_dot);
        },
        MessageViewInput::SetCardStar { .. } => {
            reveal(ReaderState::set_card_star);
        },
        MessageViewInput::SetCardKeywords { .. } => {
            reveal(ReaderState::set_card_keywords);
        },
        MessageViewInput::SetTags(_) => {
            reveal(ReaderState::set_tags);
        },
        MessageViewInput::SetReadMark(_) => {
            reveal(ReaderState::set_read_mark);
        },
        MessageViewInput::OpenFind { .. } => {
            reveal(ReaderState::open_find);
        },
        MessageViewInput::CloseFind => {
            reveal(ReaderState::close_find);
        },
        MessageViewInput::FindChanged(_) => {
            reveal(ReaderState::find_changed);
        },
        MessageViewInput::FocusCard { .. } => {
            reveal(ReaderState::focus_card);
        },
        MessageViewInput::BlurCard => {
            reveal(ReaderState::blur_card);
        },
        _ => {},
    }
}

/// A conversation that is opened has remote content permitted just as was said, and
/// counts as withheld if and only if it was not permitted and there is something.
pub proof fn opening_withholds(s: ReaderState, msg: MessageViewInput)
    requires
        msg is Show,
    ensures
        ({
            let o = msg->Show_0;
            let t = view_step(s, msg).0;
            &&& t.content.thread == mails(o.thread@)
            &&& t.content.remote_allowed == o.allow_remote
            &&& t.content.blocked == (any_remote(mails(o.thread@)) && !o.allow_remote)
        }),
{
    reveal(ReaderState::show);
}

/// Only opening a conversation changes which messages are on screen, and in which order.
pub proof fn messages_stay(s: ReaderState, msg: MessageViewInput)
    requires
        !(msg is Show),
    ensures
        view_step(s, msg).0.order() == s.order(),
{
    match msg {
        MessageViewInput::Show(_) => {
            reveal(ReaderState::show);
        },
        MessageViewInput::AllowSenderAlways => {
            reveal(ReaderState::allow_sender_always);
        },
        MessageViewInput::SetContentTheme(_) => {
            reveal(ReaderState::set_content_theme);
        },
        MessageViewInput::SetReaderStyle(_) => {
            reveal(ReaderState::set_reader_style);
        },
        MessageViewInput::ToggleSenderStyle { .. } => {
            reveal(ReaderState::toggle_sender_style);
        },
        MessageViewInput::SenderCheckFor { .. } => {
            reveal(ReaderState::sender_check_for);
        },
        MessageViewInput::SenderInfoAt { .. } => {
            reveal(ReaderState::sender_info_at);
        },
        MessageViewInput::PgpFetchKey { .. } => {
            reveal(ReaderState::pgp_fetch_key);
        },
        MessageViewInput::PgpTrustKey { .. } => {
            reveal(ReaderState::pgp_trust_key);
        },
        MessageViewInput::PgpDone { .. } => {
            reveal(ReaderState::pgp_done);
        },
        MessageViewInput::Rendered => {
            reveal(ReaderState::drawn);
        },
        MessageViewInput::SuppressAutoRead { .. } => {
            reveal(ReaderState::suppress_auto_read);
        },
        MessageViewInput::ClearCards => {
            reveal(ReaderState::clear_cards);
        },
        MessageViewInput::CardClicked { .. } => {
            reveal(ReaderState::card_clicked);
        },
        MessageViewInput::SelectAllCards => {
            reveal(ReaderState::select_all_cards);
        },
        MessageViewInput::SetSelectedCards(_) => {
            reveal(ReaderState::set_selected_cards);
        },
        MessageViewInput::FrameSized { .. } => {
            reveal(ReaderState::frame_sized);
        },
        MessageViewInput::MarkSeen { .. } => {
            reveal(ReaderState::mark_seen);
        },
        MessageViewInput::CardAction { .. } => {
            reveal(ReaderState::card_action);
        },
        MessageViewInput::CardContact { .. } => {
            reveal(ReaderState::card_contact);
        },
        MessageViewInput::OpenHeader { .. } => {
            reveal(ReaderState::open_header);
        },
        MessageViewInput::SetCardActionsMode { .. } => {
            reveal(ReaderState::set_card_actions_mode);
        },
        MessageViewInput::SetPaletteCollapse(_) => {
            reveal(ReaderState::set_palette_collapse);
        },
        MessageViewInput::ClearDot { .. } => {
            reveal(ReaderState::clear_dot);
        },
        MessageViewInput::SetCardStar { .. } => {
            reveal(ReaderState::set_card_star);
        },
        MessageViewInput::SetCardKeywords { .. } => {
            reveal(ReaderState::set_card_keywords);
        },
        MessageViewInput::SetTags(_) => {
            reveal(ReaderState::set_tags);
        },
        MessageViewInput::SetReadMark(_) => {
            reveal(ReaderState::set_read_mark);
        },
        MessageViewInput::OpenFind { .. } => {
            reveal(ReaderState::open_find);
        },
        MessageViewInput::CloseFind => {
            reveal(ReaderState::close_find);
        },
        MessageViewInput::FindChanged(_) => {
            reveal(ReaderState::find_changed);
        },
        MessageViewInput::FocusCard { .. } => {
            reveal(ReaderState::focus_card);
        },
        MessageViewInput::BlurCard => {
            reveal(ReaderState::blur_card);
        },
        _ => {},
    }
    assert(view_step(s, msg).0.order() =~= s.order());
}

// ----- Reading -----

/// A message that was marked unread by hand is not marked read by being in view.
pub proof fn unread_by_hand_stays_unread(s: ReaderState, key: (u32, u32))
    ensures
        ({
            let t = s.suppress_auto_read(key).0;
            t.mark_seen(key) == (t, Seq::<Wish>::empty())
        }),
        forall|i: int|
            0 <= i < s.content.thread.len() && (#[trigger] s.content.thread[i]).key() == key
                ==> s.suppress_auto_read(key).0.content.thread[i].unread,
{
    reveal(ReaderState::suppress_auto_read);
    reveal(ReaderState::mark_seen);
}

/// A message that comes into view is read then, unless it was marked unread by hand,
/// and the application is told if and only if it was not read before.
pub proof fn seen_is_read(s: ReaderState, key: (u32, u32), i: int)
    requires
        0 <= i < s.content.thread.len(),
        s.content.thread[i].key() == key,
        !s.marks.no_autoread.contains(packed(key)),
    ensures
        !s.mark_seen(key).0.content.thread[i].unread,
        s.content.thread[i].unread ==> s.mark_seen(key).1 == seq![Wish::MarkSeen(key)],
        s.mark_seen(key).0.mark_seen(key).1 == Seq::<Wish>::empty(),
{
    reveal(ReaderState::mark_seen);
    let t = s.mark_seen(key).0;
    assert forall|k: int|
        0 <= k < t.content.thread.len() && (#[trigger] t.content.thread[k]).key() == key
            implies !t.content.thread[k].unread by {
        assert(s.content.thread[k].key() == key);
    }
}

/// Marking one message leaves the marks of the others.
pub proof fn marking_one_leaves_the_others(
    s: ReaderState,
    key: (u32, u32),
    f: spec_fn(Mail) -> Mail,
    i: int,
)
    requires
        0 <= i < s.content.thread.len(),
        s.content.thread[i].key() != key,
    ensures
        changed(s.content.thread, key, f)[i] == s.content.thread[i],
        changed(s.content.thread, key, f).len() == s.content.thread.len(),
{
}

// ----- Looks -----

/// Asking for the sender's formatting twice leaves everything as it was.
pub proof fn toggling_style_twice_restores(s: ReaderState, key: (u32, u32))
    ensures
        s.toggle_sender_style(key).0.toggle_sender_style(key).0 == s,
{
    reveal(ReaderState::toggle_sender_style);
    let t = s.toggle_sender_style(key).0.toggle_sender_style(key).0;
    assert(t.marks.sender_style =~= s.marks.sender_style);
}

/// Asking for one message's formatting changes no other's.
pub proof fn toggling_style_is_for_one(s: ReaderState, key: (u32, u32), other: (u32, u32))
    requires
        key != other,
    ensures
        s.toggle_sender_style(key).0.marks.sender_style.contains(packed(other))
            == s.marks.sender_style.contains(packed(other)),
{
    reveal(ReaderState::toggle_sender_style);
    if packed(key) == packed(other) {
        packed_keys_differ(key, other);
    }
}

/// At most so many heights of frames are remembered.
pub proof fn heights_are_bounded(s: ReaderState, key: (u32, u32), height: u32)
    requires
        s.marks.frame_heights.dom().finite(),
        s.marks.frame_heights.len() <= 513,
    ensures
        s.frame_sized(key, height).0.marks.frame_heights.dom().finite(),
        s.frame_sized(key, height).0.marks.frame_heights.len() <= 513,
        s.frame_sized(key, height).0.marks.frame_heights[packed(key)] == height,
        s.frame_sized(key, height).0.marks.frame_heights.contains_key(packed(key)),
{
    reveal(ReaderState::frame_sized);
}

// ----- Selecting -----

/// What is left of a selection is part of the conversation and was selected.
pub proof fn selection_is_among(keys: Seq<(u32, u32)>, order: Seq<(u32, u32)>, key: (u32, u32))
    ensures
        among(keys, order).contains(key) <==> keys.contains(key) && order.contains(key),
    decreases keys.len(),
{
    if keys.len() > 0 {
        let rest = keys.drop_last();
        selection_is_among(rest, order, key);
        assert(keys[keys.len() - 1] == keys.last());
        if keys.contains(key) {
            let k = choose|k: int| 0 <= k < keys.len() && keys[k] == key;
            if k < keys.len() - 1 {
                assert(rest[k] == key);
            }
        }
        if rest.contains(key) {
            let k = choose|k: int| 0 <= k < rest.len() && rest[k] == key;
            assert(keys[k] == key);
        }
        if order.contains(keys.last()) {
            let had = among(rest, order);
            let now = had.push(keys.last());
            assert(now[had.len() as int] == keys.last());
            if had.contains(key) {
                let k = choose|k: int| 0 <= k < had.len() && had[k] == key;
                assert(now[k] == key);
            }
            if now.contains(key) {
                let k = choose|k: int| 0 <= k < now.len() && now[k] == key;
                if k < had.len() {
                    assert(had[k] == key);
                }
            }
        }
    }
}

/// Clicking cards selects none but those of the conversation.
pub proof fn clicking_selects_cards(s: ReaderState, key: (u32, u32), mode: SelectMode, other: (u32, u32))
    requires
        s.content.thread.len() > 1,
        s.card_clicked(key, mode).0.marks.selected_cards.contains(other),
    ensures
        s.order().contains(other),
{
    reveal(ReaderState::card_clicked);
    selection_is_among(s.clicked_keys(key, mode), s.order(), other);
}

/// A lone message is neither selected by a click nor outlined for being open in the list.
pub proof fn lone_message_is_not_outlined(s: ReaderState, key: (u32, u32), mode: SelectMode)
    requires
        s.content.thread.len() <= 1,
    ensures
        s.card_clicked(key, mode) == (s, Seq::<Wish>::empty()),
        s.select_all_cards() == (s, Seq::<Wish>::empty()),
        s.outline() == Seq::<Wish>::empty(),
        s.set_selected_cards(seq![key]).0.marks.selected_cards == Seq::<(u32, u32)>::empty(),
{
    reveal(ReaderState::card_clicked);
    reveal(ReaderState::select_all_cards);
    reveal(ReaderState::set_selected_cards);
    if s.marks.selected_cards == Seq::<(u32, u32)>::empty() {
    }
}

/// A plain click on a card of the conversation selects just that card.
pub proof fn plain_click_selects_one(s: ReaderState, key: (u32, u32))
    requires
        s.content.thread.len() > 1,
        s.order().contains(key),
    ensures
        s.card_clicked(key, SelectMode::Plain).0.marks.selected_cards == seq![key],
{
    reveal(ReaderState::card_clicked);
    let one = seq![key];
    assert(one.drop_last() =~= Seq::<(u32, u32)>::empty());
    assert(among(one.drop_last(), s.order()) =~= Seq::<(u32, u32)>::empty());
    assert(among(one, s.order()) =~= seq![key]);
}

// ----- Senders -----

proof fn lemma_find_check(checks: Seq<((u32, u32), SenderCheck)>, key: (u32, u32), i: int)
    requires
        0 <= i <= checks.len(),
    ensures
        i <= find_check(checks, key, i) <= checks.len(),
        find_check(checks, key, i) < checks.len() ==> checks[find_check(checks, key, i)].0 == key,
        forall|k: int| i <= k < find_check(checks, key, i) ==> (#[trigger] checks[k]).0 != key,
    decreases checks.len() - i,
{
    if i < checks.len() && checks[i].0 != key {
        lemma_find_check(checks, key, i + 1);
    }
}

proof fn lemma_find_check_is(
    checks: Seq<((u32, u32), SenderCheck)>,
    key: (u32, u32),
    i: int,
    k: int,
)
    requires
        0 <= i <= k <= checks.len(),
        k < checks.len() ==> checks[k].0 == key,
        forall|x: int| i <= x < k ==> (#[trigger] checks[x]).0 != key,
    ensures
        find_check(checks, key, i) == k,
    decreases k - i,
{
    if i < k {
        lemma_find_check_is(checks, key, i + 1, k);
    }
}

/// The last verdict on a message is the one that is known, and it changes no other.
pub proof fn last_verdict_counts(
    s: ReaderState,
    key: (u32, u32),
    check: SenderCheck,
    other: (u32, u32),
)
    ensures
        s.sender_check_for(key, check).0.check_of(key) == Some(check),
        other != key ==> s.sender_check_for(key, check).0.check_of(other) == s.check_of(other),
{
    reveal(ReaderState::sender_check_for);
    let had = s.checks.member_checks;
    let now = s.sender_check_for(key, check).0.checks.member_checks;
    let k = find_check(had, key, 0);
    lemma_find_check(had, key, 0);
    assert forall|x: int| 0 <= x < k implies (#[trigger] now[x]).0 != key by {
        assert(had[x].0 != key);
    }
    lemma_find_check_is(now, key, 0, k);
    if other != key {
        let m = find_check(had, other, 0);
        lemma_find_check(had, other, 0);
        assert forall|x: int| 0 <= x < m implies (#[trigger] now[x]).0 != other by {
            assert(had[x].0 != other);
        }
        if m < had.len() {
            lemma_find_check_is(now, other, 0, m);
        } else {
            lemma_find_check_is(now, other, 0, now.len() as int);
        }
    }
}

} // verus!
