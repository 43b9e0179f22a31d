//! The message list, its rows, and how messages are sorted and threaded.

use vireo::clock::{midnight_delay, until_next_day};
use vireo::message_list::{
    bulk_header, bulk_menu, context_menu, sort_menu, BulkAction, ListStep, MessageList,
    MessageListInput, MessageListOutput, SearchScope,
};
use vireo::message_row::{
    row_classes, AvatarLookup, AvatarStep, MessageRow, MessageRowInput, MessageRowOutput,
    RowAction, RowInit, RowStep,
};
use vireo::models::{message_key, Message};
use vireo::sorting::{normalize_subject, sort_messages, SortOrder};
use vireo::threads::compute_thread_keys;

fn msg(id: u32, subject: &str, timestamp: i64) -> Message {
    let s = |t: &str| t.to_string();
    Message {
        id,
        account_id: 1,
        folder_id: 1,
        uid: id,
        from_name: s("Ada"),
        from_addr: s("ada@example.com"),
        reply_to: s(""),
        to: s("me@example.com"),
        cc: s(""),
        subject: s(subject),
        preview: s(""),
        body: s("<p>x</p>"),
        date: s(""),
        timestamp,
        unread: false,
        starred: false,
        keywords: Vec::new(),
        has_attachment: false,
        message_id: format!("<{id}@x>"),
        references: s(""),
    }
}

fn reply(id: u32, to: u32, timestamp: i64) -> Message {
    Message { references: format!("<{to}@x>"), ..msg(id, "Re: a", timestamp) }
}

fn ids(v: &[Message]) -> Vec<u32> {
    v.iter().map(|m| m.id).collect()
}

fn filled(messages: Vec<Message>) -> MessageList {
    let mut list = MessageList::new();
    list.update(MessageListInput::SetMessages { title: "Inbox".to_string(), messages });
    list
}

fn rows(steps: &[ListStep]) -> Option<&Vec<RowInit>> {
    steps.iter().find_map(|s| match s {
        ListStep::Rows(r) => Some(r),
        _ => None,
    })
}

// ----- Sorting -----

#[test]
fn orders_sort_and_keep_everything() {
    let all = vec![msg(1, "Re: beta", 5), msg(2, "Alpha", 9), msg(3, "Fwd: RE: alpha", 1)];
    assert_eq!(ids(&sort_messages(&all, SortOrder::DateNewest)), vec![2, 1, 3]);
    assert_eq!(ids(&sort_messages(&all, SortOrder::DateOldest)), vec![3, 1, 2]);
    let mut by_subject = ids(&sort_messages(&all, SortOrder::Subject));
    assert_eq!(by_subject.pop(), Some(1));
    assert_eq!(normalize_subject("Re: FWD:  Hello World"), "hello world");
    assert_eq!(normalize_subject("Antw: ÄRGER"), "Ärger");
}

#[test]
fn order_keys_read_back() {
    for order in [SortOrder::DateNewest, SortOrder::DateOldest, SortOrder::Sender, SortOrder::Subject, SortOrder::UnreadFirst, SortOrder::FlaggedFirst] {
        assert!(SortOrder::from_key(order.key()) == order);
    }
    assert!(SortOrder::from_key("nonsense") == SortOrder::DateNewest);
}

// ----- Threads -----

#[test]
fn replies_share_a_thread() {
    let all = vec![msg(1, "a", 1), reply(2, 1, 2), reply(3, 2, 3), msg(4, "a", 4)];
    let keys = compute_thread_keys(&all);
    let key = |id: u32| keys.get(&message_key(1, id)).expect("a thread");
    assert!(key(1).same_as(key(2)) && key(2).same_as(key(3)));
    assert!(!key(1).same_as(key(4)));
}

/// Without a Message-ID a message is itself alone, wherever it lies.
#[test]
fn nameless_messages_stand_alone() {
    let nameless = |id: u32, uid: u32, folder_id: u32| Message {
        uid,
        folder_id,
        message_id: String::new(),
        ..msg(id, "a", 1)
    };
    let named = Message { message_id: "uid7".to_string(), ..msg(3, "a", 1) };
    let odd = Message { message_id: " 1".to_string(), ..msg(4, "a", 1) };
    let answer = Message { references: "<5@x>".to_string(), ..nameless(6, 7, 2) };
    let all = vec![nameless(1, 7, 1), nameless(2, 7, 3), named, odd, msg(5, "b", 2), answer];
    let keys = compute_thread_keys(&all);
    let key = |id: u32| keys.get(&message_key(1, id)).expect("a thread");
    for a in 1..=4 {
        for b in 1..=6 {
            assert_eq!(key(a).same_as(key(b)), a == b, "{a} {b}");
        }
    }
    assert!(key(5).same_as(key(6)));
}

// ----- The list -----

#[test]
fn a_conversation_is_one_row_until_it_is_expanded() {
    let mut list = filled(vec![msg(1, "a", 1), reply(2, 1, 2), msg(3, "b", 3)]);
    assert_eq!(ids(&list.display.shown), vec![3, 2]);
    let key = compute_thread_keys(&list.mail.all).remove(&message_key(1, 1)).expect("key");
    let steps = list.update(MessageListInput::ToggleThread(key.copy()));
    assert_eq!(ids(&list.display.shown), vec![3, 2, 1]);
    let rows = rows(&steps).expect("rows");
    assert_eq!((rows[1].thread_count, rows[1].thread_expanded), (2, true));
    assert!(rows[2].is_thread_child);
    list.update(MessageListInput::ToggleThread(key));
    assert_eq!(ids(&list.display.shown), vec![3, 2]);
}

#[test]
fn a_search_finds_what_matches() {
    let mut list = filled(vec![msg(1, "Invoice", 1), msg(2, "Lunch", 2)]);
    let steps = list.update(MessageListInput::Search("INVOICE".to_string()));
    assert_eq!(ids(&list.display.shown), vec![1]);
    assert!(steps.iter().any(|s| matches!(s, ListStep::Output(MessageListOutput::SearchActive(true)))));
    assert!(list.searching());
    list.update(MessageListInput::SetSearchPool(vec![msg(9, "Old invoice", 0), msg(1, "Invoice", 1)]));
    assert_eq!(ids(&list.display.shown), vec![1, 9]);
    list.update(MessageListInput::SetScope(SearchScope::ThisFolder));
    assert_eq!(ids(&list.display.shown), vec![1]);
    list.update(MessageListInput::Search(String::new()));
    assert_eq!(ids(&list.display.shown), vec![2, 1]);
    let mut other = filled(vec![msg(1, "Straße ÄRGER", 1), msg(2, "x", 2)]);
    other.update(MessageListInput::Search("Ärger".to_string()));
    assert_eq!(ids(&other.display.shown), vec![1]);
}

#[test]
fn removed_messages_are_gone() {
    let mut list = filled(vec![msg(1, "a", 1), msg(2, "b", 2), msg(3, "c", 3)]);
    let steps = list.update(MessageListInput::SelectionChanged(vec![0]));
    assert!(matches!(&steps[..], [ListStep::Output(MessageListOutput::Selected { .. })]));
    assert_eq!(list.choice.selected_id, Some((1, 3)));
    let steps = list.update(MessageListInput::Remove(3));
    assert_eq!(ids(&list.mail.all), vec![1, 2]);
    assert!(matches!(&steps[..], [ListStep::RemoveRow(0), ListStep::SelectRow(0)]));
    assert_eq!(list.choice.selected_id, None);
    list.update(MessageListInput::RemoveMany(vec![1, 2]));
    assert!(list.mail.all.is_empty() && list.display.shown.is_empty());
}

#[test]
fn only_new_messages_are_appended() {
    let mut list = filled(vec![msg(1, "a", 1)]);
    list.update(MessageListInput::AppendMessages { messages: vec![msg(1, "again", 7), msg(2, "b", 0)] });
    assert_eq!(ids(&list.mail.all), vec![1, 2]);
}

#[test]
fn pages_hold_two_hundred_and_grow() {
    let mut list = filled((0..450).map(|i| msg(i, "x", i as i64)).collect());
    assert_eq!(list.display.shown.len(), 200);
    list.update(MessageListInput::LoadMore);
    assert_eq!(list.display.shown.len(), 400);
    list.update(MessageListInput::LoadMore);
    assert_eq!(list.display.shown.len(), 450);
    assert!(!list.is_loading_more());
    list.update(MessageListInput::ResetPaging);
    assert_eq!(list.display.render_limit, 200);
}

#[test]
fn bulk_actions_take_the_chosen_rows() {
    let mut list = filled(vec![msg(1, "a", 1), msg(2, "b", 2), msg(3, "c", 3)]);
    let steps = list.update(MessageListInput::Bulk { action: BulkAction::Delete, rows: vec![0, 2, 9] });
    match &steps[..] {
        [ListStep::Output(MessageListOutput::Bulk { messages, .. }), ListStep::UnselectAll] => {
            assert_eq!(ids(messages), vec![3, 1])
        }
        _ => panic!("a bulk action"),
    }
    assert!(list.choice.selected_ids.is_empty());
}

#[test]
fn reading_marks_the_head_of_the_conversation() {
    let mut first = msg(1, "a", 1);
    first.unread = true;
    let mut list = filled(vec![first, reply(2, 1, 2)]);
    let steps = list.update(MessageListInput::SetRead { id: 1, read: true });
    assert!(!list.mail.all[0].unread);
    assert!(steps.iter().any(|s| matches!(s, ListStep::Row(0, MessageRowInput::SetThreadUnread(false)))));
}

#[test]
fn a_menu_for_one_or_for_several() {
    let mut list = filled(vec![msg(1, "a", 1), msg(2, "b", 2)]);
    let one = list.update(MessageListInput::ContextMenu { row: 1, selected: vec![0] });
    assert!(matches!(&one[..], [ListStep::RowMenu(1)]));
    let many = list.update(MessageListInput::ContextMenu { row: 1, selected: vec![0, 1] });
    assert!(matches!(&many[..], [ListStep::BulkMenu(_)]));
    assert!(!context_menu(&msg(1, "a", 1)).is_empty());
    assert!(!bulk_menu().is_empty() && !sort_menu().is_empty());
    assert!(bulk_header(3).contains('3'));
}

#[test]
fn accounts_ring_in_their_colour() {
    let mut list = filled(vec![msg(1, "a", 1)]);
    let steps = list.update(MessageListInput::SetAccountColors(vec![(1, "#f00".to_string())]));
    assert!(matches!(&steps[..], [ListStep::Tint(css)]
        if css == ".vireo-acct-ring-1 { border-radius: 9999px; box-shadow: 0 0 0 3px #f00; }\n"));
    let steps = list.update(MessageListInput::SetColorize(true));
    assert_eq!(rows(&steps).expect("rows")[0].ring_class.as_deref(), Some("vireo-acct-ring-1"));
}

#[test]
fn the_newest_message_opens_its_conversation() {
    let list = filled(vec![msg(1, "a", 1), reply(2, 1, 2)]);
    assert_eq!(ids(&list.conversation_for(&list.mail.all[1])), vec![2, 1]);
    assert_eq!(ids(&list.conversation_for(&list.mail.all[0])), vec![1]);
}

// ----- A row -----

fn row(m: Message) -> MessageRow {
    MessageRow::init_model(RowInit {
        msg: m,
        gravatar: true,
        ring_class: Some("ring".to_string()),
        thread_count: 1,
        is_thread_child: false,
        thread_expanded: false,
        thread_key: None,
        thread_unread: false,
    })
}

#[test]
fn an_opened_palette_closes() {
    let mut r = row(msg(1, "a", 1));
    assert!(matches!(&r.update(MessageRowInput::TogglePalette, 0)[..], [RowStep::StartTimer(1)]));
    assert!(r.palette_open);
    assert!(matches!(&r.update(MessageRowInput::PaletteEnter, 5)[..], [RowStep::StopTimer]));
    assert!(matches!(&r.update(MessageRowInput::PaletteLeave, 5)[..], [RowStep::StartTimer(5)]));
    r.update(MessageRowInput::CollapsePalette, 5);
    assert!(!r.palette_open && !r.collapse_pending);
    assert!(r.cancel_collapse().is_empty());
}

#[test]
fn a_row_shows_what_is_unread() {
    let mut r = row(msg(1, "a", 1));
    assert_eq!(r.sender_classes(), vec!["message-sender"]);
    assert!(!r.display_unread());
    r.update(MessageRowInput::SetThreadUnread(true), 1);
    assert!(r.display_unread());
    assert_eq!(r.sender_classes(), vec!["message-sender", "unread"]);
    assert!(r.row_css().contains(&"thread-unread"));
    assert!(!row_classes(&r.msg).contains(&"thread-unread"));
    assert!(r.ring_classes().contains(&"ring".to_string()));
    let steps = r.update(MessageRowInput::Action(RowAction::Reply), 1);
    assert!(matches!(&steps[..], [RowStep::Output(MessageRowOutput::Action { .. })]));
}

#[test]
fn a_picture_of_another_sender_is_ignored() {
    let r = row(msg(1, "a", 1));
    assert!(r.wants_avatar());
    assert!(r.avatar_answer("bob@example.com", AvatarLookup::Texture, true) == AvatarStep::Ignore);
    assert!(r.avatar_answer("ADA@example.com", AvatarLookup::Texture, true) == AvatarStep::Show);
    assert!(r.avatar_answer("ada@example.com", AvatarLookup::Missing, true) == AvatarStep::Forget);
}

// ----- The clock -----

#[test]
fn the_day_changes_after_midnight() {
    assert_eq!(until_next_day(0), 86402);
    assert_eq!(until_next_day(86399), 3);
    assert_eq!(until_next_day(90000), 2);
    let secs = midnight_delay();
    assert!((3..=86402).contains(&secs));
}

/// Without threading two messages with one UID in two folders are two rows.
#[test]
fn without_threading_every_message_is_a_row() {
    let mut list = filled(vec![msg(1, "a", 1), Message { uid: 1, folder_id: 2, ..msg(2, "b", 2) }]);
    list.update(MessageListInput::SetThreading(false));
    assert_eq!(ids(&list.display.shown), vec![2, 1]);
}

/// In a search over all folders a conversation's mark clears with its last unread message.
#[test]
fn a_mark_clears_in_a_search_over_all_folders() {
    let unread = |m: Message| Message { unread: true, ..m };
    let mut list = filled(vec![msg(9, "x", 1)]);
    list.update(MessageListInput::Search("a".to_string()));
    list.update(MessageListInput::SetSearchPool(vec![unread(msg(1, "a", 1)), unread(reply(2, 1, 2))]));
    assert_eq!(ids(&list.display.shown), vec![2]);
    let told = |steps: &[ListStep]| {
        steps.iter().find_map(|s| match s {
            ListStep::Row(i, MessageRowInput::SetThreadUnread(u)) => Some((*i, *u)),
            _ => None,
        })
    };
    let steps = list.update(MessageListInput::SetRead { id: 2, read: true });
    assert_eq!(told(&steps), Some((0, true)));
    let steps = list.update(MessageListInput::SetRead { id: 1, read: true });
    assert_eq!(told(&steps), Some((0, false)));
    assert!(list.mail.search_pool.iter().all(|m| !m.unread));
}

/// An open palette lingers for a second at least, however long the preference is.
#[test]
fn a_palette_lingers_no_shorter_than_a_second() {
    for (secs, wait) in [(0, 1), (7, 7), (1 << 32, u32::MAX), (u64::MAX, u32::MAX)] {
        let mut r = row(msg(1, "a", 1));
        let steps = r.update(MessageRowInput::TogglePalette, secs);
        assert!(steps.iter().any(|s| matches!(s, RowStep::StartTimer(w) if *w == wait)));
    }
}
