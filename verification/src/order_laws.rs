//! What each order of the message list and each of its menus stands for.

use vstd::prelude::*;

use crate::message_list::{
    first_id, list_step, matches_query, message_menu, selection_menu, sort_lines, tint_rules,
    picked, BulkAction, Demand, ListState, MenuLine, MessageListInput, SearchScope, RENDER_CAP,
};
use crate::message_row::{MessageRowInput, RowAction};
use crate::models::Mail;
use crate::sorting::{
    comes_before, lower_case, prefix_length, rank, ranking, ranks_of, sorted, sorting_keeps_all,
    text_before, topic, unprefixed, SortOrder,
};
use crate::text::{
    decimal, holds, is_blank, lemma_holds_inside, lemma_holds_part, lemma_skip, lemma_skip_to, lemma_tail_start, lower,
    lower_all, skip, stands_in_ci, tail_start, trim, trim_end, trim_start, Class,
};

verus! {

// ----- Orders -----

proof fn lemma_in_order(order: SortOrder, msgs: Seq<Mail>, i: int, j: int) -> (r: (int, int))
    requires
        0 <= i < j < msgs.len(),
    ensures
        0 <= r.0 < msgs.len(),
        0 <= r.1 < msgs.len(),
        sorted(order, msgs).len() == msgs.len(),
        sorted(order, msgs)[i] == msgs[r.0],
        sorted(order, msgs)[j] == msgs[r.1],
        ranks_of(order, msgs)[r.0] == rank(order, msgs[r.0]),
        ranks_of(order, msgs)[r.1] == rank(order, msgs[r.1]),
        comes_before(ranks_of(order, msgs), r.0, r.1),
{
    sorting_keeps_all(order, msgs);
    let p = ranking(order, msgs);
    assert(comes_before(ranks_of(order, msgs), p[i], p[j]));
    (p[i], p[j])
}

/// By date the newest message stands first, or the oldest.
pub proof fn dates_are_in_order(msgs: Seq<Mail>, i: int, j: int)
    requires
        0 <= i < j < msgs.len(),
    ensures
        sorted(SortOrder::DateNewest, msgs)[i].timestamp >= sorted(SortOrder::DateNewest, msgs)[j].timestamp,
        sorted(SortOrder::DateOldest, msgs)[i].timestamp <= sorted(SortOrder::DateOldest, msgs)[j].timestamp,
{
    let r = lemma_in_order(SortOrder::DateNewest, msgs, i, j);
    let q = lemma_in_order(SortOrder::DateOldest, msgs, i, j);
}

/// Unread messages stand before those that were read, and of each kind the newest first.
pub proof fn unread_stand_first(msgs: Seq<Mail>, i: int, j: int)
    requires
        0 <= i < j < msgs.len(),
    ensures
        ({
            let a = sorted(SortOrder::UnreadFirst, msgs)[i];
            let b = sorted(SortOrder::UnreadFirst, msgs)[j];
            &&& b.unread ==> a.unread
            &&& a.unread == b.unread ==> a.timestamp >= b.timestamp
        }),
{
    let r = lemma_in_order(SortOrder::UnreadFirst, msgs, i, j);
}

/// Messages with a star stand before those without, and of each kind the newest first.
pub proof fn starred_stand_first(msgs: Seq<Mail>, i: int, j: int)
    requires
        0 <= i < j < msgs.len(),
    ensures
        ({
            let a = sorted(SortOrder::FlaggedFirst, msgs)[i];
            let b = sorted(SortOrder::FlaggedFirst, msgs)[j];
            &&& b.starred ==> a.starred
            &&& a.starred == b.starred ==> a.timestamp >= b.timestamp
        }),
{
    let r = lemma_in_order(SortOrder::FlaggedFirst, msgs, i, j);
}

/// Whether a text is not behind another in the alphabet.
pub open spec fn not_behind(a: Seq<char>, b: Seq<char>) -> bool {
    a == b || text_before(a, b)
}

/// By sender the messages stand in the order of their senders' names, in lower case, or of
/// their addresses where these have no name, and those of one sender newest first.
pub proof fn senders_are_in_order(msgs: Seq<Mail>, i: int, j: int)
    requires
        0 <= i < j < msgs.len(),
    ensures
        ({
            let a = sorted(SortOrder::Sender, msgs)[i];
            let b = sorted(SortOrder::Sender, msgs)[j];
            let x = if trim(a.from_name).len() > 0 {
                a.from_name
            } else {
                a.from_addr
            };
            let y = if trim(b.from_name).len() > 0 {
                b.from_name
            } else {
                b.from_addr
            };
            &&& not_behind(lower_case(x), lower_case(y))
            &&& lower_case(x) == lower_case(y) ==> a.timestamp >= b.timestamp
        }),
{
    let r = lemma_in_order(SortOrder::Sender, msgs, i, j);
}

/// By subject the messages stand in the order of what they are about, and those on one
/// matter newest first.
pub proof fn subjects_are_in_order(msgs: Seq<Mail>, i: int, j: int)
    requires
        0 <= i < j < msgs.len(),
    ensures
        ({
            let a = sorted(SortOrder::Subject, msgs)[i];
            let b = sorted(SortOrder::Subject, msgs)[j];
            &&& not_behind(topic(a.subject), topic(b.subject))
            &&& topic(a.subject) == topic(b.subject) ==> a.timestamp >= b.timestamp
        }),
{
    let r = lemma_in_order(SortOrder::Subject, msgs, i, j);
}

/// In the alphabet a text stands before one that goes on from it, and of two that part the
/// one with the smaller letter there.
pub proof fn alphabet_decides(same: Seq<char>, a: Seq<char>, b: Seq<char>)
    requires
        b.len() > 0,
        a.len() > 0 ==> a[0] < b[0],
    ensures
        text_before(same + a, same + b),
        !text_before(same + b, same + a),
    decreases same.len(),
{
    if same.len() > 0 {
        alphabet_decides(same.drop_first(), a, b);
        assert((same + a).drop_first() =~= same.drop_first() + a);
        assert((same + b).drop_first() =~= same.drop_first() + b);
    } else {
        assert(same + a =~= a);
        assert(same + b =~= b);
    }
}

// ----- What a subject is about -----

/// The marks of an answer or of a forwarded message, in the languages that are known.
pub open spec fn is_reply_mark(p: Seq<char>) -> bool {
    ||| p == "re:"@
    ||| p == "fwd:"@
    ||| p == "fw:"@
    ||| p == "aw:"@
    ||| p == "sv:"@
    ||| p == "antw:"@
    ||| p == "wg:"@
}

proof fn lemma_mark(p: Seq<char>, s: Seq<char>)
    requires
        is_reply_mark(lower_all(p)),
    ensures
        p.len() > 0,
        !is_blank(p[0]),
        !is_blank(p.last()),
        prefix_length(p + s) == p.len(),
{
    reveal_strlit("re:");
    reveal_strlit("fwd:");
    reveal_strlit("fw:");
    reveal_strlit("aw:");
    reveal_strlit("sv:");
    reveal_strlit("antw:");
    reveal_strlit("wg:");
    let l = lower_all(p);
    let t = p + s;
    let n = t.len() as int;
    assert(l.len() == p.len());
    assert forall|k: int| 0 <= k < p.len() implies lower(#[trigger] p[k]) == l[k] && t[k] == p[k] by {}
    assert(lower(p[0]) == l[0] && lower(p[1]) == l[1] && lower(p[2]) == l[2]);
    assert(lower(p[p.len() - 1]) == l[l.len() - 1]);
    assert(t.subrange(0, p.len() as int) =~= p);
    lemma_marks_differ(t, l);
}

/// Which mark a text begins with is told by its letters.
proof fn lemma_marks_differ(t: Seq<char>, l: Seq<char>)
    requires
        is_reply_mark(l),
        l.len() <= t.len(),
        lower_all(t.subrange(0, l.len() as int)) == l,
    ensures
        prefix_length(t) == l.len(),
{
    reveal_strlit("re:");
    reveal_strlit("fwd:");
    reveal_strlit("fw:");
    reveal_strlit("aw:");
    reveal_strlit("sv:");
    reveal_strlit("antw:");
    reveal_strlit("wg:");
    let n = t.len() as int;
    assert forall|k: int| 0 <= k < l.len() implies #[trigger] lower(t[k]) == l[k] by {
        assert(lower_all(t.subrange(0, l.len() as int))[k] == lower(t[k]));
    }
    assert(lower(t[0]) == l[0] && lower(t[1]) == l[1] && lower(t[2]) == l[2]);
    lemma_other_mark(t, l, "re:"@);
    lemma_other_mark(t, l, "fwd:"@);
    lemma_other_mark(t, l, "fw:"@);
    lemma_other_mark(t, l, "aw:"@);
    lemma_other_mark(t, l, "sv:"@);
    lemma_other_mark(t, l, "antw:"@);
    lemma_other_mark(t, l, "wg:"@);
}

proof fn lemma_other_mark(t: Seq<char>, l: Seq<char>, m: Seq<char>)
    requires
        is_reply_mark(l),
        is_reply_mark(m),
        l.len() <= t.len(),
        lower_all(t.subrange(0, l.len() as int)) == l,
    ensures
        stands_in_ci(t, m, 0, t.len() as int) <==> m == l,
{
    reveal_strlit("re:");
    reveal_strlit("fwd:");
    reveal_strlit("fw:");
    reveal_strlit("aw:");
    reveal_strlit("sv:");
    reveal_strlit("antw:");
    reveal_strlit("wg:");
    if stands_in_ci(t, m, 0, t.len() as int) {
        let x = lower_all(t.subrange(0, m.len() as int));
        let y = lower_all(t.subrange(0, l.len() as int));
        assert(x[0] == lower(t[0]) && x[1] == lower(t[1]) && x[2] == lower(t[2]));
        assert(y[0] == lower(t[0]) && y[1] == lower(t[1]) && y[2] == lower(t[2]));
        assert(m[0] == l[0] && m[1] == l[1] && m[2] == l[2]);
        assert(m.len() == l.len());
        assert(x =~= y);
    }
}

proof fn lemma_trim_behind(p: Seq<char>, s: Seq<char>)
    requires
        p.len() > 0,
        !is_blank(p[0]),
        !is_blank(p.last()),
    ensures
        trim(p + s) == p + trim_end(s),
{
    let t = p + s;
    let n = t.len() as int;
    assert(skip(t, 0, n, Class::Blank) == 0);
    assert(trim_start(t) =~= t);
    lemma_tail_behind(p, s, n);
    lemma_tail_start(s, s.len() as int, Class::Blank);
    assert(trim_end(t) =~= p + trim_end(s));
}

proof fn lemma_tail_behind(p: Seq<char>, s: Seq<char>, end: int)
    requires
        p.len() > 0,
        !is_blank(p.last()),
        p.len() <= end <= p.len() + s.len(),
    ensures
        tail_start(p + s, end, Class::Blank) == p.len() + tail_start(s, end - p.len(), Class::Blank),
    decreases end,
{
    let t = p + s;
    if end > p.len() {
        assert(t[end - 1] == s[end - 1 - p.len()]);
        lemma_tail_behind(p, s, end - 1);
    } else {
        assert(t[end - 1] == p.last());
    }
}

proof fn lemma_tail_of_rest(s: Seq<char>, o: int, end: int)
    requires
        0 <= o <= end <= s.len(),
        o == end || exists|k: int| o <= k < end && !is_blank(#[trigger] s[k]),
    ensures
        o + tail_start(s.subrange(o, s.len() as int), end - o, Class::Blank) == tail_start(
            s,
            end,
            Class::Blank,
        ) || o == end,
    decreases end,
{
    let r = s.subrange(o, s.len() as int);
    if o < end {
        assert(r[end - o - 1] == s[end - 1]);
        if is_blank(s[end - 1]) {
            let k = choose|k: int| o <= k < end && !is_blank(#[trigger] s[k]);
            assert(k < end - 1);
            lemma_tail_of_rest(s, o, end - 1);
        }
    }
}

/// It does not matter at which end the white space is taken off first.
proof fn lemma_trim_ends(s: Seq<char>)
    ensures
        trim_start(trim_end(s)) == trim(s),
{
    let n = s.len() as int;
    let o = skip(s, 0, n, Class::Blank);
    lemma_skip(s, 0, n, Class::Blank);
    let e = tail_start(s, n, Class::Blank);
    lemma_tail_start(s, n, Class::Blank);
    let cut = s.subrange(0, e);
    if o < n {
        assert(!is_blank(s[o]));
        assert(o < e) by {
            if e <= o {
                assert(Class::Blank.has(s[o]));
            }
        }
        lemma_tail_of_rest(s, o, n);
        assert forall|x: int| 0 <= x < o implies Class::Blank.has(#[trigger] cut[x]) by {
            assert(cut[x] == s[x]);
        }
        assert(cut[o] == s[o]);
        lemma_skip_to(cut, 0, o, e, Class::Blank);
        assert(trim_start(cut) =~= s.subrange(o, e));
        assert(trim(s) =~= s.subrange(o, e));
    } else {
        assert(e == 0) by {
            if e > 0 {
                assert(Class::Blank.has(s[e - 1]));
            }
        }
        assert(trim_start(cut) =~= Seq::<char>::empty());
        let rest = trim_start(s);
        lemma_tail_start(rest, rest.len() as int, Class::Blank);
        assert(trim(s) =~= Seq::<char>::empty());
    }
}

/// An answer and a forwarded message are about what the message before was about: the marks
/// in front of a subject do not count, in whatever case they are written and with whatever
/// white space behind them.
pub proof fn reply_marks_do_not_matter(p: Seq<char>, subject: Seq<char>)
    requires
        is_reply_mark(lower_all(p)),
    ensures
        topic(p + subject) == topic(subject),
{
    lemma_mark(p, trim_end(subject));
    lemma_mark(p, subject);
    lemma_trim_behind(p, subject);
    lemma_trim_ends(subject);
    let t = p + trim_end(subject);
    assert(t.subrange(p.len() as int, t.len() as int) =~= trim_end(subject));
    assert(unprefixed(t) == unprefixed(trim(subject)));
}

// ----- Menus -----

/// What the menu of a message says of an action; of one that turns a mark around, what it
/// will do to this message.
pub open spec fn said_of(action: RowAction, m: Mail) -> Seq<char> {
    match action {
        RowAction::Reply => "Reply"@,
        RowAction::ReplyAll => "Reply All"@,
        RowAction::Forward => "Forward"@,
        RowAction::ToggleStar => if m.starred {
            "Remove Star"@
        } else {
            "Star"@
        },
        RowAction::ToggleRead => if m.unread {
            "Mark as Read"@
        } else {
            "Mark as Unread"@
        },
        RowAction::Spam => "Mark as Spam"@,
        RowAction::Archive => "Archive"@,
        RowAction::Delete => "Delete"@,
        RowAction::ViewSource => "View Source"@,
    }
}

/// The menu of a message offers every action, each under what is said of it, and nothing
/// else.
pub proof fn menu_says_what_it_does(m: Mail, action: RowAction, k: int)
    ensures
        message_menu(m).contains(MenuLine::Item(said_of(action, m), action)),
        0 <= k < message_menu(m).len() ==> match message_menu(m)[k] {
            MenuLine::Item(label, done) => label == said_of(done, m),
            MenuLine::Separator => true,
        },
{
    let v = message_menu(m);
    let at: int = match action {
        RowAction::Reply => 0,
        RowAction::ReplyAll => 1,
        RowAction::Forward => 2,
        RowAction::ToggleStar => 4,
        RowAction::ToggleRead => 5,
        RowAction::Spam => 7,
        RowAction::Archive => 8,
        RowAction::Delete => 9,
        RowAction::ViewSource => 11,
    };
    assert(v[at] == MenuLine::Item(said_of(action, m), action));
}

/// What the menu of several messages says of an action.
pub open spec fn said_of_all(action: BulkAction) -> Seq<char> {
    match action {
        BulkAction::MarkRead => "Mark as Read"@,
        BulkAction::MarkUnread => "Mark as Unread"@,
        BulkAction::Flag => "Flag"@,
        BulkAction::Archive => "Archive"@,
        BulkAction::Spam => "Mark as Spam"@,
        BulkAction::Delete => "Delete"@,
    }
}

/// The menu of several messages offers every action on them, each under what is said of it,
/// and nothing else.
pub proof fn bulk_menu_says_what_it_does(action: BulkAction, k: int)
    ensures
        selection_menu().contains(MenuLine::Item(said_of_all(action), action)),
        0 <= k < selection_menu().len() ==> match selection_menu()[k] {
            MenuLine::Item(label, done) => label == said_of_all(done),
            MenuLine::Separator => true,
        },
{
    let v = selection_menu();
    let at: int = match action {
        BulkAction::MarkRead => 0,
        BulkAction::MarkUnread => 1,
        BulkAction::Flag => 2,
        BulkAction::Spam => 4,
        BulkAction::Archive => 5,
        BulkAction::Delete => 6,
    };
    assert(v[at] == MenuLine::Item(said_of_all(action), action));
}

/// What the sort menu says of an order.
pub open spec fn said_of_order(order: SortOrder) -> Seq<char> {
    match order {
        SortOrder::DateNewest => "Date (Newest first)"@,
        SortOrder::DateOldest => "Date (Oldest first)"@,
        SortOrder::Sender => "Sender (A–Z)"@,
        SortOrder::Subject => "Subject (A–Z)"@,
        SortOrder::UnreadFirst => "Unread first"@,
        SortOrder::FlaggedFirst => "Flagged first"@,
    }
}

/// The sort menu offers every order under its name, and choosing one makes the list follow
/// it, with the messages and the search it had.
pub proof fn sort_menu_says_what_it_does(s: ListState, order: SortOrder, k: int)
    ensures
        sort_lines().contains(MenuLine::Item(said_of_order(order), order)),
        0 <= k < sort_lines().len() ==> match sort_lines()[k] {
            MenuLine::Item(label, done) => label == said_of_order(done),
            MenuLine::Separator => false,
        },
        ({
            let t = list_step(s, MessageListInput::SetSort(order)).0;
            &&& t.mail.sort == order
            &&& t.mail.all == s.mail.all
            &&& t.mail.search_pool == s.mail.search_pool
            &&& t.mail.query == s.mail.query
            &&& t.choice == s.choice
        }),
{
    reveal(ListState::set_sort);
    let v = sort_lines();
    let at: int = match order {
        SortOrder::DateNewest => 0,
        SortOrder::DateOldest => 1,
        SortOrder::Sender => 2,
        SortOrder::Subject => 3,
        SortOrder::UnreadFirst => 4,
        SortOrder::FlaggedFirst => 5,
    };
    assert(v[at] == MenuLine::Item(said_of_order(order), order));
}

// ----- Searching -----

/// A message is found by what stands in its subject, in the name or the address of its
/// sender, or in what is shown of its text, in whatever case, and by nothing else.
pub proof fn search_looks_at(m: Mail, q: Seq<char>, before: Seq<char>, behind: Seq<char>)
    requires
        q.len() > 0,
    ensures
        lower_case(m.subject) == before + q + behind ==> matches_query(m, q),
        lower_case(m.from_name) == before + q + behind ==> matches_query(m, q),
        lower_case(m.from_addr) == before + q + behind ==> matches_query(m, q),
        lower_case(m.preview) == before + q + behind ==> matches_query(m, q),
        matches_query(m, q) ==> holds(lower_case(m.subject), q) || holds(
            lower_case(m.from_name),
            q,
        ) || holds(lower_case(m.from_addr), q) || holds(lower_case(m.preview), q),
{
    lemma_holds_part(before, q, behind);
}

/// Where a search is made over all folders, it is made among their messages; otherwise, and
/// without a search, among those of the folder.
pub proof fn scope_says_where(s: ListState)
    ensures
        s.mail.scope == SearchScope::ThisFolder ==> s.source() == s.mail.all,
        trim(s.mail.query).len() == 0 ==> s.source() == s.mail.all,
        s.mail.scope == SearchScope::AllFolders && trim(s.mail.query).len() > 0
            && s.mail.search_pool.len() > 0 ==> s.source() == s.mail.search_pool,
{
}

/// A search is for what was entered, from the first page on, and the application is told
/// when a search begins or ends and not otherwise.
pub proof fn search_is_for_what_was_entered(s: ListState, q: Seq<char>)
    ensures
        ({
            let (t, asked) = s.search(q);
            let was = trim(s.mail.query).len() > 0;
            let is = trim(q).len() > 0;
            &&& t.mail.query == q
            &&& t.mail.all == s.mail.all
            &&& t.mail.sort == s.mail.sort
            &&& t.mail.scope == s.mail.scope
            &&& t.display.render_limit == RENDER_CAP
            &&& was != is ==> asked.len() > 0 && asked[0] == Demand::SearchActive(is)
        }),
{
    reveal(ListState::search);
}

// ----- Marks -----

proof fn lemma_first(msgs: Seq<Mail>, id: u32, i: int, k: int)
    requires
        0 <= k <= i < msgs.len(),
        msgs[i].id == id,
        forall|j: int| 0 <= j < msgs.len() && j != i ==> (#[trigger] msgs[j]).id != id,
    ensures
        first_id(msgs, id, k) == i,
    decreases i - k,
{
    if k < i {
        lemma_first(msgs, id, i, k + 1);
    }
}

/// Putting a star on a message or taking it off, or marking that it has an attachment,
/// changes that mark of that message, and no other message.
pub proof fn marks_are_set(s: ListState, i: int, on: bool, j: int)
    requires
        0 <= i < s.mail.all.len(),
        forall|k: int|
            0 <= k < s.mail.all.len() && k != i ==> (#[trigger] s.mail.all[k]).id != s.mail.all[i].id,
        0 <= j < s.mail.all.len(),
    ensures
        ({
            let m = s.mail.all[i];
            let starred = s.set_starred(m.id, on).0.mail.all;
            let attached = s.set_has_attachment(m.id, on).0.mail.all;
            let read = s.set_read(m.id, on).0.mail.all;
            &&& starred[i] == (Mail { starred: on, ..m })
            &&& attached[i] == (Mail { has_attachment: on, ..m })
            &&& read[i] == (Mail { unread: !on, ..m })
            &&& j != i ==> starred[j] == s.mail.all[j] && attached[j] == s.mail.all[j] && read[j]
                == s.mail.all[j]
        }),
{
    reveal(ListState::set_starred);
    reveal(ListState::set_has_attachment);
    reveal(ListState::set_read);
    lemma_first(s.mail.all, s.mail.all[i].id, i, 0);
}

/// The row that shows a message is told of its new marks as they are.
pub proof fn rows_are_told(s: ListState, i: int, on: bool)
    requires
        0 <= i < s.display.shown.len() <= usize::MAX,
        forall|k: int|
            0 <= k < s.display.shown.len() && k != i ==> (#[trigger] s.display.shown[k]).id
                != s.display.shown[i].id,
    ensures
        ({
            let id = s.display.shown[i].id;
            &&& s.set_starred(id, on).1.contains(
                Demand::Row(i as usize, MessageRowInput::SetStarred(on)),
            )
            &&& s.set_has_attachment(id, on).1.contains(
                Demand::Row(i as usize, MessageRowInput::SetHasAttachment(on)),
            )
            &&& s.set_read(id, on).1.contains(Demand::Row(i as usize, MessageRowInput::SetRead(on)))
        }),
{
    reveal(ListState::set_starred);
    reveal(ListState::set_has_attachment);
    reveal(ListState::set_read);
    let id = s.display.shown[i].id;
    lemma_first(s.display.shown, id, i, 0);
    assert(s.set_starred(id, on).1[0] == Demand::Row(i as usize, MessageRowInput::SetStarred(on)));
    assert(s.set_has_attachment(id, on).1[0] == Demand::Row(
        i as usize,
        MessageRowInput::SetHasAttachment(on),
    ));
    assert(s.set_read(id, on).1[0] == Demand::Row(i as usize, MessageRowInput::SetRead(on)));
}

// ----- Rows -----

/// What is done in a row, or by opening it, is done to the message of that row.
pub proof fn rows_act_on_their_message(s: ListState, row: int)
    requires
        0 <= row < s.display.shown.len(),
        row <= i32::MAX,
    ensures
        s.row_activated(row as i32) == (s, seq![Demand::Activated(s.display.shown[row])]),
        s.context_menu(row as usize, seq![]) == (s, seq![Demand::RowMenu(row as usize)]),
{
    reveal(ListState::row_activated);
    reveal(ListState::context_menu);
}

/// What is done to a selection is done to the messages of its rows, in their order, and
/// nothing is selected any more.
pub proof fn bulk_acts_on_the_rows(s: ListState, action: BulkAction, a: usize, b: usize)
    requires
        a < s.display.shown.len(),
        b < s.display.shown.len(),
    ensures
        ({
            let (t, asked) = s.bulk(action, seq![a, b]);
            &&& asked[0] == Demand::Bulk {
                action,
                mails: seq![s.display.shown[a as int], s.display.shown[b as int]],
            }
            &&& t.choice.selected_id is None
            &&& t.choice.selected_ids.len() == 0
            &&& t.mail == s.mail
        }),
{
    reveal(ListState::bulk);
    let rows = seq![a, b];
    let none = Seq::<usize>::empty();
    reveal_with_fuel(picked, 3);
    assert(rows.drop_last() =~= seq![a]);
    assert(seq![a].drop_last() =~= none);
    assert(picked(s.display.shown, rows) =~= seq![
        s.display.shown[a as int],
        s.display.shown[b as int],
    ]);
}

/// When the message that is read goes, the one below it is read next; where it was the
/// last, the one above.
pub proof fn next_message_is_read(s: ListState, i: int)
    requires
        0 <= i < s.display.shown.len(),
        s.display.shown.len() > 1,
        s.display.shown.len() <= usize::MAX,
        forall|k: int|
            0 <= k < s.display.shown.len() && k != i ==> (#[trigger] s.display.shown[k]).id
                != s.display.shown[i].id,
        s.choice.selected_id == Some(s.display.shown[i].key()),
    ensures
        ({
            let n = s.display.shown.len() as int;
            let (t, asked) = s.remove(s.display.shown[i].id);
            let next = if i + 1 < n {
                i
            } else {
                n - 2
            };
            &&& asked == seq![Demand::RemoveRow(i as usize), Demand::SelectRow(next as usize)]
            &&& t.display.shown[next] == (if i + 1 < n {
                s.display.shown[i + 1]
            } else {
                s.display.shown[n - 2]
            })
        }),
{
    reveal(ListState::remove);
    lemma_first(s.display.shown, s.display.shown[i].id, i, 0);
    let n = s.display.shown.len() as int;
    let next = if i + 1 < n {
        i
    } else {
        n - 2
    };
    let asked = s.remove(s.display.shown[i].id).1;
    assert(asked =~= seq![Demand::RemoveRow(i as usize), Demand::SelectRow(next as usize)]);
}

/// Each account's avatars are ringed in its own colour.
pub proof fn rings_have_their_colour(colors: Seq<(u32, Seq<char>)>, n: nat, k: int)
    requires
        0 <= k < n <= colors.len(),
    ensures
        holds(
            tint_rules(colors, n),
            ".vireo-acct-ring-"@ + decimal(colors[k].0 as nat)
                + " { border-radius: 9999px; box-shadow: 0 0 0 3px "@ + colors[k].1 + "; }\n"@,
        ),
    decreases n,
{
    let rest = tint_rules(colors, (n - 1) as nat);
    let rule = ".vireo-acct-ring-"@ + decimal(colors[n - 1].0 as nat)
        + " { border-radius: 9999px; box-shadow: 0 0 0 3px "@ + colors[n - 1].1 + "; }\n"@;
    let none = Seq::<char>::empty();
    assert(rest + rule + none =~= rest + rule);
    assert(none + rest + rule =~= rest + rule);
    if k == n - 1 {
        lemma_holds_part(rest, rule, none);
    } else {
        rings_have_their_colour(colors, (n - 1) as nat, k);
        let had = ".vireo-acct-ring-"@ + decimal(colors[k].0 as nat)
            + " { border-radius: 9999px; box-shadow: 0 0 0 3px "@ + colors[k].1 + "; }\n"@;
        lemma_holds_inside(none, rest, rule, had);
    }
}

/// A page more is shown, of as many messages as fit a page.
pub proof fn more_is_a_page_more(s: ListState)
    requires
        s.display.rendered_count < s.display.total_matches,
        s.display.render_limit + 200 <= usize::MAX,
    ensures
        s.load_more().0.display.render_limit == s.display.render_limit + 200,
        s.load_more().0.mail == s.mail,
{
    reveal(ListState::load_more);
}

} // verus!
