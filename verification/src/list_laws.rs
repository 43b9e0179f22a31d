//! What holds of the message list whatever is done to it.

use vstd::prelude::*;

use crate::message_list::{
    conversation_key, conversations, first_id, first_member, grouped, keys_without, matches_query,
    matching, member_slot, member_unread, picked, slot, unknown, without, Demand, Group, ListState,
    Sourced,
};
use crate::message_row::MessageRowInput;
use crate::models::Mail;
use crate::sorting::{lower_case, sorting_keeps_all, SortOrder};
use crate::threads::{names_differ, Node};

verus! {

// ----- Conversations -----

/// Whether the conversations are those of the first `n` messages: each message is in
/// the one that has its name, each one's messages stand in their order, and no two have
/// the same name.
pub open spec fn well_grouped(groups: Seq<Group>, keys: Seq<(u32, Seq<char>)>, n: int) -> bool {
    &&& forall|g: int| 0 <= g < groups.len() ==> (#[trigger] groups[g]).members.len() > 0
    &&& forall|g: int, k: int|
        0 <= g < groups.len() && 0 <= k < groups[g].members.len() ==> 0 <= #[trigger] groups[g].members[k] < n
            && keys[groups[g].members[k]] == groups[g].key
    &&& forall|g: int, j: int, k: int|
        0 <= g < groups.len() && 0 <= j < k < groups[g].members.len() ==> #[trigger] groups[g].members[j]
            < #[trigger] groups[g].members[k]
    &&& forall|g: int, h: int|
        0 <= g < h < groups.len() ==> (#[trigger] groups[g]).key != (#[trigger] groups[h]).key
    &&& forall|i: int| 0 <= i < n ==> #[trigger] has_message(groups, i)
}

/// Whether a message is in one of the conversations.
pub open spec fn has_message(groups: Seq<Group>, i: int) -> bool {
    exists|g: int, k: int|
        0 <= g < groups.len() && 0 <= k < groups[g].members.len() && #[trigger] groups[g].members[k]
            == i
}

proof fn lemma_slot(groups: Seq<Group>, key: (u32, Seq<char>), i: int)
    requires
        0 <= i <= groups.len(),
    ensures
        i <= slot(groups, key, i) <= groups.len(),
        slot(groups, key, i) < groups.len() ==> groups[slot(groups, key, i)].key == key,
        forall|g: int| i <= g < slot(groups, key, i) ==> (#[trigger] groups[g]).key != key,
    decreases groups.len() - i,
{
    if i < groups.len() && groups[i].key != key {
        lemma_slot(groups, key, i + 1);
    }
}

proof fn lemma_grouped(keys: Seq<(u32, Seq<char>)>, n: nat)
    requires
        n <= keys.len(),
    ensures
        well_grouped(grouped(keys, n), keys, n as int),
    decreases n,
{
    if n > 0 {
        let m = (n - 1) as nat;
        lemma_grouped(keys, m);
        let had = grouped(keys, m);
        let key = keys[n - 1];
        let k = slot(had, key, 0);
        lemma_slot(had, key, 0);
        let groups = grouped(keys, n);
        assert forall|i: int| 0 <= i < n implies #[trigger] has_message(groups, i) by {
            if i == n - 1 {
                if k < had.len() {
                    assert(groups[k].members[had[k].members.len() as int] == i);
                } else {
                    assert(groups[had.len() as int].members[0] == i);
                }
            } else {
                assert(has_message(had, i));
                let (g, x) = choose|g: int, x: int|
                    0 <= g < had.len() && 0 <= x < had[g].members.len() && #[trigger] had[g].members[x]
                        == i;
                assert(groups[g].members[x] == i);
            }
        }
        assert forall|g: int, j: int, x: int|
            0 <= g < groups.len() && 0 <= j < x < groups[g].members.len()
                implies #[trigger] groups[g].members[j]
            < #[trigger] groups[g].members[x] by {
            if g < had.len() && x < had[g].members.len() {
                assert(had[g].members[j] < had[g].members[x]);
            } else if g < had.len() {
                assert(had[g].members[j] < m);
            }
        }
        assert forall|g: int, x: int|
            0 <= g < groups.len() && 0 <= x < groups[g].members.len()
                implies 0 <= #[trigger] groups[g].members[x]
            < n && keys[groups[g].members[x]] == groups[g].key by {
            if g < had.len() && x < had[g].members.len() {
                assert(0 <= had[g].members[x] < m);
            }
        }
    }
}

/// Every message that is rendered is in exactly one conversation, and two are in the
/// same one if and only if it has the same name for both.
pub proof fn conversations_part_the_messages(rendered: Seq<Mail>, threading: bool, i: int, j: int)
    requires
        0 <= i < rendered.len(),
        0 <= j < rendered.len(),
    ensures
        has_message(conversations(rendered, threading), i),
        conversation_key(rendered, threading, rendered[i]) == conversation_key(
            rendered,
            threading,
            rendered[j],
        ) <==> exists|g: int|
            0 <= g < conversations(rendered, threading).len() && (#[trigger] conversations(
                rendered,
                threading,
            )[g]).members.contains(i) && conversations(rendered, threading)[g].members.contains(j),
{
    let keys = rendered.map_values(|m: Mail| conversation_key(rendered, threading, m));
    let groups = conversations(rendered, threading);
    lemma_grouped(keys, rendered.len());
    assert(keys[i] == conversation_key(rendered, threading, rendered[i]));
    assert(keys[j] == conversation_key(rendered, threading, rendered[j]));
    assert(has_message(groups, i));
    assert(has_message(groups, j));
    let (g, x) = choose|g: int, x: int|
        0 <= g < groups.len() && 0 <= x < groups[g].members.len() && #[trigger] groups[g].members[x] == i;
    let (h, y) = choose|h: int, y: int|
        0 <= h < groups.len() && 0 <= y < groups[h].members.len() && #[trigger] groups[h].members[y] == j;
    assert(keys[groups[g].members[x]] == groups[g].key);
    assert(keys[groups[h].members[y]] == groups[h].key);
    if keys[i] == keys[j] {
        if g < h {
            assert(groups[g].key != groups[h].key);
        } else if h < g {
            assert(groups[h].key != groups[g].key);
        }
        assert(groups[g].members.contains(i));
        assert(groups[g].members.contains(j));
    }
    if exists|z: int|
        0 <= z < groups.len() && (#[trigger] groups[z]).members.contains(i) && groups[z].members.contains(
            j,
        ) {
        let z = choose|z: int|
            0 <= z < groups.len() && (#[trigger] groups[z]).members.contains(i) && groups[z].members.contains(
                j,
            );
        let a = choose|a: int| 0 <= a < groups[z].members.len() && groups[z].members[a] == i;
        let b = choose|b: int| 0 <= b < groups[z].members.len() && groups[z].members[b] == j;
        assert(keys[groups[z].members[a]] == groups[z].key);
        assert(keys[groups[z].members[b]] == groups[z].key);
    }
}

// ----- Rows -----

/// A row for the head of each conversation, and, of those that are expanded, one for
/// each message: so many rows show the first `n` conversations.
pub open spec fn row_count(s: ListState, groups: Seq<Group>, n: nat) -> nat
    decreases n,
{
    if n == 0 {
        0
    } else {
        row_count(s, groups, (n - 1) as nat) + (if s.expanded(groups[n - 1]) {
            groups[n - 1].members.len()
        } else {
            1
        })
    }
}

proof fn lemma_row_count(s: ListState, rendered: Seq<Mail>, groups: Seq<Group>, n: nat)
    requires
        n <= groups.len(),
        forall|g: int| 0 <= g < groups.len() ==> (#[trigger] groups[g]).members.len() > 0,
    ensures
        s.rows_to(rendered, groups, n).len() == row_count(s, groups, n),
    decreases n,
{
    if n > 0 {
        lemma_row_count(s, rendered, groups, (n - 1) as nat);
        assert(groups[n - 1].members.len() > 0);
    }
}

proof fn lemma_rows_rendered(
    s: ListState,
    rendered: Seq<Mail>,
    groups: Seq<Group>,
    keys: Seq<(u32, Seq<char>)>,
    n: nat,
    r: int,
)
    requires
        n <= groups.len(),
        well_grouped(groups, keys, rendered.len() as int),
        0 <= r < s.rows_to(rendered, groups, n).len(),
    ensures
        rendered.contains(s.rows_to(rendered, groups, n)[r].mail),
    decreases n,
{
    if n > 0 {
        let before = s.rows_to(rendered, groups, (n - 1) as nat);
        let g = groups[n - 1];
        let here = s.group_rows(rendered, g);
        if r < before.len() {
            lemma_rows_rendered(s, rendered, groups, keys, (n - 1) as nat, r);
        } else {
            let k = r - before.len();
            assert(s.rows_to(rendered, groups, n)[r] == here[k]);
            assert(g.members.len() > 0);
            if k == 0 {
                assert(here[0].mail == rendered[g.members[0]]);
                assert(0 <= groups[n - 1].members[0] < rendered.len());
            } else {
                assert(here[k] == s.child_row(rendered[g.members.skip(1)[k - 1]]));
                assert(g.members.skip(1)[k - 1] == g.members[k]);
                assert(0 <= groups[n - 1].members[k] < rendered.len());
            }
        }
    }
}

/// Every row of a rebuilt list shows a message that was found, and there are no more
/// of them found than the limit lets render.
pub proof fn rows_show_what_is_rendered(s: ListState, r: int)
    requires
        0 <= r < s.rows().len(),
    ensures
        s.rendered().contains(s.rows()[r].mail),
        s.rebuilt().display.shown[r] == s.rows()[r].mail,
        s.rebuilt().display.shown.len() == s.rows().len(),
        s.rendered().len() <= s.display.render_limit,
        s.rendered().len() <= s.found().len(),
{
    let rendered = s.rendered();
    let keys = rendered.map_values(|m: Mail| conversation_key(rendered, s.mail.threading, m));
    let groups = conversations(rendered, s.mail.threading);
    lemma_grouped(keys, rendered.len());
    lemma_rows_rendered(s, rendered, groups, keys, groups.len(), r);
}

/// There is a row for every conversation, and none beyond the messages of the expanded
/// ones.
pub proof fn rows_are_counted(s: ListState)
    ensures
        s.rows().len() == row_count(
            s,
            conversations(s.rendered(), s.mail.threading),
            conversations(s.rendered(), s.mail.threading).len(),
        ),
{
    let rendered = s.rendered();
    let keys = rendered.map_values(|m: Mail| conversation_key(rendered, s.mail.threading, m));
    let groups = conversations(rendered, s.mail.threading);
    lemma_grouped(keys, rendered.len());
    lemma_row_count(s, rendered, groups, groups.len());
}

/// Building the rows again changes nothing.
pub proof fn rebuilding_again_changes_nothing(s: ListState)
    ensures
        s.rebuilt().rows() == s.rows(),
        s.rebuilt().rebuilt() == s.rebuilt(),
{
    assert(s.rebuilt().source() == s.source());
    assert(s.rebuilt().found() == s.found());
    assert(s.rebuilt().rendered() == s.rendered());
    let groups = conversations(s.rendered(), s.mail.threading);
    lemma_same_rows(s, s.rebuilt(), s.rendered(), groups, groups.len());
}

proof fn lemma_same_rows(
    s: ListState,
    t: ListState,
    rendered: Seq<Mail>,
    groups: Seq<Group>,
    n: nat,
)
    requires
        n <= groups.len(),
        s.looks == t.looks,
        s.folds == t.folds,
    ensures
        s.rows_to(rendered, groups, n) == t.rows_to(rendered, groups, n),
    decreases n,
{
    if n > 0 {
        lemma_same_rows(s, t, rendered, groups, (n - 1) as nat);
        let g = groups[n - 1];
        assert(s.group_rows(rendered, g) =~= t.group_rows(rendered, g));
    }
}

/// Toggling a conversation twice folds everything as it was and shows the same rows.
pub proof fn toggling_twice_restores(s: ListState, key: (u32, Seq<char>))
    ensures
        ({
            let once = s.toggle_thread(key).0;
            let twice = once.toggle_thread(key).0;
            &&& twice.folds == s.folds
            &&& twice == s.rebuilt()
        }),
{
    reveal(ListState::toggle_thread);
    let once = s.toggle_thread(key).0;
    let twice = once.toggle_thread(key).0;
    assert(twice.folds.expanded_threads =~= s.folds.expanded_threads);
    assert(twice.mail == s.mail && twice.looks == s.looks);
    let before = ListState { folds: s.folds, ..once };
    assert(before.source() == s.source());
    assert(before.found() == s.found());
    assert(before.rendered() == s.rendered());
    let groups = conversations(s.rendered(), s.mail.threading);
    lemma_same_rows(s, before, s.rendered(), groups, groups.len());
    assert(twice == before.rebuilt());
    assert(before.rebuilt() == s.rebuilt());
}

// ----- Searching -----

/// A search finds just those of the messages that match it.
pub proof fn search_finds_what_matches(msgs: Seq<Mail>, q: Seq<char>, m: Mail)
    ensures
        matching(msgs, q).contains(m) <==> msgs.contains(m) && matches_query(m, q),
    decreases msgs.len(),
{
    if msgs.len() > 0 {
        let rest = msgs.drop_last();
        search_finds_what_matches(rest, q, m);
        assert(msgs[msgs.len() - 1] == msgs.last());
        if msgs.contains(m) {
            let k = choose|k: int| 0 <= k < msgs.len() && msgs[k] == m;
            if k < msgs.len() - 1 {
                assert(rest[k] == m);
            }
        }
        if rest.contains(m) {
            let k = choose|k: int| 0 <= k < rest.len() && rest[k] == m;
            assert(msgs[k] == m);
        }
        if matches_query(msgs.last(), q) {
            let had = matching(rest, q);
            let now = had.push(msgs.last());
            assert(now[had.len() as int] == msgs.last());
            if had.contains(m) {
                let k = choose|k: int| 0 <= k < had.len() && had[k] == m;
                assert(now[k] == m);
            }
            if now.contains(m) {
                let k = choose|k: int| 0 <= k < now.len() && now[k] == m;
                if k < had.len() {
                    assert(had[k] == m);
                }
            }
        }
    }
}

/// An empty search leaves nothing out.
pub proof fn empty_search_finds_all(msgs: Seq<Mail>)
    ensures
        matching(msgs, seq![]) == msgs,
    decreases msgs.len(),
{
    if msgs.len() > 0 {
        empty_search_finds_all(msgs.drop_last());
        assert(msgs.drop_last().push(msgs.last()) =~= msgs);
    } else {
        assert(matching(msgs, seq![]) =~= msgs);
    }
}

/// However a list is sorted, as many messages are found.
pub proof fn sorting_finds_as_many(s: ListState, order: SortOrder)
    ensures
        (ListState { mail: Sourced { sort: order, ..s.mail }, ..s }).found().len() == s.found().len(),
{
    let t = ListState { mail: Sourced { sort: order, ..s.mail }, ..s };
    let msgs = matching(s.source(), lower_case(s.mail.query));
    assert(t.source() == s.source());
    sorting_keeps_all(s.mail.sort, msgs);
    sorting_keeps_all(order, msgs);
}

// ----- Adding and removing -----

/// Messages that were removed are gone, and no others are.
pub proof fn removed_are_gone(msgs: Seq<Mail>, gone: Set<u32>, m: Mail)
    ensures
        without(msgs, gone).contains(m) <==> msgs.contains(m) && !gone.contains(m.id),
    decreases msgs.len(),
{
    if msgs.len() > 0 {
        let rest = msgs.drop_last();
        removed_are_gone(rest, gone, m);
        assert(msgs[msgs.len() - 1] == msgs.last());
        if msgs.contains(m) {
            let k = choose|k: int| 0 <= k < msgs.len() && msgs[k] == m;
            if k < msgs.len() - 1 {
                assert(rest[k] == m);
            }
        }
        if rest.contains(m) {
            let k = choose|k: int| 0 <= k < rest.len() && rest[k] == m;
            assert(msgs[k] == m);
        }
        if !gone.contains(msgs.last().id) {
            let had = without(rest, gone);
            let now = had.push(msgs.last());
            assert(now[had.len() as int] == msgs.last());
            if had.contains(m) {
                let k = choose|k: int| 0 <= k < had.len() && had[k] == m;
                assert(now[k] == m);
            }
            if now.contains(m) {
                let k = choose|k: int| 0 <= k < now.len() && now[k] == m;
                if k < had.len() {
                    assert(had[k] == m);
                }
            }
        }
    }
}

/// Keys that were removed are gone, and no others are.
pub proof fn removed_keys_are_gone(keys: Seq<(u32, u32)>, gone: Set<u32>, key: (u32, u32))
    ensures
        keys_without(keys, gone).contains(key) <==> keys.contains(key) && !gone.contains(key.1),
    decreases keys.len(),
{
    if keys.len() > 0 {
        let rest = keys.drop_last();
        removed_keys_are_gone(rest, gone, key);
        assert(keys[keys.len() - 1] == keys.last());
        if keys.contains(key) {
            let k = choose|k: int| 0 <= k < keys.len() && keys[k] == key;
            if k < keys.len() - 1 {
                assert(rest[k] == key);
            }
        }
        if rest.contains(key) {
            let k = choose|k: int| 0 <= k < rest.len() && rest[k] == key;
            assert(keys[k] == key);
        }
        if !gone.contains(keys.last().1) {
            let had = keys_without(rest, gone);
            let now = had.push(keys.last());
            assert(now[had.len() as int] == keys.last());
            if had.contains(key) {
                let k = choose|k: int| 0 <= k < had.len() && had[k] == key;
                assert(now[k] == key);
            }
            if now.contains(key) {
                let k = choose|k: int| 0 <= k < now.len() && now[k] == key;
                if k < had.len() {
                    assert(had[k] == key);
                }
            }
        }
    }
}

/// After several messages were removed, none of them is in the index, on display,
/// viewed or selected any more, and every other one still is.
pub proof fn removing_many_removes_them(s: ListState, ids: Seq<u32>, m: Mail)
    requires
        ids.len() > 0,
    ensures
        ({
            let t = s.remove_many(ids).0;
            let gone = ids.to_set();
            &&& t.mail.all.contains(m) <==> s.mail.all.contains(m) && !gone.contains(m.id)
            &&& t.display.shown.contains(m) <==> s.display.shown.contains(m) && !gone.contains(m.id)
            &&& t.choice.selected_ids.contains(m.key()) <==> s.choice.selected_ids.contains(m.key())
                && !gone.contains(m.id)
            &&& t.choice.selected_id is Some ==> !gone.contains((t.choice.selected_id->0).1)
        }),
{
    reveal(ListState::remove_many);
    let gone = ids.to_set();
    removed_are_gone(s.mail.all, gone, m);
    removed_are_gone(s.display.shown, gone, m);
    removed_keys_are_gone(s.choice.selected_ids, gone, m.key());
}

/// After a message was removed, none with its identifier is in the index, viewed or
/// selected any more, and every other one is still in the index.
pub proof fn removing_removes_it(s: ListState, id: u32, m: Mail)
    ensures
        ({
            let t = s.remove(id).0;
            &&& t.mail.all.contains(m) <==> s.mail.all.contains(m) && m.id != id
            &&& t.choice.selected_ids.contains(m.key()) <==> s.choice.selected_ids.contains(m.key())
                && m.id != id
            &&& t.choice.selected_id is Some ==> (t.choice.selected_id->0).1 != id
        }),
{
    reveal(ListState::remove);
    removed_are_gone(s.mail.all, set![id], m);
    removed_keys_are_gone(s.choice.selected_ids, set![id], m.key());
}

/// Messages that join the index are new to it, and what was there stays in its place.
pub proof fn appended_are_new(s: ListState, messages: Seq<Mail>, i: int, j: int)
    requires
        0 <= i < s.mail.all.len(),
        s.mail.all.len() <= j < s.append_messages(messages).0.mail.all.len(),
    ensures
        ({
            let all = s.append_messages(messages).0.mail.all;
            &&& all[i] == s.mail.all[i]
            &&& messages.contains(all[j])
            &&& all[i].account_id != all[j].account_id || all[i].uid != all[j].uid
        }),
{
    reveal(ListState::append_messages);
    let new = unknown(messages, s.mail.all);
    let all = s.mail.all + new;
    assert(s.append_messages(messages).0.mail.all == all);
    lemma_unknown(messages, s.mail.all, j - s.mail.all.len());
}

proof fn lemma_unknown(msgs: Seq<Mail>, known: Seq<Mail>, k: int)
    requires
        0 <= k < unknown(msgs, known).len(),
    ensures
        msgs.contains(unknown(msgs, known)[k]),
        forall|i: int|
            0 <= i < known.len() ==> (#[trigger] known[i]).account_id != unknown(msgs, known)[k].account_id
                || known[i].uid != unknown(msgs, known)[k].uid,
    decreases msgs.len(),
{
    if msgs.len() > 0 {
        let rest = unknown(msgs.drop_last(), known);
        if k < rest.len() {
            lemma_unknown(msgs.drop_last(), known, k);
            let x = choose|x: int| 0 <= x < msgs.drop_last().len() && msgs.drop_last()[x] == rest[k];
            assert(msgs[x] == rest[k]);
        } else {
            assert(msgs[msgs.len() - 1] == unknown(msgs, known)[k]);
        }
    }
}

// ----- Selecting -----

/// What is selected is on display.
pub proof fn selected_are_shown(s: ListState, rows: Seq<usize>, k: int)
    requires
        0 <= k < s.selection_changed(rows).0.choice.selected_ids.len(),
    ensures
        exists|i: int|
            0 <= i < s.display.shown.len() && (#[trigger] s.display.shown[i]).key() == s.selection_changed(
                rows,
            ).0.choice.selected_ids[k],
        s.selection_changed(rows).0.display == s.display,
        s.selection_changed(rows).0.mail == s.mail,
{
    reveal(ListState::selection_changed);
    lemma_picked(s.display.shown, rows, k);
}

proof fn lemma_picked(shown: Seq<Mail>, rows: Seq<usize>, k: int)
    requires
        0 <= k < picked(shown, rows).len(),
    ensures
        exists|i: int| 0 <= i < shown.len() && #[trigger] shown[i] == picked(shown, rows)[k],
    decreases rows.len(),
{
    if rows.len() > 0 {
        let rest = picked(shown, rows.drop_last());
        if k < rest.len() {
            lemma_picked(shown, rows.drop_last(), k);
        } else {
            assert(shown[rows.last() as int] == picked(shown, rows)[k]);
        }
    }
}

/// Loading more never renders less: the limit grows by a page, or as far as it can.
pub proof fn loading_more_renders_no_less(s: ListState)
    ensures
        s.load_more().0.display.render_limit >= s.display.render_limit,
        s.load_more().0.mail == s.mail,
        s.load_more().0.choice == s.choice,
{
    reveal(ListState::load_more);
}

/// Marking a message read or unread changes that mark alone, and of that message alone,
/// in the index as well as in the messages of all folders.
pub proof fn reading_changes_the_mark_alone(s: ListState, id: u32, read: bool, i: int)
    ensures
        ({
            let all = s.set_read(id, read).0.mail.all;
            let pool = s.set_read(id, read).0.mail.search_pool;
            &&& all.len() == s.mail.all.len()
            &&& pool.len() == s.mail.search_pool.len()
            &&& 0 <= i < all.len() && i == first_id(s.mail.all, id, 0) ==> all[i] == (Mail {
                unread: !read,
                ..s.mail.all[i]
            })
            &&& 0 <= i < all.len() && i != first_id(s.mail.all, id, 0) ==> all[i] == s.mail.all[i]
            &&& 0 <= i < pool.len() && i == first_id(s.mail.search_pool, id, 0) ==> pool[i] == (
            Mail { unread: !read, ..s.mail.search_pool[i] })
            &&& 0 <= i < pool.len() && i != first_id(s.mail.search_pool, id, 0) ==> pool[i]
                == s.mail.search_pool[i]
        }),
{
    reveal(ListState::set_read);
    lemma_first_id(s.mail.all, id, 0);
    lemma_first_id(s.mail.search_pool, id, 0);
}

/// A conversation's head is marked unread exactly as long as one of its messages is: with
/// the last one read its mark clears, in a search over all folders too.
pub proof fn mark_clears_with_the_last(s: ListState, id: u32, read: bool, k: int, head: int)
    requires
        ({
            let t = s.set_read(id, read).0;
            let i = first_id(t.source(), id, 0);
            &&& i < t.source().len()
            &&& k == member_slot(t.display.thread_members, t.source()[i].key(), 0)
            &&& k < t.display.thread_members.len()
            &&& head == first_member(t.display.shown, t.display.thread_members[k], 0)
            &&& head < t.display.shown.len()
        }),
    ensures
        ({
            let t = s.set_read(id, read).0;
            s.set_read(id, read).1.contains(
                Demand::Row(
                    head as usize,
                    MessageRowInput::SetThreadUnread(
                        member_unread(t.source(), t.display.thread_members[k]),
                    ),
                ),
            )
        }),
{
    reveal(ListState::set_read);
    let t = s.set_read(id, read).0;
    let row = s.row_demand(id, MessageRowInput::SetRead(read));
    let last = t.thread_unread_demand(id);
    assert((row + last)[row.len() as int] == last[0]);
}

/// With threading off every message is a conversation of its own, whatever folder it
/// lies in.
pub proof fn without_threading_each_stands_alone(rendered: Seq<Mail>, a: Mail, b: Mail)
    ensures
        conversation_key(rendered, false, a) == conversation_key(rendered, false, b) <==> a.key()
            == b.key(),
{
    names_differ(
        Node::Nameless { account_id: a.account_id, number: a.id },
        Node::Nameless { account_id: b.account_id, number: b.id },
    );
}

proof fn lemma_first_id(msgs: Seq<Mail>, id: u32, i: int)
    requires
        0 <= i <= msgs.len(),
    ensures
        i <= first_id(msgs, id, i) <= msgs.len(),
    decreases msgs.len() - i,
{
    if i < msgs.len() && msgs[i].id != id {
        lemma_first_id(msgs, id, i + 1);
    }
}

} // verus!
