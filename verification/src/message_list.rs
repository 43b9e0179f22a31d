//! The list of messages of the selected folder: searching, ordering, threading, paging
//! and the selection.

use std::collections::{HashMap, HashSet};

use vstd::prelude::*;

use crate::message_row::{MessageRowInput, RowAction, RowFace, RowInit};
use crate::models::{mails, message_key, packed, Mail, Message};
use crate::sorting::{lower_case, lowercase, sort_messages, sorted, SortOrder};
use crate::text::{
    chars_of, copy_of, decimal, decimal_string, find_from, holds, is_blank_text, opt_text, trim,
};
use crate::threads::{compute_thread_keys, keeps, name, threads, Node, ThreadKey};

verus! {

broadcast use vstd::std_specs::hash::group_hash_axioms;

/// How many rows are built at once, and by how many more each time the reader scrolls to
/// the bottom.
pub const RENDER_CAP: usize = 200;

/// Which messages the search field filters over.
#[derive(Debug, Clone, Copy, PartialEq, Eq, Structural)]
pub enum SearchScope {
    /// Every folder of every account.
    AllFolders,
    /// Only the folder currently shown.
    ThisFolder,
}

/// A bulk action applied to every selected message at once.
#[derive(Debug, Clone, Copy, PartialEq, Eq, Structural)]
pub enum BulkAction {
    MarkRead,
    MarkUnread,
    Flag,
    Archive,
    Spam,
    Delete,
}

/// The conversations in a list of them.
pub open spec fn key_set(v: Seq<ThreadKey>) -> Set<(u32, Seq<char>)> {
    Set::new(|k: (u32, Seq<char>)| exists|i: int| 0 <= i < v.len() && (#[trigger] v[i])@ == k)
}

pub open spec fn colors_of(v: Seq<(u32, String)>) -> Seq<(u32, Seq<char>)> {
    v.map_values(|c: (u32, String)| (c.0, c.1@))
}

pub open spec fn member_lists(v: Seq<Vec<(u32, u32)>>) -> Seq<Seq<(u32, u32)>> {
    v.map_values(|m: Vec<(u32, u32)>| m@)
}

/// Where the rows come from, and how they are picked and ordered.
pub struct Source {
    /// All messages of the current folder.
    pub all: Vec<Message>,
    /// Every folder's messages, supplied while a search is active.
    pub search_pool: Vec<Message>,
    pub scope: SearchScope,
    pub query: String,
    pub sort: SortOrder,
    pub threading: bool,
}

/// Where the rows come from, and how they are picked and ordered. With its texts as sequences of characters.
pub struct Sourced {
    pub all: Seq<Mail>,
    pub search_pool: Seq<Mail>,
    pub scope: SearchScope,
    pub query: Seq<char>,
    pub sort: SortOrder,
    pub threading: bool,
}

impl View for Source {
    type V = Sourced;

    open spec fn view(&self) -> Sourced {
        Sourced {
            all: mails(self.all@),
            search_pool: mails(self.search_pool@),
            scope: self.scope,
            query: self.query@,
            sort: self.sort,
            threading: self.threading,
        }
    }
}

/// What is on display.
pub struct Rows {
    /// The messages on display, one for each row.
    pub shown: Vec<Message>,
    /// How many messages match the search, whether they are rendered or not.
    pub total_matches: usize,
    /// The members of each conversation of more than one message that is rendered.
    pub thread_members: Vec<Vec<(u32, u32)>>,
    /// How many messages are rendered, whether their rows are folded up or not.
    pub rendered_count: usize,
    /// How many messages may be rendered.
    pub render_limit: usize,
    /// Whether the folder's index is fully loaded.
    pub index_complete: bool,
}

/// What is on display. With its texts as sequences of characters.
pub struct Rendered {
    pub shown: Seq<Mail>,
    pub total_matches: usize,
    pub thread_members: Seq<Seq<(u32, u32)>>,
    pub rendered_count: usize,
    pub render_limit: usize,
    pub index_complete: bool,
}

impl View for Rows {
    type V = Rendered;

    open spec fn view(&self) -> Rendered {
        Rendered {
            shown: mails(self.shown@),
            total_matches: self.total_matches,
            thread_members: member_lists(self.thread_members@),
            rendered_count: self.rendered_count,
            render_limit: self.render_limit,
            index_complete: self.index_complete,
        }
    }
}

/// What is selected.
pub struct Choice {
    /// The message that is being viewed.
    pub selected_id: Option<(u32, u32)>,
    /// Every selected message.
    pub selected_ids: Vec<(u32, u32)>,
    pub selection_count: usize,
}

/// What is selected. With its texts as sequences of characters.
pub struct Chosen {
    pub selected_id: Option<(u32, u32)>,
    pub selected_ids: Seq<(u32, u32)>,
    pub selection_count: usize,
}

impl View for Choice {
    type V = Chosen;

    open spec fn view(&self) -> Chosen {
        Chosen {
            selected_id: self.selected_id,
            selected_ids: self.selected_ids@,
            selection_count: self.selection_count,
        }
    }
}

/// Which conversations are folded up.
pub struct Folds {
    /// The conversations that were toggled away from the default state.
    pub expanded_threads: Vec<ThreadKey>,
    /// Whether conversations start expanded.
    pub default_expanded: bool,
}

/// Which conversations are folded up. With its texts as sequences of characters.
pub struct Folded {
    pub expanded_threads: Set<(u32, Seq<char>)>,
    pub default_expanded: bool,
}

impl View for Folds {
    type V = Folded;

    open spec fn view(&self) -> Folded {
        Folded {
            expanded_threads: key_set(self.expanded_threads@),
            default_expanded: self.default_expanded,
        }
    }
}

/// How the list looks.
pub struct Face {
    pub title: String,
    pub gravatar: bool,
    /// Whether rows are ringed in their account's colour.
    pub colorize: bool,
    pub account_colors: Vec<(u32, String)>,
    /// How long an open palette lingers, in seconds.
    pub palette_collapse_secs: u64,
    /// What is being done, while a large bulk action is applied.
    pub busy: Option<String>,
}

/// How the list looks. With its texts as sequences of characters.
pub struct Faced {
    pub title: Seq<char>,
    pub gravatar: bool,
    pub colorize: bool,
    pub account_colors: Seq<(u32, Seq<char>)>,
    pub palette_collapse_secs: u64,
    pub busy: Option<Seq<char>>,
}

impl View for Face {
    type V = Faced;

    open spec fn view(&self) -> Faced {
        Faced {
            title: self.title@,
            gravatar: self.gravatar,
            colorize: self.colorize,
            account_colors: colors_of(self.account_colors@),
            palette_collapse_secs: self.palette_collapse_secs,
            busy: opt_text(self.busy),
        }
    }
}

/// The message list.
pub struct MessageList {
    pub mail: Source,
    pub display: Rows,
    pub choice: Choice,
    pub folds: Folds,
    pub looks: Face,
}

/// The message list, with its texts as sequences of characters.
pub struct ListState {
    pub mail: Sourced,
    pub display: Rendered,
    pub choice: Chosen,
    pub folds: Folded,
    pub looks: Faced,
}

impl View for MessageList {
    type V = ListState;

    open spec fn view(&self) -> ListState {
        ListState {
            mail: self.mail@,
            display: self.display@,
            choice: self.choice@,
            folds: self.folds@,
            looks: self.looks@,
        }
    }
}

// ----- What goes in and comes out -----

#[allow(inconsistent_fields)]
#[derive(Debug)]
pub enum MessageListInput {
    SetMessages { title: String, messages: Vec<Message> },
    /// Merge more indexed messages into the current list.
    AppendMessages { messages: Vec<Message> },
    SetLoading { title: String },
    SetThreading(bool),
    /// Whether conversations start expanded.
    SetThreadsExpanded(bool),
    SetGravatar(bool),
    ContactPhotosChanged,
    SetColorize(bool),
    /// The local day rolled over.
    DayChanged,
    SetAccountColors(Vec<(u32, String)>),
    Search(String),
    SetScope(SearchScope),
    /// Replace the messages of all folders.
    SetSearchPool(Vec<Message>),
    /// The selected rows changed: their numbers.
    SelectionChanged(Vec<usize>),
    /// A row was activated: pop it out into a window of its own.
    RowActivated(i32),
    /// Apply a bulk action to the messages in the selected rows.
    Bulk { action: BulkAction, rows: Vec<usize> },
    /// Deselect everything.
    ClearSelection,
    /// Expand or collapse a conversation.
    ToggleThread(ThreadKey),
    SetSort(SortOrder),
    MarkRead(u32),
    SetRead { id: u32, read: bool },
    /// An action of a row's palette.
    RowAction { action: RowAction, message: Box<Message> },
    SetStarred { id: u32, starred: bool },
    SetHasAttachment { id: u32, has: bool },
    Remove(u32),
    /// Remove many messages at once.
    RemoveMany(Vec<u32>),
    /// Show or hide what is being done.
    SetBusy(Option<String>),
    /// A secondary click on a row, with the rows that are selected.
    ContextMenu { row: usize, selected: Vec<usize> },
    SetPaletteCollapse(u64),
    /// A folder switch: back to the first page, scrolled to the top.
    ResetPaging,
    /// The list was scrolled to the bottom.
    LoadMore,
    SetIndexComplete(bool),
    /// Mark which message is being viewed; none clears the selection.
    SetSelected(Option<u32>),
    /// Select a message and load it in the reader.
    SelectAndLoad((u32, u32)),
}

#[allow(inconsistent_fields)]
#[derive(Debug)]
pub enum MessageListOutput {
    /// A message was selected. `thread` holds the whole conversation, newest first, when
    /// its newest message was chosen, and just that message otherwise.
    Selected { message: Message, thread: Vec<Message> },
    /// A row was double-clicked.
    Activated(Message),
    /// An action was chosen for one message.
    Action { action: RowAction, message: Box<Message> },
    /// A bulk action was chosen for the selected messages.
    Bulk { action: BulkAction, messages: Vec<Message> },
    /// The viewed message was removed and no row remains to advance to.
    SelectionCleared,
    /// The search field became active or inactive.
    SearchActive(bool),
}

/// What the list asks of the application.
pub enum ListStep {
    Output(MessageListOutput),
    /// Replace all rows.
    Rows(Vec<RowInit>),
    /// Hand an input to the row with that number.
    Row(usize, MessageRowInput),
    RemoveRow(usize),
    SelectRow(usize),
    UnselectAll,
    /// Remember the scroll position.
    SaveScroll,
    /// Go back to the remembered scroll position.
    RestoreScroll,
    ScrollToTop,
    /// Empty the search field.
    ClearSearchEntry,
    /// The rules that ring avatars in their account's colour.
    Tint(String),
    /// Set the timer for the next local midnight.
    ScheduleMidnight,
    /// Open the menu for the selected messages, of which there are that many.
    BulkMenu(usize),
    /// Open the menu for the message in the row with that number.
    RowMenu(usize),
}

/// What the list asks of the application, with its texts as sequences of characters.
#[allow(inconsistent_fields)]
pub enum Demand {
    Selected { mail: Mail, thread: Seq<Mail> },
    Activated(Mail),
    Action { action: RowAction, mail: Mail },
    Bulk { action: BulkAction, mails: Seq<Mail> },
    SelectionCleared,
    SearchActive(bool),
    Rows(Seq<RowFace>),
    Row(usize, MessageRowInput),
    RemoveRow(usize),
    SelectRow(usize),
    UnselectAll,
    SaveScroll,
    RestoreScroll,
    ScrollToTop,
    ClearSearchEntry,
    Tint(Seq<char>),
    ScheduleMidnight,
    BulkMenu(usize),
    RowMenu(usize),
}

pub open spec fn faces(v: Seq<RowInit>) -> Seq<RowFace> {
    v.map_values(|r: RowInit| r@)
}

impl View for ListStep {
    type V = Demand;

    open spec fn view(&self) -> Demand {
        match self {
            ListStep::Output(MessageListOutput::Selected { message, thread }) => Demand::Selected {
                mail: message@,
                thread: mails(thread@),
            },
            ListStep::Output(MessageListOutput::Activated(m)) => Demand::Activated(m@),
            ListStep::Output(MessageListOutput::Action { action, message }) => Demand::Action {
                action: *action,
                mail: message@,
            },
            ListStep::Output(MessageListOutput::Bulk { action, messages }) => Demand::Bulk {
                action: *action,
                mails: mails(messages@),
            },
            ListStep::Output(MessageListOutput::SelectionCleared) => Demand::SelectionCleared,
            ListStep::Output(MessageListOutput::SearchActive(on)) => Demand::SearchActive(*on),
            ListStep::Rows(rows) => Demand::Rows(faces(rows@)),
            ListStep::Row(k, input) => Demand::Row(*k, *input),
            ListStep::RemoveRow(k) => Demand::RemoveRow(*k),
            ListStep::SelectRow(k) => Demand::SelectRow(*k),
            ListStep::UnselectAll => Demand::UnselectAll,
            ListStep::SaveScroll => Demand::SaveScroll,
            ListStep::RestoreScroll => Demand::RestoreScroll,
            ListStep::ScrollToTop => Demand::ScrollToTop,
            ListStep::ClearSearchEntry => Demand::ClearSearchEntry,
            ListStep::Tint(css) => Demand::Tint(css@),
            ListStep::ScheduleMidnight => Demand::ScheduleMidnight,
            ListStep::BulkMenu(count) => Demand::BulkMenu(*count),
            ListStep::RowMenu(k) => Demand::RowMenu(*k),
        }
    }
}

pub open spec fn demands(v: Seq<ListStep>) -> Seq<Demand> {
    v.map_values(|s: ListStep| s@)
}

pub(crate) fn no_steps() -> (steps: Vec<ListStep>)
    ensures
        demands(steps@) == Seq::<Demand>::empty(),
{
    let steps: Vec<ListStep> = Vec::new();
    proof {
        assert(demands(steps@) =~= seq![]);
    }
    steps
}

pub(crate) fn one_step(step: ListStep) -> (steps: Vec<ListStep>)
    ensures
        demands(steps@) == seq![step@],
{
    let mut steps: Vec<ListStep> = Vec::new();
    steps.push(step);
    proof {
        assert(demands(steps@) =~= seq![step@]);
    }
    steps
}

pub(crate) fn add_step(steps: &mut Vec<ListStep>, step: ListStep)
    ensures
        demands(final(steps)@) == demands(old(steps)@).push(step@),
{
    let ghost had = demands(steps@);
    steps.push(step);
    proof {
        assert(demands(steps@) =~= had.push(step@));
    }
}

pub(crate) fn add_steps(steps: &mut Vec<ListStep>, more: Vec<ListStep>)
    ensures
        demands(final(steps)@) == demands(old(steps)@) + demands(more@),
{
    let ghost had = demands(steps@);
    let ghost new = demands(more@);
    let mut rest = more;
    steps.append(&mut rest);
    proof {
        assert(demands(steps@) =~= had + new);
    }
}

// ----- Searching -----

impl ListState {
    /// Whether a search is active.
    pub open spec fn searching(self) -> bool {
        trim(self.mail.query).len() > 0
    }

    /// The messages that are searched: those of all folders while such a search is
    /// active and they have arrived, and the current folder's otherwise.
    pub open spec fn source(self) -> Seq<Mail> {
        if self.searching() && self.mail.scope == SearchScope::AllFolders && self.mail.search_pool.len() > 0 {
            self.mail.search_pool
        } else {
            self.mail.all
        }
    }
}

/// Whether a message matches a search in lower case.
pub open spec fn matches_query(m: Mail, q: Seq<char>) -> bool {
    ||| q.len() == 0
    ||| holds(lower_case(m.subject), q)
    ||| holds(lower_case(m.from_name), q)
    ||| holds(lower_case(m.from_addr), q)
    ||| holds(lower_case(m.preview), q)
}

/// The messages that match a search, in the order in which they came.
pub open spec fn matching(msgs: Seq<Mail>, q: Seq<char>) -> Seq<Mail>
    decreases msgs.len(),
{
    if msgs.len() == 0 {
        seq![]
    } else {
        let rest = matching(msgs.drop_last(), q);
        if matches_query(msgs.last(), q) {
            rest.push(msgs.last())
        } else {
            rest
        }
    }
}

fn text_matches(text: &str, q: &Vec<char>) -> (r: bool)
    ensures
        r == holds(lower_case(text@), q@),
{
    let lowered = lowercase(text);
    let v = chars_of(lowered.as_str());
    find_from(&v, q, 0, v.len()).is_some()
}

fn is_match(m: &Message, q: &Vec<char>) -> (r: bool)
    ensures
        r == matches_query(m@, q@),
{
    q.len() == 0 || text_matches(m.subject.as_str(), q) || text_matches(m.from_name.as_str(), q)
        || text_matches(m.from_addr.as_str(), q) || text_matches(m.preview.as_str(), q)
}

fn find_matches(msgs: &Vec<Message>, q: &Vec<char>) -> (out: Vec<Message>)
    ensures
        mails(out@) == matching(mails(msgs@), q@),
{
    let mut out: Vec<Message> = Vec::new();
    let mut i: usize = 0;
    proof {
        assert(mails(out@) =~= seq![]);
    }
    while i < msgs.len()
        invariant
            i <= msgs.len(),
            mails(out@) == matching(mails(msgs@).take(i as int), q@),
        decreases msgs.len() - i,
    {
        proof {
            let next = mails(msgs@).take(i as int + 1);
            assert(next.drop_last() =~= mails(msgs@).take(i as int));
            assert(next.last() == msgs@[i as int]@);
        }
        if is_match(&msgs[i], q) {
            let ghost had = mails(out@);
            let one = msgs[i].copy();
            out.push(one);
            proof {
                assert(mails(out@) =~= had.push(one@));
            }
        }
        i = i + 1;
    }
    proof {
        assert(mails(msgs@).take(msgs@.len() as int) =~= mails(msgs@));
    }
    out
}

// ----- Conversations -----

/// The conversation of a message among those that are rendered. Without threading every
/// message is one of its own.
pub open spec fn conversation_key(rendered: Seq<Mail>, threading: bool, m: Mail) -> (
    u32,
    Seq<char>,
) {
    if threading && threads(rendered).contains_key(m.key()) {
        threads(rendered)[m.key()]
    } else {
        (m.account_id, name(Node::Nameless { account_id: m.account_id, number: m.id }))
    }
}

/// A conversation: what names it, and the numbers of its messages among those rendered.
pub struct Group {
    pub key: (u32, Seq<char>),
    pub members: Seq<int>,
}

/// The number of the conversation from `i` on that has that name, or how many there are.
pub open spec fn slot(groups: Seq<Group>, key: (u32, Seq<char>), i: int) -> int
    decreases groups.len() - i,
{
    if i >= groups.len() {
        groups.len() as int
    } else if groups[i].key == key {
        i
    } else {
        slot(groups, key, i + 1)
    }
}

/// The conversations of the first `n` messages, in the order of their first messages.
pub open spec fn grouped(keys: Seq<(u32, Seq<char>)>, n: nat) -> Seq<Group>
    decreases n,
{
    if n == 0 {
        seq![]
    } else {
        let groups = grouped(keys, (n - 1) as nat);
        let key = keys[n - 1];
        let k = slot(groups, key, 0);
        if k < groups.len() {
            groups.update(k, Group { key, members: groups[k].members.push(n - 1) })
        } else {
            groups.push(Group { key, members: seq![n - 1] })
        }
    }
}

/// The conversations of the messages that are rendered.
pub open spec fn conversations(rendered: Seq<Mail>, threading: bool) -> Seq<Group> {
    grouped(
        rendered.map_values(|m: Mail| conversation_key(rendered, threading, m)),
        rendered.len(),
    )
}

/// Whether any of the messages is unread.
pub open spec fn any_unread(rendered: Seq<Mail>, members: Seq<int>) -> bool {
    exists|k: int| 0 <= k < members.len() && rendered[#[trigger] members[k]].unread
}

/// Whether an account has a colour.
pub open spec fn colored(colors: Seq<(u32, Seq<char>)>, account_id: u32) -> bool {
    exists|k: int| 0 <= k < colors.len() && (#[trigger] colors[k]).0 == account_id
}

impl ListState {
    /// The class that rings an account's avatars, if rows are coloured and it has a colour.
    pub open spec fn ring(self, account_id: u32) -> Option<Seq<char>> {
        if self.looks.colorize && colored(self.looks.account_colors, account_id) {
            Some("vireo-acct-ring-"@ + decimal(account_id as nat))
        } else {
            None
        }
    }

    /// Whether a conversation is expanded: only one of several messages, and by default
    /// or by having been toggled.
    pub open spec fn expanded(self, g: Group) -> bool {
        g.members.len() > 1 && (self.folds.expanded_threads.contains(g.key) != self.folds.default_expanded)
    }

    /// The row of a conversation's first message.
    pub open spec fn head_row(self, rendered: Seq<Mail>, g: Group) -> RowFace {
        let mail = rendered[g.members[0]];
        RowFace {
            mail,
            gravatar: self.looks.gravatar,
            ring_class: self.ring(mail.account_id),
            thread_count: g.members.len() as usize,
            is_thread_child: false,
            thread_expanded: self.expanded(g),
            thread_key: if g.members.len() > 1 {
                Some(g.key)
            } else {
                None
            },
            thread_unread: g.members.len() > 1 && any_unread(rendered, g.members),
        }
    }

    /// The row of another message of an expanded conversation.
    pub open spec fn child_row(self, mail: Mail) -> RowFace {
        RowFace {
            mail,
            gravatar: self.looks.gravatar,
            ring_class: self.ring(mail.account_id),
            thread_count: 0,
            is_thread_child: true,
            thread_expanded: false,
            thread_key: None,
            thread_unread: false,
        }
    }

    /// The rows of a conversation: its first message, and the others where it is expanded.
    pub open spec fn group_rows(self, rendered: Seq<Mail>, g: Group) -> Seq<RowFace> {
        if self.expanded(g) {
            seq![self.head_row(rendered, g)] + g.members.skip(1).map_values(
                |i: int| self.child_row(rendered[i]),
            )
        } else {
            seq![self.head_row(rendered, g)]
        }
    }

    /// The rows of the first `n` conversations.
    pub open spec fn rows_to(self, rendered: Seq<Mail>, groups: Seq<Group>, n: nat) -> Seq<RowFace>
        decreases n,
    {
        if n == 0 {
            seq![]
        } else {
            self.rows_to(rendered, groups, (n - 1) as nat) + self.group_rows(
                rendered,
                groups[n - 1],
            )
        }
    }
}

/// The members of those of the first `n` conversations that have more than one.
pub open spec fn members_to(rendered: Seq<Mail>, groups: Seq<Group>, n: nat) -> Seq<
    Seq<(u32, u32)>,
>
    decreases n,
{
    if n == 0 {
        seq![]
    } else {
        let rest = members_to(rendered, groups, (n - 1) as nat);
        let g = groups[n - 1];
        if g.members.len() > 1 {
            rest.push(g.members.map_values(|i: int| rendered[i].key()))
        } else {
            rest
        }
    }
}

impl ListState {
    /// All messages that match the search, in order.
    pub open spec fn found(self) -> Seq<Mail> {
        sorted(self.mail.sort, matching(self.source(), lower_case(self.mail.query)))
    }

    /// Those of them that may be rendered.
    pub open spec fn rendered(self) -> Seq<Mail> {
        if self.found().len() <= self.display.render_limit {
            self.found()
        } else {
            self.found().take(self.display.render_limit as int)
        }
    }

    /// The rows of what is rendered.
    pub open spec fn rows(self) -> Seq<RowFace> {
        let groups = conversations(self.rendered(), self.mail.threading);
        self.rows_to(self.rendered(), groups, groups.len())
    }

    /// The list with its rows built anew.
    pub open spec fn rebuilt(self) -> ListState {
        let groups = conversations(self.rendered(), self.mail.threading);
        ListState {
            display: Rendered {
                total_matches: self.found().len() as usize,
                rendered_count: self.rendered().len() as usize,
                shown: self.rows().map_values(|r: RowFace| r.mail),
                thread_members: members_to(self.rendered(), groups, groups.len()),
                ..self.display
            },
            ..self
        }
    }
}

/// The number from `i` on of the first message with that key, or how many there are.
pub open spec fn first_key(msgs: Seq<Mail>, key: (u32, u32), i: int) -> int
    decreases msgs.len() - i,
{
    if i >= msgs.len() {
        msgs.len() as int
    } else if msgs[i].key() == key {
        i
    } else {
        first_key(msgs, key, i + 1)
    }
}

/// The rows of the first `n` of the selected messages, as far as they are on display.
pub open spec fn selections(shown: Seq<Mail>, ids: Seq<(u32, u32)>, n: nat) -> Seq<Demand>
    decreases n,
{
    if n == 0 {
        seq![]
    } else {
        let rest = selections(shown, ids, (n - 1) as nat);
        let k = first_key(shown, ids[n - 1], 0);
        if k < shown.len() {
            rest.push(Demand::SelectRow(k as usize))
        } else {
            rest
        }
    }
}

impl ListState {
    /// The demands that put the selection back on the rows.
    pub open spec fn reselected(self) -> Seq<Demand> {
        if self.choice.selected_ids.len() == 0 {
            seq![Demand::UnselectAll]
        } else {
            selections(self.display.shown, self.choice.selected_ids, self.choice.selected_ids.len())
        }
    }

    /// The demands of a rebuild: the new rows, and the selection on them.
    pub open spec fn rebuild_demands(self) -> Seq<Demand> {
        seq![Demand::Rows(self.rows())] + self.rebuilt().reselected()
    }

    /// The demands of a rebuild that keeps the scroll position.
    pub open spec fn rebuild_in_place(self) -> Seq<Demand> {
        seq![Demand::SaveScroll] + self.rebuild_demands() + seq![Demand::RestoreScroll]
    }
}

// ----- What each input does -----

/// A list and what it asks for.
pub type Outcome = (ListState, Seq<Demand>);

/// The number from `i` on of the first message with that identifier, or how many there are.
pub open spec fn first_id(msgs: Seq<Mail>, id: u32, i: int) -> int
    decreases msgs.len() - i,
{
    if i >= msgs.len() {
        msgs.len() as int
    } else if msgs[i].id == id {
        i
    } else {
        first_id(msgs, id, i + 1)
    }
}

/// The messages with the first one of that identifier changed.
pub open spec fn changed(msgs: Seq<Mail>, id: u32, change: spec_fn(Mail) -> Mail) -> Seq<Mail> {
    let i = first_id(msgs, id, 0);
    if i < msgs.len() {
        msgs.update(i, change(msgs[i]))
    } else {
        msgs
    }
}

/// A message with that mark of being unread.
pub open spec fn unread_as(unread: bool) -> spec_fn(Mail) -> Mail {
    |m: Mail| Mail { unread, ..m }
}

/// A message with that star.
pub open spec fn starred_as(starred: bool) -> spec_fn(Mail) -> Mail {
    |m: Mail| Mail { starred, ..m }
}

/// A message with that mark of an attachment.
pub open spec fn attached_as(has_attachment: bool) -> spec_fn(Mail) -> Mail {
    |m: Mail| Mail { has_attachment, ..m }
}

/// Whether a message with that account and UID is among the messages.
pub open spec fn holds_uid(msgs: Seq<Mail>, account_id: u32, uid: u32) -> bool {
    exists|i: int|
        0 <= i < msgs.len() && (#[trigger] msgs[i]).account_id == account_id && msgs[i].uid == uid
}

/// Those of the messages whose account and UID are not among the others yet.
pub open spec fn unknown(msgs: Seq<Mail>, known: Seq<Mail>) -> Seq<Mail>
    decreases msgs.len(),
{
    if msgs.len() == 0 {
        seq![]
    } else {
        let rest = unknown(msgs.drop_last(), known);
        let m = msgs.last();
        if holds_uid(known, m.account_id, m.uid) {
            rest
        } else {
            rest.push(m)
        }
    }
}

/// The messages without those that have one of the identifiers.
pub open spec fn without(msgs: Seq<Mail>, gone: Set<u32>) -> Seq<Mail>
    decreases msgs.len(),
{
    if msgs.len() == 0 {
        seq![]
    } else {
        let rest = without(msgs.drop_last(), gone);
        if gone.contains(msgs.last().id) {
            rest
        } else {
            rest.push(msgs.last())
        }
    }
}

/// The keys without those that have one of the identifiers.
pub open spec fn keys_without(keys: Seq<(u32, u32)>, gone: Set<u32>) -> Seq<(u32, u32)>
    decreases keys.len(),
{
    if keys.len() == 0 {
        seq![]
    } else {
        let rest = keys_without(keys.drop_last(), gone);
        if gone.contains(keys.last().1) {
            rest
        } else {
            rest.push(keys.last())
        }
    }
}

/// The first of the messages that has one of the identifiers, from `i` on.
pub open spec fn first_gone(msgs: Seq<Mail>, gone: Set<u32>, i: int) -> int
    decreases msgs.len() - i,
{
    if i >= msgs.len() {
        msgs.len() as int
    } else if gone.contains(msgs[i].id) {
        i
    } else {
        first_gone(msgs, gone, i + 1)
    }
}

/// The demands to remove the rows of the first `n` messages that have one of the
/// identifiers, last row first.
pub open spec fn removals(msgs: Seq<Mail>, gone: Set<u32>, n: nat) -> Seq<Demand>
    decreases n,
{
    if n == 0 {
        seq![]
    } else if gone.contains(msgs[n - 1].id) {
        seq![Demand::RemoveRow((n - 1) as usize)] + removals(msgs, gone, (n - 1) as nat)
    } else {
        removals(msgs, gone, (n - 1) as nat)
    }
}

/// The messages in the rows with these numbers.
pub open spec fn picked(shown: Seq<Mail>, rows: Seq<usize>) -> Seq<Mail>
    decreases rows.len(),
{
    if rows.len() == 0 {
        seq![]
    } else {
        let rest = picked(shown, rows.drop_last());
        if rows.last() < shown.len() {
            rest.push(shown[rows.last() as int])
        } else {
            rest
        }
    }
}

/// The rules that ring avatars in the colours of the first `n` accounts.
pub open spec fn tint_rules(colors: Seq<(u32, Seq<char>)>, n: nat) -> Seq<char>
    decreases n,
{
    if n == 0 {
        seq![]
    } else {
        tint_rules(colors, (n - 1) as nat) + (".vireo-acct-ring-"@ + decimal(
            colors[n - 1].0 as nat,
        ) + " { border-radius: 9999px; box-shadow: 0 0 0 3px "@ + colors[n - 1].1 + "; }\n"@)
    }
}

/// The number from `i` on of the first conversation with that member, or how many there are.
pub open spec fn member_slot(lists: Seq<Seq<(u32, u32)>>, key: (u32, u32), i: int) -> int
    decreases lists.len() - i,
{
    if i >= lists.len() {
        lists.len() as int
    } else if lists[i].contains(key) {
        i
    } else {
        member_slot(lists, key, i + 1)
    }
}

/// Whether any of the messages that are members is unread.
pub open spec fn member_unread(all: Seq<Mail>, members: Seq<(u32, u32)>) -> bool {
    exists|i: int| 0 <= i < all.len() && members.contains((#[trigger] all[i]).key()) && all[i].unread
}

/// The number from `i` on of the first message that is a member, or how many there are.
pub open spec fn first_member(msgs: Seq<Mail>, members: Seq<(u32, u32)>, i: int) -> int
    decreases msgs.len() - i,
{
    if i >= msgs.len() {
        msgs.len() as int
    } else if members.contains(msgs[i].key()) {
        i
    } else {
        first_member(msgs, members, i + 1)
    }
}

/// The messages of one conversation, in the order in which they came.
pub open spec fn conversation_members(
    msgs: Seq<Mail>,
    map: Map<(u32, u32), (u32, Seq<char>)>,
    key: (u32, Seq<char>),
) -> Seq<Mail>
    decreases msgs.len(),
{
    if msgs.len() == 0 {
        seq![]
    } else {
        let rest = conversation_members(msgs.drop_last(), map, key);
        let m = msgs.last();
        if map.contains_key(m.key()) && map[m.key()] == key {
            rest.push(m)
        } else {
            rest
        }
    }
}

impl ListState {
    /// A rebuild.
    pub open spec fn rebuilding(self) -> Outcome {
        (self.rebuilt(), self.rebuild_demands())
    }

    /// A rebuild that keeps the scroll position.
    pub open spec fn rebuilding_in_place(self) -> Outcome {
        (self.rebuilt(), self.rebuild_in_place())
    }

    /// Without any search.
    pub open spec fn unsearched(self) -> Outcome {
        if self.mail.query.len() == 0 {
            (self, seq![])
        } else {
            (ListState { mail: Sourced { query: seq![], ..self.mail }, ..self }, seq![Demand::ClearSearchEntry])
        }
    }

    #[verifier::opaque]
    pub open spec fn set_messages(self, title: Seq<char>, messages: Seq<Mail>) -> Outcome {
        (ListState {
            looks: Faced { title, ..self.looks },
            mail: Sourced { all: messages, ..self.mail },
            ..self
        }).rebuilding_in_place()
    }

    /// More messages join the index; those that are there already are left out. The rows
    /// are built anew where that could change what is visible: in a search, in an order
    /// where older messages can surface at the top, or where more rows are waited for.
    #[verifier::opaque]
    pub open spec fn append_messages(self, messages: Seq<Mail>) -> Outcome {
        let new = unknown(messages, self.mail.all);
        let grown = ListState { mail: Sourced { all: self.mail.all + new, ..self.mail }, ..self };
        if new.len() > 0 && (self.mail.query.len() > 0 || self.mail.sort != SortOrder::DateNewest
            || self.display.render_limit > self.display.rendered_count) {
            grown.rebuilding_in_place()
        } else {
            (grown, seq![])
        }
    }

    #[verifier::opaque]
    pub open spec fn set_loading(self, title: Seq<char>) -> Outcome {
        let (s, entry) = (ListState {
            looks: Faced { title, ..self.looks },
            mail: Sourced { all: seq![], ..self.mail },
            ..self
        }).unsearched();
        let built = (ListState { display: Rendered { render_limit: RENDER_CAP, ..s.display }, ..s }).rebuilding();
        (built.0, entry + built.1)
    }

    #[verifier::opaque]
    pub open spec fn reset_paging(self) -> Outcome {
        let (s, entry) = self.unsearched();
        (ListState { display: Rendered { render_limit: RENDER_CAP, ..s.display }, ..s }, entry.push(Demand::ScrollToTop))
    }

    /// The next page, where the index has more or is still loading.
    #[verifier::opaque]
    pub open spec fn load_more(self) -> Outcome {
        if self.display.rendered_count < self.display.total_matches || !self.display.index_complete {
            (ListState {
                display: Rendered {
                    render_limit: (if self.display.render_limit + RENDER_CAP > usize::MAX {
                        usize::MAX
                    } else {
                        (self.display.render_limit + RENDER_CAP) as usize
                    }),
                    ..self.display
                },
                ..self
            }).rebuilding_in_place()
        } else {
            (self, seq![])
        }
    }

    #[verifier::opaque]
    pub open spec fn set_threading(self, on: bool) -> Outcome {
        if self.mail.threading != on {
            (ListState { mail: Sourced { threading: on, ..self.mail }, ..self }).rebuilding()
        } else {
            (self, seq![])
        }
    }

    /// The conversations that were toggled away from the old default follow the new one.
    #[verifier::opaque]
    pub open spec fn set_threads_expanded(self, on: bool) -> Outcome {
        if self.folds.default_expanded != on {
            (ListState {
                folds: Folded {
                    default_expanded: on,
                    expanded_threads: Set::empty(),
                    ..self.folds
                },
                ..self
            }).rebuilding()
        } else {
            (self, seq![])
        }
    }

    #[verifier::opaque]
    pub open spec fn set_gravatar(self, on: bool) -> Outcome {
        if self.looks.gravatar != on {
            (ListState { looks: Faced { gravatar: on, ..self.looks }, ..self }).rebuilding()
        } else {
            (self, seq![])
        }
    }

    #[verifier::opaque]
    pub open spec fn set_colorize(self, on: bool) -> Outcome {
        if self.looks.colorize != on {
            (ListState { looks: Faced { colorize: on, ..self.looks }, ..self }).rebuilding()
        } else {
            (self, seq![])
        }
    }

    #[verifier::opaque]
    pub open spec fn day_changed(self) -> Outcome {
        (self.rebuilt(), self.rebuild_demands().push(Demand::ScheduleMidnight))
    }

    #[verifier::opaque]
    pub open spec fn set_account_colors(self, colors: Seq<(u32, Seq<char>)>) -> Outcome {
        (
            ListState { looks: Faced { account_colors: colors, ..self.looks }, ..self },
            seq![Demand::Tint(tint_rules(colors, colors.len()))],
        )
    }

    /// A search. The application is told when it begins and when it ends.
    #[verifier::opaque]
    pub open spec fn search(self, q: Seq<char>) -> Outcome {
        let s = ListState {
            mail: Sourced { query: q, ..self.mail },
            display: Rendered { render_limit: RENDER_CAP, ..self.display },
            ..self
        };
        let told = if self.searching() != s.searching() {
            seq![Demand::SearchActive(s.searching())]
        } else {
            seq![]
        };
        (s.rebuilt(), told + s.rebuild_demands())
    }

    /// The scope only affects the rows while there is a search.
    #[verifier::opaque]
    pub open spec fn set_scope(self, scope: SearchScope) -> Outcome {
        if self.mail.scope != scope {
            if self.searching() {
                (ListState {
                    mail: Sourced { scope, ..self.mail },
                    display: Rendered { render_limit: RENDER_CAP, ..self.display },
                    ..self
                }).rebuilding()
            } else {
                (ListState { mail: Sourced { scope, ..self.mail }, ..self }, seq![])
            }
        } else {
            (self, seq![])
        }
    }

    #[verifier::opaque]
    pub open spec fn set_search_pool(self, pool: Seq<Mail>) -> Outcome {
        if self.searching() && self.mail.scope == SearchScope::AllFolders {
            (ListState {
                mail: Sourced { search_pool: pool, ..self.mail },
                display: Rendered { render_limit: RENDER_CAP, ..self.display },
                ..self
            }).rebuilding_in_place()
        } else {
            (ListState { mail: Sourced { search_pool: pool, ..self.mail }, ..self }, seq![])
        }
    }

    /// The conversation to show for a message: all of it, newest first, where the message
    /// is its newest, and just the message otherwise.
    pub open spec fn conversation_for(self, m: Mail) -> Seq<Mail> {
        let map = threads(self.source());
        if !self.mail.threading || !map.contains_key(m.key()) {
            seq![m]
        } else {
            let members = conversation_members(self.source(), map, map[m.key()]);
            let newest_first = sorted(SortOrder::DateNewest, members);
            if members.len() > 1 && newest_first[0].key() == m.key() {
                newest_first
            } else {
                seq![m]
            }
        }
    }

    /// The rows that are selected. A single one is shown in the reader, unless it is
    /// already; with several the reader stays where it is.
    #[verifier::opaque]
    pub open spec fn selection_changed(self, rows: Seq<usize>) -> Outcome {
        let chosen = picked(self.display.shown, rows);
        let keys = chosen.map_values(|m: Mail| m.key());
        let s = ListState {
            choice: Chosen {
                selection_count: keys.len() as usize,
                selected_ids: keys,
                ..self.choice
            },
            ..self
        };
        if keys.len() == 0 {
            (ListState { choice: Chosen { selected_id: None, ..s.choice }, ..s }, seq![])
        } else if keys.len() == 1 && self.choice.selected_id != Some(keys[0]) {
            let m = self.display.shown[first_key(self.display.shown, keys[0], 0)];
            (
                ListState { choice: Chosen { selected_id: Some(keys[0]), ..s.choice }, ..s },
                seq![Demand::Selected { mail: m, thread: self.conversation_for(m) }],
            )
        } else {
            (s, seq![])
        }
    }

    /// With nothing selected.
    pub open spec fn deselected(self) -> ListState {
        ListState {
            choice: Chosen {
                selected_id: None,
                selected_ids: seq![],
                selection_count: 0,
                ..self.choice
            },
            ..self
        }
    }

    #[verifier::opaque]
    pub open spec fn bulk(self, action: BulkAction, rows: Seq<usize>) -> Outcome {
        let chosen = picked(self.display.shown, rows);
        (
            self.deselected(),
            (if chosen.len() > 0 {
                seq![Demand::Bulk { action, mails: chosen }]
            } else {
                seq![]
            }).push(Demand::UnselectAll),
        )
    }

    #[verifier::opaque]
    pub open spec fn set_sort(self, order: SortOrder) -> Outcome {
        if self.mail.sort != order {
            (ListState { mail: Sourced { sort: order, ..self.mail }, ..self }).rebuilding()
        } else {
            (self, seq![])
        }
    }

    #[verifier::opaque]
    pub open spec fn toggle_thread(self, key: (u32, Seq<char>)) -> Outcome {
        (ListState { folds: Folded { expanded_threads: if self.folds.expanded_threads.contains(key) {
                self.folds.expanded_threads.remove(key)
            } else {
                self.folds.expanded_threads.insert(key)
            }, ..self.folds }, ..self }).rebuilding_in_place()
    }

    #[verifier::opaque]
    pub open spec fn row_activated(self, index: i32) -> Outcome {
        (
            self,
            if 0 <= index < self.display.shown.len() {
                seq![Demand::Activated(self.display.shown[index as int])]
            } else {
                seq![]
            },
        )
    }

    /// The demand to mark the head of a message's conversation, by whether anything in it
    /// is unread among the messages that the rows are made of.
    pub open spec fn thread_unread_demand(self, id: u32) -> Seq<Demand> {
        let source = self.source();
        let i = first_id(source, id, 0);
        if i >= source.len() {
            seq![]
        } else {
            let k = member_slot(self.display.thread_members, source[i].key(), 0);
            if k >= self.display.thread_members.len() {
                seq![]
            } else {
                let members = self.display.thread_members[k];
                let head = first_member(self.display.shown, members, 0);
                if head < self.display.shown.len() {
                    seq![
                        Demand::Row(
                            head as usize,
                            MessageRowInput::SetThreadUnread(member_unread(source, members)),
                        ),
                    ]
                } else {
                    seq![]
                }
            }
        }
    }

    /// The first message with that identifier changed, in the index and on display.
    pub open spec fn with_mail(self, id: u32, change: spec_fn(Mail) -> Mail) -> ListState {
        ListState {
            mail: Sourced { all: changed(self.mail.all, id, change), ..self.mail },
            display: Rendered { shown: changed(self.display.shown, id, change), ..self.display },
            ..self
        }
    }

    /// The first message with that identifier changed among the messages of all folders.
    pub open spec fn with_pooled(self, id: u32, change: spec_fn(Mail) -> Mail) -> ListState {
        ListState {
            mail: Sourced { search_pool: changed(self.mail.search_pool, id, change), ..self.mail },
            ..self
        }
    }

    /// The demand to hand an input to the row of the first message with that identifier.
    pub open spec fn row_demand(self, id: u32, input: MessageRowInput) -> Seq<Demand> {
        let k = first_id(self.display.shown, id, 0);
        if k < self.display.shown.len() {
            seq![Demand::Row(k as usize, input)]
        } else {
            seq![]
        }
    }

    #[verifier::opaque]
    pub open spec fn set_read(self, id: u32, read: bool) -> Outcome {
        let s = self.with_mail(id, unread_as(!read)).with_pooled(id, unread_as(!read));
        (s, self.row_demand(id, MessageRowInput::SetRead(read)) + s.thread_unread_demand(id))
    }

    #[verifier::opaque]
    pub open spec fn set_starred(self, id: u32, starred: bool) -> Outcome {
        (
            self.with_mail(id, starred_as(starred)),
            self.row_demand(id, MessageRowInput::SetStarred(starred)),
        )
    }

    #[verifier::opaque]
    pub open spec fn set_has_attachment(self, id: u32, has: bool) -> Outcome {
        (
            self.with_mail(id, attached_as(has)),
            self.row_demand(id, MessageRowInput::SetHasAttachment(has)),
        )
    }

    /// The demand that follows the removal of the viewed message, whose row was the one
    /// with that number: select what slid into its place, or the new last row, or clear
    /// the reader where nothing is left.
    pub open spec fn advance(shown_before: Seq<Mail>, shown: Seq<Mail>, row: int) -> Seq<Demand> {
        if row < shown_before.len() && shown.len() > 0 {
            seq![
                Demand::SelectRow(
                    (if row < shown.len() {
                        row
                    } else {
                        shown.len() - 1
                    }) as usize,
                ),
            ]
        } else {
            seq![Demand::SelectionCleared]
        }
    }

    #[verifier::opaque]
    pub open spec fn remove(self, id: u32) -> Outcome {
        let gone = set![id];
        let viewed = self.choice.selected_id is Some && (self.choice.selected_id->0).1 == id;
        let k = first_id(self.display.shown, id, 0);
        let shown = if k < self.display.shown.len() {
            self.display.shown.remove(k)
        } else {
            self.display.shown
        };
        (
            ListState {
                choice: Chosen {
                    selected_id: if viewed {
                        None
                    } else {
                        self.choice.selected_id
                    },
                    selected_ids: keys_without(self.choice.selected_ids, gone),
                    ..self.choice
                },
                mail: Sourced { all: without(self.mail.all, gone), ..self.mail },
                display: Rendered { shown, ..self.display },
                ..self
            },
            (if k < self.display.shown.len() {
                seq![Demand::RemoveRow(k as usize)]
            } else {
                seq![]
            }) + (if viewed {
                Self::advance(self.display.shown, shown, k)
            } else {
                seq![]
            }),
        )
    }

    #[verifier::opaque]
    pub open spec fn remove_many(self, ids: Seq<u32>) -> Outcome {
        let gone = ids.to_set();
        let viewed = self.choice.selected_id is Some && gone.contains((self.choice.selected_id->0).1);
        let shown = without(self.display.shown, gone);
        let kept = keys_without(self.choice.selected_ids, gone);
        if ids.len() == 0 {
            (self, seq![])
        } else {
            (
                ListState {
                    choice: Chosen {
                        selected_id: if viewed {
                            None
                        } else {
                            self.choice.selected_id
                        },
                        selected_ids: kept,
                        selection_count: kept.len() as usize,
                        ..self.choice
                    },
                    mail: Sourced { all: without(self.mail.all, gone), ..self.mail },
                    display: Rendered { shown, ..self.display },
                    ..self
                },
                removals(self.display.shown, gone, self.display.shown.len()) + (if viewed {
                    Self::advance(self.display.shown, shown, first_gone(self.display.shown, gone, 0))
                } else {
                    seq![]
                }),
            )
        }
    }

    #[verifier::opaque]
    pub open spec fn set_selected(self, id: Option<u32>) -> Outcome {
        match id {
            Some(i) => {
                let k = first_id(self.display.shown, i, 0);
                if k < self.display.shown.len() {
                    let key = self.display.shown[k].key();
                    let s = ListState {
                        choice: Chosen {
                            selected_id: Some(key),
                            selected_ids: seq![key],
                            ..self.choice
                        },
                        ..self
                    };
                    (s, s.reselected())
                } else {
                    (self, seq![])
                }
            },
            None => (self.deselected(), seq![Demand::UnselectAll]),
        }
    }

    #[verifier::opaque]
    pub open spec fn select_and_load(self, key: (u32, u32)) -> Outcome {
        let k = first_key(self.display.shown, key, 0);
        if k < self.display.shown.len() {
            let m = self.display.shown[k];
            let s = ListState {
                choice: Chosen {
                    selected_id: Some(key),
                    selected_ids: seq![key],
                    ..self.choice
                },
                ..self
            };
            (
                s,
                s.reselected().push(
                    Demand::Selected { mail: m, thread: self.conversation_for(m) },
                ),
            )
        } else {
            (self, seq![])
        }
    }

    /// A click inside of a selection of several brings the menu for all of them, any other
    /// the menu for the message under it, which is not selected by that.
    #[verifier::opaque]
    pub open spec fn context_menu(self, row: usize, selected: Seq<usize>) -> Outcome {
        (
            self,
            if selected.len() > 1 && selected.contains(row) {
                seq![Demand::BulkMenu(self.choice.selection_count)]
            } else if row < self.display.shown.len() {
                seq![Demand::RowMenu(row)]
            } else {
                seq![]
            },
        )
    }
}

/// What an input makes of the list, and what it asks for.
pub open spec fn list_step(s: ListState, msg: MessageListInput) -> Outcome {
    match msg {
        MessageListInput::SetMessages { title, messages } => s.set_messages(
            title@,
            mails(messages@),
        ),
        MessageListInput::AppendMessages { messages } => s.append_messages(mails(messages@)),
        MessageListInput::SetLoading { title } => s.set_loading(title@),
        MessageListInput::SetThreading(on) => s.set_threading(on),
        MessageListInput::SetThreadsExpanded(on) => s.set_threads_expanded(on),
        MessageListInput::SetGravatar(on) => s.set_gravatar(on),
        MessageListInput::ContactPhotosChanged => s.rebuilding_in_place(),
        MessageListInput::SetColorize(on) => s.set_colorize(on),
        MessageListInput::DayChanged => s.day_changed(),
        MessageListInput::SetAccountColors(colors) => s.set_account_colors(colors_of(colors@)),
        MessageListInput::Search(q) => s.search(q@),
        MessageListInput::SetScope(scope) => s.set_scope(scope),
        MessageListInput::SetSearchPool(pool) => s.set_search_pool(mails(pool@)),
        MessageListInput::SelectionChanged(rows) => s.selection_changed(rows@),
        MessageListInput::RowActivated(index) => s.row_activated(index),
        MessageListInput::Bulk { action, rows } => s.bulk(action, rows@),
        MessageListInput::ClearSelection => (s.deselected(), seq![Demand::UnselectAll]),
        MessageListInput::ToggleThread(key) => s.toggle_thread(key@),
        MessageListInput::SetSort(order) => s.set_sort(order),
        MessageListInput::MarkRead(id) => s.set_read(id, true),
        MessageListInput::SetRead { id, read } => s.set_read(id, read),
        MessageListInput::RowAction { action, message } => (
            s,
            seq![Demand::Action { action, mail: message@ }],
        ),
        MessageListInput::SetStarred { id, starred } => s.set_starred(id, starred),
        MessageListInput::SetHasAttachment { id, has } => s.set_has_attachment(id, has),
        MessageListInput::Remove(id) => s.remove(id),
        MessageListInput::RemoveMany(ids) => s.remove_many(ids@),
        MessageListInput::SetBusy(text) => (ListState {
            looks: Faced { busy: opt_text(text), ..s.looks },
            ..s
        }, seq![]),
        MessageListInput::ContextMenu { row, selected } => s.context_menu(row, selected@),
        MessageListInput::SetPaletteCollapse(secs) => (
            ListState { looks: Faced { palette_collapse_secs: secs, ..s.looks }, ..s },
            seq![],
        ),
        MessageListInput::ResetPaging => s.reset_paging(),
        MessageListInput::LoadMore => s.load_more(),
        MessageListInput::SetIndexComplete(complete) => (
            ListState { display: Rendered { index_complete: complete, ..s.display }, ..s },
            seq![],
        ),
        MessageListInput::SetSelected(id) => s.set_selected(id),
        MessageListInput::SelectAndLoad(key) => s.select_and_load(key),
    }
}

// ----- Building the rows -----

/// A conversation, with its texts as strings.
struct ThreadGroup {
    key: ThreadKey,
    members: Vec<usize>,
}

impl ThreadGroup {
    spec fn group(&self) -> Group {
        Group { key: self.key@, members: self.members@.map_values(|i: usize| i as int) }
    }
}

spec fn groups_of(v: Seq<ThreadGroup>) -> Seq<Group> {
    v.map_values(|g: ThreadGroup| g.group())
}

/// Whether every conversation has messages, and all of them are among the first `n`.
spec fn grounded(v: Seq<ThreadGroup>, n: int) -> bool {
    forall|k: int|
        0 <= k < v.len() ==> (#[trigger] v[k]).members@.len() > 0 && v[k].members@.len() <= n && (
        forall|j: int| 0 <= j < v[k].members@.len() ==> (#[trigger] v[k].members@[j]) < n)
}

fn key_for(table: &HashMap<u64, ThreadKey>, threading: bool, m: &Message, rendered: Ghost<Seq<Mail>>) -> (key:
    ThreadKey)
    requires
        threading ==> keeps(table@, threads(rendered@)),
        !threading ==> table@ == Map::<u64, ThreadKey>::empty(),
    ensures
        key@ == conversation_key(rendered@, threading, m@),
{
    proof {
        if threading {
            assert(threads(rendered@).contains_key(m@.key()) == table@.contains_key(
                packed(m@.key()),
            ));
        }
    }
    match table.get(&message_key(m.account_id, m.id)) {
        Some(key) => key.copy(),
        None => {
            let mut root = decimal_string(m.account_id as u64);
            root.append(" ");
            root.append(decimal_string(m.id as u64).as_str());
            ThreadKey { account_id: m.account_id, root }
        },
    }
}

fn find_slot(groups: &Vec<ThreadGroup>, key: &ThreadKey) -> (k: usize)
    ensures
        k == slot(groups_of(groups@), key@, 0),
        k <= groups@.len(),
        k < groups@.len() ==> groups@[k as int].key@ == key@,
{
    let mut i: usize = 0;
    while i < groups.len()
        invariant
            i <= groups.len(),
            slot(groups_of(groups@), key@, 0) == slot(groups_of(groups@), key@, i as int),
        decreases groups.len() - i,
    {
        proof {
            assert(groups_of(groups@)[i as int] == groups@[i as int].group());
        }
        if groups[i].key.same_as(key) {
            return i;
        }
        i = i + 1;
    }
    i
}

fn group_messages(rendered: &Vec<Message>, threading: bool) -> (groups: Vec<ThreadGroup>)
    ensures
        groups_of(groups@) == conversations(mails(rendered@), threading),
        grounded(groups@, rendered@.len() as int),
{
    let ghost all = mails(rendered@);
    let ghost keys = all.map_values(|m: Mail| conversation_key(all, threading, m));
    let table: HashMap<u64, ThreadKey> = if threading {
        compute_thread_keys(rendered)
    } else {
        HashMap::new()
    };
    let mut groups: Vec<ThreadGroup> = Vec::new();
    let mut n: usize = 0;
    proof {
        assert(groups_of(groups@) =~= seq![]);
    }
    while n < rendered.len()
        invariant
            n <= rendered.len(),
            all == mails(rendered@),
            keys == all.map_values(|m: Mail| conversation_key(all, threading, m)),
            threading ==> keeps(table@, threads(all)),
            !threading ==> table@ == Map::<u64, ThreadKey>::empty(),
            groups_of(groups@) == grouped(keys, n as nat),
            grounded(groups@, n as int),
        decreases rendered.len() - n,
    {
        let key = key_for(&table, threading, &rendered[n], Ghost(all));
        let k = find_slot(&groups, &key);
        let ghost had = groups@;
        proof {
            assert(keys[n as int] == key@);
        }
        if k < groups.len() {
            groups[k].members.push(n);
            proof {
                let now = groups@[k as int];
                assert(now.group().members =~= had[k as int].group().members.push(n as int));
                assert(groups_of(groups@) =~= groups_of(had).update(
                    k as int,
                    Group { key: key@, members: groups_of(had)[k as int].members.push(n as int) },
                ));
            }
        } else {
            let mut members: Vec<usize> = Vec::new();
            members.push(n);
            let g = ThreadGroup { key, members };
            groups.push(g);
            proof {
                assert(g.group().members =~= seq![n as int]);
                assert(groups_of(groups@) =~= groups_of(had).push(g.group()));
            }
        }
        proof {
            assert forall|j: int| 0 <= j < groups@.len() implies (#[trigger] groups@[j]).members@.len()
                > 0 && groups@[j].members@.len() <= n + 1 && (forall|l: int|
                0 <= l < groups@[j].members@.len() ==> (#[trigger] groups@[j].members@[l]) < n
                    + 1) by {
                if j < had.len() && j != k {
                    assert(groups@[j] == had[j]);
                }
            }
        }
        n = n + 1;
    }
    groups
}

fn has_color(colors: &Vec<(u32, String)>, account_id: u32) -> (r: bool)
    ensures
        r == colored(colors_of(colors@), account_id),
{
    let mut k: usize = 0;
    while k < colors.len()
        invariant
            k <= colors.len(),
            forall|j: int| 0 <= j < k ==> (#[trigger] colors_of(colors@)[j]).0 != account_id,
        decreases colors.len() - k,
    {
        if colors[k].0 == account_id {
            proof {
                assert(colors_of(colors@)[k as int].0 == account_id);
            }
            return true;
        }
        k = k + 1;
    }
    false
}

fn holds_thread(keys: &Vec<ThreadKey>, key: &ThreadKey) -> (r: bool)
    ensures
        r == key_set(keys@).contains(key@),
{
    let mut i: usize = 0;
    while i < keys.len()
        invariant
            i <= keys.len(),
            forall|j: int| 0 <= j < i ==> (#[trigger] keys@[j])@ != key@,
        decreases keys.len() - i,
    {
        if keys[i].same_as(key) {
            proof {
                assert(keys@[i as int]@ == key@);
            }
            return true;
        }
        i = i + 1;
    }
    false
}

fn some_unread(rendered: &Vec<Message>, members: &Vec<usize>) -> (r: bool)
    requires
        forall|j: int| 0 <= j < members@.len() ==> (#[trigger] members@[j]) < rendered@.len(),
    ensures
        r == any_unread(mails(rendered@), members@.map_values(|i: usize| i as int)),
{
    let ghost numbers = members@.map_values(|i: usize| i as int);
    let mut k: usize = 0;
    while k < members.len()
        invariant
            k <= members.len(),
            numbers == members@.map_values(|i: usize| i as int),
            forall|j: int| 0 <= j < members@.len() ==> (#[trigger] members@[j]) < rendered@.len(),
            forall|j: int| 0 <= j < k ==> !mails(rendered@)[#[trigger] numbers[j]].unread,
        decreases members.len() - k,
    {
        if rendered[members[k]].unread {
            proof {
                assert(mails(rendered@)[numbers[k as int]].unread);
            }
            return true;
        }
        k = k + 1;
    }
    false
}

fn push_face(rows: &mut Vec<RowInit>, row: RowInit)
    ensures
        faces(final(rows)@) == faces(old(rows)@).push(row@),
{
    let ghost had = faces(rows@);
    rows.push(row);
    proof {
        assert(faces(rows@) =~= had.push(row@));
    }
}

impl MessageList {
    /// A list with nothing in it.
    pub fn new() -> (r: MessageList)
        ensures
            r@ == (ListState {
                mail: Sourced {
                    all: seq![],
                    search_pool: seq![],
                    scope: SearchScope::AllFolders,
                    query: seq![],
                    sort: SortOrder::DateNewest,
                    threading: true,
                },
                display: Rendered {
                    shown: seq![],
                    total_matches: 0,
                    thread_members: seq![],
                    rendered_count: 0,
                    render_limit: RENDER_CAP,
                    index_complete: true,
                },
                choice: Chosen {
                    selected_id: None,
                    selected_ids: seq![],
                    selection_count: 0,
                },
                folds: Folded {
                    expanded_threads: Set::empty(),
                    default_expanded: false,
                },
                looks: Faced {
                    title: seq![],
                    gravatar: false,
                    colorize: false,
                    account_colors: seq![],
                    palette_collapse_secs: 5,
                    busy: None,
                },
            }),
    {
        let r = MessageList {
            mail: Source {
                all: Vec::new(),
                search_pool: Vec::new(),
                scope: SearchScope::AllFolders,
                query: String::new(),
                sort: SortOrder::DateNewest,
                threading: true,
            },
            display: Rows {
                shown: Vec::new(),
                total_matches: 0,
                thread_members: Vec::new(),
                rendered_count: 0,
                render_limit: RENDER_CAP,
                index_complete: true,
            },
            choice: Choice {
                selected_id: None,
                selected_ids: Vec::new(),
                selection_count: 0,
            },
            folds: Folds {
                expanded_threads: Vec::new(),
                default_expanded: false,
            },
            looks: Face {
                title: String::new(),
                gravatar: false,
                colorize: false,
                account_colors: Vec::new(),
                palette_collapse_secs: 5,
                busy: None,
            },
        };
        proof {
            assert(r@.mail.all =~= seq![]);
            assert(r@.mail.search_pool =~= seq![]);
            assert(r@.display.shown =~= seq![]);
            assert(r@.looks.account_colors =~= seq![]);
            assert(r@.folds.expanded_threads =~= Set::empty());
            assert(r@.display.thread_members =~= seq![]);
        }
        r
    }

    /// Whether a search is active.
    pub fn searching(&self) -> (r: bool)
        ensures
            r == self@.searching(),
    {
        !is_blank_text(self.mail.query.as_str())
    }

    /// The messages that are searched: those of all folders while such a search is active
    /// and they have arrived, and the current folder's otherwise.
    pub fn active_source(&self) -> (r: &Vec<Message>)
        ensures
            mails(r@) == self@.source(),
    {
        if self.searching() && self.mail.scope == SearchScope::AllFolders && self.mail.search_pool.len() > 0 {
            &self.mail.search_pool
        } else {
            &self.mail.all
        }
    }

    fn ring_class(&self, account_id: u32) -> (r: Option<String>)
        ensures
            opt_text(r) == self@.ring(account_id),
    {
        if self.looks.colorize && has_color(&self.looks.account_colors, account_id) {
            let mut class = copy_of("vireo-acct-ring-");
            class.append(decimal_string(account_id as u64).as_str());
            Some(class)
        } else {
            None
        }
    }

    fn head(&self, rendered: &Vec<Message>, g: &ThreadGroup, expanded: bool) -> (r: RowInit)
        requires
            g.members@.len() > 0,
            forall|j: int|
                0 <= j < g.members@.len() ==> (#[trigger] g.members@[j]) < rendered@.len(),
            expanded == self@.expanded(g.group()),
        ensures
            r@ == self@.head_row(mails(rendered@), g.group()),
    {
        let m = rendered[g.members[0]].copy();
        let several = g.members.len() > 1;
        proof {
            assert(g.group().members[0] == g.members@[0] as int);
            assert(mails(rendered@)[g.members@[0] as int] == m@);
        }
        let ring_class = self.ring_class(m.account_id);
        RowInit {
            msg: m,
            gravatar: self.looks.gravatar,
            ring_class,
            thread_count: g.members.len(),
            is_thread_child: false,
            thread_expanded: expanded,
            thread_key: if several {
                Some(g.key.copy())
            } else {
                None
            },
            thread_unread: several && some_unread(rendered, &g.members),
        }
    }

    fn child(&self, m: &Message) -> (r: RowInit)
        ensures
            r@ == self@.child_row(m@),
    {
        RowInit {
            msg: m.copy(),
            gravatar: self.looks.gravatar,
            ring_class: self.ring_class(m.account_id),
            thread_count: 0,
            is_thread_child: true,
            thread_expanded: false,
            thread_key: None,
            thread_unread: false,
        }
    }

    fn push_group_rows(&self, rendered: &Vec<Message>, g: &ThreadGroup, rows: &mut Vec<RowInit>)
        requires
            g.members@.len() > 0,
            forall|j: int|
                0 <= j < g.members@.len() ==> (#[trigger] g.members@[j]) < rendered@.len(),
        ensures
            faces(final(rows)@) == faces(old(rows)@) + self@.group_rows(
                mails(rendered@),
                g.group(),
            ),
    {
        let ghost had = faces(rows@);
        let ghost all = mails(rendered@);
        let ghost group = g.group();
        let expanded = g.members.len() > 1 && (holds_thread(&self.folds.expanded_threads, &g.key)
            != self.folds.default_expanded);
        let head = self.head(rendered, g, expanded);
        let ghost first = head@;
        push_face(rows, head);
        if expanded {
            let ghost others = group.members.skip(1).map_values(
                |i: int| self@.child_row(all[i]),
            );
            let mut k: usize = 1;
            proof {
                assert(faces(rows@) =~= had + (seq![first] + others.take(0)));
            }
            while k < g.members.len()
                invariant
                    1 <= k <= g.members.len(),
                    all == mails(rendered@),
                    group == g.group(),
                    others == group.members.skip(1).map_values(|i: int| self@.child_row(all[i])),
                    forall|j: int|
                        0 <= j < g.members@.len() ==> (#[trigger] g.members@[j]) < rendered@.len(),
                    faces(rows@) == had + (seq![first] + others.take(k - 1)),
                decreases g.members.len() - k,
            {
                let row = self.child(&rendered[g.members[k]]);
                proof {
                    assert(others[k - 1] == row@);
                    assert((had + (seq![first] + others.take(k - 1))).push(row@) =~= had + (
                    seq![first] + others.take(k as int)));
                }
                push_face(rows, row);
                k = k + 1;
            }
            proof {
                assert(others.take(others.len() as int) =~= others);
            }
        } else {
            proof {
                assert(had.push(first) =~= had + seq![first]);
            }
        }
    }

    fn build_rows(&self, rendered: &Vec<Message>, groups: &Vec<ThreadGroup>) -> (rows: Vec<RowInit>)
        requires
            grounded(groups@, rendered@.len() as int),
        ensures
            faces(rows@) == self@.rows_to(
                mails(rendered@),
                groups_of(groups@),
                groups@.len(),
            ),
    {
        let mut rows: Vec<RowInit> = Vec::new();
        let mut n: usize = 0;
        proof {
            assert(faces(rows@) =~= seq![]);
        }
        while n < groups.len()
            invariant
                n <= groups.len(),
                grounded(groups@, rendered@.len() as int),
                faces(rows@) == self@.rows_to(mails(rendered@), groups_of(groups@), n as nat),
            decreases groups.len() - n,
        {
            proof {
                assert(groups_of(groups@)[n as int] == groups@[n as int].group());
            }
            self.push_group_rows(rendered, &groups[n], &mut rows);
            n = n + 1;
        }
        rows
    }
}

fn member_keys(rendered: &Vec<Message>, g: &ThreadGroup) -> (r: Vec<(u32, u32)>)
    requires
        forall|j: int| 0 <= j < g.members@.len() ==> (#[trigger] g.members@[j]) < rendered@.len(),
    ensures
        r@ == g.group().members.map_values(|i: int| mails(rendered@)[i].key()),
{
    let ghost want = g.group().members.map_values(|i: int| mails(rendered@)[i].key());
    let mut r: Vec<(u32, u32)> = Vec::new();
    let mut k: usize = 0;
    while k < g.members.len()
        invariant
            k <= g.members.len(),
            want == g.group().members.map_values(|i: int| mails(rendered@)[i].key()),
            forall|j: int|
                0 <= j < g.members@.len() ==> (#[trigger] g.members@[j]) < rendered@.len(),
            r@ == want.take(k as int),
        decreases g.members.len() - k,
    {
        let key = rendered[g.members[k]].key();
        r.push(key);
        proof {
            assert(want[k as int] == key);
            assert(want.take(k + 1) =~= want.take(k as int).push(key));
        }
        k = k + 1;
    }
    proof {
        assert(want.take(want.len() as int) =~= want);
    }
    r
}

fn all_member_keys(rendered: &Vec<Message>, groups: &Vec<ThreadGroup>) -> (r: Vec<Vec<(u32, u32)>>)
    requires
        grounded(groups@, rendered@.len() as int),
    ensures
        member_lists(r@) == members_to(mails(rendered@), groups_of(groups@), groups@.len()),
{
    let mut r: Vec<Vec<(u32, u32)>> = Vec::new();
    let mut n: usize = 0;
    proof {
        assert(member_lists(r@) =~= seq![]);
    }
    while n < groups.len()
        invariant
            n <= groups.len(),
            grounded(groups@, rendered@.len() as int),
            member_lists(r@) == members_to(mails(rendered@), groups_of(groups@), n as nat),
        decreases groups.len() - n,
    {
        proof {
            assert(groups_of(groups@)[n as int] == groups@[n as int].group());
        }
        if groups[n].members.len() > 1 {
            let ghost had = member_lists(r@);
            let keys = member_keys(rendered, &groups[n]);
            r.push(keys);
            proof {
                assert(member_lists(r@) =~= had.push(keys@));
            }
        }
        n = n + 1;
    }
    r
}

fn row_messages(rows: &Vec<RowInit>) -> (r: Vec<Message>)
    ensures
        mails(r@) == faces(rows@).map_values(|f: RowFace| f.mail),
{
    let ghost want = faces(rows@).map_values(|f: RowFace| f.mail);
    let mut r: Vec<Message> = Vec::new();
    let mut k: usize = 0;
    while k < rows.len()
        invariant
            k <= rows.len(),
            want == faces(rows@).map_values(|f: RowFace| f.mail),
            mails(r@) == want.take(k as int),
        decreases rows.len() - k,
    {
        let ghost had = mails(r@);
        let m = rows[k].msg.copy();
        r.push(m);
        proof {
            assert(mails(r@) =~= had.push(m@));
            assert(want[k as int] == m@);
            assert(want.take(k + 1) =~= want.take(k as int).push(m@));
        }
        k = k + 1;
    }
    proof {
        assert(want.take(want.len() as int) =~= want);
    }
    r
}

fn find_key(msgs: &Vec<Message>, key: (u32, u32)) -> (k: usize)
    ensures
        k == first_key(mails(msgs@), key, 0),
        k <= msgs@.len(),
        k < msgs@.len() ==> msgs@[k as int]@.key() == key,
{
    let mut i: usize = 0;
    while i < msgs.len()
        invariant
            i <= msgs.len(),
            first_key(mails(msgs@), key, 0) == first_key(mails(msgs@), key, i as int),
        decreases msgs.len() - i,
    {
        if msgs[i].account_id == key.0 && msgs[i].id == key.1 {
            return i;
        }
        i = i + 1;
    }
    i
}

impl MessageList {
    /// Puts the whole selection back on the rows, so that it persists when they are built
    /// anew.
    fn select_current(&self) -> (steps: Vec<ListStep>)
        ensures
            demands(steps@) == self@.reselected(),
    {
        if self.choice.selected_ids.len() == 0 {
            return one_step(ListStep::UnselectAll);
        }
        let mut steps = no_steps();
        let mut n: usize = 0;
        while n < self.choice.selected_ids.len()
            invariant
                n <= self.choice.selected_ids.len(),
                demands(steps@) == selections(self@.display.shown, self@.choice.selected_ids, n as nat),
            decreases self.choice.selected_ids.len() - n,
        {
            let k = find_key(&self.display.shown, self.choice.selected_ids[n]);
            if k < self.display.shown.len() {
                add_step(&mut steps, ListStep::SelectRow(k));
            }
            n = n + 1;
        }
        steps
    }

    /// Builds the rows anew: searches, orders, threads and cuts off at the limit.
    fn rebuild(&mut self) -> (steps: Vec<ListStep>)
        ensures
            final(self)@ == old(self)@.rebuilt(),
            demands(steps@) == old(self)@.rebuild_demands(),
    {
        let ghost was = self@;
        let q = lowercase(self.mail.query.as_str());
        let found = find_matches(self.active_source(), &chars_of(q.as_str()));
        let mut rendered = sort_messages(&found, self.mail.sort);
        let total = rendered.len();
        let ghost all_found = mails(rendered@);
        proof {
            assert(all_found == was.found());
        }
        if rendered.len() > self.display.render_limit {
            let ghost before = rendered@;
            rendered.truncate(self.display.render_limit);
            proof {
                assert(mails(rendered@) =~= mails(before).take(was.display.render_limit as int));
            }
        }
        proof {
            assert(mails(rendered@) == was.rendered());
            assert(all_found.len() == total);
        }
        let groups = group_messages(&rendered, self.mail.threading);
        let rows = self.build_rows(&rendered, &groups);
        proof {
            assert(groups_of(groups@).len() == groups@.len());
            assert(faces(rows@) == was.rows());
        }
        self.display.total_matches = total;
        self.display.rendered_count = rendered.len();
        self.display.thread_members = all_member_keys(&rendered, &groups);
        self.display.shown = row_messages(&rows);
        proof {
            assert(mails(rendered@).len() == rendered@.len());
            assert(self@ == was.rebuilt());
        }
        let mut steps = one_step(ListStep::Rows(rows));
        let more = self.select_current();
        add_steps(&mut steps, more);
        steps
    }

    /// Builds the rows anew and keeps the scroll position.
    fn rebuild_preserving_scroll(&mut self) -> (steps: Vec<ListStep>)
        ensures
            final(self)@ == old(self)@.rebuilt(),
            demands(steps@) == old(self)@.rebuild_in_place(),
    {
        let ghost was = self@;
        let mut steps = one_step(ListStep::SaveScroll);
        let more = self.rebuild();
        add_steps(&mut steps, more);
        add_step(&mut steps, ListStep::RestoreScroll);
        proof {
            assert(demands(steps@) =~= was.rebuild_in_place());
        }
        steps
    }
}


// ----- Looking things up -----

fn find_id(msgs: &Vec<Message>, id: u32) -> (k: usize)
    ensures
        k == first_id(mails(msgs@), id, 0),
        k <= msgs@.len(),
{
    let mut i: usize = 0;
    while i < msgs.len()
        invariant
            i <= msgs.len(),
            first_id(mails(msgs@), id, 0) == first_id(mails(msgs@), id, i as int),
        decreases msgs.len() - i,
    {
        if msgs[i].id == id {
            return i;
        }
        i = i + 1;
    }
    i
}

/// Changes the mark of being unread of the first message with that identifier; the result is its
/// number, or how many there are.
fn mark_unread(msgs: &mut Vec<Message>, id: u32, unread: bool) -> (k: usize)
    ensures
        mails(final(msgs)@) == changed(mails(old(msgs)@), id, unread_as(unread)),
        final(msgs)@.len() == old(msgs)@.len(),
        k == first_id(mails(old(msgs)@), id, 0),
{
    let k = find_id(msgs, id);
    let ghost had = mails(msgs@);
    if k < msgs.len() {
        msgs[k].unread = unread;
    }
    proof {
        assert(mails(msgs@) =~= changed(had, id, unread_as(unread)));
    }
    k
}

/// Changes the star of the first message with that identifier; the result is its
/// number, or how many there are.
fn mark_starred(msgs: &mut Vec<Message>, id: u32, starred: bool) -> (k: usize)
    ensures
        mails(final(msgs)@) == changed(mails(old(msgs)@), id, starred_as(starred)),
        final(msgs)@.len() == old(msgs)@.len(),
        k == first_id(mails(old(msgs)@), id, 0),
{
    let k = find_id(msgs, id);
    let ghost had = mails(msgs@);
    if k < msgs.len() {
        msgs[k].starred = starred;
    }
    proof {
        assert(mails(msgs@) =~= changed(had, id, starred_as(starred)));
    }
    k
}

/// Changes the mark of an attachment of the first message with that identifier; the result is its
/// number, or how many there are.
fn mark_attachment(msgs: &mut Vec<Message>, id: u32, has_attachment: bool) -> (k: usize)
    ensures
        mails(final(msgs)@) == changed(mails(old(msgs)@), id, attached_as(has_attachment)),
        final(msgs)@.len() == old(msgs)@.len(),
        k == first_id(mails(old(msgs)@), id, 0),
{
    let k = find_id(msgs, id);
    let ghost had = mails(msgs@);
    if k < msgs.len() {
        msgs[k].has_attachment = has_attachment;
    }
    proof {
        assert(mails(msgs@) =~= changed(had, id, attached_as(has_attachment)));
    }
    k
}

fn find_gone(msgs: &Vec<Message>, gone: &HashSet<u32>) -> (k: usize)
    ensures
        k == first_gone(mails(msgs@), gone@, 0),
        k <= msgs@.len(),
{
    let mut i: usize = 0;
    while i < msgs.len()
        invariant
            i <= msgs.len(),
            first_gone(mails(msgs@), gone@, 0) == first_gone(mails(msgs@), gone@, i as int),
        decreases msgs.len() - i,
    {
        if gone.contains(&msgs[i].id) {
            return i;
        }
        i = i + 1;
    }
    i
}

fn removal_steps(msgs: &Vec<Message>, gone: &HashSet<u32>) -> (steps: Vec<ListStep>)
    ensures
        demands(steps@) == removals(mails(msgs@), gone@, msgs@.len()),
{
    let mut steps = no_steps();
    let mut n: usize = msgs.len();
    let ghost want = removals(mails(msgs@), gone@, msgs@.len());
    proof {
        assert(demands(steps@) + want =~= want);
    }
    while n > 0
        invariant
            n <= msgs.len(),
            demands(steps@) + removals(mails(msgs@), gone@, n as nat) == want,
        decreases n,
    {
        let ghost had = demands(steps@);
        n = n - 1;
        if gone.contains(&msgs[n].id) {
            add_step(&mut steps, ListStep::RemoveRow(n));
            proof {
                let rest = removals(mails(msgs@), gone@, n as nat);
                assert(had.push(Demand::RemoveRow(n)) + rest =~= had + (seq![
                    Demand::RemoveRow(n),
                ] + rest));
            }
        }
    }
    proof {
        assert(demands(steps@) + seq![] =~= demands(steps@));
    }
    steps
}

fn id_set(ids: &Vec<u32>) -> (r: HashSet<u32>)
    ensures
        r@ == ids@.to_set(),
{
    let mut r: HashSet<u32> = HashSet::new();
    let mut i: usize = 0;
    while i < ids.len()
        invariant
            i <= ids.len(),
            forall|x: u32| #[trigger] r@.contains(x) <==> ids@.take(i as int).contains(x),
        decreases ids.len() - i,
    {
        r.insert(ids[i]);
        proof {
            let had = ids@.take(i as int);
            let now = ids@.take(i + 1);
            assert forall|x: u32| #[trigger] r@.contains(x) <==> now.contains(x) by {
                assert(now[i as int] == ids@[i as int]);
                if had.contains(x) {
                    let j = choose|j: int| 0 <= j < had.len() && had[j] == x;
                    assert(now[j] == x);
                }
                if now.contains(x) && x != ids@[i as int] {
                    let j = choose|j: int| 0 <= j < now.len() && now[j] == x;
                    assert(had[j] == x);
                }
            }
        }
        i = i + 1;
    }
    proof {
        assert(ids@.take(ids@.len() as int) =~= ids@);
        assert(r@ =~= ids@.to_set());
    }
    r
}

fn keep_keys(keys: &Vec<(u32, u32)>, gone: &HashSet<u32>) -> (r: Vec<(u32, u32)>)
    ensures
        r@ == keys_without(keys@, gone@),
{
    let mut r: Vec<(u32, u32)> = Vec::new();
    let mut i: usize = 0;
    while i < keys.len()
        invariant
            i <= keys.len(),
            r@ == keys_without(keys@.take(i as int), gone@),
        decreases keys.len() - i,
    {
        proof {
            let next = keys@.take(i + 1);
            assert(next.drop_last() =~= keys@.take(i as int));
            assert(next.last() == keys@[i as int]);
        }
        if !gone.contains(&keys[i].1) {
            r.push(keys[i]);
        }
        i = i + 1;
    }
    proof {
        assert(keys@.take(keys@.len() as int) =~= keys@);
    }
    r
}

/// The messages in the opposite order.
fn reversed(msgs: Vec<Message>) -> (r: Vec<Message>)
    ensures
        r@ == msgs@.reverse(),
{
    let ghost all = msgs@;
    let mut rest = msgs;
    let mut r: Vec<Message> = Vec::new();
    while rest.len() > 0
        invariant
            rest@.len() <= all.len(),
            rest@ == all.take(rest@.len() as int),
            r@ == all.skip(rest@.len() as int).reverse(),
        decreases rest.len(),
    {
        let ghost n = rest@.len() as int;
        if let Some(m) = rest.pop() {
            r.push(m);
            proof {
                assert(all.skip(n - 1).reverse() =~= all.skip(n).reverse().push(all[n - 1]));
                assert(all.take(n).subrange(0, n - 1) =~= all.take(n - 1));
            }
        }
    }
    proof {
        assert(all.skip(0) =~= all);
    }
    r
}

fn keep_messages(msgs: Vec<Message>, gone: &HashSet<u32>) -> (r: Vec<Message>)
    ensures
        mails(r@) == without(mails(msgs@), gone@),
{
    let ghost all = mails(msgs@);
    let mut rest = reversed(msgs);
    let ghost back = rest@;
    let mut r: Vec<Message> = Vec::new();
    let ghost mut k: int = 0;
    proof {
        assert(mails(r@) =~= seq![]);
        assert(all.take(0) =~= seq![]);
        assert(back.take(back.len() as int) =~= back);
    }
    while rest.len() > 0
        invariant
            0 <= k <= all.len(),
            back == msgs@.reverse(),
            all == mails(msgs@),
            rest@.len() == all.len() - k,
            rest@ == back.take(all.len() - k),
            mails(r@) == without(all.take(k), gone@),
        decreases rest.len(),
    {
        proof {
            let next = all.take(k + 1);
            assert(next.drop_last() =~= all.take(k));
            assert(next.last() == all[k]);
            assert(back[all.len() - k - 1] == msgs@[k]);
            assert(back.take(all.len() - k).subrange(0, all.len() - k - 1) =~= back.take(
                all.len() - (k + 1),
            ));
        }
        if let Some(m) = rest.pop() {
            if !gone.contains(&m.id) {
                let ghost had = mails(r@);
                r.push(m);
                proof {
                    assert(mails(r@) =~= had.push(m@));
                }
            }
        }
        proof {
            k = k + 1;
        }
    }
    proof {
        assert(all.take(all.len() as int) =~= all);
    }
    r
}

fn uid_set(msgs: &Vec<Message>) -> (r: HashSet<u64>)
    ensures
        forall|account_id: u32, uid: u32|
            r@.contains(#[trigger] packed((account_id, uid))) <==> holds_uid(
                mails(msgs@),
                account_id,
                uid,
            ),
{
    let mut r: HashSet<u64> = HashSet::new();
    let mut i: usize = 0;
    while i < msgs.len()
        invariant
            i <= msgs.len(),
            forall|account_id: u32, uid: u32|
                r@.contains(#[trigger] packed((account_id, uid))) <==> holds_uid(
                    mails(msgs@).take(i as int),
                    account_id,
                    uid,
                ),
        decreases msgs.len() - i,
    {
        let a = msgs[i].account_id;
        let u = msgs[i].uid;
        let ghost before = r@;
        r.insert(message_key(a, u));
        proof {
            let had = mails(msgs@).take(i as int);
            let now = mails(msgs@).take(i + 1);
            assert forall|account_id: u32, uid: u32| r@.contains(
                #[trigger] packed((account_id, uid)),
            ) <==> holds_uid(now, account_id, uid) by {
                assert(now[i as int].account_id == a && now[i as int].uid == u);
                if packed((account_id, uid)) == packed((a, u)) {
                    crate::models::packed_keys_differ((account_id, uid), (a, u));
                }
                if holds_uid(had, account_id, uid) {
                    let j = choose|j: int|
                        0 <= j < had.len() && (#[trigger] had[j]).account_id == account_id
                            && had[j].uid == uid;
                    assert(now[j].account_id == account_id && now[j].uid == uid);
                }
                if holds_uid(now, account_id, uid) && !(account_id == a && uid == u) {
                    let j = choose|j: int|
                        0 <= j < now.len() && (#[trigger] now[j]).account_id == account_id
                            && now[j].uid == uid;
                    assert(had[j].account_id == account_id && had[j].uid == uid);
                }
            }
        }
        i = i + 1;
    }
    proof {
        assert(mails(msgs@).take(msgs@.len() as int) =~= mails(msgs@));
    }
    r
}

fn unknown_messages(msgs: Vec<Message>, known: &Vec<Message>) -> (r: Vec<Message>)
    ensures
        mails(r@) == unknown(mails(msgs@), mails(known@)),
{
    let existing = uid_set(known);
    let mut r: Vec<Message> = Vec::new();
    let mut i: usize = 0;
    proof {
        assert(mails(r@) =~= seq![]);
    }
    while i < msgs.len()
        invariant
            i <= msgs.len(),
            forall|account_id: u32, uid: u32|
                existing@.contains(#[trigger] packed((account_id, uid))) <==> holds_uid(
                    mails(known@),
                    account_id,
                    uid,
                ),
            mails(r@) == unknown(mails(msgs@).take(i as int), mails(known@)),
        decreases msgs.len() - i,
    {
        proof {
            let next = mails(msgs@).take(i + 1);
            assert(next.drop_last() =~= mails(msgs@).take(i as int));
            assert(next.last() == msgs@[i as int]@);
        }
        if !existing.contains(&message_key(msgs[i].account_id, msgs[i].uid)) {
            let ghost had = mails(r@);
            let one = msgs[i].copy();
            r.push(one);
            proof {
                assert(mails(r@) =~= had.push(one@));
            }
        }
        i = i + 1;
    }
    proof {
        assert(mails(msgs@).take(msgs@.len() as int) =~= mails(msgs@));
    }
    r
}

fn tint_css(colors: &Vec<(u32, String)>) -> (css: String)
    ensures
        css@ == tint_rules(colors_of(colors@), colors@.len()),
{
    let mut css = String::new();
    let mut n: usize = 0;
    while n < colors.len()
        invariant
            n <= colors.len(),
            css@ == tint_rules(colors_of(colors@), n as nat),
        decreases colors.len() - n,
    {
        let mut rule = copy_of(".vireo-acct-ring-");
        rule.append(decimal_string(colors[n].0 as u64).as_str());
        rule.append(" { border-radius: 9999px; box-shadow: 0 0 0 3px ");
        rule.append(colors[n].1.as_str());
        rule.append("; }\n");
        css.append(rule.as_str());
        n = n + 1;
    }
    css
}

fn only(m: &Message) -> (r: Vec<Message>)
    ensures
        mails(r@) == seq![m@],
{
    let mut r: Vec<Message> = Vec::new();
    r.push(m.copy());
    proof {
        assert(mails(r@) =~= seq![m@]);
    }
    r
}

fn thread_messages(
    msgs: &Vec<Message>,
    table: &HashMap<u64, ThreadKey>,
    key: &ThreadKey,
    map: Ghost<Map<(u32, u32), (u32, Seq<char>)>>,
) -> (r: Vec<Message>)
    requires
        keeps(table@, map@),
    ensures
        mails(r@) == conversation_members(mails(msgs@), map@, key@),
{
    let mut r: Vec<Message> = Vec::new();
    let mut i: usize = 0;
    proof {
        assert(mails(r@) =~= seq![]);
    }
    while i < msgs.len()
        invariant
            i <= msgs.len(),
            keeps(table@, map@),
            mails(r@) == conversation_members(mails(msgs@).take(i as int), map@, key@),
        decreases msgs.len() - i,
    {
        let m = &msgs[i];
        proof {
            let next = mails(msgs@).take(i + 1);
            assert(next.drop_last() =~= mails(msgs@).take(i as int));
            assert(next.last() == m@);
            assert(map@.contains_key(m@.key()) == table@.contains_key(packed(m@.key())));
        }
        let same: bool = match table.get(&message_key(m.account_id, m.id)) {
            Some(k) => k.same_as(key),
            None => false,
        };
        if same {
            let ghost had = mails(r@);
            let one = m.copy();
            r.push(one);
            proof {
                assert(mails(r@) =~= had.push(one@));
            }
        }
        i = i + 1;
    }
    proof {
        assert(mails(msgs@).take(msgs@.len() as int) =~= mails(msgs@));
    }
    r
}

fn pick_messages(shown: &Vec<Message>, rows: &Vec<usize>) -> (r: Vec<Message>)
    ensures
        mails(r@) == picked(mails(shown@), rows@),
{
    let mut r: Vec<Message> = Vec::new();
    let mut i: usize = 0;
    proof {
        assert(mails(r@) =~= seq![]);
    }
    while i < rows.len()
        invariant
            i <= rows.len(),
            mails(r@) == picked(mails(shown@), rows@.take(i as int)),
        decreases rows.len() - i,
    {
        proof {
            let next = rows@.take(i + 1);
            assert(next.drop_last() =~= rows@.take(i as int));
            assert(next.last() == rows@[i as int]);
        }
        if rows[i] < shown.len() {
            let ghost had = mails(r@);
            let one = shown[rows[i]].copy();
            r.push(one);
            proof {
                assert(mails(r@) =~= had.push(one@));
            }
        }
        i = i + 1;
    }
    proof {
        assert(rows@.take(rows@.len() as int) =~= rows@);
    }
    r
}

fn keys_of(msgs: &Vec<Message>) -> (r: Vec<(u32, u32)>)
    ensures
        r@ == mails(msgs@).map_values(|m: Mail| m.key()),
{
    let ghost want = mails(msgs@).map_values(|m: Mail| m.key());
    let mut r: Vec<(u32, u32)> = Vec::new();
    let mut i: usize = 0;
    while i < msgs.len()
        invariant
            i <= msgs.len(),
            want == mails(msgs@).map_values(|m: Mail| m.key()),
            r@ == want.take(i as int),
        decreases msgs.len() - i,
    {
        r.push(msgs[i].key());
        proof {
            assert(want.take(i + 1) =~= want.take(i as int).push(want[i as int]));
        }
        i = i + 1;
    }
    proof {
        assert(want.take(want.len() as int) =~= want);
    }
    r
}

/// What was picked is on display.
proof fn lemma_picked_shown(shown: Seq<Mail>, rows: Seq<usize>, k: int)
    requires
        0 <= k < picked(shown, rows).len(),
    ensures
        shown.contains(picked(shown, rows)[k]),
    decreases rows.len(),
{
    if rows.len() > 0 {
        let rest = picked(shown, rows.drop_last());
        if k < rest.len() {
            lemma_picked_shown(shown, rows.drop_last(), k);
        } else {
            assert(shown[rows.last() as int] == picked(shown, rows)[k]);
        }
    }
}

/// A message that is there is found.
proof fn lemma_first_key(msgs: Seq<Mail>, key: (u32, u32), i: int)
    requires
        0 <= i,
        exists|j: int| i <= j < msgs.len() && (#[trigger] msgs[j]).key() == key,
    ensures
        i <= first_key(msgs, key, i) < msgs.len(),
        msgs[first_key(msgs, key, i)].key() == key,
    decreases msgs.len() - i,
{
    if i < msgs.len() && msgs[i].key() != key {
        lemma_first_key(msgs, key, i + 1);
    }
}

fn toggle_key(keys: &mut Vec<ThreadKey>, key: ThreadKey)
    ensures
        key_set(final(keys)@) == (if key_set(old(keys)@).contains(key@) {
            key_set(old(keys)@).remove(key@)
        } else {
            key_set(old(keys)@).insert(key@)
        }),
{
    let ghost before = keys@;
    if holds_thread(keys, &key) {
        let mut kept: Vec<ThreadKey> = Vec::new();
        let mut i: usize = 0;
        while i < keys.len()
            invariant
                i <= keys.len(),
                keys@ == before,
                forall|j: int| 0 <= j < kept@.len() ==> (#[trigger] kept@[j])@ != key@,
                forall|j: int|
                    0 <= j < kept@.len() ==> key_set(before).contains((#[trigger] kept@[j])@),
                forall|j: int|
                    0 <= j < i && (#[trigger] before[j])@ != key@ ==> key_set(kept@).contains(
                        before[j]@,
                    ),
            decreases keys.len() - i,
        {
            if !keys[i].same_as(&key) {
                let ghost had = kept@;
                let one = keys[i].copy();
                kept.push(one);
                proof {
                    assert(before[i as int]@ == one@);
                    assert forall|j: int| 0 <= j <= i && (#[trigger] before[j])@ != key@ implies key_set(
                        kept@,
                    ).contains(before[j]@) by {
                        if j < i {
                            assert(key_set(had).contains(before[j]@));
                            let l = choose|l: int|
                                0 <= l < had.len() && (#[trigger] had[l])@ == before[j]@;
                            assert(kept@[l]@ == before[j]@);
                        } else {
                            assert(kept@[had.len() as int]@ == before[j]@);
                        }
                    }
                }
            }
            i = i + 1;
        }
        *keys = kept;
        proof {
            assert(key_set(keys@) =~= key_set(before).remove(key@));
        }
    } else {
        let ghost k = key@;
        keys.push(key);
        proof {
            assert forall|x: (u32, Seq<char>)| #[trigger] key_set(keys@).contains(x) <==> key_set(
                before,
            ).insert(k).contains(x) by {
                assert(keys@[before.len() as int]@ == k);
                if key_set(before).contains(x) {
                    let l = choose|l: int| 0 <= l < before.len() && (#[trigger] before[l])@ == x;
                    assert(keys@[l]@ == x);
                }
                if key_set(keys@).contains(x) && x != k {
                    let l = choose|l: int| 0 <= l < keys@.len() && (#[trigger] keys@[l])@ == x;
                    assert(before[l]@ == x);
                }
            }
            assert(key_set(keys@) =~= key_set(before).insert(k));
        }
    }
}

fn holds_pair(keys: &Vec<(u32, u32)>, key: (u32, u32)) -> (r: bool)
    ensures
        r == keys@.contains(key),
{
    let mut i: usize = 0;
    while i < keys.len()
        invariant
            i <= keys.len(),
            forall|j: int| 0 <= j < i ==> keys@[j] != key,
        decreases keys.len() - i,
    {
        if keys[i].0 == key.0 && keys[i].1 == key.1 {
            proof {
                assert(keys@[i as int] == key);
            }
            return true;
        }
        i = i + 1;
    }
    false
}

fn find_member_list(lists: &Vec<Vec<(u32, u32)>>, key: (u32, u32)) -> (k: usize)
    ensures
        k == member_slot(member_lists(lists@), key, 0),
        k <= lists@.len(),
{
    let mut i: usize = 0;
    while i < lists.len()
        invariant
            i <= lists.len(),
            member_slot(member_lists(lists@), key, 0) == member_slot(
                member_lists(lists@),
                key,
                i as int,
            ),
        decreases lists.len() - i,
    {
        proof {
            assert(member_lists(lists@)[i as int] == lists@[i as int]@);
        }
        if holds_pair(&lists[i], key) {
            return i;
        }
        i = i + 1;
    }
    i
}

fn has_unread_member(all: &Vec<Message>, members: &Vec<(u32, u32)>) -> (r: bool)
    ensures
        r == member_unread(mails(all@), members@),
{
    let mut i: usize = 0;
    while i < all.len()
        invariant
            i <= all.len(),
            forall|j: int|
                0 <= j < i ==> !(members@.contains((#[trigger] mails(all@)[j]).key()) && mails(
                    all@,
                )[j].unread),
        decreases all.len() - i,
    {
        if all[i].unread && holds_pair(members, all[i].key()) {
            proof {
                assert(members@.contains(mails(all@)[i as int].key()));
            }
            return true;
        }
        i = i + 1;
    }
    false
}

fn find_member(msgs: &Vec<Message>, members: &Vec<(u32, u32)>) -> (k: usize)
    ensures
        k == first_member(mails(msgs@), members@, 0),
        k <= msgs@.len(),
{
    let mut i: usize = 0;
    while i < msgs.len()
        invariant
            i <= msgs.len(),
            first_member(mails(msgs@), members@, 0) == first_member(
                mails(msgs@),
                members@,
                i as int,
            ),
        decreases msgs.len() - i,
    {
        if holds_pair(members, msgs[i].key()) {
            return i;
        }
        i = i + 1;
    }
    i
}

fn holds_row(rows: &Vec<usize>, row: usize) -> (r: bool)
    ensures
        r == rows@.contains(row),
{
    let mut i: usize = 0;
    while i < rows.len()
        invariant
            i <= rows.len(),
            forall|j: int| 0 <= j < i ==> rows@[j] != row,
        decreases rows.len() - i,
    {
        if rows[i] == row {
            proof {
                assert(rows@[i as int] == row);
            }
            return true;
        }
        i = i + 1;
    }
    false
}

// ----- Taking inputs -----

impl MessageList {
    fn on_set_messages(&mut self, title: String, messages: Vec<Message>) -> (steps: Vec<ListStep>)
        ensures
            final(self)@ == old(self)@.set_messages(title@, mails(messages@)).0,
            demands(steps@) == old(self)@.set_messages(title@, mails(messages@)).1,
    {
        proof {
            reveal(ListState::set_messages);
        }
        self.looks.title = title;
        self.mail.all = messages;
        self.rebuild_preserving_scroll()
    }

    fn on_append_messages(&mut self, messages: Vec<Message>) -> (steps: Vec<ListStep>)
        ensures
            final(self)@ == old(self)@.append_messages(mails(messages@)).0,
            demands(steps@) == old(self)@.append_messages(mails(messages@)).1,
    {
        proof {
            reveal(ListState::append_messages);
        }
        let ghost was = self@;
        let mut new = unknown_messages(messages, &self.mail.all);
        let grew = new.len() > 0;
        let ghost known = mails(self.mail.all@);
        let ghost added = mails(new@);
        self.mail.all.append(&mut new);
        proof {
            assert(mails(self.mail.all@) =~= known + added);
        }
        if grew && (!self.mail.query.as_str().is_empty() || self.mail.sort != SortOrder::DateNewest
            || self.display.render_limit > self.display.rendered_count) {
            self.rebuild_preserving_scroll()
        } else {
            no_steps()
        }
    }

    /// Drops any active search, so that a folder switch does not leave a stale term
    /// filtering the new folder.
    fn clear_search(&mut self) -> (steps: Vec<ListStep>)
        ensures
            final(self)@ == old(self)@.unsearched().0,
            demands(steps@) == old(self)@.unsearched().1,
    {
        if self.mail.query.as_str().is_empty() {
            return no_steps();
        }
        self.mail.query = String::new();
        one_step(ListStep::ClearSearchEntry)
    }

    fn on_set_loading(&mut self, title: String) -> (steps: Vec<ListStep>)
        ensures
            final(self)@ == old(self)@.set_loading(title@).0,
            demands(steps@) == old(self)@.set_loading(title@).1,
    {
        proof {
            reveal(ListState::set_loading);
        }
        self.looks.title = title;
        self.mail.all = Vec::new();
        proof {
            assert(mails(self.mail.all@) =~= seq![]);
        }
        let mut steps = self.clear_search();
        self.display.render_limit = RENDER_CAP;
        let more = self.rebuild();
        add_steps(&mut steps, more);
        steps
    }

    fn on_reset_paging(&mut self) -> (steps: Vec<ListStep>)
        ensures
            final(self)@ == old(self)@.reset_paging().0,
            demands(steps@) == old(self)@.reset_paging().1,
    {
        proof {
            reveal(ListState::reset_paging);
        }
        let mut steps = self.clear_search();
        self.display.render_limit = RENDER_CAP;
        add_step(&mut steps, ListStep::ScrollToTop);
        steps
    }

    fn on_load_more(&mut self) -> (steps: Vec<ListStep>)
        ensures
            final(self)@ == old(self)@.load_more().0,
            demands(steps@) == old(self)@.load_more().1,
    {
        proof {
            reveal(ListState::load_more);
        }
        if self.display.rendered_count < self.display.total_matches || !self.display.index_complete {
            self.display.render_limit = self.display.render_limit.saturating_add(RENDER_CAP);
            self.rebuild_preserving_scroll()
        } else {
            no_steps()
        }
    }

    fn on_set_threading(&mut self, on: bool) -> (steps: Vec<ListStep>)
        ensures
            final(self)@ == old(self)@.set_threading(on).0,
            demands(steps@) == old(self)@.set_threading(on).1,
    {
        proof {
            reveal(ListState::set_threading);
        }
        if self.mail.threading != on {
            self.mail.threading = on;
            self.rebuild()
        } else {
            no_steps()
        }
    }

    fn on_set_gravatar(&mut self, on: bool) -> (steps: Vec<ListStep>)
        ensures
            final(self)@ == old(self)@.set_gravatar(on).0,
            demands(steps@) == old(self)@.set_gravatar(on).1,
    {
        proof {
            reveal(ListState::set_gravatar);
        }
        if self.looks.gravatar != on {
            self.looks.gravatar = on;
            self.rebuild()
        } else {
            no_steps()
        }
    }

    fn on_set_colorize(&mut self, on: bool) -> (steps: Vec<ListStep>)
        ensures
            final(self)@ == old(self)@.set_colorize(on).0,
            demands(steps@) == old(self)@.set_colorize(on).1,
    {
        proof {
            reveal(ListState::set_colorize);
        }
        if self.looks.colorize != on {
            self.looks.colorize = on;
            self.rebuild()
        } else {
            no_steps()
        }
    }

    fn on_set_threads_expanded(&mut self, on: bool) -> (steps: Vec<ListStep>)
        ensures
            final(self)@ == old(self)@.set_threads_expanded(on).0,
            demands(steps@) == old(self)@.set_threads_expanded(on).1,
    {
        proof {
            reveal(ListState::set_threads_expanded);
        }
        if self.folds.default_expanded != on {
            self.folds.default_expanded = on;
            self.folds.expanded_threads = Vec::new();
            proof {
                assert(key_set(self.folds.expanded_threads@) =~= Set::empty());
            }
            self.rebuild()
        } else {
            no_steps()
        }
    }

    fn on_day_changed(&mut self) -> (steps: Vec<ListStep>)
        ensures
            final(self)@ == old(self)@.day_changed().0,
            demands(steps@) == old(self)@.day_changed().1,
    {
        proof {
            reveal(ListState::day_changed);
        }
        let mut steps = self.rebuild();
        add_step(&mut steps, ListStep::ScheduleMidnight);
        steps
    }

    fn on_set_account_colors(&mut self, colors: Vec<(u32, String)>) -> (steps: Vec<ListStep>)
        ensures
            final(self)@ == old(self)@.set_account_colors(colors_of(colors@)).0,
            demands(steps@) == old(self)@.set_account_colors(colors_of(colors@)).1,
    {
        proof {
            reveal(ListState::set_account_colors);
        }
        self.looks.account_colors = colors;
        let css = tint_css(&self.looks.account_colors);
        one_step(ListStep::Tint(css))
    }

    fn on_search(&mut self, q: String) -> (steps: Vec<ListStep>)
        ensures
            final(self)@ == old(self)@.search(q@).0,
            demands(steps@) == old(self)@.search(q@).1,
    {
        proof {
            reveal(ListState::search);
        }
        let was_active = self.searching();
        self.mail.query = q;
        let now_active = self.searching();
        let mut steps: Vec<ListStep> = if was_active != now_active {
            one_step(ListStep::Output(MessageListOutput::SearchActive(now_active)))
        } else {
            no_steps()
        };
        self.display.render_limit = RENDER_CAP;
        let more = self.rebuild();
        add_steps(&mut steps, more);
        steps
    }

    fn on_set_scope(&mut self, scope: SearchScope) -> (steps: Vec<ListStep>)
        ensures
            final(self)@ == old(self)@.set_scope(scope).0,
            demands(steps@) == old(self)@.set_scope(scope).1,
    {
        proof {
            reveal(ListState::set_scope);
        }
        if self.mail.scope != scope {
            self.mail.scope = scope;
            if self.searching() {
                self.display.render_limit = RENDER_CAP;
                self.rebuild()
            } else {
                no_steps()
            }
        } else {
            no_steps()
        }
    }

    fn on_set_search_pool(&mut self, pool: Vec<Message>) -> (steps: Vec<ListStep>)
        ensures
            final(self)@ == old(self)@.set_search_pool(mails(pool@)).0,
            demands(steps@) == old(self)@.set_search_pool(mails(pool@)).1,
    {
        proof {
            reveal(ListState::set_search_pool);
        }
        self.mail.search_pool = pool;
        if self.searching() && self.mail.scope == SearchScope::AllFolders {
            self.display.render_limit = RENDER_CAP;
            self.rebuild_preserving_scroll()
        } else {
            no_steps()
        }
    }

    /// The conversation to show for a selected message: when it is the newest of several,
    /// every message of it, newest first, and otherwise just the message, so that opening
    /// an individual reply shows only that one.
    pub fn conversation_for(&self, m: &Message) -> (r: Vec<Message>)
        ensures
            mails(r@) == self@.conversation_for(m@),
    {
        if !self.mail.threading {
            return only(m);
        }
        let source = self.active_source();
        let table = compute_thread_keys(source);
        let ghost map = threads(mails(source@));
        proof {
            assert(map.contains_key(m@.key()) == table@.contains_key(packed(m@.key())));
        }
        let key = match table.get(&message_key(m.account_id, m.id)) {
            Some(k) => k,
            None => {
                return only(m);
            },
        };
        let members = thread_messages(source, &table, key, Ghost(map));
        if members.len() <= 1 {
            return only(m);
        }
        let newest_first = sort_messages(&members, SortOrder::DateNewest);
        proof {
            assert(mails(members@).len() == members@.len());
            assert(mails(newest_first@).len() == newest_first@.len());
            assert(mails(newest_first@).len() == mails(members@).len());
            assert(mails(newest_first@)[0] == newest_first@[0]@);
        }
        if newest_first[0].account_id == m.account_id && newest_first[0].id == m.id {
            newest_first
        } else {
            only(m)
        }
    }

    fn on_selection_changed(&mut self, rows: &Vec<usize>) -> (steps: Vec<ListStep>)
        ensures
            final(self)@ == old(self)@.selection_changed(rows@).0,
            demands(steps@) == old(self)@.selection_changed(rows@).1,
    {
        proof {
            reveal(ListState::selection_changed);
        }
        let ghost was = self@;
        let chosen = pick_messages(&self.display.shown, rows);
        let keys = keys_of(&chosen);
        proof {
            assert(keys@.len() == picked(was.display.shown, rows@).len());
        }
        self.choice.selection_count = keys.len();
        let mut steps = no_steps();
        if keys.len() == 0 {
            self.choice.selected_id = None;
        } else if keys.len() == 1 {
            let key = keys[0];
            let already: bool = match self.choice.selected_id {
                Some(k) => k.0 == key.0 && k.1 == key.1,
                None => false,
            };
            if !already {
                let k = find_key(&self.display.shown, key);
                proof {
                    lemma_picked_shown(was.display.shown, rows@, 0);
                    lemma_first_key(was.display.shown, key, 0);
                }
                let message = self.display.shown[k].copy();
                let thread = self.conversation_for(&message);
                self.choice.selected_id = Some(key);
                steps = one_step(
                    ListStep::Output(MessageListOutput::Selected { message, thread }),
                );
            }
        }
        self.choice.selected_ids = keys;
        steps
    }

    fn deselect(&mut self)
        ensures
            final(self)@ == old(self)@.deselected(),
    {
        self.choice.selected_id = None;
        self.choice.selected_ids = Vec::new();
        self.choice.selection_count = 0;
    }

    fn on_bulk(&mut self, action: BulkAction, rows: &Vec<usize>) -> (steps: Vec<ListStep>)
        ensures
            final(self)@ == old(self)@.bulk(action, rows@).0,
            demands(steps@) == old(self)@.bulk(action, rows@).1,
    {
        proof {
            reveal(ListState::bulk);
        }
        let messages = pick_messages(&self.display.shown, rows);
        let mut steps = no_steps();
        proof {
            assert(mails(messages@).len() == messages@.len());
        }
        if messages.len() > 0 {
            steps = one_step(ListStep::Output(MessageListOutput::Bulk { action, messages }));
        }
        add_step(&mut steps, ListStep::UnselectAll);
        self.deselect();
        steps
    }

    fn on_set_sort(&mut self, order: SortOrder) -> (steps: Vec<ListStep>)
        ensures
            final(self)@ == old(self)@.set_sort(order).0,
            demands(steps@) == old(self)@.set_sort(order).1,
    {
        proof {
            reveal(ListState::set_sort);
        }
        if self.mail.sort != order {
            self.mail.sort = order;
            self.rebuild()
        } else {
            no_steps()
        }
    }

    fn on_toggle_thread(&mut self, key: ThreadKey) -> (steps: Vec<ListStep>)
        ensures
            final(self)@ == old(self)@.toggle_thread(key@).0,
            demands(steps@) == old(self)@.toggle_thread(key@).1,
    {
        proof {
            reveal(ListState::toggle_thread);
        }
        toggle_key(&mut self.folds.expanded_threads, key);
        self.rebuild_preserving_scroll()
    }

    fn on_row_activated(&self, index: i32) -> (steps: Vec<ListStep>)
        ensures
            self@ == self@.row_activated(index).0,
            demands(steps@) == self@.row_activated(index).1,
    {
        proof {
            reveal(ListState::row_activated);
        }
        if index >= 0 && (index as usize) < self.display.shown.len() {
            one_step(
                ListStep::Output(
                    MessageListOutput::Activated(self.display.shown[index as usize].copy()),
                ),
            )
        } else {
            no_steps()
        }
    }

    /// A message's read state changed: finds out whether anything in its conversation is
    /// unread, among the messages that the rows are made of, and tells the head's row, so that a collapsed thread's mark clears exactly
    /// when its last unread message is read.
    fn refresh_thread_unread(&self, id: u32) -> (steps: Vec<ListStep>)
        ensures
            demands(steps@) == self@.thread_unread_demand(id),
    {
        let source = self.active_source();
        let i = find_id(source, id);
        if i >= source.len() {
            return no_steps();
        }
        let k = find_member_list(&self.display.thread_members, source[i].key());
        if k >= self.display.thread_members.len() {
            return no_steps();
        }
        let members = &self.display.thread_members[k];
        let unread = has_unread_member(source, members);
        let head = find_member(&self.display.shown, members);
        proof {
            assert(member_lists(self.display.thread_members@)[k as int] == members@);
        }
        if head < self.display.shown.len() {
            one_step(ListStep::Row(head, MessageRowInput::SetThreadUnread(unread)))
        } else {
            no_steps()
        }
    }

    fn on_set_read(&mut self, id: u32, read: bool) -> (steps: Vec<ListStep>)
        ensures
            final(self)@ == old(self)@.set_read(id, read).0,
            demands(steps@) == old(self)@.set_read(id, read).1,
    {
        proof {
            reveal(ListState::set_read);
        }
        let ghost was = self@;
        let _ = mark_unread(&mut self.mail.all, id, !read);
        let _ = mark_unread(&mut self.mail.search_pool, id, !read);
        let k = mark_unread(&mut self.display.shown, id, !read);
        proof {
            let marked = was.with_mail(id, unread_as(!read)).with_pooled(id, unread_as(!read));
            assert(self@ == marked);
        }
        let mut steps = no_steps();
        if k < self.display.shown.len() {
            steps = one_step(ListStep::Row(k, MessageRowInput::SetRead(read)));
        }
        let more = self.refresh_thread_unread(id);
        add_steps(&mut steps, more);
        steps
    }

    fn on_set_starred(&mut self, id: u32, starred: bool) -> (steps: Vec<ListStep>)
        ensures
            final(self)@ == old(self)@.set_starred(id, starred).0,
            demands(steps@) == old(self)@.set_starred(id, starred).1,
    {
        proof {
            reveal(ListState::set_starred);
        }
        let ghost was = self@;
        let _ = mark_starred(&mut self.mail.all, id, starred);
        let k = mark_starred(&mut self.display.shown, id, starred);
        proof {
            assert(self@ == was.with_mail(id, starred_as(starred)));
        }
        let mut steps = no_steps();
        if k < self.display.shown.len() {
            steps = one_step(ListStep::Row(k, MessageRowInput::SetStarred(starred)));
        }
        steps
    }

    fn on_set_has_attachment(&mut self, id: u32, has: bool) -> (steps: Vec<ListStep>)
        ensures
            final(self)@ == old(self)@.set_has_attachment(id, has).0,
            demands(steps@) == old(self)@.set_has_attachment(id, has).1,
    {
        proof {
            reveal(ListState::set_has_attachment);
        }
        let ghost was = self@;
        let _ = mark_attachment(&mut self.mail.all, id, has);
        let k = mark_attachment(&mut self.display.shown, id, has);
        proof {
            assert(self@ == was.with_mail(id, attached_as(has)));
        }
        let mut steps = no_steps();
        if k < self.display.shown.len() {
            steps = one_step(ListStep::Row(k, MessageRowInput::SetHasAttachment(has)));
        }
        steps
    }

    /// Selects what slid into the place of the removed row, or clears the reader.
    fn advance(&self, had_row: bool, row: usize, before: Ghost<Seq<Mail>>) -> (steps: Vec<ListStep>)
        requires
            had_row == (row < before@.len()),
        ensures
            demands(steps@) == ListState::advance(before@, self@.display.shown, row as int),
    {
        if had_row && self.display.shown.len() > 0 {
            let next: usize = if row < self.display.shown.len() {
                row
            } else {
                self.display.shown.len() - 1
            };
            one_step(ListStep::SelectRow(next))
        } else {
            one_step(ListStep::Output(MessageListOutput::SelectionCleared))
        }
    }

    fn on_remove(&mut self, id: u32) -> (steps: Vec<ListStep>)
        ensures
            final(self)@ == old(self)@.remove(id).0,
            demands(steps@) == old(self)@.remove(id).1,
    {
        proof {
            reveal(ListState::remove);
        }
        let ghost was = self@;
        let ghost gone = set![id];
        let viewed: bool = match self.choice.selected_id {
            Some(k) => k.1 == id,
            None => false,
        };
        if viewed {
            self.choice.selected_id = None;
        }
        let mut ids: HashSet<u32> = HashSet::new();
        ids.insert(id);
        proof {
            assert(ids@ =~= gone);
        }
        self.choice.selected_ids = keep_keys(&self.choice.selected_ids, &ids);
        let mut all: Vec<Message> = Vec::new();
        std::mem::swap(&mut all, &mut self.mail.all);
        self.mail.all = keep_messages(all, &ids);
        let k = find_id(&self.display.shown, id);
        let had_row = k < self.display.shown.len();
        let mut steps = no_steps();
        if had_row {
            let ghost before = self.display.shown@;
            let _ = self.display.shown.remove(k);
            proof {
                assert(mails(self.display.shown@) =~= mails(before).remove(k as int));
            }
            steps = one_step(ListStep::RemoveRow(k));
        }
        if viewed {
            let more = self.advance(had_row, k, Ghost(was.display.shown));
            add_steps(&mut steps, more);
        } else {
            proof {
                assert(demands(steps@) + seq![] =~= demands(steps@));
            }
        }
        proof {
            assert(self@ == was.remove(id).0);
        }
        steps
    }

    fn on_remove_many(&mut self, list: &Vec<u32>) -> (steps: Vec<ListStep>)
        ensures
            final(self)@ == old(self)@.remove_many(list@).0,
            demands(steps@) == old(self)@.remove_many(list@).1,
    {
        proof {
            reveal(ListState::remove_many);
        }
        let ghost was = self@;
        if list.len() == 0 {
            return no_steps();
        }
        let ghost gone = list@.to_set();
        let ids = id_set(list);
        let viewed: bool = match self.choice.selected_id {
            Some(k) => ids.contains(&k.1),
            None => false,
        };
        if viewed {
            self.choice.selected_id = None;
        }
        self.choice.selected_ids = keep_keys(&self.choice.selected_ids, &ids);
        let mut all: Vec<Message> = Vec::new();
        std::mem::swap(&mut all, &mut self.mail.all);
        self.mail.all = keep_messages(all, &ids);
        let first = find_gone(&self.display.shown, &ids);
        let had_row = first < self.display.shown.len();
        let mut steps = removal_steps(&self.display.shown, &ids);
        let mut shown: Vec<Message> = Vec::new();
        std::mem::swap(&mut shown, &mut self.display.shown);
        self.display.shown = keep_messages(shown, &ids);
        self.choice.selection_count = self.choice.selected_ids.len();
        if viewed {
            let more = self.advance(had_row, first, Ghost(was.display.shown));
            add_steps(&mut steps, more);
        } else {
            proof {
                assert(demands(steps@) + seq![] =~= demands(steps@));
            }
        }
        proof {
            assert(self@ == was.remove_many(list@).0);
        }
        steps
    }

    fn on_set_selected(&mut self, id: Option<u32>) -> (steps: Vec<ListStep>)
        ensures
            final(self)@ == old(self)@.set_selected(id).0,
            demands(steps@) == old(self)@.set_selected(id).1,
    {
        proof {
            reveal(ListState::set_selected);
        }
        match id {
            Some(i) => {
                let k = find_id(&self.display.shown, i);
                if k < self.display.shown.len() {
                    let key = self.display.shown[k].key();
                    self.choice.selected_id = Some(key);
                    self.choice.selected_ids = vec![key];
                    proof {
                        assert(self.choice.selected_ids@ =~= seq![key]);
                    }
                    self.select_current()
                } else {
                    no_steps()
                }
            },
            None => {
                self.deselect();
                one_step(ListStep::UnselectAll)
            },
        }
    }

    fn on_select_and_load(&mut self, key: (u32, u32)) -> (steps: Vec<ListStep>)
        ensures
            final(self)@ == old(self)@.select_and_load(key).0,
            demands(steps@) == old(self)@.select_and_load(key).1,
    {
        proof {
            reveal(ListState::select_and_load);
        }
        let ghost was = self@;
        let k = find_key(&self.display.shown, key);
        if k < self.display.shown.len() {
            let message = self.display.shown[k].copy();
            let thread = self.conversation_for(&message);
            self.choice.selected_id = Some(key);
            self.choice.selected_ids = vec![key];
            proof {
                assert(self.choice.selected_ids@ =~= seq![key]);
            }
            let mut steps = self.select_current();
            add_step(
                &mut steps,
                ListStep::Output(MessageListOutput::Selected { message, thread }),
            );
            steps
        } else {
            no_steps()
        }
    }

    fn on_context_menu(&self, row: usize, selected: &Vec<usize>) -> (steps: Vec<ListStep>)
        ensures
            self@ == self@.context_menu(row, selected@).0,
            demands(steps@) == self@.context_menu(row, selected@).1,
    {
        proof {
            reveal(ListState::context_menu);
        }
        if selected.len() > 1 && holds_row(selected, row) {
            one_step(ListStep::BulkMenu(self.choice.selection_count))
        } else if row < self.display.shown.len() {
            one_step(ListStep::RowMenu(row))
        } else {
            no_steps()
        }
    }

    /// Takes an input: the list as it becomes, and what it asks of the application.
    #[verifier::spinoff_prover]
    #[verifier::rlimit(80)]
    pub fn update(&mut self, msg: MessageListInput) -> (steps: Vec<ListStep>)
        ensures
            final(self)@ == list_step(old(self)@, msg).0,
            demands(steps@) == list_step(old(self)@, msg).1,
    {
        match msg {
            MessageListInput::SetMessages { title, messages } => self.on_set_messages(
                title,
                messages,
            ),
            MessageListInput::AppendMessages { messages } => self.on_append_messages(messages),
            MessageListInput::SetLoading { title } => self.on_set_loading(title),
            MessageListInput::SetThreading(on) => self.on_set_threading(on),
            MessageListInput::SetThreadsExpanded(on) => self.on_set_threads_expanded(on),
            MessageListInput::SetGravatar(on) => self.on_set_gravatar(on),
            MessageListInput::ContactPhotosChanged => self.rebuild_preserving_scroll(),
            MessageListInput::SetColorize(on) => self.on_set_colorize(on),
            MessageListInput::DayChanged => self.on_day_changed(),
            MessageListInput::SetAccountColors(colors) => self.on_set_account_colors(colors),
            MessageListInput::Search(q) => self.on_search(q),
            MessageListInput::SetScope(scope) => self.on_set_scope(scope),
            MessageListInput::SetSearchPool(pool) => self.on_set_search_pool(pool),
            MessageListInput::SelectionChanged(rows) => self.on_selection_changed(&rows),
            MessageListInput::RowActivated(index) => self.on_row_activated(index),
            MessageListInput::Bulk { action, rows } => self.on_bulk(action, &rows),
            MessageListInput::ClearSelection => {
                self.deselect();
                one_step(ListStep::UnselectAll)
            },
            MessageListInput::ToggleThread(key) => self.on_toggle_thread(key),
            MessageListInput::SetSort(order) => self.on_set_sort(order),
            MessageListInput::MarkRead(id) => self.on_set_read(id, true),
            MessageListInput::SetRead { id, read } => self.on_set_read(id, read),
            MessageListInput::RowAction { action, message } => one_step(
                ListStep::Output(MessageListOutput::Action { action, message }),
            ),
            MessageListInput::SetStarred { id, starred } => self.on_set_starred(id, starred),
            MessageListInput::SetHasAttachment { id, has } => self.on_set_has_attachment(id, has),
            MessageListInput::Remove(id) => self.on_remove(id),
            MessageListInput::RemoveMany(ids) => self.on_remove_many(&ids),
            MessageListInput::SetBusy(text) => self.set_busy(text),
            MessageListInput::ContextMenu { row, selected } => self.on_context_menu(row, &selected),
            MessageListInput::SetPaletteCollapse(secs) => self.set_palette_collapse(secs),
            MessageListInput::ResetPaging => self.on_reset_paging(),
            MessageListInput::LoadMore => self.on_load_more(),
            MessageListInput::SetIndexComplete(complete) => self.set_index_complete(complete),
            MessageListInput::SetSelected(id) => self.on_set_selected(id),
            MessageListInput::SelectAndLoad(key) => self.on_select_and_load(key),
        }
    }

    fn set_busy(&mut self, text: Option<String>) -> (steps: Vec<ListStep>)
        ensures
            final(self)@ == (ListState {
                looks: Faced { busy: opt_text(text), ..old(self)@.looks },
                ..old(self)@
            }),
            demands(steps@) == Seq::<Demand>::empty(),
    {
        self.looks.busy = text;
        no_steps()
    }

    fn set_palette_collapse(&mut self, secs: u64) -> (steps: Vec<ListStep>)
        ensures
            final(self)@ == (ListState {
                looks: Faced { palette_collapse_secs: secs, ..old(self)@.looks },
                ..old(self)@
            }),
            demands(steps@) == Seq::<Demand>::empty(),
    {
        self.looks.palette_collapse_secs = secs;
        no_steps()
    }

    fn set_index_complete(&mut self, complete: bool) -> (steps: Vec<ListStep>)
        ensures
            final(self)@ == (ListState {
                display: Rendered { index_complete: complete, ..old(self)@.display },
                ..old(self)@
            }),
            demands(steps@) == Seq::<Demand>::empty(),
    {
        self.display.index_complete = complete;
        no_steps()
    }
}

// ----- What the list says -----

/// The count in the toolbar: how many messages match, and, where not all are rendered, how
/// many of them are.
pub open spec fn count_text(s: ListState) -> Seq<char> {
    if s.display.total_matches > s.display.rendered_count {
        decimal(s.display.rendered_count as nat) + " of "@ + decimal(s.display.total_matches as nat)
    } else {
        decimal(s.display.total_matches as nat)
    }
}

/// One line of a menu.
pub enum MenuEntry<A> {
    Item { label: &'static str, action: A },
    Separator,
}

/// One line of a menu, with its label as a sequence of characters.
pub enum MenuLine<A> {
    Item(Seq<char>, A),
    Separator,
}

pub open spec fn menu_lines<A>(v: Seq<MenuEntry<A>>) -> Seq<MenuLine<A>> {
    v.map_values(
        |e: MenuEntry<A>|
            match e {
                MenuEntry::Item { label, action } => MenuLine::Item(label@, action),
                MenuEntry::Separator => MenuLine::Separator,
            },
    )
}

/// The menu of a message: what can be done with it.
pub open spec fn message_menu(m: Mail) -> Seq<MenuLine<RowAction>> {
    seq![
        MenuLine::Item("Reply"@, RowAction::Reply),
        MenuLine::Item("Reply All"@, RowAction::ReplyAll),
        MenuLine::Item("Forward"@, RowAction::Forward),
        MenuLine::Separator,
        MenuLine::Item(
            if m.starred {
                "Remove Star"@
            } else {
                "Star"@
            },
            RowAction::ToggleStar,
        ),
        MenuLine::Item(
            if m.unread {
                "Mark as Read"@
            } else {
                "Mark as Unread"@
            },
            RowAction::ToggleRead,
        ),
        MenuLine::Separator,
        MenuLine::Item("Mark as Spam"@, RowAction::Spam),
        MenuLine::Item("Archive"@, RowAction::Archive),
        MenuLine::Item("Delete"@, RowAction::Delete),
        MenuLine::Separator,
        MenuLine::Item("View Source"@, RowAction::ViewSource),
    ]
}

/// The menu of several messages.
pub open spec fn selection_menu() -> Seq<MenuLine<BulkAction>> {
    seq![
        MenuLine::Item("Mark as Read"@, BulkAction::MarkRead),
        MenuLine::Item("Mark as Unread"@, BulkAction::MarkUnread),
        MenuLine::Item("Flag"@, BulkAction::Flag),
        MenuLine::Separator,
        MenuLine::Item("Mark as Spam"@, BulkAction::Spam),
        MenuLine::Item("Archive"@, BulkAction::Archive),
        MenuLine::Item("Delete"@, BulkAction::Delete),
    ]
}

/// The right-click menu of a message.
pub fn context_menu(m: &Message) -> (r: Vec<MenuEntry<RowAction>>)
    ensures
        menu_lines(r@) == message_menu(m@),
{
    let star: &'static str = if m.starred {
        "Remove Star"
    } else {
        "Star"
    };
    let read: &'static str = if m.unread {
        "Mark as Read"
    } else {
        "Mark as Unread"
    };
    let r: Vec<MenuEntry<RowAction>> = vec![
        MenuEntry::Item { label: "Reply", action: RowAction::Reply },
        MenuEntry::Item { label: "Reply All", action: RowAction::ReplyAll },
        MenuEntry::Item { label: "Forward", action: RowAction::Forward },
        MenuEntry::Separator,
        MenuEntry::Item { label: star, action: RowAction::ToggleStar },
        MenuEntry::Item { label: read, action: RowAction::ToggleRead },
        MenuEntry::Separator,
        MenuEntry::Item { label: "Mark as Spam", action: RowAction::Spam },
        MenuEntry::Item { label: "Archive", action: RowAction::Archive },
        MenuEntry::Item { label: "Delete", action: RowAction::Delete },
        MenuEntry::Separator,
        MenuEntry::Item { label: "View Source", action: RowAction::ViewSource },
    ];
    proof {
        assert(menu_lines(r@) =~= message_menu(m@));
    }
    r
}

/// The menu of the selected messages.
pub fn bulk_menu() -> (r: Vec<MenuEntry<BulkAction>>)
    ensures
        menu_lines(r@) == selection_menu(),
{
    let r: Vec<MenuEntry<BulkAction>> = vec![
        MenuEntry::Item { label: "Mark as Read", action: BulkAction::MarkRead },
        MenuEntry::Item { label: "Mark as Unread", action: BulkAction::MarkUnread },
        MenuEntry::Item { label: "Flag", action: BulkAction::Flag },
        MenuEntry::Separator,
        MenuEntry::Item { label: "Mark as Spam", action: BulkAction::Spam },
        MenuEntry::Item { label: "Archive", action: BulkAction::Archive },
        MenuEntry::Item { label: "Delete", action: BulkAction::Delete },
    ];
    proof {
        assert(menu_lines(r@) =~= selection_menu());
    }
    r
}

/// The heading of the menu of the selected messages.
pub fn bulk_header(count: usize) -> (out: String)
    ensures
        out@ == decimal(count as nat) + " selected"@,
{
    let mut out = decimal_string(count as u64);
    out.append(" selected");
    out
}

/// The entries of the sort menu, in order: what each one says, and its order.
pub open spec fn sort_lines() -> Seq<MenuLine<SortOrder>> {
    seq![
        MenuLine::Item("Date (Newest first)"@, SortOrder::DateNewest),
        MenuLine::Item("Date (Oldest first)"@, SortOrder::DateOldest),
        MenuLine::Item("Sender (A–Z)"@, SortOrder::Sender),
        MenuLine::Item("Subject (A–Z)"@, SortOrder::Subject),
        MenuLine::Item("Unread first"@, SortOrder::UnreadFirst),
        MenuLine::Item("Flagged first"@, SortOrder::FlaggedFirst),
    ]
}

/// The sort menu.
pub fn sort_menu() -> (r: Vec<MenuEntry<SortOrder>>)
    ensures
        menu_lines(r@) == sort_lines(),
{
    let r: Vec<MenuEntry<SortOrder>> = vec![
        MenuEntry::Item { label: "Date (Newest first)", action: SortOrder::DateNewest },
        MenuEntry::Item { label: "Date (Oldest first)", action: SortOrder::DateOldest },
        MenuEntry::Item { label: "Sender (A–Z)", action: SortOrder::Sender },
        MenuEntry::Item { label: "Subject (A–Z)", action: SortOrder::Subject },
        MenuEntry::Item { label: "Unread first", action: SortOrder::UnreadFirst },
        MenuEntry::Item { label: "Flagged first", action: SortOrder::FlaggedFirst },
    ];
    proof {
        assert(menu_lines(r@) =~= sort_lines());
    }
    r
}

impl MessageList {
    /// The count in the toolbar, noting when more messages match than are shown.
    pub fn count_label(&self) -> (out: String)
        ensures
            out@ == count_text(self@),
    {
        if self.display.total_matches > self.display.rendered_count {
            let mut out = decimal_string(self.display.rendered_count as u64);
            out.append(" of ");
            out.append(decimal_string(self.display.total_matches as u64).as_str());
            out
        } else {
            decimal_string(self.display.total_matches as u64)
        }
    }

    /// Whether the spinner at the bottom shows: the reader has scrolled past what is
    /// loaded, and the folder's index is still streaming in.
    pub fn is_loading_more(&self) -> (r: bool)
        ensures
            r == (self.display.render_limit > self.display.total_matches && !self.display.index_complete),
    {
        self.display.render_limit > self.display.total_matches && !self.display.index_complete
    }

    /// What the empty search field says.
    pub fn search_placeholder(&self) -> (r: &'static str)
        ensures
            r@ == (match self.mail.scope {
                SearchScope::AllFolders => "Search all folders"@,
                SearchScope::ThisFolder => "Search this folder"@,
            }),
    {
        match self.mail.scope {
            SearchScope::AllFolders => "Search all folders",
            SearchScope::ThisFolder => "Search this folder",
        }
    }
}

} // verus!
