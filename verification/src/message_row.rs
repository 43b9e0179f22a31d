//! One row of the message list.

use vstd::prelude::*;

use crate::models::{Mail, Message};
use crate::text::{chars_of, copy_of, lower_all, lower_chars, opt_text, same_chars};
use crate::threads::ThreadKey;

verus! {

/// An action chosen from a message's right-click context menu.
#[derive(Debug, Clone, Copy, PartialEq, Eq, Structural)]
pub enum RowAction {
    Reply,
    ReplyAll,
    Forward,
    ToggleStar,
    ToggleRead,
    Spam,
    Archive,
    Delete,
    ViewSource,
}

/// What a row starts with: the message, whether pictures of senders are looked up, and
/// the class that rings the avatar in the account's colour.
#[derive(Debug)]
pub struct RowInit {
    pub msg: Message,
    pub gravatar: bool,
    pub ring_class: Option<String>,
    /// Number of messages in this conversation (set on a thread's head, 1 for a
    /// message that stands alone).
    pub thread_count: usize,
    /// This row is a reply nested under a thread's head.
    pub is_thread_child: bool,
    /// Whether this thread's head is expanded.
    pub thread_expanded: bool,
    /// The conversation, set on a thread's head so that its chevron can toggle it.
    pub thread_key: Option<ThreadKey>,
    /// Whether any message of this conversation is unread (thread heads only).
    pub thread_unread: bool,
}

/// A row as it starts.
pub struct RowFace {
    pub mail: Mail,
    pub gravatar: bool,
    pub ring_class: Option<Seq<char>>,
    pub thread_count: usize,
    pub is_thread_child: bool,
    pub thread_expanded: bool,
    pub thread_key: Option<(u32, Seq<char>)>,
    pub thread_unread: bool,
}

pub open spec fn opt_key(k: Option<ThreadKey>) -> Option<(u32, Seq<char>)> {
    match k {
        Some(k) => Some(k@),
        None => None,
    }
}

impl View for RowInit {
    type V = RowFace;

    open spec fn view(&self) -> RowFace {
        RowFace {
            mail: self.msg@,
            gravatar: self.gravatar,
            ring_class: opt_text(self.ring_class),
            thread_count: self.thread_count,
            is_thread_child: self.is_thread_child,
            thread_expanded: self.thread_expanded,
            thread_key: opt_key(self.thread_key),
            thread_unread: self.thread_unread,
        }
    }
}

/// One message summary row.
pub struct MessageRow {
    pub msg: Message,
    pub gravatar: bool,
    pub ring_class: Option<String>,
    /// Whether the pointer is over this row.
    pub row_hovered: bool,
    /// Whether the palette of actions is slid open on this row.
    pub palette_open: bool,
    /// Whether a timer is running that will close the palette.
    pub collapse_pending: bool,
    pub thread_count: usize,
    pub is_thread_child: bool,
    pub thread_expanded: bool,
    pub thread_key: Option<ThreadKey>,
    pub thread_unread: bool,
}

/// A row as it stands.
pub struct RowState {
    pub face: RowFace,
    pub row_hovered: bool,
    pub palette_open: bool,
    pub collapse_pending: bool,
}

impl View for MessageRow {
    type V = RowState;

    open spec fn view(&self) -> RowState {
        RowState {
            face: RowFace {
                mail: self.msg@,
                gravatar: self.gravatar,
                ring_class: opt_text(self.ring_class),
                thread_count: self.thread_count,
                is_thread_child: self.is_thread_child,
                thread_expanded: self.thread_expanded,
                thread_key: opt_key(self.thread_key),
                thread_unread: self.thread_unread,
            },
            row_hovered: self.row_hovered,
            palette_open: self.palette_open,
            collapse_pending: self.collapse_pending,
        }
    }
}

#[derive(Debug, Clone, Copy, PartialEq, Eq, Structural)]
pub enum MessageRowInput {
    SetRead(bool),
    SetStarred(bool),
    SetHasAttachment(bool),
    /// The pointer entered or left the row.
    SetRowHover(bool),
    /// The chevron was clicked: slide the palette open or shut.
    TogglePalette,
    /// The cursor moved onto the palette: keep it open.
    PaletteEnter,
    /// The cursor left the palette: start the countdown.
    PaletteLeave,
    /// The countdown elapsed: slide the palette shut.
    CollapsePalette,
    Action(RowAction),
    /// The conversation's chevron was clicked.
    ToggleThreadClicked,
    /// Whether the thread holds anything unread changed.
    SetThreadUnread(bool),
}

#[derive(Debug)]
pub enum MessageRowOutput {
    Action { action: RowAction, message: Box<Message> },
    ToggleThread(ThreadKey),
}

/// What a row asks of the application.
#[derive(Debug)]
pub enum RowStep {
    Output(MessageRowOutput),
    /// Stop the running timer.
    StopTimer,
    /// Start a timer of that many seconds that sends
    /// [`CollapsePalette`](MessageRowInput::CollapsePalette).
    StartTimer(u32),
}

/// What a row asks of the application, with its texts as sequences of characters.
pub enum RowDemand {
    Action(RowAction, Mail),
    ToggleThread((u32, Seq<char>)),
    StopTimer,
    StartTimer(u32),
}

impl View for RowStep {
    type V = RowDemand;

    open spec fn view(&self) -> RowDemand {
        match self {
            RowStep::Output(MessageRowOutput::Action { action, message }) => RowDemand::Action(
                *action,
                message@,
            ),
            RowStep::Output(MessageRowOutput::ToggleThread(key)) => RowDemand::ToggleThread(key@),
            RowStep::StopTimer => RowDemand::StopTimer,
            RowStep::StartTimer(secs) => RowDemand::StartTimer(*secs),
        }
    }
}

pub open spec fn demands(v: Seq<RowStep>) -> Seq<RowDemand> {
    v.map_values(|s: RowStep| s@)
}

/// How long an open palette lingers: at least a second, and no longer than a timer runs.
pub open spec fn linger(secs: u64) -> u32 {
    if secs < 1 {
        1
    } else if secs > u32::MAX {
        u32::MAX
    } else {
        secs as u32
    }
}

/// The demand to stop the timer, if one is running.
pub open spec fn stop(s: RowState) -> Seq<RowDemand> {
    if s.collapse_pending {
        seq![RowDemand::StopTimer]
    } else {
        seq![]
    }
}

/// What a row becomes and what it asks for. `secs` is how long an open palette lingers.
pub open spec fn row_step(s: RowState, msg: MessageRowInput, secs: u64) -> (
    RowState,
    Seq<RowDemand>,
) {
    let mail = s.face.mail;
    match msg {
        MessageRowInput::SetRead(read) => (
            RowState { face: RowFace { mail: Mail { unread: !read, ..mail }, ..s.face }, ..s },
            seq![],
        ),
        MessageRowInput::SetStarred(starred) => (
            RowState { face: RowFace { mail: Mail { starred, ..mail }, ..s.face }, ..s },
            seq![],
        ),
        MessageRowInput::SetHasAttachment(has) => (
            RowState {
                face: RowFace { mail: Mail { has_attachment: has, ..mail }, ..s.face },
                ..s
            },
            seq![],
        ),
        MessageRowInput::SetRowHover(over) => (RowState { row_hovered: over, ..s }, seq![]),
        MessageRowInput::TogglePalette => if s.palette_open {
            (RowState { palette_open: false, collapse_pending: false, ..s }, stop(s))
        } else {
            (
                RowState { palette_open: true, collapse_pending: true, ..s },
                stop(s) + seq![RowDemand::StartTimer(linger(secs))],
            )
        },
        MessageRowInput::PaletteEnter => (RowState { collapse_pending: false, ..s }, stop(s)),
        MessageRowInput::PaletteLeave => if s.palette_open {
            (
                RowState { collapse_pending: true, ..s },
                stop(s) + seq![RowDemand::StartTimer(linger(secs))],
            )
        } else {
            (s, seq![])
        },
        MessageRowInput::CollapsePalette => (
            RowState { palette_open: false, collapse_pending: false, ..s },
            seq![],
        ),
        MessageRowInput::Action(action) => (s, seq![RowDemand::Action(action, mail)]),
        MessageRowInput::ToggleThreadClicked => (
            s,
            match s.face.thread_key {
                Some(key) => seq![RowDemand::ToggleThread(key)],
                None => seq![],
            },
        ),
        MessageRowInput::SetThreadUnread(unread) => (
            RowState { face: RowFace { thread_unread: unread, ..s.face }, ..s },
            seq![],
        ),
    }
}

/// A palette that was opened and is left alone closes: the timer that opening it starts
/// finds it open and shuts it, and none is left running.
pub proof fn opened_palette_closes(s: RowState, secs: u64)
    requires
        !s.palette_open,
    ensures
        ({
            let opened = row_step(s, MessageRowInput::TogglePalette, secs);
            let closed = row_step(opened.0, MessageRowInput::CollapsePalette, secs);
            &&& opened.0.palette_open
            &&& opened.1.contains(RowDemand::StartTimer(linger(secs)))
            &&& !closed.0.palette_open
            &&& !closed.0.collapse_pending
        }),
{
    let opened = row_step(s, MessageRowInput::TogglePalette, secs);
    assert(opened.1.last() == RowDemand::StartTimer(linger(secs)));
}

/// A timer runs only for an open palette, whatever happens to the row.
pub proof fn timer_runs_only_for_open_palette(s: RowState, msg: MessageRowInput, secs: u64)
    requires
        s.collapse_pending ==> s.palette_open,
    ensures
        row_step(s, msg, secs).0.collapse_pending ==> row_step(s, msg, secs).0.palette_open,
{
}

/// The demand to show or forget a sender's picture once its lookup has answered.
#[derive(Debug, Clone, Copy, PartialEq, Eq, Structural)]
pub enum AvatarStep {
    /// The answer is about another sender.
    Ignore,
    Show,
    Forget,
    /// Forget it, and fetch again.
    ForgetAndFetch,
}

/// What the cache of pictures holds for a sender.
#[derive(Debug, Clone, Copy, PartialEq, Eq, Structural)]
pub enum AvatarLookup {
    Texture,
    Missing,
    Fetch,
}

/// What to do with an answer: nothing where it is about another sender.
pub open spec fn avatar_step(
    addr: Seq<char>,
    email: Seq<char>,
    lookup: AvatarLookup,
    retry_stale: bool,
) -> AvatarStep {
    if lower_all(addr) != lower_all(email) {
        AvatarStep::Ignore
    } else {
        match lookup {
            AvatarLookup::Texture => AvatarStep::Show,
            AvatarLookup::Missing => AvatarStep::Forget,
            AvatarLookup::Fetch => if retry_stale {
                AvatarStep::ForgetAndFetch
            } else {
                AvatarStep::Forget
            },
        }
    }
}

pub open spec fn strs(v: Seq<&'static str>) -> Seq<Seq<char>> {
    v.map_values(|s: &'static str| s@)
}

/// The class of an unread message's row.
pub open spec fn unread_class(unread: bool) -> Seq<Seq<char>> {
    if unread {
        seq!["message-unread"@]
    } else {
        seq![]
    }
}

/// Style classes for a row: unread messages are highlighted.
pub fn row_classes(m: &Message) -> (r: Vec<&'static str>)
    ensures
        strs(r@) == unread_class(m.unread),
{
    let mut v: Vec<&'static str> = Vec::new();
    if m.unread {
        v.push("message-unread");
    }
    proof {
        assert(strs(v@) =~= unread_class(m.unread));
    }
    v
}

fn no_steps() -> (steps: Vec<RowStep>)
    ensures
        demands(steps@) == Seq::<RowDemand>::empty(),
{
    let steps: Vec<RowStep> = Vec::new();
    proof {
        assert(demands(steps@) =~= seq![]);
    }
    steps
}

fn one_step(step: RowStep) -> (steps: Vec<RowStep>)
    ensures
        demands(steps@) == seq![step@],
{
    let mut steps: Vec<RowStep> = Vec::new();
    steps.push(step);
    proof {
        assert(demands(steps@) =~= seq![step@]);
    }
    steps
}

impl MessageRow {
    /// A new row: nothing is open and nothing is running.
    pub fn init_model(init: RowInit) -> (r: MessageRow)
        ensures
            r@ == (RowState {
                face: init@,
                row_hovered: false,
                palette_open: false,
                collapse_pending: false,
            }),
    {
        MessageRow {
            msg: init.msg,
            gravatar: init.gravatar,
            ring_class: init.ring_class,
            row_hovered: false,
            palette_open: false,
            collapse_pending: false,
            thread_count: init.thread_count,
            is_thread_child: init.is_thread_child,
            thread_expanded: init.thread_expanded,
            thread_key: init.thread_key,
            thread_unread: init.thread_unread,
        }
    }

    /// Whether a picture of the sender is to be looked up.
    pub fn wants_avatar(&self) -> (r: bool)
        ensures
            r == (self@.face.mail.from_addr.len() > 0),
    {
        !self.msg.from_addr.as_str().is_empty()
    }

    /// What to do with the answer to a lookup of a sender's picture.
    pub fn avatar_answer(&self, email: &str, lookup: AvatarLookup, retry_stale: bool) -> (r:
        AvatarStep)
        ensures
            r == avatar_step(self@.face.mail.from_addr, email@, lookup, retry_stale),
    {
        let a = chars_of(self.msg.from_addr.as_str());
        let b = chars_of(email);
        if !same_chars(&lower_chars(&a), &lower_chars(&b)) {
            return AvatarStep::Ignore;
        }
        match lookup {
            AvatarLookup::Texture => AvatarStep::Show,
            AvatarLookup::Missing => AvatarStep::Forget,
            AvatarLookup::Fetch => if retry_stale {
                AvatarStep::ForgetAndFetch
            } else {
                AvatarStep::Forget
            },
        }
    }

    /// Stops a running timer, such as when the cursor is over the palette, or when the
    /// row goes away.
    pub fn cancel_collapse(&mut self) -> (steps: Vec<RowStep>)
        ensures
            final(self)@ == (RowState { collapse_pending: false, ..old(self)@ }),
            demands(steps@) == stop(old(self)@),
    {
        let mut steps: Vec<RowStep> = Vec::new();
        if self.collapse_pending {
            self.collapse_pending = false;
            steps.push(RowStep::StopTimer);
        }
        proof {
            assert(demands(steps@) =~= stop(old(self)@));
        }
        steps
    }

    /// Starts the countdown anew.
    fn arm_collapse(&mut self, secs: u64) -> (steps: Vec<RowStep>)
        ensures
            final(self)@ == (RowState { collapse_pending: true, ..old(self)@ }),
            demands(steps@) == stop(old(self)@) + seq![RowDemand::StartTimer(linger(secs))],
    {
        let mut steps = self.cancel_collapse();
        let ghost stopped = demands(steps@);
        let wait: u32 = if secs < 1 {
            1
        } else if secs > u32::MAX as u64 {
            u32::MAX
        } else {
            secs as u32
        };
        self.collapse_pending = true;
        steps.push(RowStep::StartTimer(wait));
        proof {
            assert(demands(steps@) =~= stopped + seq![RowDemand::StartTimer(linger(secs))]);
        }
        steps
    }

    /// Takes an input. `secs` is how long an open palette lingers, by the preference at
    /// this moment.
    pub fn update(&mut self, msg: MessageRowInput, secs: u64) -> (steps: Vec<RowStep>)
        ensures
            final(self)@ == row_step(old(self)@, msg, secs).0,
            demands(steps@) == row_step(old(self)@, msg, secs).1,
    {
        match msg {
            MessageRowInput::SetRead(read) => self.set_read(read),
            MessageRowInput::SetStarred(starred) => self.set_starred(starred),
            MessageRowInput::SetHasAttachment(has) => self.set_has_attachment(has),
            MessageRowInput::SetRowHover(over) => self.set_row_hover(over),
            MessageRowInput::TogglePalette => self.toggle_palette(secs),
            MessageRowInput::PaletteEnter => self.cancel_collapse(),
            MessageRowInput::PaletteLeave => self.leave_palette(secs),
            MessageRowInput::CollapsePalette => self.collapse_palette(),
            MessageRowInput::Action(action) => self.act(action),
            MessageRowInput::ToggleThreadClicked => self.toggle_thread(),
            MessageRowInput::SetThreadUnread(unread) => self.set_thread_unread(unread),
        }
    }

    fn set_read(&mut self, read: bool) -> (steps: Vec<RowStep>)
        ensures
            final(self)@ == row_step(old(self)@, MessageRowInput::SetRead(read), 0).0,
            demands(steps@) == row_step(old(self)@, MessageRowInput::SetRead(read), 0).1,
    {
        self.msg.unread = !read;
        no_steps()
    }

    fn set_starred(&mut self, starred: bool) -> (steps: Vec<RowStep>)
        ensures
            final(self)@ == row_step(old(self)@, MessageRowInput::SetStarred(starred), 0).0,
            demands(steps@) == row_step(old(self)@, MessageRowInput::SetStarred(starred), 0).1,
    {
        self.msg.starred = starred;
        no_steps()
    }

    fn set_has_attachment(&mut self, has: bool) -> (steps: Vec<RowStep>)
        ensures
            final(self)@ == row_step(old(self)@, MessageRowInput::SetHasAttachment(has), 0).0,
            demands(steps@) == row_step(old(self)@, MessageRowInput::SetHasAttachment(has), 0).1,
    {
        self.msg.has_attachment = has;
        no_steps()
    }

    fn set_row_hover(&mut self, over: bool) -> (steps: Vec<RowStep>)
        ensures
            final(self)@ == row_step(old(self)@, MessageRowInput::SetRowHover(over), 0).0,
            demands(steps@) == row_step(old(self)@, MessageRowInput::SetRowHover(over), 0).1,
    {
        self.row_hovered = over;
        no_steps()
    }

    fn set_thread_unread(&mut self, unread: bool) -> (steps: Vec<RowStep>)
        ensures
            final(self)@ == row_step(old(self)@, MessageRowInput::SetThreadUnread(unread), 0).0,
            demands(steps@) == row_step(old(self)@, MessageRowInput::SetThreadUnread(unread), 0).1,
    {
        self.thread_unread = unread;
        no_steps()
    }

    fn toggle_palette(&mut self, secs: u64) -> (steps: Vec<RowStep>)
        ensures
            final(self)@ == row_step(old(self)@, MessageRowInput::TogglePalette, secs).0,
            demands(steps@) == row_step(old(self)@, MessageRowInput::TogglePalette, secs).1,
    {
        if self.palette_open {
            self.palette_open = false;
            self.cancel_collapse()
        } else {
            self.palette_open = true;
            self.arm_collapse(secs)
        }
    }

    fn leave_palette(&mut self, secs: u64) -> (steps: Vec<RowStep>)
        ensures
            final(self)@ == row_step(old(self)@, MessageRowInput::PaletteLeave, secs).0,
            demands(steps@) == row_step(old(self)@, MessageRowInput::PaletteLeave, secs).1,
    {
        if self.palette_open {
            self.arm_collapse(secs)
        } else {
            no_steps()
        }
    }

    fn collapse_palette(&mut self) -> (steps: Vec<RowStep>)
        ensures
            final(self)@ == row_step(old(self)@, MessageRowInput::CollapsePalette, 0).0,
            demands(steps@) == row_step(old(self)@, MessageRowInput::CollapsePalette, 0).1,
    {
        self.collapse_pending = false;
        self.palette_open = false;
        no_steps()
    }

    fn act(&self, action: RowAction) -> (steps: Vec<RowStep>)
        ensures
            demands(steps@) == seq![RowDemand::Action(action, self@.face.mail)],
    {
        let message = Box::new(self.msg.copy());
        one_step(RowStep::Output(MessageRowOutput::Action { action, message }))
    }

    fn toggle_thread(&self) -> (steps: Vec<RowStep>)
        ensures
            demands(steps@) == (match self@.face.thread_key {
                Some(key) => seq![RowDemand::ToggleThread(key)],
                None => seq![],
            }),
    {
        match &self.thread_key {
            Some(key) => one_step(RowStep::Output(MessageRowOutput::ToggleThread(key.copy()))),
            None => no_steps(),
        }
    }

    /// The chevron's classes: it is shown while the row is hovered or the palette open.
    pub fn chevron_classes(&self) -> (r: Vec<&'static str>)
        ensures
            strs(r@) == (if self.row_hovered || self.palette_open {
                seq!["flat"@, "palette-toggle"@, "revealed"@]
            } else {
                seq!["flat"@, "palette-toggle"@]
            }),
    {
        let mut v: Vec<&'static str> = Vec::new();
        v.push("flat");
        v.push("palette-toggle");
        if self.row_hovered || self.palette_open {
            v.push("revealed");
            proof {
                assert(strs(v@) =~= seq!["flat"@, "palette-toggle"@, "revealed"@]);
            }
        } else {
            proof {
                assert(strs(v@) =~= seq!["flat"@, "palette-toggle"@]);
            }
        }
        v
    }

    /// The classes of the avatar's ring.
    pub fn ring_classes(&self) -> (r: Vec<String>)
        ensures
            crate::text::texts(r@) == (match opt_text(self.ring_class) {
                Some(c) => seq![c],
                None => seq![],
            }),
    {
        let mut v: Vec<String> = Vec::new();
        if let Some(c) = &self.ring_class {
            v.push(copy_of(c.as_str()));
            proof {
                assert(crate::text::texts(v@) =~= seq![c@]);
            }
        } else {
            proof {
                assert(crate::text::texts(v@) =~= seq![]);
            }
        }
        v
    }

    /// The row's classes: unread, and the indent of a reply. A thread's head with
    /// anything unread in its conversation is marked more heavily until all is read.
    pub fn row_css(&self) -> (r: Vec<&'static str>)
        ensures
            strs(r@) == unread_class(self.msg.unread) + (if self.thread_unread {
                seq!["thread-unread"@]
            } else {
                seq![]
            }) + (if self.is_thread_child {
                seq!["thread-child"@]
            } else {
                seq![]
            }),
    {
        let mut v = row_classes(&self.msg);
        let ghost a = strs(v@);
        if self.thread_unread {
            v.push("thread-unread");
            proof {
                assert(strs(v@) =~= a + seq!["thread-unread"@]);
            }
        } else {
            proof {
                assert(a + seq![] =~= a);
            }
        }
        let ghost b = strs(v@);
        if self.is_thread_child {
            v.push("thread-child");
            proof {
                assert(strs(v@) =~= b + seq!["thread-child"@]);
            }
        } else {
            proof {
                assert(b + seq![] =~= b);
            }
        }
        v
    }

    /// Whether the row is shown as unread: the message itself is, or, on a thread's
    /// head, any message hidden in its conversation.
    pub fn display_unread(&self) -> (r: bool)
        ensures
            r == (self.msg.unread || self.thread_unread),
    {
        self.msg.unread || self.thread_unread
    }

    /// The classes of the sender's name.
    pub fn sender_classes(&self) -> (r: Vec<&'static str>)
        ensures
            strs(r@) == (if self.msg.unread || self.thread_unread {
                seq!["message-sender"@, "unread"@]
            } else {
                seq!["message-sender"@]
            }),
    {
        let mut v: Vec<&'static str> = Vec::new();
        v.push("message-sender");
        if self.display_unread() {
            v.push("unread");
            proof {
                assert(strs(v@) =~= seq!["message-sender"@, "unread"@]);
            }
        } else {
            proof {
                assert(strs(v@) =~= seq!["message-sender"@]);
            }
        }
        v
    }

    /// The classes of the subject.
    pub fn subject_classes(&self) -> (r: Vec<&'static str>)
        ensures
            strs(r@) == (if self.msg.unread || self.thread_unread {
                seq!["message-subject"@, "unread"@]
            } else {
                seq!["message-subject"@]
            }),
    {
        let mut v: Vec<&'static str> = Vec::new();
        v.push("message-subject");
        if self.display_unread() {
            v.push("unread");
            proof {
                assert(strs(v@) =~= seq!["message-subject"@, "unread"@]);
            }
        } else {
            proof {
                assert(strs(v@) =~= seq!["message-subject"@]);
            }
        }
        v
    }
}

} // verus!
