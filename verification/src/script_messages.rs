//! What the script of the reader's document reports, as `verb:account:id` and perhaps
//! `:` and more. The page only ever posts what the document put there, but it is
//! still parsed strictly.

use vstd::prelude::*;
use vstd::slice::slice_subrange;

use crate::message_row::RowAction;
use crate::message_view::{MessageViewInput, SelectMode};
use crate::text::{
    chars_of, lemma_skip, parse_number, read_number, same_chars, skip, skip_over, split, split_at,
    string_of, texts, trim, trimmed, Class,
};

verus! {

/// A report of the document's script.
pub enum ScriptMessage {
    /// Every frame has been sized: there is something to show.
    Ready,
    ClearCards,
    SelectAll,
    /// Text for the clipboard, from a body that the engine would not copy from itself.
    Copy(String),
    ComposeTo(String),
    AddContact(String),
    CopyAddress(String),
    /// The seal in a header was clicked: the numbers of its place, as written.
    SenderInfo { account_id: u32, id: u32, numbers: Vec<String> },
    Select { account_id: u32, id: u32, mode: SelectMode },
    Size { account_id: u32, id: u32, height: u32 },
    Open { account_id: u32, id: u32 },
    Seen { account_id: u32, id: u32 },
    Found { current: u32, total: u32 },
    Action { action: RowAction, account_id: u32, id: u32 },
    Contact { account_id: u32, id: u32 },
    SenderStyle { account_id: u32, id: u32 },
    ScrollAt { account_id: u32, id: u32, offset: u32 },
}

/// A report of the document's script, with its texts as sequences of characters.
pub enum ScriptReport {
    Ready,
    ClearCards,
    SelectAll,
    Copy(Seq<char>),
    ComposeTo(Seq<char>),
    AddContact(Seq<char>),
    CopyAddress(Seq<char>),
    SenderInfo { key: (u32, u32), numbers: Seq<Seq<char>> },
    Select { key: (u32, u32), mode: SelectMode },
    Size { key: (u32, u32), height: u32 },
    Open { key: (u32, u32) },
    Seen { key: (u32, u32) },
    Found { current: u32, total: u32 },
    Action { action: RowAction, key: (u32, u32) },
    Contact { key: (u32, u32) },
    SenderStyle { key: (u32, u32) },
    ScrollAt { key: (u32, u32), offset: u32 },
}

impl View for ScriptMessage {
    type V = ScriptReport;

    open spec fn view(&self) -> ScriptReport {
        match self {
            ScriptMessage::Ready => ScriptReport::Ready,
            ScriptMessage::ClearCards => ScriptReport::ClearCards,
            ScriptMessage::SelectAll => ScriptReport::SelectAll,
            ScriptMessage::Copy(t) => ScriptReport::Copy(t@),
            ScriptMessage::ComposeTo(t) => ScriptReport::ComposeTo(t@),
            ScriptMessage::AddContact(t) => ScriptReport::AddContact(t@),
            ScriptMessage::CopyAddress(t) => ScriptReport::CopyAddress(t@),
            ScriptMessage::SenderInfo { account_id, id, numbers } => ScriptReport::SenderInfo {
                key: (*account_id, *id),
                numbers: texts(numbers@),
            },
            ScriptMessage::Select { account_id, id, mode } => ScriptReport::Select {
                key: (*account_id, *id),
                mode: *mode,
            },
            ScriptMessage::Size { account_id, id, height } => ScriptReport::Size {
                key: (*account_id, *id),
                height: *height,
            },
            ScriptMessage::Open { account_id, id } => ScriptReport::Open {
                key: (*account_id, *id),
            },
            ScriptMessage::Seen { account_id, id } => ScriptReport::Seen {
                key: (*account_id, *id),
            },
            ScriptMessage::Found { current, total } => ScriptReport::Found {
                current: *current,
                total: *total,
            },
            ScriptMessage::Action { action, account_id, id } => ScriptReport::Action {
                action: *action,
                key: (*account_id, *id),
            },
            ScriptMessage::Contact { account_id, id } => ScriptReport::Contact {
                key: (*account_id, *id),
            },
            ScriptMessage::SenderStyle { account_id, id } => ScriptReport::SenderStyle {
                key: (*account_id, *id),
            },
            ScriptMessage::ScrollAt { account_id, id, offset } => ScriptReport::ScrollAt {
                key: (*account_id, *id),
                offset: *offset,
            },
        }
    }
}

/// A number of 32 bits in decimal.
pub open spec fn number_in(s: Seq<char>) -> Option<u32> {
    match parse_number(s, u32::MAX as nat) {
        Some(n) => Some(n as u32),
        None => None,
    }
}

fn read_u32(s: &[char]) -> (r: Option<u32>)
    ensures
        r == number_in(s@),
{
    match read_number(s, 4294967295) {
        Some(n) => Some(n as u32),
        None => None,
    }
}

/// The four fields of a report; the last may be missing, and may hold colons.
pub struct Fields {
    pub verb: Seq<char>,
    pub account: Seq<char>,
    pub id: Seq<char>,
    pub more: Option<Seq<char>>,
}

/// Where the first colon at or behind `i` stands.
pub open spec fn colon(s: Seq<char>, i: int) -> int {
    skip(s, i, s.len() as int, Class::Not(':'))
}

pub open spec fn fields(s: Seq<char>) -> Option<Fields> {
    let n = s.len() as int;
    let a = colon(s, 0);
    let b = colon(s, a + 1);
    let c = colon(s, b + 1);
    if a >= n || b >= n {
        None
    } else {
        Some(
            Fields {
                verb: s.subrange(0, a),
                account: s.subrange(a + 1, b),
                id: s.subrange(b + 1, c),
                more: if c < n {
                    Some(s.subrange(c + 1, n))
                } else {
                    None
                },
            },
        )
    }
}

/// The action that a verb stands for.
pub open spec fn action_of(verb: Seq<char>) -> Option<RowAction> {
    if verb == "reply"@ {
        Some(RowAction::Reply)
    } else if verb == "replyall"@ {
        Some(RowAction::ReplyAll)
    } else if verb == "forward"@ {
        Some(RowAction::Forward)
    } else if verb == "star"@ {
        Some(RowAction::ToggleStar)
    } else if verb == "spam"@ {
        Some(RowAction::Spam)
    } else if verb == "archive"@ {
        Some(RowAction::Archive)
    } else if verb == "delete"@ {
        Some(RowAction::Delete)
    } else if verb == "toggleread"@ {
        Some(RowAction::ToggleRead)
    } else if verb == "viewsource"@ {
        Some(RowAction::ViewSource)
    } else {
        None
    }
}

fn reads(s: &[char], word: &str) -> (r: bool)
    ensures
        r == (s@ == word@),
{
    same_chars(s, &chars_of(word))
}

fn read_action(verb: &[char]) -> (r: Option<RowAction>)
    ensures
        r == action_of(verb@),
{
    if reads(verb, "reply") {
        Some(RowAction::Reply)
    } else if reads(verb, "replyall") {
        Some(RowAction::ReplyAll)
    } else if reads(verb, "forward") {
        Some(RowAction::Forward)
    } else if reads(verb, "star") {
        Some(RowAction::ToggleStar)
    } else if reads(verb, "spam") {
        Some(RowAction::Spam)
    } else if reads(verb, "archive") {
        Some(RowAction::Archive)
    } else if reads(verb, "delete") {
        Some(RowAction::Delete)
    } else if reads(verb, "toggleread") {
        Some(RowAction::ToggleRead)
    } else if reads(verb, "viewsource") {
        Some(RowAction::ViewSource)
    } else {
        None
    }
}

/// The address behind a verb, where there is one.
pub open spec fn address_in(more: Option<Seq<char>>) -> Option<Seq<char>> {
    match more {
        Some(t) => if trim(t).len() > 0 {
            Some(trim(t))
        } else {
            None
        },
        None => None,
    }
}

/// What was found: which match is the current one, of how many.
pub open spec fn found_in(more: Option<Seq<char>>) -> (u32, u32) {
    match more {
        None => (0, 0),
        Some(t) => {
            let k = skip(t, 0, t.len() as int, Class::Not(','));
            if k >= t.len() {
                (0, 0)
            } else {
                match (number_in(t.subrange(0, k)), number_in(
                    t.subrange(k + 1, t.len() as int),
                )) {
                    (Some(a), Some(b)) => (a, b),
                    _ => (0, 0),
                }
            }
        },
    }
}

pub open spec fn mode_in(more: Option<Seq<char>>) -> SelectMode {
    if more == Some("t"@) {
        SelectMode::Toggle
    } else if more == Some("r"@) {
        SelectMode::Range
    } else {
        SelectMode::Plain
    }
}

pub open spec fn numbers_in(more: Option<Seq<char>>) -> Seq<Seq<char>> {
    match more {
        Some(t) => split(t, 0, ','),
        None => seq![],
    }
}

/// What a verb with its message and the rest reports.
#[verifier::opaque]
pub open spec fn report(verb: Seq<char>, key: (u32, u32), more: Option<Seq<char>>) -> Option<
    ScriptReport,
> {
    if verb == "ready"@ {
        Some(ScriptReport::Ready)
    } else if verb == "desel"@ {
        Some(ScriptReport::ClearCards)
    } else if verb == "selall"@ {
        Some(ScriptReport::SelectAll)
    } else if verb == "copy"@ {
        match more {
            Some(t) => if t.len() > 0 {
                Some(ScriptReport::Copy(t))
            } else {
                None
            },
            None => None,
        }
    } else if verb == "composeto"@ {
        match address_in(more) {
            Some(t) => Some(ScriptReport::ComposeTo(t)),
            None => None,
        }
    } else if verb == "addcontact"@ {
        match address_in(more) {
            Some(t) => Some(ScriptReport::AddContact(t)),
            None => None,
        }
    } else if verb == "copyaddr"@ {
        match address_in(more) {
            Some(t) => Some(ScriptReport::CopyAddress(t)),
            None => None,
        }
    } else if verb == "senderinfo"@ {
        Some(ScriptReport::SenderInfo { key, numbers: numbers_in(more) })
    } else if verb == "sel"@ {
        Some(ScriptReport::Select { key, mode: mode_in(more) })
    } else if verb == "size"@ {
        match more {
            Some(t) => match number_in(t) {
                Some(height) => Some(ScriptReport::Size { key, height }),
                None => None,
            },
            None => None,
        }
    } else if verb == "open"@ {
        Some(ScriptReport::Open { key })
    } else if verb == "seen"@ {
        Some(ScriptReport::Seen { key })
    } else if verb == "found"@ {
        Some(ScriptReport::Found { current: found_in(more).0, total: found_in(more).1 })
    } else if action_of(verb) is Some {
        Some(ScriptReport::Action { action: action_of(verb)->0, key })
    } else if verb == "contact"@ {
        Some(ScriptReport::Contact { key })
    } else if verb == "senderfmt"@ {
        Some(ScriptReport::SenderStyle { key })
    } else if verb == "scrollat"@ {
        match more {
            Some(t) => match number_in(t) {
                Some(offset) => Some(ScriptReport::ScrollAt { key, offset }),
                None => None,
            },
            None => None,
        }
    } else {
        None
    }
}

/// What the script reports, nothing where it does not read as a report.
pub open spec fn parsed_report(s: Seq<char>) -> Option<ScriptReport> {
    match fields(s) {
        None => None,
        Some(f) => match (number_in(f.account), number_in(f.id)) {
            (Some(a), Some(i)) => report(f.verb, (a, i), f.more),
            _ => None,
        },
    }
}

pub open spec fn opt_report(m: Option<ScriptMessage>) -> Option<ScriptReport> {
    match m {
        Some(m) => Some(m@),
        None => None,
    }
}

pub open spec fn opt_slice(s: Option<&[char]>) -> Option<Seq<char>> {
    match s {
        Some(s) => Some(s@),
        None => None,
    }
}

fn read_address(more: Option<&[char]>) -> (r: Option<String>)
    ensures
        (match r {
            Some(t) => Some(t@),
            None => None,
        }) == address_in(opt_slice(more)),
{
    match more {
        Some(t) => {
            let bare = trimmed(t);
            if bare.len() > 0 {
                Some(string_of(bare))
            } else {
                None
            }
        },
        None => None,
    }
}

fn read_found(more: Option<&[char]>) -> (r: (u32, u32))
    ensures
        r == found_in(opt_slice(more)),
{
    match more {
        None => (0, 0),
        Some(t) => {
            let k = skip_over(t, 0, t.len(), Class::Not(','));
            if k >= t.len() {
                (0, 0)
            } else {
                match (read_u32(slice_subrange(t, 0, k)), read_u32(
                    slice_subrange(t, k + 1, t.len()),
                )) {
                    (Some(a), Some(b)) => (a, b),
                    _ => (0, 0),
                }
            }
        },
    }
}

fn read_mode(more: Option<&[char]>) -> (r: SelectMode)
    ensures
        r == mode_in(opt_slice(more)),
{
    match more {
        None => SelectMode::Plain,
        Some(t) => if reads(t, "t") {
            SelectMode::Toggle
        } else if reads(t, "r") {
            SelectMode::Range
        } else {
            SelectMode::Plain
        },
    }
}

fn read_numbers(more: Option<&[char]>) -> (r: Vec<String>)
    ensures
        texts(r@) == numbers_in(opt_slice(more)),
{
    match more {
        Some(t) => split_at(t, ','),
        None => {
            let none: Vec<String> = Vec::new();
            assert(texts(none@) =~= seq![]);
            none
        },
    }
}

fn read_amount(more: Option<&[char]>) -> (r: Option<u32>)
    ensures
        r == (match opt_slice(more) {
            Some(t) => number_in(t),
            None => None,
        }),
{
    match more {
        Some(t) => read_u32(t),
        None => None,
    }
}

fn read_report(verb: &[char], account_id: u32, id: u32, more: Option<&[char]>) -> (r: Option<
    ScriptMessage,
>)
    ensures
        opt_report(r) == report(verb@, (account_id, id), opt_slice(more)),
{
    proof {
        reveal(report);
    }
    if reads(verb, "ready") {
        Some(ScriptMessage::Ready)
    } else if reads(verb, "desel") {
        Some(ScriptMessage::ClearCards)
    } else if reads(verb, "selall") {
        Some(ScriptMessage::SelectAll)
    } else if reads(verb, "copy") {
        match more {
            Some(t) => if t.len() > 0 {
                Some(ScriptMessage::Copy(string_of(t)))
            } else {
                None
            },
            None => None,
        }
    } else if reads(verb, "composeto") {
        match read_address(more) {
            Some(t) => Some(ScriptMessage::ComposeTo(t)),
            None => None,
        }
    } else if reads(verb, "addcontact") {
        match read_address(more) {
            Some(t) => Some(ScriptMessage::AddContact(t)),
            None => None,
        }
    } else if reads(verb, "copyaddr") {
        match read_address(more) {
            Some(t) => Some(ScriptMessage::CopyAddress(t)),
            None => None,
        }
    } else if reads(verb, "senderinfo") {
        Some(ScriptMessage::SenderInfo { account_id, id, numbers: read_numbers(more) })
    } else if reads(verb, "sel") {
        Some(ScriptMessage::Select { account_id, id, mode: read_mode(more) })
    } else if reads(verb, "size") {
        match read_amount(more) {
            Some(height) => Some(ScriptMessage::Size { account_id, id, height }),
            None => None,
        }
    } else if reads(verb, "open") {
        Some(ScriptMessage::Open { account_id, id })
    } else if reads(verb, "seen") {
        Some(ScriptMessage::Seen { account_id, id })
    } else if reads(verb, "found") {
        let found = read_found(more);
        Some(ScriptMessage::Found { current: found.0, total: found.1 })
    } else if let Some(action) = read_action(verb) {
        Some(ScriptMessage::Action { action, account_id, id })
    } else if reads(verb, "contact") {
        Some(ScriptMessage::Contact { account_id, id })
    } else if reads(verb, "senderfmt") {
        Some(ScriptMessage::SenderStyle { account_id, id })
    } else if reads(verb, "scrollat") {
        match read_amount(more) {
            Some(offset) => Some(ScriptMessage::ScrollAt { account_id, id, offset }),
            None => None,
        }
    } else {
        None
    }
}

/// Reads a report of the document's script.
pub fn parse_script_message(text: &str) -> (r: Option<ScriptMessage>)
    ensures
        opt_report(r) == parsed_report(text@),
{
    let s = chars_of(text);
    let n = s.len();
    let a = skip_over(&s, 0, n, Class::Not(':'));
    if a >= n {
        return None;
    }
    let b = skip_over(&s, a + 1, n, Class::Not(':'));
    if b >= n {
        return None;
    }
    let c = skip_over(&s, b + 1, n, Class::Not(':'));
    proof {
        lemma_skip(s@, 0, n as int, Class::Not(':'));
        lemma_skip(s@, a + 1, n as int, Class::Not(':'));
        lemma_skip(s@, b + 1, n as int, Class::Not(':'));
    }
    let more: Option<&[char]> = if c < n {
        Some(slice_subrange(&s, c + 1, n))
    } else {
        None
    };
    let account = read_u32(slice_subrange(&s, a + 1, b));
    let number = read_u32(slice_subrange(&s, b + 1, c));
    match (account, number) {
        (Some(account_id), Some(id)) => read_report(
            slice_subrange(&s, 0, a),
            account_id,
            id,
            more,
        ),
        _ => None,
    }
}

/// What a report says to the reader.
pub open spec fn input_for(m: ScriptMessage) -> Option<MessageViewInput> {
    match m {
        ScriptMessage::Ready => Some(MessageViewInput::Rendered),
        ScriptMessage::ClearCards => Some(MessageViewInput::ClearCards),
        ScriptMessage::SelectAll => Some(MessageViewInput::SelectAllCards),
        ScriptMessage::Copy(_) => None,
        ScriptMessage::CopyAddress(_) => None,
        ScriptMessage::SenderInfo { .. } => None,
        ScriptMessage::ComposeTo(t) => Some(MessageViewInput::ComposeTo(t)),
        ScriptMessage::AddContact(t) => Some(MessageViewInput::AddContact(t)),
        ScriptMessage::Select { account_id, id, mode } => Some(
            MessageViewInput::CardClicked { account_id, id, mode },
        ),
        ScriptMessage::Size { account_id, id, height } => Some(
            MessageViewInput::FrameSized { account_id, id, height },
        ),
        ScriptMessage::Open { account_id, id } => Some(
            MessageViewInput::OpenHeader { account_id, id },
        ),
        ScriptMessage::Seen { account_id, id } => Some(
            MessageViewInput::MarkSeen { account_id, id },
        ),
        ScriptMessage::Found { current, total } => Some(
            MessageViewInput::FindCounted { current, total },
        ),
        ScriptMessage::Action { action, account_id, id } => Some(
            MessageViewInput::CardAction { action, account_id, id },
        ),
        ScriptMessage::Contact { account_id, id } => Some(
            MessageViewInput::CardContact { account_id, id },
        ),
        ScriptMessage::SenderStyle { account_id, id } => Some(
            MessageViewInput::ToggleSenderStyle { account_id, id },
        ),
        ScriptMessage::ScrollAt { account_id, id, offset } => Some(
            MessageViewInput::ScrollAnchor { account_id, id, offset },
        ),
    }
}

/// What a report says to the reader, nothing where it is for the clipboard or comes
/// with a place that has yet to be read.
pub fn input_of(m: ScriptMessage) -> (r: Option<MessageViewInput>)
    ensures
        r == input_for(m),
        match m {
            ScriptMessage::Ready => r == Some(MessageViewInput::Rendered),
            ScriptMessage::ClearCards => r == Some(MessageViewInput::ClearCards),
            ScriptMessage::SelectAll => r == Some(MessageViewInput::SelectAllCards),
            ScriptMessage::Copy(_) => r is None,
            ScriptMessage::CopyAddress(_) => r is None,
            ScriptMessage::SenderInfo { .. } => r is None,
            ScriptMessage::ComposeTo(t) => r == Some(MessageViewInput::ComposeTo(t)),
            ScriptMessage::AddContact(t) => r == Some(MessageViewInput::AddContact(t)),
            ScriptMessage::Select { account_id, id, mode } => r == Some(
                MessageViewInput::CardClicked { account_id, id, mode },
            ),
            ScriptMessage::Size { account_id, id, height } => r == Some(
                MessageViewInput::FrameSized { account_id, id, height },
            ),
            ScriptMessage::Open { account_id, id } => r == Some(
                MessageViewInput::OpenHeader { account_id, id },
            ),
            ScriptMessage::Seen { account_id, id } => r == Some(
                MessageViewInput::MarkSeen { account_id, id },
            ),
            ScriptMessage::Found { current, total } => r == Some(
                MessageViewInput::FindCounted { current, total },
            ),
            ScriptMessage::Action { action, account_id, id } => r == Some(
                MessageViewInput::CardAction { action, account_id, id },
            ),
            ScriptMessage::Contact { account_id, id } => r == Some(
                MessageViewInput::CardContact { account_id, id },
            ),
            ScriptMessage::SenderStyle { account_id, id } => r == Some(
                MessageViewInput::ToggleSenderStyle { account_id, id },
            ),
            ScriptMessage::ScrollAt { account_id, id, offset } => r == Some(
                MessageViewInput::ScrollAnchor { account_id, id, offset },
            ),
        },
{
    match m {
        ScriptMessage::Ready => Some(MessageViewInput::Rendered),
        ScriptMessage::ClearCards => Some(MessageViewInput::ClearCards),
        ScriptMessage::SelectAll => Some(MessageViewInput::SelectAllCards),
        ScriptMessage::Copy(_) => None,
        ScriptMessage::CopyAddress(_) => None,
        ScriptMessage::SenderInfo { .. } => None,
        ScriptMessage::ComposeTo(t) => Some(MessageViewInput::ComposeTo(t)),
        ScriptMessage::AddContact(t) => Some(MessageViewInput::AddContact(t)),
        ScriptMessage::Select { account_id, id, mode } => Some(
            MessageViewInput::CardClicked { account_id, id, mode },
        ),
        ScriptMessage::Size { account_id, id, height } => Some(
            MessageViewInput::FrameSized { account_id, id, height },
        ),
        ScriptMessage::Open { account_id, id } => Some(
            MessageViewInput::OpenHeader { account_id, id },
        ),
        ScriptMessage::Seen { account_id, id } => Some(
            MessageViewInput::MarkSeen { account_id, id },
        ),
        ScriptMessage::Found { current, total } => Some(
            MessageViewInput::FindCounted { current, total },
        ),
        ScriptMessage::Action { action, account_id, id } => Some(
            MessageViewInput::CardAction { action, account_id, id },
        ),
        ScriptMessage::Contact { account_id, id } => Some(
            MessageViewInput::CardContact { account_id, id },
        ),
        ScriptMessage::SenderStyle { account_id, id } => Some(
            MessageViewInput::ToggleSenderStyle { account_id, id },
        ),
        ScriptMessage::ScrollAt { account_id, id, offset } => Some(
            MessageViewInput::ScrollAnchor { account_id, id, offset },
        ),
    }
}

} // verus!
