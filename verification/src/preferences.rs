//! The settings window.

use vstd::prelude::*;

use crate::sorting::{lower_case, lowercase};
use crate::text::{copy_of, same, texts, trim, trimmed_string};

verus! {

/// How messages appear, whatever the application looks like.
#[derive(Debug, Clone, Copy, PartialEq, Eq, Structural)]
pub enum MessageTheme {
    System,
    Light,
    Dark,
}

/// What the settings window starts with.
#[derive(Debug)]
pub struct PrefInit {
    pub allowed_senders: Vec<String>,
    pub gravatar: bool,
    pub fetch_interval_secs: u64,
    pub push: bool,
    pub blacklist: Vec<String>,
    pub palette_collapse_secs: u64,
    pub threading: bool,
    pub threads_expanded: bool,
    pub message_theme: MessageTheme,
    pub notifications: bool,
}

// ----- Choices -----

/// The labels of the choices for how messages appear, in their order.
pub fn message_theme_labels() -> (v: Vec<&'static str>)
    ensures
        v@ == seq!["Follow system", "Light", "Dark"],
{
    let v = vec!["Follow system", "Light", "Dark"];
    assert(v@ =~= seq!["Follow system", "Light", "Dark"]);
    v
}

/// The theme of a choice; the desktop's where there is no such choice.
pub open spec fn theme_at(index: u32) -> MessageTheme {
    if index == 1 {
        MessageTheme::Light
    } else if index == 2 {
        MessageTheme::Dark
    } else {
        MessageTheme::System
    }
}

pub open spec fn theme_place(theme: MessageTheme) -> u32 {
    match theme {
        MessageTheme::System => 0,
        MessageTheme::Light => 1,
        MessageTheme::Dark => 2,
    }
}

/// The choice that is made for a theme gives that theme.
pub proof fn theme_reads_back(theme: MessageTheme)
    ensures
        theme_at(theme_place(theme)) == theme,
{
}

/// The theme of a choice.
pub fn message_theme(index: u32) -> (t: MessageTheme)
    ensures
        t == theme_at(index),
{
    match index {
        1 => MessageTheme::Light,
        2 => MessageTheme::Dark,
        _ => MessageTheme::System,
    }
}

/// The choice for a theme.
pub fn message_theme_choice(theme: MessageTheme) -> (index: u32)
    ensures
        index == theme_place(theme),
{
    match theme {
        MessageTheme::System => 0,
        MessageTheme::Light => 1,
        MessageTheme::Dark => 2,
    }
}

/// The labels of the choices for how often to look for mail, in their order.
pub fn fetch_interval_labels() -> (v: Vec<&'static str>)
    ensures
        v@ == seq![
            "Manually",
            "Every minute",
            "Every 5 minutes",
            "Every 15 minutes",
            "Every 30 minutes",
        ],
{
    let v = vec![
        "Manually",
        "Every minute",
        "Every 5 minutes",
        "Every 15 minutes",
        "Every 30 minutes",
    ];
    assert(v@ =~= seq![
        "Manually",
        "Every minute",
        "Every 5 minutes",
        "Every 15 minutes",
        "Every 30 minutes",
    ]);
    v
}

/// How many seconds each choice stands for; none for looking by hand only.
pub open spec fn intervals() -> Seq<u64> {
    seq![0, 60, 300, 900, 1800]
}

/// The seconds of a choice; none where there is no such choice.
pub open spec fn interval_at(index: u32) -> u64 {
    if index < intervals().len() {
        intervals()[index as int]
    } else {
        0
    }
}

/// The choice for so many seconds, that of looking by hand where there is none.
pub open spec fn interval_place(secs: u64) -> u32 {
    if secs == 60 {
        1
    } else if secs == 300 {
        2
    } else if secs == 900 {
        3
    } else if secs == 1800 {
        4
    } else {
        0
    }
}

/// The choice that is made for an interval that is offered gives that interval.
pub proof fn interval_reads_back(secs: u64)
    requires
        intervals().contains(secs),
    ensures
        interval_at(interval_place(secs)) == secs,
{
}

/// The seconds of a choice for how often to look for mail.
pub fn fetch_interval(index: u32) -> (secs: u64)
    ensures
        secs == interval_at(index),
{
    match index {
        1 => 60,
        2 => 300,
        3 => 900,
        4 => 1800,
        _ => 0,
    }
}

/// The choice for so many seconds.
pub fn fetch_interval_choice(secs: u64) -> (index: u32)
    ensures
        index == interval_place(secs),
{
    match secs {
        60 => 1,
        300 => 2,
        900 => 3,
        1800 => 4,
        _ => 0,
    }
}

// ----- Lists of senders -----

/// A row of one of the lists.
pub struct SenderRow {
    pub addr: String,
}

#[derive(Debug)]
pub enum SenderRowOutput {
    Remove(String),
}

impl SenderRow {
    pub fn init_model(addr: String) -> (row: SenderRow)
        ensures
            row.addr == addr,
    {
        SenderRow { addr }
    }

    /// What the button of the row asks for.
    pub fn removal(&self) -> (o: SenderRowOutput)
        ensures
            match o {
                SenderRowOutput::Remove(addr) => addr@ == self.addr@,
            },
    {
        SenderRowOutput::Remove(copy_of(self.addr.as_str()))
    }
}

/// The list with an address added, unless it is empty or there already.
pub open spec fn with_address(list: Seq<Seq<char>>, addr: Seq<char>) -> Seq<Seq<char>> {
    if addr.len() == 0 || list.contains(addr) {
        list
    } else {
        list.push(addr)
    }
}

/// Where an address first stands at or behind `k`.
pub open spec fn place_of(list: Seq<Seq<char>>, addr: Seq<char>, k: int) -> Option<int>
    decreases list.len() - k,
{
    if k >= list.len() {
        None
    } else if list[k] == addr {
        Some(k)
    } else {
        place_of(list, addr, k + 1)
    }
}

/// The list without the first occurrence of an address.
pub open spec fn without_address(list: Seq<Seq<char>>, addr: Seq<char>) -> Seq<Seq<char>> {
    match place_of(list, addr, 0) {
        Some(k) => list.remove(k),
        None => list,
    }
}

proof fn lemma_place_of(list: Seq<Seq<char>>, addr: Seq<char>, k: int)
    requires
        0 <= k <= list.len(),
    ensures
        match place_of(list, addr, k) {
            Some(p) => k <= p < list.len() && list[p] == addr && forall|j: int|
                k <= j < p ==> list[j] != addr,
            None => forall|j: int| k <= j < list.len() ==> list[j] != addr,
        },
    decreases list.len() - k,
{
    if k < list.len() && list[k] != addr {
        lemma_place_of(list, addr, k + 1);
    }
}

/// No address stands twice in the list.
pub open spec fn distinct(list: Seq<Seq<char>>) -> bool {
    forall|i: int, j: int| 0 <= i < j < list.len() ==> list[i] != list[j]
}

/// A list without repetitions stays one whatever is added or removed.
pub proof fn lists_stay_distinct(list: Seq<Seq<char>>, addr: Seq<char>)
    requires
        distinct(list),
    ensures
        distinct(with_address(list, addr)),
        distinct(without_address(list, addr)),
{
    lemma_place_of(list, addr, 0);
    if let Some(k) = place_of(list, addr, 0) {
        let rest = list.remove(k);
        assert forall|i: int, j: int| 0 <= i < j < rest.len() implies rest[i] != rest[j] by {
            let a = if i < k {
                i
            } else {
                i + 1
            };
            let b = if j < k {
                j
            } else {
                j + 1
            };
            assert(rest[i] == list[a] && rest[j] == list[b]);
        }
    }
    assert forall|i: int, j: int|
        0 <= i < j < with_address(list, addr).len() implies with_address(list, addr)[i]
        != with_address(list, addr)[j] by {
        if j == list.len() {
            assert(list[i] != addr);
        }
    }
}

/// What was added stands in the list, and removing it again brings the list back.
pub proof fn added_can_be_removed(list: Seq<Seq<char>>, addr: Seq<char>)
    requires
        addr.len() > 0,
        !list.contains(addr),
    ensures
        with_address(list, addr).contains(addr),
        without_address(with_address(list, addr), addr) == list,
{
    let added = list.push(addr);
    assert(added[list.len() as int] == addr);
    lemma_place_of(added, addr, 0);
    match place_of(added, addr, 0) {
        Some(k) => {
            if k < list.len() {
                assert(list[k] == addr);
            }
            assert(added.remove(k) =~= list);
        },
        None => {
            assert(added[list.len() as int] != addr);
        },
    }
}

/// What was removed from a list without repetitions is gone, and nothing else is.
pub proof fn removed_is_gone(list: Seq<Seq<char>>, addr: Seq<char>, other: Seq<char>)
    requires
        distinct(list),
        other != addr,
    ensures
        !without_address(list, addr).contains(addr),
        without_address(list, addr).contains(other) == list.contains(other),
{
    lemma_place_of(list, addr, 0);
    if let Some(k) = place_of(list, addr, 0) {
        let rest = list.remove(k);
        assert forall|i: int| 0 <= i < rest.len() implies rest[i] != addr by {
            let a = if i < k {
                i
            } else {
                i + 1
            };
            assert(rest[i] == list[a] && a != k);
        }
        if list.contains(other) {
            let a = choose|a: int| 0 <= a < list.len() && list[a] == other;
            let i = if a < k {
                a
            } else {
                a - 1
            };
            assert(rest[i] == other);
        }
        if rest.contains(other) {
            let i = choose|i: int| 0 <= i < rest.len() && rest[i] == other;
            let a = if i < k {
                i
            } else {
                i + 1
            };
            assert(list[a] == other);
        }
    }
}

/// Where an address first stands in the list.
fn find_address(list: &Vec<String>, addr: &str) -> (r: Option<usize>)
    ensures
        (match r {
            Some(k) => Some(k as int),
            None => None,
        }) == place_of(texts(list@), addr@, 0),
        r is Some <==> texts(list@).contains(addr@),
        r is Some ==> r->0 < list@.len(),
{
    proof {
        lemma_place_of(texts(list@), addr@, 0);
    }
    let mut k: usize = 0;
    while k < list.len()
        invariant
            k <= list.len(),
            place_of(texts(list@), addr@, 0) == place_of(texts(list@), addr@, k as int),
            forall|j: int| 0 <= j < k ==> texts(list@)[j] != addr@,
        decreases list.len() - k,
    {
        assert(texts(list@)[k as int] == list@[k as int]@);
        if same(list[k].as_str(), addr) {
            return Some(k);
        }
        k = k + 1;
    }
    None
}

/// Adds an address to a list, unless it is empty or there already.
pub fn add_address(list: &mut Vec<String>, addr: &str) -> (added: bool)
    ensures
        texts(final(list)@) == with_address(texts(old(list)@), addr@),
        added == (addr@.len() > 0 && !texts(old(list)@).contains(addr@)),
{
    if addr.is_empty() || find_address(list, addr).is_some() {
        return false;
    }
    list.push(copy_of(addr));
    assert(texts(list@) =~= texts(old(list)@).push(addr@));
    true
}

/// Removes an address from a list and says where it stood.
pub fn remove_address(list: &mut Vec<String>, addr: &str) -> (place: Option<usize>)
    ensures
        texts(final(list)@) == without_address(texts(old(list)@), addr@),
        (match place {
            Some(k) => Some(k as int),
            None => None,
        }) == place_of(texts(old(list)@), addr@, 0),
{
    match find_address(list, addr) {
        Some(k) => {
            let _ = list.remove(k);
            assert(texts(list@) =~= texts(old(list)@).remove(k as int));
            Some(k)
        },
        None => None,
    }
}

// ----- The window -----

/// The settings window: who may load remote content, and whose mail is deleted.
pub struct Preferences {
    pub sender_addrs: Vec<String>,
    pub blacklist_addrs: Vec<String>,
}

/// The settings window, with its texts as sequences of characters.
pub struct PrefState {
    pub senders: Seq<Seq<char>>,
    pub blacklist: Seq<Seq<char>>,
}

impl View for Preferences {
    type V = PrefState;

    open spec fn view(&self) -> PrefState {
        PrefState { senders: texts(self.sender_addrs@), blacklist: texts(self.blacklist_addrs@) }
    }
}

#[allow(inconsistent_fields)]
#[derive(Debug)]
pub enum PrefInput {
    AddSenderText(String),
    RemoveSenderRow(String),
    AddBlacklistText(String),
    RemoveBlacklistRow(String),
    ToggleGravatar(bool),
    ToggleThreading(bool),
    ToggleThreadsExpanded(bool),
    ChangeFetchInterval(u32),
    TogglePush(bool),
    ToggleNotifications(bool),
    ChangePaletteCollapse(u64),
    ChangeMessageTheme(u32),
}

/// What the window reports; `T` is the type of a text.
#[allow(inconsistent_fields)]
#[derive(Debug)]
pub enum PrefOutput<T> {
    AddSender(T),
    RemoveSender(T),
    AddBlacklist(T),
    RemoveBlacklist(T),
    SetGravatar(bool),
    SetThreading(bool),
    SetThreadsExpanded(bool),
    SetFetchInterval(u64),
    SetPush(bool),
    SetNotifications(bool),
    SetPaletteCollapse(u64),
    SetMessageTheme(MessageTheme),
    Closed,
}

pub open spec fn opt_output(o: Option<PrefOutput<String>>) -> Option<PrefOutput<Seq<char>>> {
    match o {
        None => None,
        Some(o) => Some(
            match o {
                PrefOutput::AddSender(t) => PrefOutput::AddSender(t@),
                PrefOutput::RemoveSender(t) => PrefOutput::RemoveSender(t@),
                PrefOutput::AddBlacklist(t) => PrefOutput::AddBlacklist(t@),
                PrefOutput::RemoveBlacklist(t) => PrefOutput::RemoveBlacklist(t@),
                PrefOutput::SetGravatar(b) => PrefOutput::SetGravatar(b),
                PrefOutput::SetThreading(b) => PrefOutput::SetThreading(b),
                PrefOutput::SetThreadsExpanded(b) => PrefOutput::SetThreadsExpanded(b),
                PrefOutput::SetFetchInterval(n) => PrefOutput::SetFetchInterval(n),
                PrefOutput::SetPush(b) => PrefOutput::SetPush(b),
                PrefOutput::SetNotifications(b) => PrefOutput::SetNotifications(b),
                PrefOutput::SetPaletteCollapse(n) => PrefOutput::SetPaletteCollapse(n),
                PrefOutput::SetMessageTheme(t) => PrefOutput::SetMessageTheme(t),
                PrefOutput::Closed => PrefOutput::Closed,
            },
        ),
    }
}

/// An address as it is kept: without spaces around it, in lower case.
pub open spec fn kept_address(text: Seq<char>) -> Seq<char> {
    lower_case(trim(text))
}

/// What the window makes of an input.
pub open spec fn pref_step(s: PrefState, msg: PrefInput) -> (
    PrefState,
    Option<PrefOutput<Seq<char>>>,
) {
    match msg {
        PrefInput::AddSenderText(text) => {
            let addr = kept_address(text@);
            if addr.len() == 0 || s.senders.contains(addr) {
                (s, None)
            } else {
                (
                    PrefState { senders: with_address(s.senders, addr), ..s },
                    Some(PrefOutput::AddSender(addr)),
                )
            }
        },
        PrefInput::RemoveSenderRow(addr) => {
            if place_of(s.senders, addr@, 0) is Some {
                (
                    PrefState { senders: without_address(s.senders, addr@), ..s },
                    Some(PrefOutput::RemoveSender(addr@)),
                )
            } else {
                (s, None)
            }
        },
        PrefInput::AddBlacklistText(text) => {
            let addr = kept_address(text@);
            if addr.len() == 0 || s.blacklist.contains(addr) {
                (s, None)
            } else {
                (
                    PrefState { blacklist: with_address(s.blacklist, addr), ..s },
                    Some(PrefOutput::AddBlacklist(addr)),
                )
            }
        },
        PrefInput::RemoveBlacklistRow(addr) => {
            if place_of(s.blacklist, addr@, 0) is Some {
                (
                    PrefState { blacklist: without_address(s.blacklist, addr@), ..s },
                    Some(PrefOutput::RemoveBlacklist(addr@)),
                )
            } else {
                (s, None)
            }
        },
        PrefInput::ToggleGravatar(on) => (s, Some(PrefOutput::SetGravatar(on))),
        PrefInput::ToggleThreading(on) => (s, Some(PrefOutput::SetThreading(on))),
        PrefInput::ToggleThreadsExpanded(on) => (s, Some(PrefOutput::SetThreadsExpanded(on))),
        PrefInput::ChangeFetchInterval(index) => (
            s,
            Some(PrefOutput::SetFetchInterval(interval_at(index))),
        ),
        PrefInput::TogglePush(on) => (s, Some(PrefOutput::SetPush(on))),
        PrefInput::ToggleNotifications(on) => (s, Some(PrefOutput::SetNotifications(on))),
        PrefInput::ChangePaletteCollapse(secs) => (s, Some(PrefOutput::SetPaletteCollapse(secs))),
        PrefInput::ChangeMessageTheme(index) => (
            s,
            Some(PrefOutput::SetMessageTheme(theme_at(index))),
        ),
    }
}

impl Preferences {
    /// The window over these lists.
    pub fn new(allowed_senders: Vec<String>, blacklist: Vec<String>) -> (p: Preferences)
        ensures
            p.sender_addrs == allowed_senders,
            p.blacklist_addrs == blacklist,
    {
        Preferences { sender_addrs: allowed_senders, blacklist_addrs: blacklist }
    }

    /// Handles an input.
    pub fn update(&mut self, message: PrefInput) -> (out: Option<PrefOutput<String>>)
        ensures
            (final(self)@, opt_output(out)) == pref_step(old(self)@, message),
    {
        match message {
            PrefInput::AddSenderText(text) => {
                let addr = lowercase(trimmed_string(text.as_str()).as_str());
                if add_address(&mut self.sender_addrs, addr.as_str()) {
                    Some(PrefOutput::AddSender(addr))
                } else {
                    None
                }
            },
            PrefInput::RemoveSenderRow(addr) => {
                if remove_address(&mut self.sender_addrs, addr.as_str()).is_some() {
                    Some(PrefOutput::RemoveSender(addr))
                } else {
                    None
                }
            },
            PrefInput::AddBlacklistText(text) => {
                let addr = lowercase(trimmed_string(text.as_str()).as_str());
                if add_address(&mut self.blacklist_addrs, addr.as_str()) {
                    Some(PrefOutput::AddBlacklist(addr))
                } else {
                    None
                }
            },
            PrefInput::RemoveBlacklistRow(addr) => {
                if remove_address(&mut self.blacklist_addrs, addr.as_str()).is_some() {
                    Some(PrefOutput::RemoveBlacklist(addr))
                } else {
                    None
                }
            },
            PrefInput::ToggleGravatar(on) => Some(PrefOutput::SetGravatar(on)),
            PrefInput::ToggleThreading(on) => Some(PrefOutput::SetThreading(on)),
            PrefInput::ToggleThreadsExpanded(on) => Some(PrefOutput::SetThreadsExpanded(on)),
            PrefInput::ChangeFetchInterval(index) => Some(
                PrefOutput::SetFetchInterval(fetch_interval(index)),
            ),
            PrefInput::TogglePush(on) => Some(PrefOutput::SetPush(on)),
            PrefInput::ToggleNotifications(on) => Some(PrefOutput::SetNotifications(on)),
            PrefInput::ChangePaletteCollapse(secs) => Some(PrefOutput::SetPaletteCollapse(secs)),
            PrefInput::ChangeMessageTheme(index) => Some(
                PrefOutput::SetMessageTheme(message_theme(index)),
            ),
        }
    }
}

} // verus!
