//! What a document is told besides its messages, and what opening one shows.

use vstd::prelude::*;

use crate::account_form::{filled, AccountFacts};
use crate::card_laws::lemma_grows;
use crate::escape::content;
use crate::frame::frame_document;
use crate::message_view::{
    any_remote, Opening, ReadMark, ReaderState, Wish,
};
use crate::models::{mails, Message};
use crate::print::message_header;
use crate::providers::{provider, ProviderKind};
use crate::reader_style::ReaderStyle;
use crate::render::{
    actions_stamp, delay_stamp, newest, newest_is_newest, newest_stamp, place_stamp, read_stamp,
    stamps, unquoted_value,
};
use crate::text::{decimal, holds, trim};

verus! {

// ----- Stamps -----

proof fn lemma_stamps(s: ReaderState, copied: Seq<char>)
    ensures
        holds(stamps(s, copied), place_stamp(s.drawing)),
        holds(stamps(s, copied), actions_stamp(s.looks)),
        holds(stamps(s, copied), delay_stamp(s.looks.palette_collapse_secs)),
        holds(stamps(s, copied), newest_stamp(s.content.thread)),
        holds(stamps(s, copied), read_stamp(s.looks.read_mark)),
{
    let a = place_stamp(s.drawing);
    let b = actions_stamp(s.looks);
    let c = delay_stamp(s.looks.palette_collapse_secs);
    let d = newest_stamp(s.content.thread);
    let e = read_stamp(s.looks.read_mark);
    let none = Seq::<char>::empty();
    lemma_grows(none, a);
    assert(none + a =~= a);
    lemma_grows(a, b);
    lemma_grows(a + b, c);
    lemma_grows(a + b + c, d);
    let x = a + b + c + d;
    lemma_grows(x, e);
    lemma_grows(x + e, " data-vireo-copied=\""@);
    let y = x + e + " data-vireo-copied=\""@;
    lemma_grows(y, unquoted_value(copied));
    lemma_grows(y + unquoted_value(copied), "\""@);
    assert(stamps(s, copied) == y + unquoted_value(copied) + "\""@);
}

/// A document is told how its cards' actions show, for how long they linger, and after which
/// time in view a message counts as read, as the reader was set.
pub proof fn documents_are_told_the_settings(s: ReaderState, copied: Seq<char>)
    ensures
        s.looks.card_actions_hover ==> holds(stamps(s, copied), " data-vireo-acts=\"toggle\""@),
        !s.looks.card_actions_hover && s.looks.card_actions_auto ==> holds(
            stamps(s, copied),
            " data-vireo-acts=\"hover\""@,
        ),
        s.looks.palette_collapse_secs > 0 ==> holds(
            stamps(s, copied),
            " data-vireo-actsdelay=\""@ + decimal(
                (s.looks.palette_collapse_secs * 1000) as nat,
            ) + "\""@,
        ),
        s.looks.read_mark == ReadMark::Shown ==> holds(
            stamps(s, copied),
            " data-vireo-readmark=\"250\""@,
        ),
        s.looks.read_mark == ReadMark::Delay ==> holds(
            stamps(s, copied),
            " data-vireo-readmark=\"2000\""@,
        ),
        s.looks.read_mark == ReadMark::Manual ==> read_stamp(s.looks.read_mark).len() == 0,
        !s.looks.card_actions_hover && !s.looks.card_actions_auto ==> actions_stamp(s.looks).len() == 0,
{
    lemma_stamps(s, copied);
}

/// A conversation's document is told which of its messages is the newest.
pub proof fn documents_are_told_the_newest(s: ReaderState, copied: Seq<char>)
    requires
        s.content.thread.len() > 1,
    ensures
        exists|k: int|
            0 <= k < s.content.thread.len() && (forall|i: int|
                0 <= i < s.content.thread.len() ==> (#[trigger] s.content.thread[i]).timestamp
                    <= s.content.thread[k].timestamp) && holds(
                stamps(s, copied),
                " data-vireo-newest=\""@ + decimal(
                    (#[trigger] s.content.thread[k]).account_id as nat,
                ) + ":"@ + decimal(s.content.thread[k].id as nat) + "\""@,
            ),
{
    lemma_stamps(s, copied);
    let thread = s.content.thread;
    let k = newest(thread, thread.len());
    newest_is_newest(thread, thread.len(), 0);
    assert forall|i: int| 0 <= i < thread.len() implies (#[trigger] thread[i]).timestamp
        <= thread[k].timestamp by {
        newest_is_newest(thread, thread.len(), i);
    }
    assert(thread[k].timestamp == thread[k].timestamp);
}

/// Only the first document of a conversation may scroll to what is unread; every later one
/// keeps the place that the reader was at.
pub proof fn documents_keep_the_place(s: ReaderState, copied: Seq<char>, a: u32, i: u32, o: u32)
    ensures
        !s.drawing.did_autoscroll ==> place_stamp(s.drawing).len() == 0,
        s.drawing.did_autoscroll && s.drawing.saved_anchor == Some((a, i, o)) ==> holds(
            stamps(s, copied),
            " data-vireo-noscroll=\"1\" data-vireo-anchor=\""@ + decimal(a as nat) + ":"@ + decimal(
                i as nat,
            ) + ":"@ + decimal(o as nat) + "\""@,
        ),
{
    lemma_stamps(s, copied);
    reveal_strlit(" data-vireo-noscroll=\"1\" data-vireo-anchor=\"");
    reveal_strlit(" data-vireo-noscroll=\"1\"");
    reveal_strlit(" data-vireo-anchor=\"");
    assert(" data-vireo-noscroll=\"1\" data-vireo-anchor=\""@ =~= " data-vireo-noscroll=\"1\""@
        + " data-vireo-anchor=\""@);
    if s.drawing.did_autoscroll && s.drawing.saved_anchor == Some((a, i, o)) {
        assert(place_stamp(s.drawing) =~= " data-vireo-noscroll=\"1\" data-vireo-anchor=\""@ + decimal(
            a as nat,
        ) + ":"@ + decimal(i as nat) + ":"@ + decimal(o as nat) + "\""@);
    }
}

// ----- Opening -----

/// What is opened is shown: the conversation as it was handed over, the message that was
/// selected or the first, and remote content withheld just where there is any and it was
/// not permitted. While the body is being fetched nothing is drawn.
pub proof fn opening_shows_what_was_asked(s: ReaderState, o: Opening)
    ensures
        ({
            let (t, asked) = s.show(o);
            let thread = mails(o.thread@);
            &&& t.content.thread == thread
            &&& o.primary matches Some(p) ==> t.content.current == Some((*p)@)
            &&& o.primary is None && thread.len() > 0 ==> t.content.current == Some(thread[0])
            &&& t.content.remote_allowed == o.allow_remote
            &&& t.content.blocked == (any_remote(thread) && !o.allow_remote)
            &&& t.content.loading == o.loading
            &&& t.content.account_name == o.account_name
            &&& t.content.folder_labels == o.folder_labels@
            &&& asked.contains(Wish::Render) == !o.loading
        }),
{
    reveal(ReaderState::show);
    let (t, asked) = s.show(o);
    if !o.loading {
        assert(asked.last() == Wish::Render);
    }
}

// ----- Frames -----

/// On the light side a message keeps its colours, and so it does under colours of the
/// reader's own: new ones are for the dark side alone.
pub proof fn new_colors_are_for_the_dark(
    body: Seq<char>,
    restrict: bool,
    dark: bool,
    style: &ReaderStyle,
    accent: Seq<char>,
    a: Seq<Option<Seq<char>>>,
    b: Seq<Option<Seq<char>>>,
)
    requires
        !dark || style.colors,
    ensures
        frame_document(body, restrict, dark, style, accent, a) == frame_document(
            body,
            restrict,
            dark,
            style,
            accent,
            b,
        ),
{
}

// ----- Paper -----

/// In a printed conversation a message without a name shows the address, and one without an
/// address the name.
pub proof fn printed_messages_name_someone(m: &Message, date: Seq<char>)
    ensures
        m.from_addr@.len() == 0 ==> message_header(m, date) == "<div class=\"vireo-print-msghdr\">"@
            + content(m.from_name@) + " — "@ + content(date) + "</div>"@,
        m.from_addr@.len() > 0 && trim(m.from_name@).len() == 0 ==> message_header(m, date)
            == "<div class=\"vireo-print-msghdr\">"@ + content(m.from_addr@) + " — "@ + content(date)
            + "</div>"@,
{
}

// ----- Providers -----

/// The editor of an account that signs in through the browser shows who it signs in to: by
/// where its tokens come from.
pub proof fn editor_shows_the_provider(a: AccountFacts)
    requires
        !a.managed(),
        a.oauth.on,
        a.oauth.settings is Some,
    ensures
        ({
            let url = (a.oauth.settings->0).token_url;
            let kind = provider(filled(a).provider).kind;
            &&& holds(url, "googleapis"@) ==> kind == ProviderKind::Google
            &&& !holds(url, "googleapis"@) && holds(url, "microsoftonline"@) ==> kind
                == ProviderKind::Microsoft
            &&& !holds(url, "googleapis"@) && !holds(url, "microsoftonline"@) ==> kind
                == ProviderKind::CustomOAuth
            &&& filled(a).oauth == a.oauth.settings->0
        }),
{
}

} // verus!
