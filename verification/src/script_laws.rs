//! What is read of what the document's script posts.

use vstd::prelude::*;

use crate::message_row::RowAction;
use crate::message_view::SelectMode;
use crate::script_messages::{
    address_in, fields, found_in, mode_in, number_in, parsed_report, report, ScriptReport,
};
use crate::text::{
    decimal, decimal_reads_back, lemma_decimal_digits, lemma_skip_to, split, trim, Class,
};

verus! {

/// What the script posts of a message: a verb and the message's key.
pub open spec fn posted(verb: Seq<char>, key: (u32, u32)) -> Seq<char> {
    verb + ":"@ + decimal(key.0 as nat) + ":"@ + decimal(key.1 as nat)
}

/// What the script posts of a message, with a text behind it.
pub open spec fn posted_with(verb: Seq<char>, key: (u32, u32), text: Seq<char>) -> Seq<char> {
    posted(verb, key) + ":"@ + text
}

pub open spec fn colonless(s: Seq<char>) -> bool {
    forall|k: int| 0 <= k < s.len() ==> #[trigger] s[k] != ':'
}

proof fn lemma_decimal_colonless(n: nat)
    ensures
        colonless(decimal(n)),
{
    assert forall|k: int| 0 <= k < decimal(n).len() implies #[trigger] decimal(n)[k] != ':' by {
        lemma_decimal_digits(n, k);
    }
}

proof fn lemma_fields(s: Seq<char>, a: Seq<char>, b: Seq<char>, c: Seq<char>, rest: Seq<char>)
    requires
        colonless(a),
        colonless(b),
        colonless(c),
        s == a + ":"@ + b + ":"@ + c + rest,
        rest.len() == 0 || rest[0] == ':',
    ensures
        fields(s) is Some,
        fields(s)->0.verb == a,
        fields(s)->0.account == b,
        fields(s)->0.id == c,
        fields(s)->0.more == (if rest.len() == 0 {
            None
        } else {
            Some(rest.drop_first())
        }),
{
    reveal_strlit(":");
    let n = s.len() as int;
    let p = a.len() as int;
    let q = p + 1 + b.len();
    let r = q + 1 + c.len();
    assert forall|x: int| 0 <= x < p implies Class::Not(':').has(#[trigger] s[x]) by {
        assert(s[x] == a[x]);
    }
    assert forall|x: int| p + 1 <= x < q implies Class::Not(':').has(#[trigger] s[x]) by {
        assert(s[x] == b[x - p - 1]);
    }
    assert forall|x: int| q + 1 <= x < r implies Class::Not(':').has(#[trigger] s[x]) by {
        assert(s[x] == c[x - q - 1]);
    }
    assert(s[p] == ':' && s[q] == ':');
    assert(r < n ==> s[r] == rest[0]);
    lemma_skip_to(s, 0, p, n, Class::Not(':'));
    lemma_skip_to(s, p + 1, q, n, Class::Not(':'));
    lemma_skip_to(s, q + 1, r, n, Class::Not(':'));
    assert(s.subrange(0, p) =~= a);
    assert(s.subrange(p + 1, q) =~= b);
    assert(s.subrange(q + 1, r) =~= c);
    if rest.len() > 0 {
        assert(s.subrange(r + 1, n) =~= rest.drop_first());
    }
}

/// Whatever its verb, what the script posts of a message is read as of that message, and
/// what stands behind it as it was posted.
pub proof fn posts_are_taken_apart(verb: Seq<char>, key: (u32, u32), text: Seq<char>)
    requires
        colonless(verb),
    ensures
        parsed_report(posted(verb, key)) == report(verb, key, None),
        parsed_report(posted_with(verb, key, text)) == report(verb, key, Some(text)),
{
    reveal_strlit(":");
    let a = decimal(key.0 as nat);
    let i = decimal(key.1 as nat);
    lemma_decimal_colonless(key.0 as nat);
    lemma_decimal_colonless(key.1 as nat);
    decimal_reads_back(key.0 as nat, u32::MAX as nat);
    decimal_reads_back(key.1 as nat, u32::MAX as nat);
    let s = posted(verb, key);
    assert(s =~= verb + ":"@ + a + ":"@ + i + Seq::<char>::empty());
    lemma_fields(s, verb, a, i, seq![]);
    let s = posted_with(verb, key, text);
    let rest = ":"@ + text;
    assert(s =~= verb + ":"@ + a + ":"@ + i + rest);
    lemma_fields(s, verb, a, i, rest);
    assert(rest.drop_first() =~= text);
}

proof fn lemma_colonless()
    ensures
        colonless("ready"@),
        colonless("desel"@),
        colonless("selall"@),
        colonless("copy"@),
        colonless("composeto"@),
        colonless("addcontact"@),
        colonless("copyaddr"@),
        colonless("senderinfo"@),
        colonless("sel"@),
        colonless("size"@),
        colonless("open"@),
        colonless("seen"@),
        colonless("found"@),
        colonless("reply"@),
        colonless("replyall"@),
        colonless("forward"@),
        colonless("star"@),
        colonless("spam"@),
        colonless("archive"@),
        colonless("delete"@),
        colonless("toggleread"@),
        colonless("viewsource"@),
        colonless("contact"@),
        colonless("senderfmt"@),
        colonless("scrollat"@),
{
    reveal_strlit("ready");
    reveal_strlit("desel");
    reveal_strlit("selall");
    reveal_strlit("copy");
    reveal_strlit("composeto");
    reveal_strlit("addcontact");
    reveal_strlit("copyaddr");
    reveal_strlit("senderinfo");
    reveal_strlit("sel");
    reveal_strlit("size");
    reveal_strlit("open");
    reveal_strlit("seen");
    reveal_strlit("found");
    reveal_strlit("reply");
    reveal_strlit("replyall");
    reveal_strlit("forward");
    reveal_strlit("star");
    reveal_strlit("spam");
    reveal_strlit("archive");
    reveal_strlit("delete");
    reveal_strlit("toggleread");
    reveal_strlit("viewsource");
    reveal_strlit("contact");
    reveal_strlit("senderfmt");
    reveal_strlit("scrollat");
}

#[verifier::spinoff_prover]
#[verifier::rlimit(60)]
proof fn lemma_verbs(key: (u32, u32), more: Option<Seq<char>>)
    ensures
        report("ready"@, key, more) == Some(ScriptReport::Ready),
        report("desel"@, key, more) == Some(ScriptReport::ClearCards),
        report("selall"@, key, more) == Some(ScriptReport::SelectAll),
        report("open"@, key, more) == Some(ScriptReport::Open { key }),
        report("seen"@, key, more) == Some(ScriptReport::Seen { key }),
        report("contact"@, key, more) == Some(ScriptReport::Contact { key }),
        report("senderfmt"@, key, more) == Some(ScriptReport::SenderStyle { key }),
        report("reply"@, key, more) == Some(ScriptReport::Action { action: RowAction::Reply, key }),
        report("replyall"@, key, more) == Some(ScriptReport::Action { action: RowAction::ReplyAll, key }),
        report("forward"@, key, more) == Some(ScriptReport::Action { action: RowAction::Forward, key }),
        report("star"@, key, more) == Some(ScriptReport::Action { action: RowAction::ToggleStar, key }),
        report("spam"@, key, more) == Some(ScriptReport::Action { action: RowAction::Spam, key }),
        report("archive"@, key, more) == Some(ScriptReport::Action { action: RowAction::Archive, key }),
        report("delete"@, key, more) == Some(ScriptReport::Action { action: RowAction::Delete, key }),
        report("toggleread"@, key, more) == Some(ScriptReport::Action { action: RowAction::ToggleRead, key }),
        report("viewsource"@, key, more) == Some(ScriptReport::Action { action: RowAction::ViewSource, key }),
{
    reveal(report);
    reveal_strlit("ready");
    reveal_strlit("desel");
    reveal_strlit("selall");
    reveal_strlit("copy");
    reveal_strlit("composeto");
    reveal_strlit("addcontact");
    reveal_strlit("copyaddr");
    reveal_strlit("senderinfo");
    reveal_strlit("sel");
    reveal_strlit("size");
    reveal_strlit("open");
    reveal_strlit("seen");
    reveal_strlit("found");
    reveal_strlit("reply");
    reveal_strlit("replyall");
    reveal_strlit("forward");
    reveal_strlit("star");
    reveal_strlit("spam");
    reveal_strlit("archive");
    reveal_strlit("delete");
    reveal_strlit("toggleread");
    reveal_strlit("viewsource");
    reveal_strlit("contact");
    reveal_strlit("senderfmt");
    reveal_strlit("scrollat");
    assert("ready"@.len() == 5);
    assert("desel"@.len() == 5);
    assert("selall"@.len() == 6);
    assert("copy"@.len() == 4);
    assert("composeto"@.len() == 9);
    assert("addcontact"@.len() == 10);
    assert("copyaddr"@.len() == 8);
    assert("senderinfo"@.len() == 10);
    assert("sel"@.len() == 3);
    assert("size"@.len() == 4);
    assert("open"@.len() == 4);
    assert("seen"@.len() == 4);
    assert("found"@.len() == 5);
    assert("reply"@.len() == 5);
    assert("replyall"@.len() == 8);
    assert("forward"@.len() == 7);
    assert("star"@.len() == 4);
    assert("spam"@.len() == 4);
    assert("archive"@.len() == 7);
    assert("delete"@.len() == 6);
    assert("toggleread"@.len() == 10);
    assert("viewsource"@.len() == 10);
    assert("contact"@.len() == 7);
    assert("senderfmt"@.len() == 9);
    assert("scrollat"@.len() == 8);
    assert("copy"@[0] == 'c' && "copy"@[1] == 'o');
    assert("size"@[0] == 's' && "size"@[1] == 'i');
    assert("open"@[0] == 'o' && "open"@[1] == 'p');
    assert("seen"@[0] == 's' && "seen"@[1] == 'e');
    assert("star"@[0] == 's' && "star"@[1] == 't');
    assert("spam"@[0] == 's' && "spam"@[1] == 'p');
    assert("ready"@[2] == 'a');
    assert("desel"@[2] == 's');
    assert("found"@[2] == 'u');
    assert("reply"@[2] == 'p');
    assert("selall"@[0] == 's');
    assert("delete"@[0] == 'd');
    assert("forward"@[0] == 'f');
    assert("archive"@[0] == 'a');
    assert("contact"@[0] == 'c');
    assert("copyaddr"@[0] == 'c');
    assert("replyall"@[0] == 'r');
    assert("scrollat"@[0] == 's');
    assert("composeto"@[0] == 'c');
    assert("senderfmt"@[0] == 's');
    assert("addcontact"@[0] == 'a');
    assert("senderinfo"@[0] == 's');
    assert("toggleread"@[0] == 't');
    assert("viewsource"@[0] == 'v');
}

#[verifier::spinoff_prover]
#[verifier::rlimit(60)]
proof fn lemma_texts(key: (u32, u32), text: Seq<char>)
    ensures
        report("copy"@, key, Some(text)) == (if text.len() > 0 {
            Some(ScriptReport::Copy(text))
        } else {
            None
        }),
        report("composeto"@, key, Some(text)) == (match address_in(Some(text)) {
            Some(t) => Some(ScriptReport::ComposeTo(t)),
            None => None,
        }),
        report("addcontact"@, key, Some(text)) == (match address_in(Some(text)) {
            Some(t) => Some(ScriptReport::AddContact(t)),
            None => None,
        }),
        report("copyaddr"@, key, Some(text)) == (match address_in(Some(text)) {
            Some(t) => Some(ScriptReport::CopyAddress(t)),
            None => None,
        }),
        report("senderinfo"@, key, Some(text)) == Some(
            ScriptReport::SenderInfo { key, numbers: split(text, 0, ',') },
        ),
        report("sel"@, key, Some(text)) == Some(ScriptReport::Select { key, mode: mode_in(Some(text)) }),
        report("size"@, key, Some(text)) == (match number_in(text) {
            Some(height) => Some(ScriptReport::Size { key, height }),
            None => None,
        }),
        report("found"@, key, Some(text)) == Some(
            ScriptReport::Found { current: found_in(Some(text)).0, total: found_in(Some(text)).1 },
        ),
        report("scrollat"@, key, Some(text)) == (match number_in(text) {
            Some(offset) => Some(ScriptReport::ScrollAt { key, offset }),
            None => None,
        }),
{
    reveal(report);
    reveal_strlit("ready");
    reveal_strlit("desel");
    reveal_strlit("selall");
    reveal_strlit("copy");
    reveal_strlit("composeto");
    reveal_strlit("addcontact");
    reveal_strlit("copyaddr");
    reveal_strlit("senderinfo");
    reveal_strlit("sel");
    reveal_strlit("size");
    reveal_strlit("open");
    reveal_strlit("seen");
    reveal_strlit("found");
    reveal_strlit("reply");
    reveal_strlit("replyall");
    reveal_strlit("forward");
    reveal_strlit("star");
    reveal_strlit("spam");
    reveal_strlit("archive");
    reveal_strlit("delete");
    reveal_strlit("toggleread");
    reveal_strlit("viewsource");
    reveal_strlit("contact");
    reveal_strlit("senderfmt");
    reveal_strlit("scrollat");
    assert("ready"@.len() == 5);
    assert("desel"@.len() == 5);
    assert("selall"@.len() == 6);
    assert("copy"@.len() == 4);
    assert("composeto"@.len() == 9);
    assert("addcontact"@.len() == 10);
    assert("copyaddr"@.len() == 8);
    assert("senderinfo"@.len() == 10);
    assert("sel"@.len() == 3);
    assert("size"@.len() == 4);
    assert("open"@.len() == 4);
    assert("seen"@.len() == 4);
    assert("found"@.len() == 5);
    assert("reply"@.len() == 5);
    assert("replyall"@.len() == 8);
    assert("forward"@.len() == 7);
    assert("star"@.len() == 4);
    assert("spam"@.len() == 4);
    assert("archive"@.len() == 7);
    assert("delete"@.len() == 6);
    assert("toggleread"@.len() == 10);
    assert("viewsource"@.len() == 10);
    assert("contact"@.len() == 7);
    assert("senderfmt"@.len() == 9);
    assert("scrollat"@.len() == 8);
    assert("copy"@[0] == 'c' && "copy"@[1] == 'o');
    assert("size"@[0] == 's' && "size"@[1] == 'i');
    assert("open"@[0] == 'o' && "open"@[1] == 'p');
    assert("seen"@[0] == 's' && "seen"@[1] == 'e');
    assert("star"@[0] == 's' && "star"@[1] == 't');
    assert("spam"@[0] == 's' && "spam"@[1] == 'p');
    assert("ready"@[2] == 'a');
    assert("desel"@[2] == 's');
    assert("found"@[2] == 'u');
    assert("reply"@[2] == 'p');
    assert("selall"@[0] == 's');
    assert("delete"@[0] == 'd');
    assert("forward"@[0] == 'f');
    assert("archive"@[0] == 'a');
    assert("contact"@[0] == 'c');
    assert("copyaddr"@[0] == 'c');
    assert("replyall"@[0] == 'r');
    assert("scrollat"@[0] == 's');
    assert("composeto"@[0] == 'c');
    assert("senderfmt"@[0] == 's');
    assert("addcontact"@[0] == 'a');
    assert("senderinfo"@[0] == 's');
    assert("toggleread"@[0] == 't');
    assert("viewsource"@[0] == 'v');
}

/// What a click on one of a card's actions posts.
pub open spec fn asks_for(verb: Seq<char>, action: RowAction) -> bool {
    ||| verb == "reply"@ && action == RowAction::Reply
    ||| verb == "replyall"@ && action == RowAction::ReplyAll
    ||| verb == "forward"@ && action == RowAction::Forward
    ||| verb == "star"@ && action == RowAction::ToggleStar
    ||| verb == "spam"@ && action == RowAction::Spam
    ||| verb == "archive"@ && action == RowAction::Archive
    ||| verb == "delete"@ && action == RowAction::Delete
    ||| verb == "toggleread"@ && action == RowAction::ToggleRead
    ||| verb == "viewsource"@ && action == RowAction::ViewSource
}

/// What is asked of a message is done to that message: each verb is read as its action.
pub proof fn actions_are_read(verb: Seq<char>, action: RowAction, key: (u32, u32))
    requires
        asks_for(verb, action),
    ensures
        parsed_report(posted(verb, key)) == Some(ScriptReport::Action { action, key }),
{
    lemma_colonless();
    posts_are_taken_apart(verb, key, seq![]);
    lemma_verbs(key, None);
}

/// What else is posted of a message is read as of that message: that it was opened or
/// seen, that its sender is to become a contact, that its own style was asked for; and that
/// the document is ready, or that all its cards or none are to be selected.
pub proof fn marks_are_read(key: (u32, u32))
    ensures
        parsed_report(posted("ready"@, key)) == Some(ScriptReport::Ready),
        parsed_report(posted("desel"@, key)) == Some(ScriptReport::ClearCards),
        parsed_report(posted("selall"@, key)) == Some(ScriptReport::SelectAll),
        parsed_report(posted("open"@, key)) == Some(ScriptReport::Open { key }),
        parsed_report(posted("seen"@, key)) == Some(ScriptReport::Seen { key }),
        parsed_report(posted("contact"@, key)) == Some(ScriptReport::Contact { key }),
        parsed_report(posted("senderfmt"@, key)) == Some(ScriptReport::SenderStyle { key }),
{
    lemma_colonless();
    lemma_verbs(key, None);
    posts_are_taken_apart("ready"@, key, seq![]);
    posts_are_taken_apart("desel"@, key, seq![]);
    posts_are_taken_apart("selall"@, key, seq![]);
    posts_are_taken_apart("open"@, key, seq![]);
    posts_are_taken_apart("seen"@, key, seq![]);
    posts_are_taken_apart("contact"@, key, seq![]);
    posts_are_taken_apart("senderfmt"@, key, seq![]);
}

/// The height of a frame and the place of the view are read as they were posted.
pub proof fn numbers_are_read(key: (u32, u32), n: u32)
    ensures
        parsed_report(posted_with("size"@, key, decimal(n as nat))) == Some(
            ScriptReport::Size { key, height: n },
        ),
        parsed_report(posted_with("scrollat"@, key, decimal(n as nat))) == Some(
            ScriptReport::ScrollAt { key, offset: n },
        ),
{
    lemma_colonless();
    lemma_texts(key, decimal(n as nat));
    decimal_reads_back(n as nat, u32::MAX as nat);
    posts_are_taken_apart("size"@, key, decimal(n as nat));
    posts_are_taken_apart("scrollat"@, key, decimal(n as nat));
}

/// How many places a search found, and which of them is shown, are read as they were
/// posted.
pub proof fn search_counts_are_read(key: (u32, u32), current: u32, total: u32)
    ensures
        parsed_report(
            posted_with("found"@, key, decimal(current as nat) + ","@ + decimal(total as nat)),
        ) == Some(ScriptReport::Found { current, total }),
{
    reveal_strlit(",");
    let a = decimal(current as nat);
    let b = decimal(total as nat);
    let text = a + ","@ + b;
    let n = text.len() as int;
    lemma_colonless();
    lemma_texts(key, text);
    posts_are_taken_apart("found"@, key, text);
    assert forall|k: int| 0 <= k < a.len() implies Class::Not(',').has(#[trigger] text[k]) by {
        lemma_decimal_digits(current as nat, k);
        assert(text[k] == a[k]);
    }
    lemma_skip_to(text, 0, a.len() as int, n, Class::Not(','));
    assert(text.subrange(0, a.len() as int) =~= a);
    assert(text.subrange(a.len() as int + 1, n) =~= b);
    decimal_reads_back(current as nat, u32::MAX as nat);
    decimal_reads_back(total as nat, u32::MAX as nat);
}

/// Text and addresses are read as they were posted, colons and all; an address without the
/// white space around it.
pub proof fn texts_are_read(key: (u32, u32), text: Seq<char>)
    requires
        trim(text).len() > 0,
    ensures
        parsed_report(posted_with("copy"@, key, text)) == Some(ScriptReport::Copy(text)),
        parsed_report(posted_with("composeto"@, key, text)) == Some(
            ScriptReport::ComposeTo(trim(text)),
        ),
        parsed_report(posted_with("addcontact"@, key, text)) == Some(
            ScriptReport::AddContact(trim(text)),
        ),
        parsed_report(posted_with("copyaddr"@, key, text)) == Some(
            ScriptReport::CopyAddress(trim(text)),
        ),
{
    lemma_colonless();
    lemma_texts(key, text);
    posts_are_taken_apart("copy"@, key, text);
    posts_are_taken_apart("composeto"@, key, text);
    posts_are_taken_apart("addcontact"@, key, text);
    posts_are_taken_apart("copyaddr"@, key, text);
    if text.len() == 0 {
        assert(trim(text).len() == 0);
    }
}

/// A click on a card is read as the kind of click it was: one that adds or takes away, one
/// that goes on to there, or a plain one.
pub proof fn clicks_are_read(key: (u32, u32), text: Seq<char>)
    ensures
        parsed_report(posted_with("sel"@, key, "t"@)) == Some(
            ScriptReport::Select { key, mode: SelectMode::Toggle },
        ),
        parsed_report(posted_with("sel"@, key, "r"@)) == Some(
            ScriptReport::Select { key, mode: SelectMode::Range },
        ),
        text != "t"@ && text != "r"@ ==> parsed_report(posted_with("sel"@, key, text)) == Some(
            ScriptReport::Select { key, mode: SelectMode::Plain },
        ),
{
    reveal_strlit("t");
    reveal_strlit("r");
    assert("t"@[0] == 't' && "r"@[0] == 'r');
    lemma_colonless();
    lemma_texts(key, "t"@);
    lemma_texts(key, "r"@);
    lemma_texts(key, text);
    posts_are_taken_apart("sel"@, key, "t"@);
    posts_are_taken_apart("sel"@, key, "r"@);
    posts_are_taken_apart("sel"@, key, text);
}

} // verus!
