//! What holds of everything that is printed.

use vstd::prelude::*;

use crate::escape::{content, plain_text_is_content};
use crate::models::Message;
use crate::print::{
    article, articles, header_from, header_row, message_header, printed_header, PrintedMessage,
    block_class, inlined, lemma_renaming_takes_letters, lemma_structural_end, page_letters, renamed, scoped_css,
    sheet_names,
};
use crate::text::{holds, lemma_holds_inside, lemma_holds_part, lemma_trim_keeps, trim, decimal, lemma_decimal_digits, lemma_tally_none, lower, tally};

verus! {

/// A tag that does not close takes nothing of the message with it: behind the last
/// closing bracket everything is kept.
pub proof fn unclosed_tags_swallow_nothing(s: Seq<char>, i: int)
    requires
        0 <= i <= s.len(),
        forall|k: int| i <= k < s.len() ==> s[k] != '>',
    ensures
        inlined(s, i) == s.subrange(i, s.len() as int),
    decreases s.len() - i,
{
    let n = s.len() as int;
    if i < n {
        lemma_structural_end(s, i);
        unclosed_tags_swallow_nothing(s, i + 1);
        assert(seq![s[i]] + s.subrange(i + 1, n) =~= s.subrange(i, n));
    } else {
        assert(inlined(s, i) =~= s.subrange(i, n));
    }
}

/// The selector of a message's block.
pub open spec fn block_selector(n: nat) -> Seq<char> {
    "."@ + block_class(n)
}

/// A block's selector holds no letter that begins `html` or `body`.
proof fn lemma_block(n: nat)
    ensures
        tally(block_selector(n), page_letters()) == 0,
{
    reveal_strlit(".");
    reveal_strlit("vireo-print-m");
    let b = block_selector(n);
    assert forall|k: int| 0 <= k < b.len() implies !page_letters().contains(lower(#[trigger] b[k])) by {
        if k >= 14 {
            lemma_decimal_digits(n, k - 14);
            assert(b[k] == decimal(n)[k - 14]);
        }
    }
    lemma_tally_none(b, page_letters());
}

proof fn lemma_scoped(s: Seq<char>, block: Seq<char>)
    requires
        tally(block, page_letters()) == 0,
    ensures
        sheet_names(scoped_css(s, block)).len() == 0,
    decreases tally(s, page_letters()),
{
    if sheet_names(s).len() > 0 {
        lemma_renaming_takes_letters(s, block);
        lemma_scoped(renamed(s, 0, sheet_names(s), block), block);
    }
}

/// One message cannot restyle the whole printout: in none of its stylesheets, whatever
/// comments, strings and braces they hold, does a rule's selector name the page any more,
/// neither as `html` nor as `body`.
pub proof fn scoped_sheets_name_no_page(s: Seq<char>, n: nat)
    ensures
        sheet_names(scoped_css(s, block_selector(n))).len() == 0,
{
    lemma_block(n);
    lemma_scoped(s, block_selector(n));
}

/// Stylesheets whose rules do not name the page stay as they are.
pub proof fn other_sheets_stay(s: Seq<char>, block: Seq<char>)
    requires
        sheet_names(s).len() == 0,
    ensures
        scoped_css(s, block) == s,
{
}

// ----- Headers -----

/// The text of a row of the printed header.
pub open spec fn row_text(label: Seq<char>, value: Seq<char>) -> Seq<char> {
    "<span class=\"vireo-print-label\">"@ + label + "</span> "@ + content(value) + "</div>"@
}

proof fn lemma_row(label: Seq<char>, value: Seq<char>, a: Seq<char>, b: Seq<char>)
    requires
        trim(value).len() > 0,
        content(label) == label,
    ensures
        holds(a + header_row(label, value) + b, row_text(label, value)),
{
    reveal_strlit("<div class=\"vireo-print-row\"><span class=\"vireo-print-label\">");
    reveal_strlit("<span class=\"vireo-print-label\">");
    reveal_strlit("<div class=\"vireo-print-row\">");
    let open = "<div class=\"vireo-print-row\">"@;
    let row = header_row(label, value);
    let text = row_text(label, value);
    assert(row =~= open + text + seq![]);
    lemma_holds_part(open, text, seq![]);
    lemma_holds_inside(a, row, b, text);
}

proof fn lemma_labels()
    ensures
        content("From:"@) == "From:"@,
        content("To:"@) == "To:"@,
        content("Cc:"@) == "Cc:"@,
        content("Date:"@) == "Date:"@,
{
    reveal_strlit("From:");
    reveal_strlit("To:");
    reveal_strlit("Cc:");
    reveal_strlit("Date:");
    plain_text_is_content("From:"@);
    plain_text_is_content("To:"@);
    plain_text_is_content("Cc:"@);
    plain_text_is_content("Date:"@);
}

/// Whether the printed header has a row with this label and this text.
pub open spec fn has_row(m: &Message, date: Seq<char>, label: Seq<char>, value: Seq<char>) -> bool {
    holds(printed_header(m, date), row_text(label, value))
}

proof fn lemma_rows(m: &Message, date: Seq<char>)
    ensures
        trim(header_from(m)).len() > 0 ==> has_row(m, date, "From:"@, header_from(m)),
        trim(m.to@).len() > 0 ==> has_row(m, date, "To:"@, m.to@),
        trim(m.cc@).len() > 0 ==> has_row(m, date, "Cc:"@, m.cc@),
        trim(date).len() > 0 ==> has_row(m, date, "Date:"@, date),
{
    lemma_labels();
    let subject = if trim(m.subject@).len() == 0 {
        "(no subject)"@
    } else {
        m.subject@
    };
    let top = "<div class=\"vireo-print-hdr\"><div class=\"vireo-print-subject\">"@ + content(subject)
        + "</div>"@;
    let from = header_row("From:"@, header_from(m));
    let to = header_row("To:"@, m.to@);
    let cc = header_row("Cc:"@, m.cc@);
    let when = header_row("Date:"@, date);
    let end = "</div>"@;
    let all = printed_header(m, date);
    assert(all =~= top + from + (to + cc + when + end));
    assert(all =~= (top + from) + to + (cc + when + end));
    assert(all =~= (top + from + to) + cc + (when + end));
    assert(all =~= (top + from + to + cc) + when + end);
    if trim(header_from(m)).len() > 0 {
        lemma_row("From:"@, header_from(m), top, to + cc + when + end);
    }
    if trim(m.to@).len() > 0 {
        lemma_row("To:"@, m.to@, top + from, cc + when + end);
    }
    if trim(m.cc@).len() > 0 {
        lemma_row("Cc:"@, m.cc@, top + from + to, when + end);
    }
    if trim(date).len() > 0 {
        lemma_row("Date:"@, date, top + from + to + cc, end);
    }
}

/// The printed header says who wrote the message, in the row of that name: the name and
/// the address, or the one of them that is there.
pub proof fn paper_says_who_wrote(m: &Message, date: Seq<char>)
    ensures
        ({
            let name = trim(m.from_name@).len() > 0;
            let addr = trim(m.from_addr@).len() > 0;
            &&& name && addr && m.from_name@ != m.from_addr@ ==> has_row(
                m,
                date,
                "From:"@,
                m.from_name@ + " <"@ + m.from_addr@ + ">"@,
            )
            &&& addr && (!name || m.from_name@ == m.from_addr@) ==> has_row(
                m,
                date,
                "From:"@,
                m.from_addr@,
            )
            &&& name && !addr ==> has_row(m, date, "From:"@, m.from_name@)
        }),
{
    lemma_rows(m, date);
    reveal_strlit(">");
    let both = m.from_name@ + " <"@ + m.from_addr@ + ">"@;
    lemma_trim_keeps(both, both.len() - 1);
}

/// The printed header says to whom the message went: its recipients in the row of that
/// name, those of a copy in theirs.
pub proof fn paper_says_to_whom(m: &Message, date: Seq<char>)
    ensures
        trim(m.to@).len() > 0 ==> has_row(m, date, "To:"@, m.to@),
        trim(m.cc@).len() > 0 ==> has_row(m, date, "Cc:"@, m.cc@),
{
    lemma_rows(m, date);
}

/// The printed header says what the message is about and when it was sent.
pub proof fn paper_says_what_and_when(m: &Message, date: Seq<char>)
    ensures
        trim(date).len() > 0 ==> has_row(m, date, "Date:"@, date),
        ({
            let about = if trim(m.subject@).len() > 0 {
                m.subject@
            } else {
                "(no subject)"@
            };
            holds(
                printed_header(m, date),
                "<div class=\"vireo-print-subject\">"@ + content(about) + "</div>"@,
            )
        }),
{
    lemma_rows(m, date);
    reveal_strlit("<div class=\"vireo-print-hdr\"><div class=\"vireo-print-subject\">");
    reveal_strlit("<div class=\"vireo-print-hdr\">");
    reveal_strlit("<div class=\"vireo-print-subject\">");
    let about = if trim(m.subject@).len() > 0 {
        m.subject@
    } else {
        "(no subject)"@
    };
    let open = "<div class=\"vireo-print-hdr\">"@;
    let line = "<div class=\"vireo-print-subject\">"@ + content(about) + "</div>"@;
    let rest = header_row("From:"@, header_from(m)) + header_row("To:"@, m.to@) + header_row(
        "Cc:"@,
        m.cc@,
    ) + header_row("Date:"@, date) + "</div>"@;
    lemma_holds_part(open, line, rest);
    assert(printed_header(m, date) =~= open + line + rest);
}

/// In a printed conversation each message says who wrote it and when: name, address and
/// date, in this order and each as it stands.
pub proof fn each_printed_message_says_who(m: &Message, date: Seq<char>)
    requires
        trim(m.from_name@).len() > 0,
        m.from_addr@.len() > 0,
    ensures
        message_header(m, date) == "<div class=\"vireo-print-msghdr\">"@ + content(m.from_name@)
            + " &lt;"@ + content(m.from_addr@) + "&gt; — "@ + content(date) + "</div>"@,
{
    reveal_strlit("&gt; — ");
    reveal_strlit("&gt;");
    reveal_strlit(" — ");
    assert("&gt; — "@ =~= "&gt;"@ + " — "@);
    assert(message_header(m, date) =~= "<div class=\"vireo-print-msghdr\">"@ + content(m.from_name@)
        + " &lt;"@ + content(m.from_addr@) + "&gt; — "@ + content(date) + "</div>"@);
}

/// A printed conversation holds every message, each in a block of its own with its own
/// header, behind those before it.
pub proof fn every_message_is_printed(messages: Seq<PrintedMessage>, n: nat, k: int)
    requires
        n <= messages.len(),
        0 <= k < n,
    ensures
        ({
            let before = articles(messages, k as nat);
            let head = "<article class=\"vireo-print-msg vireo-print-m"@ + decimal(k as nat) + "\">"@
                + messages[k].head@;
            articles(messages, n).subrange(0, (before.len() + head.len()) as int) == before + head
        }),
        articles(messages, k as nat).len() < articles(messages, n).len(),
    decreases n,
{
    let before = articles(messages, k as nat);
    let head = "<article class=\"vireo-print-msg vireo-print-m"@ + decimal(k as nat) + "\">"@
        + messages[k].head@;
    let all = articles(messages, n);
    let less = articles(messages, (n - 1) as nat);
    let m = messages[n - 1];
    let last = article((n - 1) as nat, m.head@, m.doc@);
    assert(all == less + last);
    reveal_strlit("<article class=\"vireo-print-msg ");
    if k == n - 1 {
        reveal_strlit("<article class=\"vireo-print-msg vireo-print-m");
        reveal_strlit("vireo-print-m");
        assert("<article class=\"vireo-print-msg vireo-print-m"@
            =~= "<article class=\"vireo-print-msg "@ + "vireo-print-m"@);
        assert(last.subrange(0, head.len() as int) =~= head);
        assert(all.subrange(0, (before.len() + head.len()) as int) =~= before + head);
    } else {
        every_message_is_printed(messages, (n - 1) as nat, k);
        assert(less.subrange(0, (before.len() + head.len()) as int).len() == before.len() + head.len());
        lemma_grows(messages, (n - 1) as nat, k);
        assert(all.subrange(0, (before.len() + head.len()) as int) =~= less.subrange(
            0,
            (before.len() + head.len()) as int,
        ));
    }
}

proof fn lemma_grows(messages: Seq<PrintedMessage>, n: nat, k: int)
    requires
        n <= messages.len(),
        0 <= k < n,
    ensures
        articles(messages, k as nat).len() + ("<article class=\"vireo-print-msg vireo-print-m"@ + decimal(
            k as nat,
        ) + "\">"@ + messages[k].head@).len() <= articles(messages, n).len(),
    decreases n,
{
    reveal_strlit("<article class=\"vireo-print-msg ");
    reveal_strlit("<article class=\"vireo-print-msg vireo-print-m");
    reveal_strlit("vireo-print-m");
    if k < n - 1 {
        lemma_grows(messages, (n - 1) as nat, k);
    }
}

} // verus!
