//! What holds of every frame.

use vstd::prelude::*;

use crate::colors::adapted;
use crate::frame::{
    bare_document, body_document, frame_document, head_meta, last_word, styled, with_head,
};
use crate::markup::{
    head_place, head_stays_open, lemma_ending, nothing_but_ends, root_gets_a_head, root_place,
    written_head,
};
use crate::reader_style::{style_rules, ReaderStyle};
use crate::remote::remote_places;
use crate::schemes::pinned;
use crate::stripping::stripped_fetches_nothing;
use crate::text::stands_at;

verus! {

// ----- The content policy -----

proof fn lemma_stands_between(a: Seq<char>, b: Seq<char>, c: Seq<char>)
    ensures
        stands_at(a + b + c, b, a.len() as int),
{
    assert((a + b + c).subrange(a.len() as int, (a.len() + b.len()) as int) =~= b);
}

/// Whether the text stands at the beginning of the document's head.
pub open spec fn heads(doc: Seq<char>, meta: Seq<char>) -> bool {
    match head_place(doc) {
        Some(at) => stands_at(doc, meta, at),
        None => false,
    }
}

/// What is put into the head of a document stands at the beginning of its head, whatever
/// the document.
pub proof fn head_is_carried(html: Seq<char>, meta: Seq<char>)
    ensures
        heads(with_head(html, meta), meta),
{
    let n = html.len() as int;
    match head_place(html) {
        Some(at) => {
            head_stays_open(html, meta);
            lemma_stands_between(html.subrange(0, at), meta, html.subrange(at, n));
        },
        None => match root_place(html) {
            Some(at) => {
                let more = meta + "</head>"@;
                root_gets_a_head(html, more);
                let doc = with_head(html, meta);
                assert(doc =~= html.subrange(0, at) + "<head>"@ + more + html.subrange(at, n));
                reveal_strlit("<head>");
                assert(doc.subrange(at + 6, at + 6 + meta.len()) =~= meta);
            },
            None => {
                let a = "<!doctype html><html><head>"@;
                let tail = "</head><body>"@ + html + "</body></html>"@;
                lemma_stands_between(a, meta, tail);
                assert(a + meta + tail =~= a + meta + "</head><body>"@ + html + "</body></html>"@);
                written_head(meta + tail);
                assert(a + (meta + tail) =~= a + meta + tail);
                reveal_strlit("<!doctype html><html><head>");
            },
        },
    }
}

/// Blocking follows the reader's choice: a frame that was built while remote content was
/// not permitted has the policy that forbids it at the beginning of its head, whatever
/// was found in the message.
pub proof fn frame_carries_its_policy(
    body: Seq<char>,
    restrict: bool,
    dark: bool,
    style: &ReaderStyle,
    accent: Seq<char>,
    colors: Seq<Option<Seq<char>>>,
)
    ensures
        heads(
            frame_document(body, restrict, dark, style, accent, colors),
            head_meta(!restrict, dark),
        ),
{
    let bare = bare_document(body, restrict);
    let coloured = if dark && !style.colors {
        adapted(bare, colors)
    } else {
        bare
    };
    let settled = pinned(coloured, dark);
    let over = styled(settled, style_rules(style, dark, accent, ":root"@));
    head_is_carried(over, head_meta(!restrict, dark));
}

/// While remote content is not permitted, a message's document has nothing to fetch.
pub proof fn restricted_documents_fetch_nothing(body: Seq<char>)
    ensures
        remote_places(bare_document(body, true)).len() == 0,
{
    stripped_fetches_nothing(body_document(body));
}

/// Without fonts or colours of the reader's own, a document gets no stylesheet of theirs.
pub proof fn no_style_changes_nothing(doc: Seq<char>, style: &ReaderStyle, dark: bool, accent: Seq<char>, scope: Seq<char>)
    requires
        style.font is None,
        !style.colors,
    ensures
        styled(doc, style_rules(style, dark, accent, scope)) == doc,
{
}

/// A stylesheet that is laid over a document keeps all of it, and stands behind
/// everything that it holds: nothing follows but the closing tags of the document and its
/// body, white space, comments and a tag that does not close.
pub proof fn style_is_the_last_word(doc: Seq<char>, css: Seq<char>)
    requires
        css.len() > 0,
    ensures
        ({
            let at = last_word(doc);
            let sheet = "<style>"@ + css + "</style>"@;
            &&& 0 <= at <= doc.len()
            &&& styled(doc, css).subrange(0, at) == doc.subrange(0, at)
            &&& styled(doc, css).subrange(at, at + sheet.len()) == sheet
            &&& styled(doc, css).subrange(at + sheet.len(), styled(doc, css).len() as int)
                == doc.subrange(at, doc.len() as int)
            &&& nothing_but_ends(doc, at)
        }),
{
    let at = last_word(doc);
    let sheet = "<style>"@ + css + "</style>"@;
    let out = styled(doc, css);
    lemma_ending(doc, 0, None);
    assert(out.subrange(0, at) =~= doc.subrange(0, at));
    assert(out.subrange(at, at + sheet.len()) =~= sheet);
    assert(out.subrange(at + sheet.len(), out.len() as int) =~= doc.subrange(at, doc.len() as int));
}

} // verus!
