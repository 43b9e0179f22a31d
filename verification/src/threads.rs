//! Conversations: messages that answer one another, found by their reply headers.

use std::collections::HashMap;

use vstd::hash_map::StringHashMap;
use vstd::prelude::*;

use crate::models::{mails, message_key, packed, packed_keys_differ, Mail, Message};
use crate::text::{
    chars_of, copy_of, decimal, decimal_string, decimals_differ, is_digit, lemma_decimal_digits,
    lemma_skip, skip, skip_over, string_of, texts, Class,
};
use vstd::slice::slice_subrange;

verus! {

broadcast use vstd::std_specs::hash::group_hash_axioms;

// ----- What links messages -----

/// The words of a text: what stands between white space.
pub open spec fn words(s: Seq<char>, i: int) -> Seq<Seq<char>>
    decreases s.len() - i,
    when 0 <= i
    via words_end
{
    let a = skip(s, i, s.len() as int, Class::Blank);
    let b = skip(s, a, s.len() as int, Class::NotBlank);
    if a >= s.len() {
        seq![]
    } else {
        seq![s.subrange(a, b)] + words(s, b)
    }
}

#[via_fn]
proof fn words_end(s: Seq<char>, i: int) {
    lemma_word(s, i);
}

proof fn lemma_word(s: Seq<char>, i: int)
    requires
        0 <= i,
    ensures
        ({
            let a = skip(s, i, s.len() as int, Class::Blank);
            let b = skip(s, a, s.len() as int, Class::NotBlank);
            i <= a && (a < s.len() ==> a < b <= s.len())
        }),
{
    let n = s.len() as int;
    let a = skip(s, i, n, Class::Blank);
    lemma_skip(s, i, n, Class::Blank);
    lemma_skip(s, a, n, Class::NotBlank);
    lemma_skip(s, a + 1, n, Class::NotBlank);
}

fn split_words(s: &[char]) -> (out: Vec<String>)
    ensures
        texts(out@) == words(s@, 0),
{
    let mut out: Vec<String> = Vec::new();
    let n = s.len();
    let mut i: usize = 0;
    proof {
        assert(texts(out@) + words(s@, 0) =~= words(s@, 0));
    }
    loop
        invariant
            i <= n,
            n == s.len(),
            texts(out@) + words(s@, i as int) == words(s@, 0),
        decreases n - i,
    {
        proof {
            lemma_word(s@, i as int);
        }
        let a = skip_over(s, i, n, Class::Blank);
        if a >= n {
            proof {
                assert(texts(out@) + seq![] =~= texts(out@));
            }
            return out;
        }
        let b = skip_over(s, a, n, Class::NotBlank);
        let ghost had = texts(out@);
        let word = string_of(slice_subrange(s, a, b));
        out.push(word);
        proof {
            let here = seq![s@.subrange(a as int, b as int)];
            assert(texts(out@) =~= had + here);
            let rest = words(s@, b as int);
            assert((had + here) + rest =~= had + (here + rest));
        }
        i = b;
    }
}

/// A knot in the web of replies, within its account: what a Message-ID names, or a
/// message that has none, by its number.
pub enum Node {
    Named { account_id: u32, id: Seq<char> },
    Nameless { account_id: u32, number: u32 },
}

/// The knot of a message. One without a Message-ID has a knot to itself, so that it is
/// only linked by what it refers to.
pub open spec fn node(m: Mail) -> Node {
    if m.message_id.len() == 0 {
        Node::Nameless { account_id: m.account_id, number: m.id }
    } else {
        Node::Named { account_id: m.account_id, id: m.message_id }
    }
}

/// A knot's name. Behind the account's number stands another mark for a message
/// without a Message-ID than for all that has one, so that no Message-ID, whatever it
/// holds, makes the name of such a message.
pub open spec fn name(x: Node) -> Seq<char> {
    match x {
        Node::Named { account_id, id } => decimal(account_id as nat) + "\0"@ + id,
        Node::Nameless { account_id, number } => decimal(account_id as nat) + " "@ + decimal(
            number as nat,
        ),
    }
}

/// The name of a message in the web of replies, within its account.
pub open spec fn own_name(m: Mail) -> Seq<char> {
    name(node(m))
}

/// The name of what a message refers to, within its account.
pub open spec fn name_of(m: Mail, reference: Seq<char>) -> Seq<char> {
    name(Node::Named { account_id: m.account_id, id: reference })
}

/// A link between two names.
pub type Link = (Seq<char>, Seq<char>);

/// The links of one message: from it to each of the messages that it refers to.
pub open spec fn links_of(m: Mail) -> Seq<Link> {
    words(m.references, 0).map_values(|r: Seq<char>| (own_name(m), name_of(m, r)))
}

/// The links of the messages, in order.
pub open spec fn links(msgs: Seq<Mail>) -> Seq<Link>
    decreases msgs.len(),
{
    if msgs.len() == 0 {
        seq![]
    } else {
        links(msgs.drop_last()) + links_of(msgs.last())
    }
}

/// Who leads a name's conversation once the links are made: everybody leads their own,
/// until a link puts the leader of its first name under the leader of its second.
pub open spec fn leader(made: Seq<Link>, x: Seq<char>) -> Seq<char>
    decreases made.len(),
{
    if made.len() == 0 {
        x
    } else {
        let before = made.drop_last();
        let l = made.last();
        if leader(before, x) == leader(before, l.0) {
            leader(before, l.1)
        } else {
            leader(before, x)
        }
    }
}

/// What names a conversation: the account, and the leader's name.
pub open spec fn thread_key(msgs: Seq<Mail>, m: Mail) -> (u32, Seq<char>) {
    (m.account_id, leader(links(msgs), own_name(m)))
}

// ----- What that means -----

/// Whether one link joins the two names, whichever way it goes.
pub open spec fn linked(made: Seq<Link>, x: Seq<char>, y: Seq<char>) -> bool {
    made.contains((x, y)) || made.contains((y, x))
}

/// Whether the names lead from the first to the last, each linked with the next.
pub open spec fn is_path(made: Seq<Link>, path: Seq<Seq<char>>) -> bool {
    &&& path.len() > 0
    &&& forall|k: int| 0 <= k < path.len() - 1 ==> linked(made, #[trigger] path[k], path[k + 1])
}

/// Whether a chain of links joins the two names.
pub open spec fn joined(made: Seq<Link>, x: Seq<char>, y: Seq<char>) -> bool {
    exists|path: Seq<Seq<char>>|
        #[trigger] is_path(made, path) && path[0] == x && path.last() == y
}

/// Linked names have one leader.
proof fn lemma_linked_share(made: Seq<Link>, x: Seq<char>, y: Seq<char>)
    requires
        linked(made, x, y),
    ensures
        leader(made, x) == leader(made, y),
    decreases made.len(),
{
    if made.len() > 0 {
        let before = made.drop_last();
        if made.last() == (x, y) || made.last() == (y, x) {
        } else {
            assert(linked(before, x, y)) by {
                if made.contains((x, y)) {
                    let i = choose|i: int| 0 <= i < made.len() && made[i] == (x, y);
                    assert(before[i] == (x, y));
                } else {
                    let i = choose|i: int| 0 <= i < made.len() && made[i] == (y, x);
                    assert(before[i] == (y, x));
                }
            }
            lemma_linked_share(before, x, y);
        }
    }
}

/// All names of a path have one leader.
proof fn lemma_path_shares(made: Seq<Link>, path: Seq<Seq<char>>)
    requires
        is_path(made, path),
    ensures
        leader(made, path[0]) == leader(made, path.last()),
    decreases path.len(),
{
    if path.len() > 1 {
        let rest = path.drop_first();
        assert(linked(made, path[0], path[1]));
        lemma_linked_share(made, path[0], path[1]);
        assert forall|k: int| 0 <= k < rest.len() - 1 implies linked(
            made,
            #[trigger] rest[k],
            rest[k + 1],
        ) by {
            assert(linked(made, path[k + 1], path[k + 2]));
        }
        lemma_path_shares(made, rest);
    }
}

proof fn lemma_joined_trans(made: Seq<Link>, x: Seq<char>, y: Seq<char>, z: Seq<char>)
    requires
        joined(made, x, y),
        joined(made, y, z),
    ensures
        joined(made, x, z),
{
    let p = choose|path: Seq<Seq<char>>|
        #[trigger] is_path(made, path) && path[0] == x && path.last() == y;
    let q = choose|path: Seq<Seq<char>>|
        #[trigger] is_path(made, path) && path[0] == y && path.last() == z;
    let r = p + q.drop_first();
    assert forall|k: int| 0 <= k < r.len() - 1 implies linked(made, #[trigger] r[k], r[k + 1]) by {
        if k < p.len() - 1 {
            assert(linked(made, p[k], p[k + 1]));
        } else {
            let j = k - (p.len() - 1);
            assert(r[k] == q[j]);
            assert(r[k + 1] == q[j + 1]);
            assert(linked(made, q[j], q[j + 1]));
        }
    }
    assert(is_path(made, r));
    assert(r[0] == x);
    assert(r.last() == z) by {
        if q.len() == 1 {
            assert(r =~= p);
        }
    }
}

proof fn lemma_joined_sym(made: Seq<Link>, x: Seq<char>, y: Seq<char>)
    requires
        joined(made, x, y),
    ensures
        joined(made, y, x),
{
    let p = choose|path: Seq<Seq<char>>|
        #[trigger] is_path(made, path) && path[0] == x && path.last() == y;
    let r = p.reverse();
    assert forall|k: int| 0 <= k < r.len() - 1 implies linked(made, #[trigger] r[k], r[k + 1]) by {
        let j = p.len() - 2 - k;
        assert(r[k] == p[j + 1] && r[k + 1] == p[j]);
        assert(linked(made, p[j], p[j + 1]));
    }
    assert(is_path(made, r));
}

proof fn lemma_joined_grows(made: Seq<Link>, l: Link, x: Seq<char>, y: Seq<char>)
    requires
        joined(made, x, y),
    ensures
        joined(made.push(l), x, y),
{
    let p = choose|path: Seq<Seq<char>>|
        #[trigger] is_path(made, path) && path[0] == x && path.last() == y;
    let more = made.push(l);
    assert forall|k: int| 0 <= k < p.len() - 1 implies linked(more, #[trigger] p[k], p[k + 1]) by {
        assert(linked(made, p[k], p[k + 1]));
        if made.contains((p[k], p[k + 1])) {
            let i = choose|i: int| 0 <= i < made.len() && made[i] == (p[k], p[k + 1]);
            assert(more[i] == (p[k], p[k + 1]));
        } else {
            let i = choose|i: int| 0 <= i < made.len() && made[i] == (p[k + 1], p[k]);
            assert(more[i] == (p[k + 1], p[k]));
        }
    }
    assert(is_path(more, p));
}

/// Everybody is joined with their leader.
proof fn lemma_joined_with_leader(made: Seq<Link>, x: Seq<char>)
    ensures
        joined(made, x, leader(made, x)),
    decreases made.len(),
{
    if made.len() == 0 {
        let p = seq![x];
        assert(is_path(made, p));
        assert(p[0] == x && p.last() == x);
    } else {
        let before = made.drop_last();
        let l = made.last();
        assert(before.push(l) =~= made);
        lemma_joined_with_leader(before, x);
        lemma_joined_grows(before, l, x, leader(before, x));
        if leader(before, x) == leader(before, l.0) {
            // x, its leader, the link's first name, its second name, that one's leader.
            lemma_joined_with_leader(before, l.0);
            lemma_joined_grows(before, l, l.0, leader(before, l.0));
            lemma_joined_sym(made, l.0, leader(before, l.0));
            lemma_joined_trans(made, x, leader(before, x), l.0);
            let p = seq![l.0, l.1];
            assert(made[made.len() - 1] == (l.0, l.1));
            assert(linked(made, l.0, l.1));
            assert(is_path(made, p));
            assert(p[0] == l.0 && p.last() == l.1);
            assert(joined(made, l.0, l.1));
            lemma_joined_trans(made, x, l.0, l.1);
            lemma_joined_with_leader(before, l.1);
            lemma_joined_grows(before, l, l.1, leader(before, l.1));
            lemma_joined_trans(made, x, l.1, leader(before, l.1));
        }
    }
}

/// Two names have one leader if and only if a chain of links joins them.
pub proof fn one_leader_iff_joined(made: Seq<Link>, x: Seq<char>, y: Seq<char>)
    ensures
        leader(made, x) == leader(made, y) <==> joined(made, x, y),
{
    if leader(made, x) == leader(made, y) {
        lemma_joined_with_leader(made, x);
        lemma_joined_with_leader(made, y);
        lemma_joined_sym(made, y, leader(made, y));
        lemma_joined_trans(made, x, leader(made, x), y);
    }
    if joined(made, x, y) {
        let p = choose|path: Seq<Seq<char>>|
            #[trigger] is_path(made, path) && path[0] == x && path.last() == y;
        lemma_path_shares(made, p);
    }
}

/// Two messages are of one conversation if and only if they are of one account and a
/// chain of replies joins them.
pub proof fn one_thread_iff_joined(msgs: Seq<Mail>, a: Mail, b: Mail)
    ensures
        thread_key(msgs, a) == thread_key(msgs, b) <==> a.account_id == b.account_id && joined(
            links(msgs),
            own_name(a),
            own_name(b),
        ),
{
    one_leader_iff_joined(links(msgs), own_name(a), own_name(b));
}

/// A message without a reply relationship is a conversation of its own: where no link
/// names it, it shares its leader with nobody.
pub proof fn unlinked_stands_alone(made: Seq<Link>, x: Seq<char>, y: Seq<char>)
    requires
        forall|l: Link| #[trigger] made.contains(l) ==> l.0 != x && l.1 != x,
        leader(made, x) == leader(made, y),
    ensures
        x == y,
{
    one_leader_iff_joined(made, x, y);
    let p = choose|path: Seq<Seq<char>>|
        #[trigger] is_path(made, path) && path[0] == x && path.last() == y;
    if p.len() > 1 {
        assert(linked(made, p[0], p[1]));
        assert(made.contains((p[0], p[1])) || made.contains((p[1], p[0])));
    }
}

/// What stands behind the digits tells where they end.
proof fn lemma_digits_part(a: nat, b: nat, x: Seq<char>, y: Seq<char>)
    requires
        decimal(a) + x == decimal(b) + y,
        x.len() > 0,
        y.len() > 0,
        !is_digit(x[0]),
        !is_digit(y[0]),
    ensures
        a == b,
        x == y,
{
    let p = decimal(a);
    let q = decimal(b);
    let whole = p + x;
    if p.len() < q.len() {
        lemma_decimal_digits(b, p.len() as int);
        assert(whole[p.len() as int] == x[0]);
        assert((q + y)[p.len() as int] == q[p.len() as int]);
    }
    if q.len() < p.len() {
        lemma_decimal_digits(a, q.len() as int);
        assert((q + y)[q.len() as int] == y[0]);
        assert(whole[q.len() as int] == p[q.len() as int]);
    }
    assert(p =~= q) by {
        assert(whole.subrange(0, p.len() as int) =~= p);
        assert((q + y).subrange(0, q.len() as int) =~= q);
    }
    decimals_differ(a, b);
    assert(x =~= y) by {
        assert(whole.subrange(p.len() as int, whole.len() as int) =~= x);
        assert((q + y).subrange(q.len() as int, (q + y).len() as int) =~= y);
    }
}

/// Different knots have different names.
pub proof fn names_differ(x: Node, y: Node)
    ensures
        name(x) == name(y) <==> x == y,
{
    if name(x) == name(y) {
        reveal_strlit("\0");
        reveal_strlit(" ");
        let (a, p, u) = match x {
            Node::Named { account_id, id } => (account_id as nat, "\0"@, id),
            Node::Nameless { account_id, number } => (
                account_id as nat,
                " "@,
                decimal(number as nat),
            ),
        };
        let (b, q, v) = match y {
            Node::Named { account_id, id } => (account_id as nat, "\0"@, id),
            Node::Nameless { account_id, number } => (
                account_id as nat,
                " "@,
                decimal(number as nat),
            ),
        };
        assert(decimal(a) + p + u =~= decimal(a) + (p + u));
        assert(decimal(b) + q + v =~= decimal(b) + (q + v));
        lemma_digits_part(a, b, p + u, q + v);
        assert((p + u)[0] == p[0]);
        assert((q + v)[0] == q[0]);
        assert(u =~= v) by {
            assert((p + u).subrange(1, (p + u).len() as int) =~= u);
            assert((q + v).subrange(1, (q + v).len() as int) =~= v);
        }
        if x is Nameless {
            decimals_differ(x->number as nat, y->number as nat);
        }
    }
}

/// Whether one of the messages has the first knot and refers to the second.
pub open spec fn refers(msgs: Seq<Mail>, x: Node, y: Node) -> bool {
    exists|i: int, r: Seq<char>|
        {
            &&& 0 <= i < msgs.len()
            &&& #[trigger] words(msgs[i].references, 0).contains(r)
            &&& x == node(msgs[i])
            &&& y == (Node::Named { account_id: msgs[i].account_id, id: r })
        }
}

/// Whether the knots form a chain of replies: of any two neighbours a message with the
/// one refers to the other.
pub open spec fn is_chain(msgs: Seq<Mail>, chain: Seq<Node>) -> bool {
    &&& chain.len() > 0
    &&& forall|k: int|
        0 <= k < chain.len() - 1 ==> refers(msgs, #[trigger] chain[k], chain[k + 1]) || refers(
            msgs,
            chain[k + 1],
            chain[k],
        )
}

/// Whether a chain of replies joins the two knots.
pub open spec fn chained(msgs: Seq<Mail>, x: Node, y: Node) -> bool {
    exists|chain: Seq<Node>|
        #[trigger] is_chain(msgs, chain) && chain[0] == x && chain.last() == y
}

/// The links are what the messages refer to.
proof fn lemma_links(msgs: Seq<Mail>, l: Link)
    requires
        links(msgs).contains(l),
    ensures
        exists|x: Node, y: Node| #[trigger]
            refers(msgs, x, y) && l == (name(x), name(y)),
    decreases msgs.len(),
{
    if msgs.len() > 0 {
        let before = msgs.drop_last();
        let m = msgs.last();
        let k = choose|k: int| 0 <= k < links(msgs).len() && links(msgs)[k] == l;
        if k < links(before).len() {
            assert(links(before)[k] == l);
            lemma_links(before, l);
            let (x, y) = choose|x: Node, y: Node| #[trigger]
                refers(before, x, y) && l == (name(x), name(y));
            let (i, r) = choose|i: int, r: Seq<char>|
                {
                    &&& 0 <= i < before.len()
                    &&& #[trigger] words(before[i].references, 0).contains(r)
                    &&& x == node(before[i])
                    &&& y == (Node::Named { account_id: before[i].account_id, id: r })
                };
            assert(msgs[i] == before[i]);
            assert(words(msgs[i].references, 0).contains(r));
            assert(refers(msgs, x, y));
        } else {
            let j = k - links(before).len();
            assert(links_of(m)[j] == l);
            let r = words(m.references, 0)[j];
            let x = node(m);
            let y = Node::Named { account_id: m.account_id, id: r };
            assert(msgs[msgs.len() - 1] == m);
            assert(words(msgs[msgs.len() - 1].references, 0).contains(r));
            assert(refers(msgs, x, y));
        }
    }
}

proof fn lemma_refers_links(msgs: Seq<Mail>, x: Node, y: Node)
    requires
        refers(msgs, x, y),
    ensures
        links(msgs).contains((name(x), name(y))),
    decreases msgs.len(),
{
    let (i, r) = choose|i: int, r: Seq<char>|
        {
            &&& 0 <= i < msgs.len()
            &&& #[trigger] words(msgs[i].references, 0).contains(r)
            &&& x == node(msgs[i])
            &&& y == (Node::Named { account_id: msgs[i].account_id, id: r })
        };
    let before = msgs.drop_last();
    let m = msgs.last();
    let l = (name(x), name(y));
    if i < before.len() {
        assert(before[i] == msgs[i]);
        assert(words(before[i].references, 0).contains(r));
        assert(refers(before, x, y));
        lemma_refers_links(before, x, y);
        let k = choose|k: int| 0 <= k < links(before).len() && links(before)[k] == l;
        assert(links(msgs)[k] == l);
    } else {
        let j = choose|j: int|
            0 <= j < words(m.references, 0).len() && words(m.references, 0)[j] == r;
        assert(links_of(m)[j] == l);
        assert(links(msgs)[links(before).len() + j] == l);
    }
}

/// A path of names from a knot's name on is a chain from that knot on.
proof fn lemma_path_is_chain(msgs: Seq<Mail>, path: Seq<Seq<char>>, x: Node, y: Node)
    requires
        is_path(links(msgs), path),
        path[0] == name(x),
        path.last() == name(y),
    ensures
        chained(msgs, x, y),
    decreases path.len(),
{
    names_differ(x, y);
    if path.len() == 1 {
        let c = seq![x];
        assert(is_chain(msgs, c));
        assert(c[0] == x && c.last() == y);
    } else {
        let made = links(msgs);
        assert(linked(made, path[0], path[1]));
        let l = if made.contains((path[0], path[1])) {
            (path[0], path[1])
        } else {
            (path[1], path[0])
        };
        lemma_links(msgs, l);
        let (u, v) = choose|u: Node, v: Node| #[trigger]
            refers(msgs, u, v) && l == (name(u), name(v));
        let z = if made.contains((path[0], path[1])) {
            names_differ(u, x);
            v
        } else {
            names_differ(v, x);
            u
        };
        let rest = path.drop_first();
        assert forall|k: int| 0 <= k < rest.len() - 1 implies linked(
            made,
            #[trigger] rest[k],
            rest[k + 1],
        ) by {
            assert(linked(made, path[k + 1], path[k + 2]));
        }
        lemma_path_is_chain(msgs, rest, z, y);
        let c = choose|c: Seq<Node>| #[trigger] is_chain(msgs, c) && c[0] == z && c.last() == y;
        let d = seq![x] + c;
        assert forall|k: int| 0 <= k < d.len() - 1 implies refers(msgs, #[trigger] d[k], d[k + 1])
            || refers(msgs, d[k + 1], d[k]) by {
            if k > 0 {
                assert(d[k] == c[k - 1] && d[k + 1] == c[k]);
                assert(refers(msgs, c[k - 1], c[k]) || refers(msgs, c[k], c[k - 1]));
            }
        }
        assert(is_chain(msgs, d));
        assert(d[0] == x && d.last() == y);
    }
}

proof fn lemma_chain_joins(msgs: Seq<Mail>, x: Node, y: Node)
    requires
        chained(msgs, x, y),
    ensures
        joined(links(msgs), name(x), name(y)),
{
    let c = choose|c: Seq<Node>| #[trigger] is_chain(msgs, c) && c[0] == x && c.last() == y;
    let made = links(msgs);
    let path = c.map_values(|n: Node| name(n));
    assert forall|k: int| 0 <= k < path.len() - 1 implies linked(
        made,
        #[trigger] path[k],
        path[k + 1],
    ) by {
        if refers(msgs, c[k], c[k + 1]) {
            lemma_refers_links(msgs, c[k], c[k + 1]);
        } else {
            lemma_refers_links(msgs, c[k + 1], c[k]);
        }
    }
    assert(is_path(made, path));
    assert(path[0] == name(x) && path.last() == name(y));
}

/// Two messages are of one conversation if and only if they are of one account and a
/// chain of replies joins them: messages that no such chain joins never share a key.
pub proof fn one_thread_iff_chained(msgs: Seq<Mail>, a: Mail, b: Mail)
    ensures
        thread_key(msgs, a) == thread_key(msgs, b) <==> a.account_id == b.account_id && chained(
            msgs,
            node(a),
            node(b),
        ),
{
    one_thread_iff_joined(msgs, a, b);
    if joined(links(msgs), own_name(a), own_name(b)) {
        let p = choose|path: Seq<Seq<char>>|
            #[trigger] is_path(links(msgs), path) && path[0] == own_name(a) && path.last()
                == own_name(b);
        lemma_path_is_chain(msgs, p, node(a), node(b));
    }
    if chained(msgs, node(a), node(b)) {
        lemma_chain_joins(msgs, node(a), node(b));
    }
}

/// A message without a Message-ID that refers to nothing is a conversation of its own:
/// it shares its key with no other message, wherever that one lies and whatever its
/// Message-ID.
pub proof fn nameless_stands_alone(msgs: Seq<Mail>, a: Mail, b: Mail)
    requires
        a.message_id.len() == 0,
        forall|i: int|
            0 <= i < msgs.len() && (#[trigger] msgs[i]).key() == a.key() ==> words(
                msgs[i].references,
                0,
            ).len() == 0,
        a.key() != b.key(),
    ensures
        thread_key(msgs, a) != thread_key(msgs, b),
{
    one_thread_iff_chained(msgs, a, b);
    if chained(msgs, node(a), node(b)) {
        let c = choose|c: Seq<Node>|
            #[trigger] is_chain(msgs, c) && c[0] == node(a) && c.last() == node(b);
        if c.len() > 1 {
            assert(refers(msgs, c[0], c[1]) || refers(msgs, c[1], c[0]));
            assert(c[0] is Nameless);
            let (i, r) = choose|i: int, r: Seq<char>|
                {
                    &&& 0 <= i < msgs.len()
                    &&& #[trigger] words(msgs[i].references, 0).contains(r)
                    &&& c[0] == node(msgs[i])
                    &&& c[1] == (Node::Named { account_id: msgs[i].account_id, id: r })
                };
            assert(msgs[i].key() == a.key());
        }
    }
}

// ----- Finding them -----

/// The names that occur in links, and who stands under whom: a forest in which every
/// name's parent leads toward its leader.
pub struct Forest {
    index: StringHashMap<usize>,
    names: Vec<String>,
    parent: Vec<usize>,
    made: Ghost<Seq<Link>>,
    top: Ghost<Seq<int>>,
    depth: Ghost<Seq<nat>>,
}

impl Forest {
    closed spec fn made(&self) -> Seq<Link> {
        self.made@
    }

    /// The number of names.
    closed spec fn size(&self) -> nat {
        self.names@.len()
    }

    closed spec fn name(&self, i: int) -> Seq<char> {
        self.names@[i]@
    }

    closed spec fn wf(&self) -> bool {
        let n = self.names@.len();
        let top = self.top@;
        let depth = self.depth@;
        &&& self.parent@.len() == n
        &&& top.len() == n
        &&& depth.len() == n
        &&& forall|i: int|
            0 <= i < n ==> {
                &&& #[trigger] self.index@.contains_key(self.names@[i]@)
                &&& self.index@[self.names@[i]@] == i
            }
        &&& forall|x: Seq<char>| #[trigger]
            self.index@.contains_key(x) ==> self.index@[x] < n && self.names@[self.index@[x] as int]@
                == x
        &&& forall|i: int| 0 <= i < n ==> (#[trigger] self.parent@[i]) < n
        &&& forall|i: int| 0 <= i < n ==> 0 <= (#[trigger] top[i]) < n
        &&& forall|i: int| 0 <= i < n ==> top[self.parent@[i] as int] == #[trigger] top[i]
        &&& forall|i: int| 0 <= i < n && (#[trigger] self.parent@[i]) == i ==> top[i] == i
        &&& forall|i: int| 0 <= i < n ==> self.parent@[#[trigger] top[i]] == top[i]
        &&& forall|i: int|
            0 <= i < n && (#[trigger] self.parent@[i]) != i ==> depth[self.parent@[i] as int]
                < depth[i]
        &&& forall|i: int|
            0 <= i < n ==> leader(self.made@, #[trigger] self.names@[i]@) == self.names@[top[i]]@
        &&& forall|x: Seq<char>|
            !#[trigger] self.index@.contains_key(x) ==> leader(self.made@, x) == x
    }

    fn new() -> (f: Forest)
        ensures
            f.wf(),
            f.made() == Seq::<Link>::empty(),
    {
        Forest {
            index: StringHashMap::new(),
            names: Vec::new(),
            parent: Vec::new(),
            made: Ghost(Seq::empty()),
            top: Ghost(Seq::empty()),
            depth: Ghost(Seq::empty()),
        }
    }

    /// The number of the name, which is added if it is new.
    fn number(&mut self, name: &str) -> (i: usize)
        requires
            old(self).wf(),
        ensures
            final(self).wf(),
            final(self).made() == old(self).made(),
            i < final(self).size(),
            old(self).size() <= final(self).size(),
            final(self).name(i as int) == name@,
            forall|k: int|
                0 <= k < old(self).size() ==> #[trigger] final(self).name(k) == old(self).name(k),
    {
        match self.index.get(name) {
            Some(i) => *i,
            None => {
                let i = self.names.len();
                self.index.insert(copy_of(name), i);
                self.names.push(copy_of(name));
                self.parent.push(i);
                self.top = Ghost(self.top@.push(i as int));
                self.depth = Ghost(self.depth@.push(0));
                i
            },
        }
    }

    /// The number of the leader of the name with that number.
    fn find(&self, i: usize) -> (r: usize)
        requires
            self.wf(),
            i < self.size(),
        ensures
            r < self.size(),
            self.name(r as int) == leader(self.made(), self.name(i as int)),
            r == self.top@[i as int],
    {
        let mut at: usize = i;
        while self.parent[at] != at
            invariant
                self.wf(),
                i < self.size(),
                at < self.size(),
                self.top@[at as int] == self.top@[i as int],
            decreases self.depth@[at as int],
        {
            at = self.parent[at];
        }
        at
    }

    /// Links the two names.
    #[verifier::spinoff_prover]
    #[verifier::rlimit(50)]
    fn link(&mut self, a: usize, b: usize)
        requires
            old(self).wf(),
            a < old(self).size(),
            b < old(self).size(),
        ensures
            final(self).wf(),
            final(self).made() == old(self).made().push(
                (old(self).name(a as int), old(self).name(b as int)),
            ),
            final(self).size() == old(self).size(),
            forall|k: int| #[trigger] final(self).name(k) == old(self).name(k),
    {
        let ra = self.find(a);
        let rb = self.find(b);
        let ghost l: Link = (self.names@[a as int]@, self.names@[b as int]@);
        let ghost old_made = self.made@;
        let ghost old_top = self.top@;
        let ghost old_depth = self.depth@;
        if ra != rb {
            self.parent.set(ra, rb);
            self.top = Ghost(
                Seq::new(
                    old_top.len(),
                    |i: int|
                        if old_top[i] == ra {
                            rb as int
                        } else {
                            old_top[i]
                        },
                ),
            );
            self.depth = Ghost(
                Seq::new(
                    old_depth.len(),
                    |i: int|
                        if old_top[i] == ra {
                            old_depth[i] + old_depth[rb as int] + 1
                        } else {
                            old_depth[i]
                        },
                ),
            );
        }
        self.made = Ghost(old_made.push(l));
        proof {
            let made = self.made@;
            assert(made.drop_last() =~= old_made);
            assert(made.last() == l);
            assert forall|i: int| 0 <= i < self.names@.len() implies leader(
                made,
                #[trigger] self.names@[i]@,
            ) == self.names@[self.top@[i]]@ by {
                self.lemma_same_name(old_top[i], ra as int);
            }
            assert forall|x: Seq<char>| !#[trigger] self.index@.contains_key(x) implies leader(
                made,
                x,
            ) == x by {
                assert(leader(old_made, x) == x);
                assert(leader(old_made, l.0) == self.names@[ra as int]@);
            }
        }
    }

    /// The name with that number.
    fn name_text(&self, i: usize) -> (out: String)
        requires
            i < self.size(),
        ensures
            out@ == self.name(i as int),
    {
        copy_of(self.names[i].as_str())
    }

    /// Two numbers of one name are the same.
    proof fn lemma_same_name(&self, i: int, j: int)
        requires
            0 <= i < self.names@.len(),
            0 <= j < self.names@.len(),
            forall|i: int|
                0 <= i < self.names@.len() ==> {
                    &&& #[trigger] self.index@.contains_key(self.names@[i]@)
                    &&& self.index@[self.names@[i]@] == i
                },
        ensures
            self.names@[i]@ == self.names@[j]@ <==> i == j,
    {
        assert(self.index@.contains_key(self.names@[i]@));
        assert(self.index@.contains_key(self.names@[j]@));
    }
}

// ----- The conversations of a list -----

/// What names a conversation: the account, and the leader's name.
#[derive(Debug)]
pub struct ThreadKey {
    pub account_id: u32,
    pub root: String,
}

impl View for ThreadKey {
    type V = (u32, Seq<char>);

    open spec fn view(&self) -> (u32, Seq<char>) {
        (self.account_id, self.root@)
    }
}

impl ThreadKey {
    pub fn copy(&self) -> (r: ThreadKey)
        ensures
            r@ == self@,
    {
        ThreadKey { account_id: self.account_id, root: copy_of(self.root.as_str()) }
    }

    /// Whether two keys name one conversation.
    pub fn same_as(&self, other: &ThreadKey) -> (r: bool)
        ensures
            r == (self@ == other@),
    {
        self.account_id == other.account_id && self.root == other.root
    }
}

/// The conversations of the first `n` of the messages, by what names a message. Of two
/// messages with one name the later one counts.
pub open spec fn thread_map(msgs: Seq<Mail>, n: nat) -> Map<(u32, u32), (u32, Seq<char>)>
    decreases n,
{
    if n == 0 {
        Map::empty()
    } else {
        thread_map(msgs, (n - 1) as nat).insert(
            msgs[n - 1].key(),
            thread_key(msgs, msgs[n - 1]),
        )
    }
}

/// The conversations of all messages, by what names a message.
pub open spec fn threads(msgs: Seq<Mail>) -> Map<(u32, u32), (u32, Seq<char>)> {
    thread_map(msgs, msgs.len())
}

/// Where no two messages have one name, every message has its own entry, with its
/// conversation, and there is no other.
pub proof fn each_message_has_its_thread(msgs: Seq<Mail>, key: (u32, u32))
    requires
        forall|i: int, j: int|
            0 <= i < j < msgs.len() ==> (#[trigger] msgs[i]).key() != (#[trigger] msgs[j]).key(),
    ensures
        threads(msgs).contains_key(key) <==> exists|i: int|
            0 <= i < msgs.len() && (#[trigger] msgs[i]).key() == key,
        forall|i: int|
            0 <= i < msgs.len() ==> threads(msgs)[(#[trigger] msgs[i]).key()] == thread_key(
                msgs,
                msgs[i],
            ),
{
    lemma_thread_map(msgs, msgs.len(), key);
}

proof fn lemma_thread_map(msgs: Seq<Mail>, n: nat, key: (u32, u32))
    requires
        n <= msgs.len(),
        forall|i: int, j: int|
            0 <= i < j < msgs.len() ==> (#[trigger] msgs[i]).key() != (#[trigger] msgs[j]).key(),
    ensures
        thread_map(msgs, n).contains_key(key) <==> exists|i: int|
            0 <= i < n && (#[trigger] msgs[i]).key() == key,
        forall|i: int|
            0 <= i < n ==> thread_map(msgs, n)[(#[trigger] msgs[i]).key()] == thread_key(
                msgs,
                msgs[i],
            ),
    decreases n,
{
    if n > 0 {
        lemma_thread_map(msgs, (n - 1) as nat, key);
        assert(msgs[n - 1].key() == msgs[n - 1].key());
    }
}

/// Whether a table keeps the conversations, under packed keys.
pub open spec fn keeps(table: Map<u64, ThreadKey>, map: Map<(u32, u32), (u32, Seq<char>)>) -> bool {
    forall|key: (u32, u32)| #![trigger map.contains_key(key)] #![trigger packed(key)]
        {
            &&& table.contains_key(packed(key)) == map.contains_key(key)
            &&& map.contains_key(key) ==> table[packed(key)]@ == map[key]
        }
}

fn own_name_text(m: &Message) -> (out: String)
    ensures
        out@ == own_name(m@),
{
    let mut out = decimal_string(m.account_id as u64);
    if m.message_id.as_str().is_empty() {
        out.append(" ");
        out.append(decimal_string(m.id as u64).as_str());
    } else {
        out.append("\0");
        out.append(m.message_id.as_str());
    }
    out
}

/// Groups messages into conversations by their reply headers, within their accounts.
/// The result holds each message's conversation under its packed key. Messages with no
/// reply relationship get one of their own, so that unrelated messages that merely share
/// a subject are never threaded together.
pub fn compute_thread_keys(msgs: &Vec<Message>) -> (table: HashMap<u64, ThreadKey>)
    ensures
        keeps(table@, threads(mails(msgs@))),
{
    let ghost all = mails(msgs@);
    let mut forest = Forest::new();
    let mut i: usize = 0;
    while i < msgs.len()
        invariant
            i <= msgs.len(),
            all == mails(msgs@),
            forest.wf(),
            forest.made() == links(all.take(i as int)),
        decreases msgs.len() - i,
    {
        let m = &msgs[i];
        let own = own_name_text(m);
        let a = forest.number(own.as_str());
        let refs = split_words(&chars_of(m.references.as_str()));
        let ghost done = links(all.take(i as int));
        let ghost mine = links_of(m@);
        let mut k: usize = 0;
        proof {
            assert(done + mine.take(0) =~= done);
        }
        while k < refs.len()
            invariant
                k <= refs.len(),
                forest.wf(),
                a < forest.size(),
                forest.name(a as int) == own_name(m@),
                texts(refs@) == words(m@.references, 0),
                mine == links_of(m@),
                forest.made() == done + mine.take(k as int),
            decreases refs.len() - k,
        {
            let mut name = decimal_string(m.account_id as u64);
            name.append("\0");
            name.append(refs[k].as_str());
            let b = forest.number(name.as_str());
            forest.link(a, b);
            proof {
                assert(texts(refs@)[k as int] == refs@[k as int]@);
                assert(mine[k as int] == (own_name(m@), name@));
                assert(done + mine.take(k + 1) =~= (done + mine.take(k as int)).push(
                    mine[k as int],
                ));
            }
            k = k + 1;
        }
        proof {
            assert(mine.take(mine.len() as int) =~= mine);
            assert(all.take(i + 1).drop_last() =~= all.take(i as int));
            assert(all.take(i + 1).last() == m@);
        }
        i = i + 1;
    }
    proof {
        assert(all.take(all.len() as int) =~= all);
    }
    let mut table: HashMap<u64, ThreadKey> = HashMap::new();
    let mut j: usize = 0;
    while j < msgs.len()
        invariant
            j <= msgs.len(),
            all == mails(msgs@),
            forest.wf(),
            forest.made() == links(all),
            keeps(table@, thread_map(all, j as nat)),
        decreases msgs.len() - j,
    {
        let m = &msgs[j];
        let own = own_name_text(m);
        let a = forest.number(own.as_str());
        let r = forest.find(a);
        let root = forest.name_text(r);
        let ghost had = table@;
        table.insert(message_key(m.account_id, m.id), ThreadKey { account_id: m.account_id, root });
        proof {
            let map = thread_map(all, j as nat);
            let next = thread_map(all, (j + 1) as nat);
            assert(all[j as int] == m@);
            assert forall|key: (u32, u32)| #![trigger next.contains_key(key)] #![trigger packed(key)]
                {
                    &&& table@.contains_key(packed(key)) == next.contains_key(key)
                    &&& next.contains_key(key) ==> table@[packed(key)]@ == next[key]
                } by {
                assert(map.contains_key(key) == had.contains_key(packed(key)));
                if key != m@.key() {
                    if packed(key) == packed(m@.key()) {
                        packed_keys_differ(key, m@.key());
                    }
                }
            }
        }
        j = j + 1;
    }
    table
}

} // verus!
