//! The orders in which the list shows its messages.

use vstd::prelude::*;
use vstd::slice::slice_subrange;

use crate::models::{mails, Mail, Message};
use crate::text::{
    chars_of, is_blank_text, lower_all, lower_chars, matches_in_ci, same, stands_in_ci, string_of,
    trim, trim_start, trimmed, trimmed_start,
};

verus! {

/// How the message list is ordered.
#[derive(Debug, Clone, Copy, PartialEq, Eq, Structural)]
pub enum SortOrder {
    DateNewest,
    DateOldest,
    Sender,
    Subject,
    UnreadFirst,
    FlaggedFirst,
}

/// The key of an order in the sort menu.
pub open spec fn order_key(order: SortOrder) -> Seq<char> {
    match order {
        SortOrder::DateNewest => "date_newest"@,
        SortOrder::DateOldest => "date_oldest"@,
        SortOrder::Sender => "sender"@,
        SortOrder::Subject => "subject"@,
        SortOrder::UnreadFirst => "unread"@,
        SortOrder::FlaggedFirst => "flagged"@,
    }
}

/// The order of a key in the sort menu; newest first for any other key.
pub open spec fn order_of_key(key: Seq<char>) -> SortOrder {
    if key == "date_oldest"@ {
        SortOrder::DateOldest
    } else if key == "sender"@ {
        SortOrder::Sender
    } else if key == "subject"@ {
        SortOrder::Subject
    } else if key == "unread"@ {
        SortOrder::UnreadFirst
    } else if key == "flagged"@ {
        SortOrder::FlaggedFirst
    } else {
        SortOrder::DateNewest
    }
}

impl SortOrder {
    /// The order that a key of the sort menu stands for.
    pub fn from_key(key: &str) -> (r: SortOrder)
        ensures
            r == order_of_key(key@),
    {
        if same(key, "date_oldest") {
            SortOrder::DateOldest
        } else if same(key, "sender") {
            SortOrder::Sender
        } else if same(key, "subject") {
            SortOrder::Subject
        } else if same(key, "unread") {
            SortOrder::UnreadFirst
        } else if same(key, "flagged") {
            SortOrder::FlaggedFirst
        } else {
            SortOrder::DateNewest
        }
    }

    /// The key of the order in the sort menu.
    pub fn key(self) -> (r: &'static str)
        ensures
            r@ == order_key(self),
    {
        match self {
            SortOrder::DateNewest => "date_newest",
            SortOrder::DateOldest => "date_oldest",
            SortOrder::Sender => "sender",
            SortOrder::Subject => "subject",
            SortOrder::UnreadFirst => "unread",
            SortOrder::FlaggedFirst => "flagged",
        }
    }
}

/// Every order's key stands for that order.
pub proof fn order_keys_read_back(order: SortOrder)
    ensures
        order_of_key(order_key(order)) == order,
{
    reveal_strlit("date_newest");
    reveal_strlit("date_oldest");
    reveal_strlit("sender");
    reveal_strlit("subject");
    reveal_strlit("unread");
    reveal_strlit("flagged");
    assert("date_newest"@.len() == 11);
    assert("date_oldest"@.len() == 11);
    assert("sender"@.len() == 6);
    assert("subject"@.len() == 7);
    assert("unread"@.len() == 6);
    assert("flagged"@.len() == 7);
    assert("date_newest"@[5] != "date_oldest"@[5]);
    assert("sender"@[0] != "unread"@[0]);
    assert("subject"@[0] != "flagged"@[0]);
}

// ----- What a message is ordered by -----

/// `str::to_lowercase` of the standard library.
pub uninterp spec fn lower_case(s: Seq<char>) -> Seq<char>;

/// `str::to_lowercase` of the standard library: the text in lower case, by Unicode's
/// tables. What it makes of each character is left unsaid here.
#[verifier::external_body]
pub(crate) fn lowercase(s: &str) -> (out: String)
    ensures
        out@ == lower_case(s@),
{
    s.to_lowercase()
}

/// How long the reply or forward prefix is that the text starts with, 0 if there is none.
pub open spec fn prefix_length(s: Seq<char>) -> int {
    let n = s.len() as int;
    if stands_in_ci(s, "re:"@, 0, n) {
        3
    } else if stands_in_ci(s, "fwd:"@, 0, n) {
        4
    } else if stands_in_ci(s, "fw:"@, 0, n) {
        3
    } else if stands_in_ci(s, "aw:"@, 0, n) {
        3
    } else if stands_in_ci(s, "sv:"@, 0, n) {
        3
    } else if stands_in_ci(s, "antw:"@, 0, n) {
        5
    } else if stands_in_ci(s, "wg:"@, 0, n) {
        3
    } else {
        0
    }
}

proof fn lemma_prefix(s: Seq<char>)
    ensures
        0 <= prefix_length(s) <= s.len(),
{
    reveal_strlit("re:");
    reveal_strlit("fwd:");
    reveal_strlit("fw:");
    reveal_strlit("aw:");
    reveal_strlit("sv:");
    reveal_strlit("antw:");
    reveal_strlit("wg:");
}

/// The text without the prefixes that it starts with.
pub open spec fn unprefixed(s: Seq<char>) -> Seq<char>
    decreases s.len(),
    via unprefixed_ends
{
    let k = prefix_length(s);
    if k > 0 {
        unprefixed(trim_start(s.subrange(k, s.len() as int)))
    } else {
        s
    }
}

#[via_fn]
proof fn unprefixed_ends(s: Seq<char>) {
    lemma_unprefixed_shrinks(s);
}

proof fn lemma_unprefixed_shrinks(s: Seq<char>)
    ensures
        0 < prefix_length(s) <= s.len() ==> trim_start(
            s.subrange(prefix_length(s), s.len() as int),
        ).len() < s.len(),
        prefix_length(s) <= s.len(),
{
    lemma_prefix(s);
    let rest = s.subrange(prefix_length(s), s.len() as int);
    crate::text::lemma_skip(rest, 0, rest.len() as int, crate::text::Class::Blank);
}

/// The topic of a subject: in lower case, without the prefixes of replies and forwards.
pub open spec fn topic(subject: Seq<char>) -> Seq<char> {
    lower_all(trim(unprefixed(trim(subject))))
}

fn read_prefix(s: &[char]) -> (r: usize)
    ensures
        r == prefix_length(s@),
        r <= s@.len(),
{
    proof {
        lemma_prefix(s@);
    }
    let n = s.len();
    if matches_in_ci(s, &chars_of("re:"), 0, n) {
        3
    } else if matches_in_ci(s, &chars_of("fwd:"), 0, n) {
        4
    } else if matches_in_ci(s, &chars_of("fw:"), 0, n) {
        3
    } else if matches_in_ci(s, &chars_of("aw:"), 0, n) {
        3
    } else if matches_in_ci(s, &chars_of("sv:"), 0, n) {
        3
    } else if matches_in_ci(s, &chars_of("antw:"), 0, n) {
        5
    } else if matches_in_ci(s, &chars_of("wg:"), 0, n) {
        3
    } else {
        0
    }
}

fn topic_chars(subject: &str) -> (out: Vec<char>)
    ensures
        out@ == topic(subject@),
{
    let v = chars_of(subject);
    let mut s: &[char] = trimmed(&v);
    loop
        invariant
            unprefixed(s@) == unprefixed(trim(subject@)),
        decreases s.len(),
    {
        let k = read_prefix(s);
        if k == 0 {
            return lower_chars(trimmed(s));
        }
        proof {
            lemma_unprefixed_shrinks(s@);
        }
        s = trimmed_start(slice_subrange(s, k, s.len()));
    }
}

/// Lowers the subject and strips any leading run of reply and forward prefixes (`Re:`,
/// `Fwd:`, …), so that sorting by subject keeps a topic and its replies together.
pub fn normalize_subject(subject: &str) -> (out: String)
    ensures
        out@ == topic(subject@),
{
    string_of(&topic_chars(subject))
}

/// What a message's sender is sorted by: the name, else the address.
pub open spec fn sender_name(m: Mail) -> Seq<char> {
    if trim(m.from_name).len() == 0 {
        lower_case(m.from_addr)
    } else {
        lower_case(m.from_name)
    }
}

/// What a message is ordered by: a text, then a class, then a time.
pub struct Rank {
    pub text: Seq<char>,
    pub class: int,
    pub time: int,
}

/// What a message is ordered by in each of the orders. Ties fall back to the date,
/// newest first.
pub open spec fn rank(order: SortOrder, m: Mail) -> Rank {
    match order {
        SortOrder::DateNewest => Rank { text: seq![], class: 0, time: -(m.timestamp as int) },
        SortOrder::DateOldest => Rank { text: seq![], class: 0, time: m.timestamp as int },
        SortOrder::Sender => Rank {
            text: sender_name(m),
            class: 0,
            time: -(m.timestamp as int),
        },
        SortOrder::Subject => Rank {
            text: topic(m.subject),
            class: 0,
            time: -(m.timestamp as int),
        },
        SortOrder::UnreadFirst => Rank {
            text: seq![],
            class: if m.unread {
                0
            } else {
                1
            },
            time: -(m.timestamp as int),
        },
        SortOrder::FlaggedFirst => Rank {
            text: seq![],
            class: if m.starred {
                0
            } else {
                1
            },
            time: -(m.timestamp as int),
        },
    }
}

/// Whether one text comes before another: by their first characters that differ.
pub open spec fn text_before(a: Seq<char>, b: Seq<char>) -> bool
    decreases a.len(),
{
    if b.len() == 0 {
        false
    } else if a.len() == 0 {
        true
    } else if a[0] != b[0] {
        a[0] < b[0]
    } else {
        text_before(a.drop_first(), b.drop_first())
    }
}

/// Whether one rank comes before another.
pub open spec fn rank_before(a: Rank, b: Rank) -> bool {
    if a.text != b.text {
        text_before(a.text, b.text)
    } else if a.class != b.class {
        a.class < b.class
    } else {
        a.time < b.time
    }
}

/// Whether the message with number `i` comes before the one with number `j`: by rank,
/// and, where that is the same, as they came.
pub open spec fn comes_before(ranks: Seq<Rank>, i: int, j: int) -> bool {
    if ranks[i] != ranks[j] {
        rank_before(ranks[i], ranks[j])
    } else {
        i < j
    }
}

/// Whether the numbers are those of all ranks, each once, in order.
pub open spec fn is_ranking(ranks: Seq<Rank>, p: Seq<int>) -> bool {
    &&& p.len() == ranks.len()
    &&& forall|k: int| 0 <= k < p.len() ==> 0 <= #[trigger] p[k] < ranks.len()
    &&& forall|i: int| 0 <= i < ranks.len() ==> #[trigger] p.contains(i)
    &&& forall|j: int, k: int|
        0 <= j < k < p.len() ==> comes_before(ranks, #[trigger] p[j], #[trigger] p[k])
}

pub open spec fn ranks_of(order: SortOrder, msgs: Seq<Mail>) -> Seq<Rank> {
    msgs.map_values(|m: Mail| rank(order, m))
}

/// The numbers of the messages in order.
pub open spec fn ranking(order: SortOrder, msgs: Seq<Mail>) -> Seq<int> {
    choose|p: Seq<int>| is_ranking(ranks_of(order, msgs), p)
}

/// The messages in order; those of one rank stay as they came.
pub open spec fn sorted(order: SortOrder, msgs: Seq<Mail>) -> Seq<Mail> {
    ranking(order, msgs).map_values(|i: int| msgs[i])
}

// ----- That the order is one -----

proof fn lemma_text_total(a: Seq<char>, b: Seq<char>)
    ensures
        a == b || text_before(a, b) || text_before(b, a),
        !(text_before(a, b) && text_before(b, a)),
        !text_before(a, a),
    decreases a.len() + b.len(),
{
    if a.len() == 0 || b.len() == 0 {
        if a.len() == 0 && b.len() == 0 {
            assert(a =~= b);
        }
    } else if a[0] == b[0] {
        lemma_text_total(a.drop_first(), b.drop_first());
        if a.drop_first() == b.drop_first() {
            assert(a =~= seq![a[0]] + a.drop_first());
            assert(b =~= seq![b[0]] + b.drop_first());
        }
    }
    lemma_text_irreflexive(a);
}

proof fn lemma_text_irreflexive(a: Seq<char>)
    ensures
        !text_before(a, a),
    decreases a.len(),
{
    if a.len() > 0 {
        lemma_text_irreflexive(a.drop_first());
    }
}

proof fn lemma_text_trans(a: Seq<char>, b: Seq<char>, c: Seq<char>)
    requires
        text_before(a, b),
        text_before(b, c),
    ensures
        text_before(a, c),
    decreases a.len(),
{
    if a.len() > 0 && b.len() > 0 && c.len() > 0 && a[0] == b[0] && b[0] == c[0] {
        lemma_text_trans(a.drop_first(), b.drop_first(), c.drop_first());
    }
}

/// Of any two messages exactly one comes before the other.
pub proof fn order_is_total(ranks: Seq<Rank>, i: int, j: int)
    requires
        i != j,
    ensures
        comes_before(ranks, i, j) != comes_before(ranks, j, i),
{
    let (a, b) = (ranks[i], ranks[j]);
    lemma_text_total(a.text, b.text);
}

/// What comes before a message also comes before all that the message comes before.
pub proof fn order_is_transitive(ranks: Seq<Rank>, i: int, j: int, k: int)
    requires
        comes_before(ranks, i, j),
        comes_before(ranks, j, k),
    ensures
        comes_before(ranks, i, k),
{
    let (a, b, c) = (ranks[i], ranks[j], ranks[k]);
    lemma_text_total(a.text, b.text);
    lemma_text_total(b.text, c.text);
    lemma_text_total(a.text, c.text);
    if a.text != b.text && b.text != c.text {
        lemma_text_trans(a.text, b.text, c.text);
    }
}

/// There is one way to put messages in order, not two.
pub proof fn ranking_is_unique(ranks: Seq<Rank>, p: Seq<int>, q: Seq<int>)
    requires
        is_ranking(ranks, p),
        is_ranking(ranks, q),
    ensures
        p == q,
{
    lemma_same_to(ranks, p, q, p.len() as int);
    assert(p =~= q);
}

proof fn lemma_same_to(ranks: Seq<Rank>, p: Seq<int>, q: Seq<int>, n: int)
    requires
        is_ranking(ranks, p),
        is_ranking(ranks, q),
        0 <= n <= p.len(),
    ensures
        forall|k: int| 0 <= k < n ==> p[k] == q[k],
    decreases n,
{
    if n > 0 {
        let k = n - 1;
        lemma_same_to(ranks, p, q, k);
        if p[k] != q[k] {
            assert(q.contains(p[k]));
            assert(p.contains(q[k]));
            let m = choose|m: int| 0 <= m < q.len() && q[m] == p[k];
            let l = choose|l: int| 0 <= l < p.len() && p[l] == q[k];
            if m < k {
                assert(p[m] == q[m]);
                assert(comes_before(ranks, p[m], p[k]));
                order_is_total(ranks, p[m], p[k]);
                lemma_irreflexive(ranks, p[k]);
            }
            if l < k {
                assert(p[l] == q[l]);
                assert(comes_before(ranks, q[l], q[k]));
                lemma_irreflexive(ranks, q[k]);
            }
            assert(comes_before(ranks, q[k], q[m]));
            assert(comes_before(ranks, p[k], p[l]));
            order_is_total(ranks, p[k], q[k]);
        }
    }
}

proof fn lemma_irreflexive(ranks: Seq<Rank>, i: int)
    ensures
        !comes_before(ranks, i, i),
{
}

/// The numbers with one more put in where it belongs.
spec fn put_in(ranks: Seq<Rank>, p: Seq<int>, x: int) -> Seq<int>
    decreases p.len(),
{
    if p.len() == 0 {
        seq![x]
    } else if comes_before(ranks, p.last(), x) {
        p.push(x)
    } else {
        put_in(ranks, p.drop_last(), x).push(p.last())
    }
}

proof fn lemma_put_in(ranks: Seq<Rank>, p: Seq<int>, x: int)
    requires
        forall|k: int| 0 <= k < p.len() ==> #[trigger] p[k] != x,
        forall|j: int, k: int|
            0 <= j < k < p.len() ==> comes_before(ranks, #[trigger] p[j], #[trigger] p[k]),
    ensures
        ({
            let q = put_in(ranks, p, x);
            &&& q.len() == p.len() + 1
            &&& forall|y: int| #[trigger] q.contains(y) <==> y == x || p.contains(y)
            &&& forall|j: int, k: int|
                0 <= j < k < q.len() ==> comes_before(ranks, #[trigger] q[j], #[trigger] q[k])
        }),
    decreases p.len(),
{
    let q = put_in(ranks, p, x);
    if p.len() == 0 {
        assert(q[0] == x);
    } else if comes_before(ranks, p.last(), x) {
        assert forall|j: int, k: int| 0 <= j < k < q.len() implies comes_before(
            ranks,
            #[trigger] q[j],
            #[trigger] q[k],
        ) by {
            if k == p.len() && j < p.len() - 1 {
                order_is_transitive(ranks, p[j], p.last(), x);
            }
        }
        assert(q[p.len() as int] == x);
        assert forall|y: int| #[trigger] q.contains(y) <==> y == x || p.contains(y) by {
            if p.contains(y) {
                let i = choose|i: int| 0 <= i < p.len() && p[i] == y;
                assert(q[i] == y);
            }
            if q.contains(y) {
                let i = choose|i: int| 0 <= i < q.len() && q[i] == y;
                if i < p.len() {
                    assert(p[i] == y);
                }
            }
        }
    } else {
        let front = p.drop_last();
        lemma_put_in(ranks, front, x);
        let r = put_in(ranks, front, x);
        order_is_total(ranks, p.last(), x);
        assert forall|j: int, k: int| 0 <= j < k < q.len() implies comes_before(
            ranks,
            #[trigger] q[j],
            #[trigger] q[k],
        ) by {
            if k == r.len() {
                assert(r.contains(r[j]));
                if r[j] != x {
                    let i = choose|i: int| 0 <= i < front.len() && front[i] == r[j];
                    assert(comes_before(ranks, p[i], p[p.len() - 1]));
                }
            }
        }
        assert forall|y: int| #[trigger] q.contains(y) <==> y == x || p.contains(y) by {
            if q.contains(y) {
                let i = choose|i: int| 0 <= i < q.len() && q[i] == y;
                if i < r.len() {
                    assert(r[i] == y);
                    assert(r.contains(y));
                    if y != x {
                        let j = choose|j: int| 0 <= j < front.len() && front[j] == y;
                        assert(p[j] == y);
                    }
                } else {
                    assert(p[p.len() - 1] == y);
                }
            }
            if y == x || p.contains(y) {
                if y == x {
                    assert(r.contains(x));
                } else {
                    let i = choose|i: int| 0 <= i < p.len() && p[i] == y;
                    if i < front.len() {
                        assert(front[i] == y);
                        assert(front.contains(y));
                        assert(r.contains(y));
                    } else {
                        assert(q[r.len() as int] == y);
                    }
                }
                if r.contains(y) {
                    let i = choose|i: int| 0 <= i < r.len() && r[i] == y;
                    assert(q[i] == y);
                }
            }
        }
    }
}

/// Messages can always be put in order.
pub proof fn ranking_exists(ranks: Seq<Rank>)
    ensures
        exists|p: Seq<int>| is_ranking(ranks, p),
    decreases ranks.len(),
{
    if ranks.len() == 0 {
        let p: Seq<int> = seq![];
        assert(is_ranking(ranks, p));
    } else {
        let front = ranks.drop_last();
        let n = front.len() as int;
        ranking_exists(front);
        let p = choose|p: Seq<int>| is_ranking(front, p);
        assert forall|j: int, k: int| 0 <= j < k < p.len() implies comes_before(
            ranks,
            #[trigger] p[j],
            #[trigger] p[k],
        ) by {
            assert(comes_before(front, p[j], p[k]));
        }
        lemma_put_in(ranks, p, n);
        let q = put_in(ranks, p, n);
        assert forall|k: int| 0 <= k < q.len() implies 0 <= #[trigger] q[k] < ranks.len() by {
            assert(q.contains(q[k]));
            if q[k] != n {
                let i = choose|i: int| 0 <= i < p.len() && p[i] == q[k];
                assert(0 <= p[i] < front.len());
            }
        }
        assert forall|i: int| 0 <= i < ranks.len() implies #[trigger] q.contains(i) by {
            if i < n {
                assert(p.contains(i));
            }
        }
        assert(is_ranking(ranks, q));
    }
}

/// Sorting keeps every message and adds none: it only puts them in order, each behind
/// all that come before it.
pub proof fn sorting_keeps_all(order: SortOrder, msgs: Seq<Mail>)
    ensures
        is_ranking(ranks_of(order, msgs), ranking(order, msgs)),
        sorted(order, msgs).len() == msgs.len(),
        forall|m: Mail| #[trigger] sorted(order, msgs).contains(m) <==> msgs.contains(m),
{
    let ranks = ranks_of(order, msgs);
    ranking_exists(ranks);
    let p = ranking(order, msgs);
    let s = sorted(order, msgs);
    assert forall|m: Mail| #[trigger] s.contains(m) <==> msgs.contains(m) by {
        if s.contains(m) {
            let k = choose|k: int| 0 <= k < s.len() && s[k] == m;
            assert(msgs[p[k]] == m);
        }
        if msgs.contains(m) {
            let i = choose|i: int| 0 <= i < msgs.len() && msgs[i] == m;
            assert(p.contains(i));
            let k = choose|k: int| 0 <= k < p.len() && p[k] == i;
            assert(s[k] == m);
        }
    }
}

// ----- Putting them in order -----

/// A message's rank, to compare by.
struct Key {
    text: Vec<char>,
    class: u8,
    stamp: i64,
    newest_first: bool,
}

impl Key {
    spec fn rank(&self) -> Rank {
        Rank {
            text: self.text@,
            class: self.class as int,
            time: if self.newest_first {
                -(self.stamp as int)
            } else {
                self.stamp as int
            },
        }
    }
}

spec fn key_ranks(keys: Seq<Key>) -> Seq<Rank> {
    keys.map_values(|k: Key| k.rank())
}

fn key_for(order: SortOrder, m: &Message) -> (k: Key)
    ensures
        k.rank() == rank(order, m@),
{
    let text: Vec<char> = match order {
        SortOrder::Sender => {
            if is_blank_text(m.from_name.as_str()) {
                chars_of(lowercase(m.from_addr.as_str()).as_str())
            } else {
                chars_of(lowercase(m.from_name.as_str()).as_str())
            }
        },
        SortOrder::Subject => topic_chars(m.subject.as_str()),
        _ => Vec::new(),
    };
    let class: u8 = match order {
        SortOrder::UnreadFirst => if m.unread {
            0
        } else {
            1
        },
        SortOrder::FlaggedFirst => if m.starred {
            0
        } else {
            1
        },
        _ => 0,
    };
    let newest_first = match order {
        SortOrder::DateOldest => false,
        _ => true,
    };
    let k = Key { text, class, stamp: m.timestamp, newest_first };
    proof {
        assert(k.rank().text =~= rank(order, m@).text);
    }
    k
}

/// Whether the first text comes before the second, the same, or behind it: -1, 0 or 1.
fn text_sign(a: &Vec<char>, b: &Vec<char>) -> (r: i8)
    ensures
        r == (if a@ == b@ {
            0int
        } else if text_before(a@, b@) {
            -1
        } else {
            1
        }),
{
    let mut i: usize = 0;
    proof {
        assert(a@.skip(0) =~= a@);
        assert(b@.skip(0) =~= b@);
    }
    while i < a.len() && i < b.len()
        invariant
            i <= a.len(),
            i <= b.len(),
            forall|k: int| 0 <= k < i ==> a@[k] == b@[k],
            text_before(a@, b@) == text_before(a@.skip(i as int), b@.skip(i as int)),
        decreases a.len() - i,
    {
        proof {
            assert(a@.skip(i as int).drop_first() =~= a@.skip(i + 1));
            assert(b@.skip(i as int).drop_first() =~= b@.skip(i + 1));
        }
        if a[i] != b[i] {
            return if a[i] < b[i] {
                -1
            } else {
                1
            };
        }
        i = i + 1;
    }
    if a.len() == b.len() {
        proof {
            assert(a@ =~= b@);
        }
        0
    } else if a.len() < b.len() {
        -1
    } else {
        1
    }
}

/// Whether the message with number `i` comes before the one with number `j`.
fn goes_before(keys: &Vec<Key>, i: usize, j: usize) -> (r: bool)
    requires
        i < keys@.len(),
        j < keys@.len(),
    ensures
        r == comes_before(key_ranks(keys@), i as int, j as int),
{
    let a = &keys[i];
    let b = &keys[j];
    proof {
        assert(key_ranks(keys@)[i as int] == a.rank());
        assert(key_ranks(keys@)[j as int] == b.rank());
        lemma_text_total(a.text@, b.text@);
    }
    let sign = text_sign(&a.text, &b.text);
    if sign != 0 {
        return sign < 0;
    }
    if a.class != b.class {
        return a.class < b.class;
    }
    if a.newest_first && b.newest_first {
        if a.stamp != b.stamp {
            return a.stamp > b.stamp;
        }
    } else {
        let ta: i128 = if a.newest_first {
            -(a.stamp as i128)
        } else {
            a.stamp as i128
        };
        let tb: i128 = if b.newest_first {
            -(b.stamp as i128)
        } else {
            b.stamp as i128
        };
        if ta != tb {
            return ta < tb;
        }
    }
    i < j
}

spec fn ints(v: Seq<usize>) -> Seq<int> {
    v.map_values(|i: usize| i as int)
}

/// Whether the numbers are in order.
spec fn in_order(ranks: Seq<Rank>, v: Seq<usize>) -> bool {
    forall|j: int, k: int|
        0 <= j < k < v.len() ==> comes_before(ranks, #[trigger] v[j] as int, #[trigger] v[k] as int)
}

fn merge(keys: &Vec<Key>, a: &Vec<usize>, b: &Vec<usize>) -> (out: Vec<usize>)
    requires
        in_order(key_ranks(keys@), a@),
        in_order(key_ranks(keys@), b@),
        forall|k: int| 0 <= k < a@.len() ==> (#[trigger] a@[k]) < keys@.len(),
        forall|k: int| 0 <= k < b@.len() ==> (#[trigger] b@[k]) < keys@.len(),
        forall|j: int, k: int|
            0 <= j < a@.len() && 0 <= k < b@.len() ==> #[trigger] a@[j] != #[trigger] b@[k],
        a@.len() + b@.len() <= usize::MAX,
    ensures
        in_order(key_ranks(keys@), out@),
        out@.len() == a@.len() + b@.len(),
        forall|k: int| 0 <= k < out@.len() ==> (#[trigger] out@[k]) < keys@.len(),
        forall|x: usize| #[trigger] out@.contains(x) <==> a@.contains(x) || b@.contains(x),
{
    let ghost ranks = key_ranks(keys@);
    let mut out: Vec<usize> = Vec::new();
    let mut i: usize = 0;
    let mut j: usize = 0;
    while i < a.len() || j < b.len()
        invariant
            i <= a.len(),
            j <= b.len(),
            ranks == key_ranks(keys@),
            in_order(ranks, a@),
            in_order(ranks, b@),
            forall|k: int| 0 <= k < a@.len() ==> (#[trigger] a@[k]) < keys@.len(),
            forall|k: int| 0 <= k < b@.len() ==> (#[trigger] b@[k]) < keys@.len(),
            forall|j: int, k: int|
                0 <= j < a@.len() && 0 <= k < b@.len() ==> #[trigger] a@[j] != #[trigger] b@[k],
            out@.len() == i + j,
            in_order(ranks, out@),
            forall|k: int| 0 <= k < out@.len() ==> (#[trigger] out@[k]) < keys@.len(),
            forall|k: int, l: int|
                0 <= k < out@.len() && i <= l < a@.len() ==> comes_before(
                    ranks,
                    #[trigger] out@[k] as int,
                    #[trigger] a@[l] as int,
                ),
            forall|k: int, l: int|
                0 <= k < out@.len() && j <= l < b@.len() ==> comes_before(
                    ranks,
                    #[trigger] out@[k] as int,
                    #[trigger] b@[l] as int,
                ),
            forall|k: int| 0 <= k < i ==> out@.contains(#[trigger] a@[k]),
            forall|k: int| 0 <= k < j ==> out@.contains(#[trigger] b@[k]),
            forall|k: int|
                0 <= k < out@.len() ==> a@.contains(#[trigger] out@[k]) || b@.contains(out@[k]),
        decreases a.len() - i + b.len() - j,
    {
        let ghost had = out@;
        let from_a = j >= b.len() || (i < a.len() && goes_before(keys, a[i], b[j]));
        if from_a {
            let x = a[i];
            proof {
                if j < b.len() {
                    assert forall|l: int| j <= l < b@.len() implies comes_before(
                        ranks,
                        x as int,
                        #[trigger] b@[l] as int,
                    ) by {
                        if l > j {
                            order_is_transitive(ranks, x as int, b@[j as int] as int, b@[l] as int);
                        }
                    }
                }
            }
            out.push(x);
            proof {
                lemma_push_contains(had, x);
                assert(a@.contains(a@[i as int]));
            }
            i = i + 1;
        } else {
            let x = b[j];
            proof {
                if i < a.len() {
                    order_is_total(ranks, a@[i as int] as int, x as int);
                    assert forall|l: int| i <= l < a@.len() implies comes_before(
                        ranks,
                        x as int,
                        #[trigger] a@[l] as int,
                    ) by {
                        if l > i {
                            order_is_transitive(ranks, x as int, a@[i as int] as int, a@[l] as int);
                        }
                    }
                }
            }
            out.push(x);
            proof {
                lemma_push_contains(had, x);
                assert(b@.contains(b@[j as int]));
            }
            j = j + 1;
        }
    }
    out
}

proof fn lemma_push_contains(s: Seq<usize>, x: usize)
    ensures
        s.push(x).contains(x),
        forall|y: usize| #[trigger] s.contains(y) ==> s.push(x).contains(y),
{
    assert(s.push(x)[s.len() as int] == x);
    assert forall|y: usize| #[trigger] s.contains(y) implies s.push(x).contains(y) by {
        let i = choose|i: int| 0 <= i < s.len() && s[i] == y;
        assert(s.push(x)[i] == y);
    }
}

/// The numbers from `lo` to `hi` in order.
fn merge_sort(keys: &Vec<Key>, lo: usize, hi: usize) -> (out: Vec<usize>)
    requires
        lo <= hi <= keys@.len(),
    ensures
        in_order(key_ranks(keys@), out@),
        out@.len() == hi - lo,
        forall|k: int| 0 <= k < out@.len() ==> lo <= (#[trigger] out@[k]) < hi,
        forall|x: usize| lo <= x < hi ==> #[trigger] out@.contains(x),
    decreases hi - lo,
{
    if hi - lo <= 1 {
        let mut out: Vec<usize> = Vec::new();
        if lo < hi {
            out.push(lo);
            proof {
                assert(out@[0] == lo);
            }
        }
        return out;
    }
    let mid = lo + (hi - lo) / 2;
    let a = merge_sort(keys, lo, mid);
    let b = merge_sort(keys, mid, hi);
    let out = merge(keys, &a, &b);
    proof {
        assert forall|k: int| 0 <= k < out@.len() implies lo <= (#[trigger] out@[k]) < hi by {
            assert(out@.contains(out@[k]));
        }
    }
    out
}

/// Sorts messages by the chosen order: stable, and ties fall back to the date.
pub fn sort_messages(msgs: &Vec<Message>, order: SortOrder) -> (out: Vec<Message>)
    ensures
        mails(out@) == sorted(order, mails(msgs@)),
        is_ranking(ranks_of(order, mails(msgs@)), ranking(order, mails(msgs@))),
{
    let ghost all = mails(msgs@);
    let mut keys: Vec<Key> = Vec::new();
    let mut i: usize = 0;
    while i < msgs.len()
        invariant
            i <= msgs.len(),
            keys@.len() == i,
            all == mails(msgs@),
            forall|k: int| 0 <= k < i ==> (#[trigger] keys@[k]).rank() == rank(order, all[k]),
        decreases msgs.len() - i,
    {
        let key = key_for(order, &msgs[i]);
        keys.push(key);
        i = i + 1;
    }
    let numbers = merge_sort(&keys, 0, keys.len());
    let ghost ranks = ranks_of(order, all);
    proof {
        assert(key_ranks(keys@) =~= ranks);
        let p = ints(numbers@);
        assert forall|x: int| 0 <= x < ranks.len() implies #[trigger] p.contains(x) by {
            assert(numbers@.contains(x as usize));
            let k = choose|k: int| 0 <= k < numbers@.len() && numbers@[k] == x as usize;
            assert(p[k] == x);
        }
        assert(is_ranking(ranks, p));
        ranking_is_unique(ranks, p, ranking(order, all));
    }
    let mut out: Vec<Message> = Vec::new();
    let mut k: usize = 0;
    while k < numbers.len()
        invariant
            k <= numbers.len(),
            all == mails(msgs@),
            numbers@.len() == msgs@.len(),
            forall|j: int| 0 <= j < numbers@.len() ==> (#[trigger] numbers@[j]) < msgs@.len(),
            ints(numbers@) == ranking(order, all),
            mails(out@) == sorted(order, all).take(k as int),
        decreases numbers.len() - k,
    {
        let ghost had = mails(out@);
        let one = msgs[numbers[k]].copy();
        out.push(one);
        proof {
            assert(mails(out@) =~= had.push(one@));
            assert(sorted(order, all)[k as int] == all[ints(numbers@)[k as int]]);
            assert(sorted(order, all).take(k + 1) =~= sorted(order, all).take(k as int).push(one@));
        }
        k = k + 1;
    }
    proof {
        assert(sorted(order, all).take(sorted(order, all).len() as int) =~= sorted(order, all));
    }
    out
}

} // verus!
