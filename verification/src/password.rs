//! The password of the document's script.

use vstd::prelude::*;

verus! {

/// How many bytes are drawn for a password.
pub const DRAWN: usize = 12;

/// A hexadecimal digit.
pub open spec fn hex_char(v: u8) -> char {
    if v < 10 {
        (48 + v) as char
    } else {
        (87 + v) as char
    }
}

/// The bytes in hexadecimal digits, two for each.
pub open spec fn hex_text(bytes: Seq<u8>) -> Seq<char>
    decreases bytes.len(),
{
    if bytes.len() == 0 {
        seq![]
    } else {
        hex_text(bytes.drop_last()).push(hex_char(bytes.last() / 16)).push(
            hex_char(bytes.last() % 16),
        )
    }
}

fn digit_of(v: u8) -> (c: char)
    requires
        v < 16,
    ensures
        c == hex_char(v),
{
    if v < 10 {
        (48 + v) as char
    } else {
        (87 + v) as char
    }
}

/// The password that is made of the drawn bytes; none where there were not enough of them
/// to be drawn.
pub fn script_password(drawn: &Vec<u8>) -> (r: Option<String>)
    ensures
        r is Some <==> drawn@.len() == DRAWN,
        r matches Some(p) ==> p@ == hex_text(drawn@) && p@.len() == 24,
{
    if drawn.len() != DRAWN {
        return None;
    }
    let mut out = String::new();
    let mut i: usize = 0;
    while i < drawn.len()
        invariant
            i <= drawn.len(),
            out@ == hex_text(drawn@.take(i as int)),
        decreases drawn.len() - i,
    {
        let b = drawn[i];
        out.push(digit_of(b / 16));
        out.push(digit_of(b % 16));
        proof {
            assert(drawn@.take(i + 1).drop_last() =~= drawn@.take(i as int));
        }
        i = i + 1;
    }
    proof {
        assert(drawn@.take(i as int) =~= drawn@);
        password_is_plain(drawn@);
    }
    Some(out)
}

/// A password has two characters for each byte, and each is a digit or a letter: it ends
/// no value that it stands in.
pub proof fn password_is_plain(drawn: Seq<u8>)
    ensures
        hex_text(drawn).len() == 2 * drawn.len(),
        forall|i: int|
            0 <= i < hex_text(drawn).len() ==> ('0' <= #[trigger] hex_text(drawn)[i] <= '9' || 'a'
                <= hex_text(drawn)[i] <= 'f'),
    decreases drawn.len(),
{
    if drawn.len() > 0 {
        password_is_plain(drawn.drop_last());
        let b = drawn.last();
        assert(b / 16 < 16 && b % 16 < 16);
        lemma_hex_char(b / 16, b / 16);
        lemma_hex_char(b % 16, b % 16);
        let rest = hex_text(drawn.drop_last());
        let t = hex_text(drawn);
        assert forall|i: int| 0 <= i < t.len() implies ('0' <= #[trigger] t[i] <= '9' || 'a' <= t[i]
            <= 'f') by {
            if i < rest.len() {
                assert(t[i] == rest[i]);
            }
        }
    }
}

proof fn lemma_hex_char(v: u8, w: u8)
    requires
        v < 16,
        w < 16,
    ensures
        hex_char(v) == hex_char(w) <==> v == w,
        '0' <= hex_char(v) <= '9' || 'a' <= hex_char(v) <= 'f',
{
    assert(hex_char(v) as u32 == if v < 10 {
        48 + v
    } else {
        87 + v
    });
    assert(hex_char(w) as u32 == if w < 10 {
        48 + w
    } else {
        87 + w
    });
}

/// No password is used twice, as long as no draw comes twice: of different bytes
/// different passwords are made.
pub proof fn passwords_differ(a: Seq<u8>, b: Seq<u8>)
    ensures
        hex_text(a) == hex_text(b) <==> a == b,
    decreases a.len(),
{
    password_is_plain(a);
    password_is_plain(b);
    if hex_text(a) == hex_text(b) {
        if a.len() == 0 {
            assert(a =~= b);
        } else {
            let s = hex_text(a);
            let n = s.len() as int;
            let (x, y) = (a.last(), b.last());
            assert(x / 16 < 16 && x % 16 < 16 && y / 16 < 16 && y % 16 < 16);
            assert(s[n - 1] == hex_char(x % 16) && hex_text(b)[n - 1] == hex_char(y % 16));
            assert(s[n - 2] == hex_char(x / 16) && hex_text(b)[n - 2] == hex_char(y / 16));
            lemma_hex_char(x % 16, y % 16);
            lemma_hex_char(x / 16, y / 16);
            assert(x == 16 * (x / 16) + x % 16 && y == 16 * (y / 16) + y % 16);
            assert(hex_text(a.drop_last()) =~= s.subrange(0, n - 2));
            assert(hex_text(b.drop_last()) =~= hex_text(b).subrange(0, n - 2));
            passwords_differ(a.drop_last(), b.drop_last());
            assert(a =~= a.drop_last().push(x));
            assert(b =~= b.drop_last().push(y));
        }
    }
}

} // verus!
