//! The mail itself, as far as the reader and the list look at it.

use vstd::prelude::*;

use crate::text::{copy_of, texts};

verus! {

/// A message. An account and an identifier name it: identifiers of different
/// accounts may collide.
#[derive(Debug)]
pub struct Message {
    pub id: u32,
    pub account_id: u32,
    pub folder_id: u32,
    pub uid: u32,
    pub from_name: String,
    pub from_addr: String,
    pub reply_to: String,
    pub to: String,
    pub cc: String,
    pub subject: String,
    pub preview: String,
    pub body: String,
    pub date: String,
    pub timestamp: i64,
    pub unread: bool,
    pub starred: bool,
    pub keywords: Vec<String>,
    pub has_attachment: bool,
    pub message_id: String,
    pub references: String,
}

/// A message, with its texts as sequences of characters.
pub struct Mail {
    pub id: u32,
    pub account_id: u32,
    pub folder_id: u32,
    pub uid: u32,
    pub from_name: Seq<char>,
    pub from_addr: Seq<char>,
    pub reply_to: Seq<char>,
    pub to: Seq<char>,
    pub cc: Seq<char>,
    pub subject: Seq<char>,
    pub preview: Seq<char>,
    pub body: Seq<char>,
    pub date: Seq<char>,
    pub timestamp: i64,
    pub unread: bool,
    pub starred: bool,
    pub keywords: Seq<Seq<char>>,
    pub has_attachment: bool,
    pub message_id: Seq<char>,
    pub references: Seq<char>,
}

impl View for Message {
    type V = Mail;

    open spec fn view(&self) -> Mail {
        Mail {
            id: self.id,
            account_id: self.account_id,
            folder_id: self.folder_id,
            uid: self.uid,
            from_name: self.from_name@,
            from_addr: self.from_addr@,
            reply_to: self.reply_to@,
            to: self.to@,
            cc: self.cc@,
            subject: self.subject@,
            preview: self.preview@,
            body: self.body@,
            date: self.date@,
            timestamp: self.timestamp,
            unread: self.unread,
            starred: self.starred,
            keywords: texts(self.keywords@),
            has_attachment: self.has_attachment,
            message_id: self.message_id@,
            references: self.references@,
        }
    }
}

impl Mail {
    /// What names a message: its account and its identifier.
    pub open spec fn key(self) -> (u32, u32) {
        (self.account_id, self.id)
    }
}

/// The messages of a list.
pub open spec fn mails(v: Seq<Message>) -> Seq<Mail> {
    v.map_values(|m: Message| m@)
}

impl Message {
    /// What names a message: its account and its identifier.
    pub fn key(&self) -> (r: (u32, u32))
        ensures
            r == key_of(self),
            r == self@.key(),
    {
        (self.account_id, self.id)
    }

    /// A copy of the message.
    pub fn copy(&self) -> (r: Message)
        ensures
            r@ == self@,
    {
        let r = Message {
            id: self.id,
            account_id: self.account_id,
            folder_id: self.folder_id,
            uid: self.uid,
            from_name: copy_of(self.from_name.as_str()),
            from_addr: copy_of(self.from_addr.as_str()),
            reply_to: copy_of(self.reply_to.as_str()),
            to: copy_of(self.to.as_str()),
            cc: copy_of(self.cc.as_str()),
            subject: copy_of(self.subject.as_str()),
            preview: copy_of(self.preview.as_str()),
            body: copy_of(self.body.as_str()),
            date: copy_of(self.date.as_str()),
            timestamp: self.timestamp,
            unread: self.unread,
            starred: self.starred,
            keywords: copy_strings(&self.keywords),
            has_attachment: self.has_attachment,
            message_id: copy_of(self.message_id.as_str()),
            references: copy_of(self.references.as_str()),
        };
        r
    }
}

/// A copy of the strings.
pub fn copy_strings(v: &Vec<String>) -> (r: Vec<String>)
    ensures
        texts(r@) == texts(v@),
{
    let mut r: Vec<String> = Vec::new();
    let mut i: usize = 0;
    while i < v.len()
        invariant
            i <= v.len(),
            texts(r@) == texts(v@).take(i as int),
        decreases v.len() - i,
    {
        let ghost had = texts(r@);
        let one = copy_of(v[i].as_str());
        r.push(one);
        proof {
            assert(texts(r@) =~= had.push(one@));
            assert(texts(v@).take(i as int + 1) =~= texts(v@).take(i as int).push(one@));
        }
        i = i + 1;
    }
    proof {
        assert(texts(v@).take(v@.len() as int) =~= texts(v@));
    }
    r
}

/// What names a message: its account and its identifier.
pub open spec fn key_of(m: &Message) -> (u32, u32) {
    (m.account_id, m.id)
}

/// A message's key as one number.
pub open spec fn packed(key: (u32, u32)) -> u64 {
    (key.0 * 0x1_0000_0000 + key.1) as u64
}

/// No two messages' keys are packed alike.
pub proof fn packed_keys_differ(a: (u32, u32), b: (u32, u32))
    requires
        packed(a) == packed(b),
    ensures
        a == b,
{
}

/// A message's key as one number, by which sets and maps of messages are kept.
pub fn message_key(account_id: u32, id: u32) -> (r: u64)
    ensures
        r == packed((account_id, id)),
{
    account_id as u64 * 0x1_0000_0000 + id as u64
}

} // verus!
