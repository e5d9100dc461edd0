//! Mailboxes.
//!
//! The bus holds the messages that were sent and not yet read, in order. Each mailbox is
//! also a file; reading a mailbox empties it.

use vstd::prelude::*;

use crate::json;
use crate::json::Json;
use crate::paths;
use crate::pattern;
use crate::text;

verus! {

/// The directory of the mailboxes, below the working directory.
pub const MAILBOX_DIR_NAME: &'static str = ".mailboxes";

/// A message between agents.
pub struct MessageRecord {
    pub from: String,
    pub to: String,
    pub content: String,
    pub msg_type: String,
    pub metadata: Json,
}

/// The mathematical content of a [`MessageRecord`].
#[verifier::ext_equal]
pub struct MailView {
    pub from: Seq<char>,
    pub to: Seq<char>,
    pub content: Seq<char>,
    pub msg_type: Seq<char>,
    pub metadata: Seq<char>,
}

impl View for MessageRecord {
    type V = MailView;

    open spec fn view(&self) -> MailView {
        MailView {
            from: self.from@,
            to: self.to@,
            content: self.content@,
            msg_type: self.msg_type@,
            metadata: self.metadata@,
        }
    }
}

/// The contents of a list of messages.
pub open spec fn mails(v: Seq<MessageRecord>) -> Seq<MailView> {
    v.map_values(|m: MessageRecord| m@)
}

impl Clone for MessageRecord {
    fn clone(&self) -> (r: Self)
        ensures
            r@ == self@,
    {
        MessageRecord {
            from: self.from.clone(),
            to: self.to.clone(),
            content: self.content.clone(),
            msg_type: self.msg_type.clone(),
            metadata: self.metadata.clone(),
        }
    }
}

impl MailView {
    /// The request that the message is about.
    pub open spec fn request_id(self) -> Option<Seq<char>> {
        json::text_str_member(self.metadata, "request_id"@)
    }

    /// Whether the message approves; it does not unless it says so.
    pub open spec fn approves(self) -> bool {
        json::text_bool_member(self.metadata, "approve"@) == Some(true)
    }
}

impl MessageRecord {
    /// The request that the message is about.
    pub fn request_id(&self) -> (r: Option<String>)
        ensures
            self@.request_id() == text::opt_view(r),
    {
        self.metadata.str_member("request_id")
    }

    /// Whether the message approves.
    pub fn approves(&self) -> (r: bool)
        ensures
            r == self@.approves(),
    {
        match self.metadata.bool_member("approve") {
            Some(b) => b,
            None => false,
        }
    }
}

/// The messages to `agent`.
pub open spec fn addressed(ms: Seq<MailView>, agent: Seq<char>) -> Seq<MailView>
    decreases ms.len(),
{
    if ms.len() == 0 {
        Seq::empty()
    } else if ms.last().to == agent {
        addressed(ms.drop_last(), agent).push(ms.last())
    } else {
        addressed(ms.drop_last(), agent)
    }
}

/// The messages to others than `agent`.
pub open spec fn not_addressed(ms: Seq<MailView>, agent: Seq<char>) -> Seq<MailView>
    decreases ms.len(),
{
    if ms.len() == 0 {
        Seq::empty()
    } else if ms.last().to == agent {
        not_addressed(ms.drop_last(), agent)
    } else {
        not_addressed(ms.drop_last(), agent).push(ms.last())
    }
}

/// The bus after a message: it is added where its recipient is a valid name.
pub open spec fn sent(ms: Seq<MailView>, m: MailView) -> Seq<MailView> {
    if pattern::is_agent_name(m.to) {
        ms.push(m)
    } else {
        ms
    }
}

/// The messages that were sent and not yet read.
pub struct MessageBus {
    pub workdir: String,
    pub messages: Vec<MessageRecord>,
}

impl View for MessageBus {
    type V = Seq<MailView>;

    open spec fn view(&self) -> Seq<MailView> {
        mails(self.messages@)
    }
}

impl MessageBus {
    /// A bus without messages.
    pub fn new(workdir: String) -> (r: Self)
        ensures
            r.workdir == workdir,
            r@ == Seq::<MailView>::empty(),
    {
        let r = MessageBus { workdir, messages: Vec::new() };
        assert(r@ =~= Seq::<MailView>::empty());
        r
    }

    /// The directory of the mailboxes.
    pub fn maildir(&self) -> (r: String)
        ensures
            r@ == paths::joined_path(self.workdir@, MAILBOX_DIR_NAME@),
    {
        paths::join_path(self.workdir.as_str(), MAILBOX_DIR_NAME)
    }

    /// The file of an agent's mailbox. `base` is the directory of the mailboxes with all links
    /// resolved, or why it could not be made or resolved.
    pub fn mailbox_path(&self, base: &Result<String, String>, agent: &str) -> (r: Result<
        String,
        String,
    >)
        ensures
            match r {
                Ok(p) => {
                    &&& pattern::is_agent_name(agent@)
                    &&& *base is Ok
                    &&& p@ == paths::joined_path((*base)->Ok_0@, agent@ + ".jsonl"@)
                },
                Err(e) => if pattern::is_agent_name(agent@) {
                    *base is Err && e@ == (*base)->Err_0@
                } else {
                    e@ == "Invalid mailbox recipient: "@ + text::debug_quoted(agent@)
                },
            },
    {
        if !pattern::is_valid_agent_name(agent) {
            return Err(
                "Invalid mailbox recipient: ".to_string().concat(text::debug_text(agent).as_str()),
            );
        }
        let file = agent.to_string().concat(".jsonl");
        match base {
            Ok(b) => Ok(paths::join_path(b.as_str(), file.as_str())),
            Err(e) => Err(e.clone()),
        }
    }

    /// Sends a message. It is dropped where the recipient is not a valid name.
    pub fn send(
        &mut self,
        from: &str,
        to: &str,
        content: &str,
        msg_type: &str,
        metadata: Option<Json>,
    )
        ensures
            final(self).workdir == old(self).workdir,
            final(self)@ == sent(
                old(self)@,
                MailView {
                    from: from@,
                    to: to@,
                    content: content@,
                    msg_type: msg_type@,
                    metadata: match metadata {
                        Some(j) => j@,
                        None => "null"@,
                    },
                },
            ),
    {
        if pattern::is_valid_agent_name(to) {
            let ghost before = self@;
            let record = MessageRecord {
                from: from.to_string(),
                to: to.to_string(),
                content: content.to_string(),
                msg_type: msg_type.to_string(),
                metadata: match metadata {
                    Some(j) => j,
                    None => Json::null(),
                },
            };
            self.messages.push(record);
            assert(self@ =~= before.push(record@));
        }
    }

    /// Takes the messages to `agent` out.
    pub fn read_inbox(&mut self, agent: &str) -> (r: Vec<MessageRecord>)
        ensures
            final(self).workdir == old(self).workdir,
            mails(r@) == addressed(old(self)@, agent@),
            final(self)@ == not_addressed(old(self)@, agent@),
    {
        let ghost all = self@;
        let mut mine: Vec<MessageRecord> = Vec::new();
        let mut rest: Vec<MessageRecord> = Vec::new();
        let mut i: usize = 0;
        assert(mails(mine@) =~= Seq::<MailView>::empty());
        assert(mails(rest@) =~= Seq::<MailView>::empty());
        while i < self.messages.len()
            invariant
                i <= self.messages@.len(),
                self.workdir == old(self).workdir,
                all == self@,
                mails(mine@) == addressed(all.take(i as int), agent@),
                mails(rest@) == not_addressed(all.take(i as int), agent@),
            decreases self.messages@.len() - i,
        {
            let ghost m0 = mails(mine@);
            let ghost r0 = mails(rest@);
            assert(all.take(i + 1).drop_last() =~= all.take(i as int));
            assert(all.take(i + 1).last() == self.messages@[i as int]@);
            let m = self.messages[i].clone();
            if text::same(m.to.as_str(), agent) {
                mine.push(m);
                assert(mails(mine@) =~= m0.push(m@));
            } else {
                rest.push(m);
                assert(mails(rest@) =~= r0.push(m@));
            }
            i += 1;
        }
        assert(all.take(all.len() as int) =~= all);
        self.messages = rest;
        mine
    }

    /// Whether there are messages to `agent`.
    pub fn peek(&self, agent: &str) -> (r: bool)
        ensures
            r == (addressed(self@, agent@).len() > 0),
    {
        let ghost all = self@;
        let mut i: usize = 0;
        while i < self.messages.len()
            invariant
                i <= self.messages@.len(),
                all == self@,
                addressed(all.take(i as int), agent@).len() == 0,
            decreases self.messages@.len() - i,
        {
            assert(all.take(i + 1).drop_last() =~= all.take(i as int));
            assert(all.take(i + 1).last() == self.messages@[i as int]@);
            if text::same(self.messages[i].to.as_str(), agent) {
                proof {
                    addressed_grows(all, agent@, i + 1);
                }
                return true;
            }
            i += 1;
        }
        assert(all.take(all.len() as int) =~= all);
        false
    }
}

proof fn addressed_grows(ms: Seq<MailView>, agent: Seq<char>, n: int)
    requires
        0 <= n <= ms.len(),
    ensures
        addressed(ms.take(n), agent).len() <= addressed(ms, agent).len(),
    decreases ms.len() - n,
{
    if n < ms.len() {
        assert(ms.take(n + 1).drop_last() =~= ms.take(n));
        addressed_grows(ms, agent, n + 1);
    } else {
        assert(ms.take(n) =~= ms);
    }
}

/// A message that was sent to a valid name comes out when its recipient reads.
pub proof fn law_sent_then_read(ms: Seq<MailView>, m: MailView)
    requires
        pattern::is_agent_name(m.to),
    ensures
        addressed(sent(ms, m), m.to) == addressed(ms, m.to).push(m),
{
    assert(sent(ms, m).drop_last() =~= ms);
}

/// Reading empties the mailbox, and leaves all others as they were.
pub proof fn law_read_empties(ms: Seq<MailView>, agent: Seq<char>, other: Seq<char>)
    ensures
        addressed(not_addressed(ms, agent), agent).len() == 0,
        other != agent ==> addressed(not_addressed(ms, agent), other) == addressed(ms, other),
    decreases ms.len(),
{
    if ms.len() > 0 {
        law_read_empties(ms.drop_last(), agent, other);
        let rest = not_addressed(ms.drop_last(), agent);
        if ms.last().to != agent {
            assert(rest.push(ms.last()).drop_last() =~= rest);
        }
    }
}

} // verus!
