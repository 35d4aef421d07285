//! Inbox messages, and the verified shape of the calls that fetch and
//! acknowledge them. The paging decisions and the request body live here;
//! the caller carries them over the wire.

use vstd::prelude::*;

verus! {

/// A platform inbox message.
#[derive(Debug)]
pub struct Message {
    /// The fullname of the message
    pub name: String,
    /// The author of the message, kept for logging purposes
    pub author: String,
    /// If the message was a comment or comment reply, the subreddit it was
    /// posted in, otherwise nothing
    pub subreddit: Option<String>,
    /// The body of the message
    pub body: String,
}

/// An inbox message, as one mathematical value.
pub ghost struct MessageView {
    pub name: Seq<char>,
    pub author: Seq<char>,
    pub subreddit: Option<Seq<char>>,
    pub body: Seq<char>,
}

impl View for Message {
    type V = MessageView;

    open spec fn view(&self) -> MessageView {
        MessageView {
            name: self.name@,
            author: self.author@,
            subreddit: match self.subreddit {
                Option::Some(s) => Some(s@),
                Option::None => None,
            },
            body: self.body@,
        }
    }
}

/// The views of a sequence of messages.
pub open spec fn message_views(ms: Seq<Message>) -> Seq<MessageView> {
    ms.map_values(|m: Message| m@)
}

/// The most messages one unread-fetch request may ask for.
pub const MAX_MESSAGES: u64 = 100;

/// How many messages the next unread-fetch request asks for: up to the
/// platform cap, never past the caller's total limit, and nothing once the
/// limit is reached. Without a limit every request asks for the cap.
pub open spec fn next_fetch_spec(count: u64, limit: Option<u64>) -> Option<u64> {
    match limit {
        Some(lim) => if count < lim {
            if lim - count < MAX_MESSAGES {
                Some((lim - count) as u64)
            } else {
                Some(MAX_MESSAGES)
            }
        } else {
            None
        },
        None => Some(MAX_MESSAGES),
    }
}

/// The comma-terminated join of the message fullnames.
pub open spec fn names_concat(ms: Seq<MessageView>) -> Seq<char>
    decreases ms.len(),
{
    if ms.len() == 0 {
        Seq::<char>::empty()
    } else {
        ms[0].name + ","@ + names_concat(ms.drop_first())
    }
}

impl Message {
    /// The size of the next unread-fetch request, given how many messages
    /// are already in hand.
    pub fn next_fetch(count: u64, limit: Option<u64>) -> (r: Option<u64>)
        ensures
            r == next_fetch_spec(count, limit),
    {
        match limit {
            Option::Some(lim) => {
                if count < lim {
                    if lim - count < MAX_MESSAGES {
                        Some(lim - count)
                    } else {
                        Some(MAX_MESSAGES)
                    }
                } else {
                    None
                }
            },
            Option::None => Some(MAX_MESSAGES),
        }
    }

    /// The request body that marks a batch of messages read: `id=` followed
    /// by the comma-joined fullnames. Nothing when the batch is empty, in
    /// which case no request is owed at all.
    pub fn mark_read_body(messages: &[Message]) -> (r: Option<String>)
        ensures
            (r is Some) == (messages@.len() > 0),
            r matches Some(b) ==> b@ == "id="@ + names_concat(message_views(messages@)),
    {
        if messages.len() == 0 {
            return None;
        }
        let ghost vs = message_views(messages@);
        let mut body = String::from_str("id=");
        let mut i: usize = 0;
        proof {
            assert(vs.skip(0) =~= vs);
        }
        while i < messages.len()
            invariant
                i <= messages@.len(),
                vs == message_views(messages@),
                vs.len() == messages@.len(),
                "id="@ + names_concat(vs) == body@ + names_concat(vs.skip(i as int)),
            decreases messages.len() - i,
        {
            let ghost done = body@;
            let ghost rest = vs.skip(i as int);
            proof {
                assert(rest[0] == vs[i as int]);
                assert(rest.drop_first() =~= vs.skip(i + 1));
                assert(vs[i as int] == messages@[i as int]@);
            }
            body.append(messages[i].name.as_str());
            body.append(",");
            proof {
                assert(names_concat(rest) == rest[0].name + ","@ + names_concat(vs.skip(i + 1)));
                assert((done + (rest[0].name + ","@ + names_concat(vs.skip(i + 1)))) =~= ((done
                    + rest[0].name + ","@) + names_concat(vs.skip(i + 1))));
            }
            i = i + 1;
        }
        proof {
            assert(vs.skip(vs.len() as int) =~= Seq::<MessageView>::empty());
            assert(body@ + Seq::<char>::empty() =~= body@);
        }
        Some(body)
    }
}

} // verus!
