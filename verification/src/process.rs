//! The cycle's pure steps: filtering messages, finding friends in them, and
//! assembling the replies.

use vstd::prelude::*;

use crate::friend::{find_spec, friend_view_of, Friend, FriendView};
use crate::message::{message_views, Message, MessageView};
use crate::page::{Page, PageView};
use crate::text::{chars_of, lower_of, string_from_chars, to_lowercase};

verus! {

// ---------------------------------------------------------------------------
// Markdown escaping
// ---------------------------------------------------------------------------

/// The characters escaped in reply markdown.
pub open spec fn is_md_special(c: char) -> bool {
    c == '\\' || c == '`' || c == '*' || c == '_' || c == '#'
}

/// A text with every special character preceded by a backslash.
pub open spec fn escape_spec(s: Seq<char>) -> Seq<char>
    decreases s.len(),
{
    if s.len() == 0 {
        Seq::<char>::empty()
    } else {
        (if is_md_special(s[0]) {
            seq!['\\', s[0]]
        } else {
            seq![s[0]]
        }) + escape_spec(s.drop_first())
    }
}

/// Escape the markdown special characters of a text.
pub fn escape_md(source: &str) -> (r: String)
    ensures
        r@ == escape_spec(source@),
{
    let chars = chars_of(source);
    let mut out: Vec<char> = Vec::new();
    let mut i: usize = 0;
    proof {
        assert(chars@.skip(0) =~= chars@);
        assert(Seq::<char>::empty() + escape_spec(chars@) =~= escape_spec(chars@));
    }
    while i < chars.len()
        invariant
            i <= chars@.len(),
            chars@ == source@,
            escape_spec(source@) == out@ + escape_spec(chars@.skip(i as int)),
        decreases chars.len() - i,
    {
        let c = chars[i];
        let ghost done = out@;
        let ghost rest = chars@.skip(i as int);
        proof {
            assert(rest[0] == chars@[i as int]);
            assert(rest.drop_first() =~= chars@.skip(i + 1));
        }
        if c == '\\' || c == '`' || c == '*' || c == '_' || c == '#' {
            out.push('\\');
            out.push(c);
            proof {
                assert(out@ =~= done + seq!['\\', c]);
                assert((done + seq!['\\', c]) + escape_spec(chars@.skip(i + 1)) =~= done + (seq![
                    '\\',
                    c,
                ] + escape_spec(chars@.skip(i + 1))));
            }
        } else {
            out.push(c);
            proof {
                assert(out@ =~= done + seq![c]);
                assert((done + seq![c]) + escape_spec(chars@.skip(i + 1)) =~= done + (seq![c]
                    + escape_spec(chars@.skip(i + 1))));
            }
        }
        i = i + 1;
    }
    proof {
        assert(chars@.skip(chars@.len() as int) =~= Seq::<char>::empty());
        assert(out@ + Seq::<char>::empty() =~= out@);
    }
    string_from_chars(&out)
}

// ---------------------------------------------------------------------------
// Message filtering
// ---------------------------------------------------------------------------

/// Whether a message passes the origin filter: direct messages always do;
/// comments only from the allow-listed subreddits, case-insensitively.
pub open spec fn passes_filter(m: MessageView) -> bool {
    match m.subreddit {
        Option::None => true,
        Option::Some(sub) => lower_of(sub) == "kemonofriends"@ || lower_of(sub)
            == "japari_librarian"@,
    }
}

/// The messages that pass the origin filter, in order.
pub open spec fn filter_spec(ms: Seq<MessageView>) -> Seq<MessageView>
    decreases ms.len(),
{
    if ms.len() == 0 {
        Seq::<MessageView>::empty()
    } else {
        let rest = filter_spec(ms.drop_first());
        if passes_filter(ms[0]) {
            seq![ms[0]] + rest
        } else {
            rest
        }
    }
}

/// A field-for-field copy of a message.
fn clone_message(m: &Message) -> (r: Message)
    ensures
        r@ == m@,
{
    Message {
        name: m.name.clone(),
        author: m.author.clone(),
        subreddit: match &m.subreddit {
            Option::Some(s) => Some(s.clone()),
            Option::None => None,
        },
        body: m.body.clone(),
    }
}

/// Keep the messages that pass the origin filter.
pub fn filter_messages(messages: &Vec<Message>) -> (r: Vec<Message>)
    ensures
        message_views(r@) == filter_spec(message_views(messages@)),
{
    let ghost mvs = message_views(messages@);
    let mut out: Vec<Message> = Vec::new();
    let mut i: usize = 0;
    proof {
        assert(mvs.skip(0) =~= mvs);
        assert(message_views(out@) =~= Seq::<MessageView>::empty());
        assert(Seq::<MessageView>::empty() + filter_spec(mvs) =~= filter_spec(mvs));
    }
    while i < messages.len()
        invariant
            i <= messages@.len(),
            mvs == message_views(messages@),
            mvs.len() == messages@.len(),
            filter_spec(mvs) == message_views(out@) + filter_spec(mvs.skip(i as int)),
        decreases messages.len() - i,
    {
        let ghost done = message_views(out@);
        proof {
            assert(mvs.skip(i as int)[0] == mvs[i as int]);
            assert(mvs.skip(i as int).drop_first() =~= mvs.skip(i + 1));
            assert(mvs[i as int] == messages@[i as int]@);
        }
        let keep: bool = match &messages[i].subreddit {
            Option::None => true,
            Option::Some(sub) => {
                let lc = to_lowercase(sub.as_str());
                lc == String::from_str("kemonofriends") || lc == String::from_str(
                    "japari_librarian",
                )
            },
        };
        if keep {
            let m = clone_message(&messages[i]);
            let ghost mv = m@;
            out.push(m);
            proof {
                assert(message_views(out@) =~= done.push(mv));
                assert((done + (seq![mv] + filter_spec(mvs.skip(i + 1)))) =~= (done.push(mv)
                    + filter_spec(mvs.skip(i + 1))));
            }
        }
        i = i + 1;
    }
    proof {
        assert(mvs.skip(mvs.len() as int) =~= Seq::<MessageView>::empty());
        assert(message_views(out@) + Seq::<MessageView>::empty() =~= message_views(out@));
    }
    out
}

// ---------------------------------------------------------------------------
// Finding friends
// ---------------------------------------------------------------------------

/// The views of message-and-identifiers pairs.
pub open spec fn pair_views(ms: Seq<(Message, Vec<u64>)>) -> Seq<(MessageView, Seq<u64>)> {
    ms.map_values(|p: (Message, Vec<u64>)| (p.0@, p.1@))
}

/// The combined length of all message bodies.
pub open spec fn total_body_len(ms: Seq<MessageView>) -> int
    decreases ms.len(),
{
    if ms.len() == 0 {
        0
    } else {
        ms[0].body.len() + total_body_len(ms.drop_first())
    }
}

/// The message-and-identifiers pairs that finding friends produces: one
/// pair per message whose body carries a matching mention, holding the
/// identifiers handed to that message's friends, numbered on from `next`.
pub open spec fn find_friends_pairs(ms: Seq<MessageView>, target: Seq<char>, next: int) -> Seq<
    (MessageView, Seq<u64>),
>
    decreases ms.len(),
{
    if ms.len() == 0 {
        Seq::<(MessageView, Seq<u64>)>::empty()
    } else {
        match find_spec(ms[0].body, target) {
            Option::None => find_friends_pairs(ms.drop_first(), target, next),
            Option::Some(qs) => seq![
                (ms[0], Seq::<u64>::new(qs.len(), |k: int| (next + k) as u64)),
            ] + find_friends_pairs(ms.drop_first(), target, next + qs.len()),
        }
    }
}

/// The friends that finding friends produces, across all messages, in
/// encounter order, numbered on from `next`.
pub open spec fn find_friends_list(ms: Seq<MessageView>, target: Seq<char>, next: int) -> Seq<
    FriendView,
>
    decreases ms.len(),
{
    if ms.len() == 0 {
        Seq::<FriendView>::empty()
    } else {
        match find_spec(ms[0].body, target) {
            Option::None => find_friends_list(ms.drop_first(), target, next),
            Option::Some(qs) => Seq::<FriendView>::new(
                qs.len(),
                |k: int| friend_view_of(qs[k], (next + k) as u64),
            ) + find_friends_list(ms.drop_first(), target, next + qs.len()),
        }
    }
}

/// The views of the friends found.
pub open spec fn found_views(fs: Seq<Friend>) -> Seq<FriendView> {
    fs.map_values(|f: Friend| f@)
}

/// Find friends in messages: each message is scanned for a mention of the
/// target handle, and every friend quoted after one gets the next
/// identifier, counted from zero across the whole batch.
pub fn find_friends(messages: &Vec<Message>, user: &str) -> (r: (
    Vec<(Message, Vec<u64>)>,
    Vec<Friend>,
))
    requires
        forall|k: int|
            0 <= k < user@.len() ==> crate::friend::is_username_char(#[trigger] user@[k]),
        total_body_len(message_views(messages@)) <= u64::MAX,
    ensures
        pair_views(r.0@) == find_friends_pairs(message_views(messages@), user@, 0),
        found_views(r.1@) == find_friends_list(message_views(messages@), user@, 0),
{
    let ghost mvs = message_views(messages@);
    let mut pairs: Vec<(Message, Vec<u64>)> = Vec::new();
    let mut friends: Vec<Friend> = Vec::new();
    let mut counter: u64 = 0;
    let mut i: usize = 0;
    proof {
        assert(mvs.skip(0) =~= mvs);
        assert(pair_views(pairs@) =~= Seq::<(MessageView, Seq<u64>)>::empty());
        assert(found_views(friends@) =~= Seq::<FriendView>::empty());
        assert(Seq::<(MessageView, Seq<u64>)>::empty() + find_friends_pairs(mvs, user@, 0)
            =~= find_friends_pairs(mvs, user@, 0));
        assert(Seq::<FriendView>::empty() + find_friends_list(mvs, user@, 0)
            =~= find_friends_list(mvs, user@, 0));
    }
    while i < messages.len()
        invariant
            i <= messages@.len(),
            mvs == message_views(messages@),
            mvs.len() == messages@.len(),
            forall|k: int|
                0 <= k < user@.len() ==> crate::friend::is_username_char(#[trigger] user@[k]),
            counter + total_body_len(mvs.skip(i as int)) <= u64::MAX,
            find_friends_pairs(mvs, user@, 0) == pair_views(pairs@) + find_friends_pairs(
                mvs.skip(i as int),
                user@,
                counter as int,
            ),
            find_friends_list(mvs, user@, 0) == found_views(friends@) + find_friends_list(
                mvs.skip(i as int),
                user@,
                counter as int,
            ),
        decreases messages.len() - i,
    {
        let ghost done_pairs = pair_views(pairs@);
        let ghost done_friends = found_views(friends@);
        let ghost rest = mvs.skip(i as int);
        proof {
            assert(rest[0] == mvs[i as int]);
            assert(rest.drop_first() =~= mvs.skip(i + 1));
            assert(mvs[i as int] == messages@[i as int]@);
            lemma_total_body_len_nonneg(mvs.skip(i + 1));
        }
        let message = &messages[i];
        match Friend::find(message.body.as_str(), user, counter) {
            Option::Some(mut found) => {
                let ghost qs = find_spec(rest[0].body, user@).unwrap();
                let mut ids: Vec<u64> = Vec::new();
                let mut k: usize = 0;
                while k < found.len()
                    invariant
                        k <= found@.len(),
                        counter + found@.len() <= u64::MAX,
                        ids@.len() == k,
                        forall|j: int| 0 <= j < k ==> ids@[j] == (counter + j) as u64,
                    decreases found.len() - k,
                {
                    ids.push(counter + (k as u64));
                    k = k + 1;
                }
                let m = clone_message(message);
                let ghost mv = m@;
                let ghost new_pair = (mv, ids@);
                pairs.push((m, ids));
                let new_count = counter + (found.len() as u64);
                let ghost found_vs = found_views(found@);
                friends.append(&mut found);
                proof {
                    assert(new_pair.1 =~= Seq::<u64>::new(qs.len(), |k: int| (counter + k) as u64));
                    assert(pair_views(pairs@) =~= done_pairs.push(new_pair));
                    assert((done_pairs + (seq![new_pair] + find_friends_pairs(
                        mvs.skip(i + 1),
                        user@,
                        counter + qs.len(),
                    ))) =~= (done_pairs.push(new_pair) + find_friends_pairs(
                        mvs.skip(i + 1),
                        user@,
                        counter + qs.len(),
                    )));
                    assert(found_vs =~= Seq::<FriendView>::new(
                        qs.len(),
                        |k: int| friend_view_of(qs[k], (counter + k) as u64),
                    ));
                    assert(found_views(friends@) =~= done_friends + found_vs);
                    assert((done_friends + (found_vs + find_friends_list(
                        mvs.skip(i + 1),
                        user@,
                        counter + qs.len(),
                    ))) =~= ((done_friends + found_vs) + find_friends_list(
                        mvs.skip(i + 1),
                        user@,
                        counter + qs.len(),
                    )));
                }
                counter = new_count;
            },
            Option::None => {},
        }
        i = i + 1;
    }
    proof {
        assert(mvs.skip(mvs.len() as int) =~= Seq::<MessageView>::empty());
        assert(pair_views(pairs@) + Seq::<(MessageView, Seq<u64>)>::empty() =~= pair_views(
            pairs@,
        ));
        assert(found_views(friends@) + Seq::<FriendView>::empty() =~= found_views(friends@));
    }
    (pairs, friends)
}

// ---------------------------------------------------------------------------
// Reply assembly
// ---------------------------------------------------------------------------

/// The views of a sequence of pages.
pub open spec fn page_views(ps: Seq<Page>) -> Seq<PageView> {
    ps.map_values(|p: Page| p@)
}

/// The views of name-and-body reply pairs.
pub open spec fn reply_views(rs: Seq<(String, String)>) -> Seq<(Seq<char>, Seq<char>)> {
    rs.map_values(|r: (String, String)| (r.0@, r.1@))
}

/// The markdown line a page contributes to a reply: the escaped title
/// linking to the page, a picture link when there is an image, and a blank
/// line.
pub open spec fn page_line(p: PageView) -> Seq<char> {
    "["@ + escape_spec(p.title) + "]("@ + p.url + ")"@ + (match p.image {
        Option::Some(u) => " ([pic]("@ + u + "))"@,
        Option::None => Seq::<char>::empty(),
    }) + "\n\n"@
}

/// Whether any identifier of `a` is also in `b`.
pub open spec fn intersects(a: Seq<u64>, b: Seq<u64>) -> bool {
    exists|i: int| 0 <= i < a.len() && b.contains(#[trigger] a[i])
}

/// The body of one reply: the lines of every page linked to any of the
/// message's friends, in page order.
pub open spec fn reply_body(ids: Seq<u64>, pages: Seq<PageView>) -> Seq<char>
    decreases pages.len(),
{
    if pages.len() == 0 {
        Seq::<char>::empty()
    } else {
        (if intersects(pages[0].friends, ids) {
            page_line(pages[0])
        } else {
            Seq::<char>::empty()
        }) + reply_body(ids, pages.drop_first())
    }
}

/// The replies owed: one per message with a non-empty body, addressed by
/// the message's fullname, with the footer appended.
pub open spec fn make_replies_spec(
    msgs: Seq<(MessageView, Seq<u64>)>,
    pages: Seq<PageView>,
    footer: Seq<char>,
) -> Seq<(Seq<char>, Seq<char>)>
    decreases msgs.len(),
{
    if msgs.len() == 0 {
        Seq::<(Seq<char>, Seq<char>)>::empty()
    } else {
        let body = reply_body(msgs[0].1, pages);
        let rest = make_replies_spec(msgs.drop_first(), pages, footer);
        if body.len() == 0 {
            rest
        } else {
            seq![(msgs[0].0.name, body + footer)] + rest
        }
    }
}

/// Whether the vector holds the value.
fn contains_u64(v: &Vec<u64>, x: u64) -> (r: bool)
    ensures
        r == v@.contains(x),
{
    let mut i: usize = 0;
    while i < v.len()
        invariant
            i <= v@.len(),
            forall|j: int| 0 <= j < i ==> v@[j] != x,
        decreases v.len() - i,
    {
        if v[i] == x {
            return true;
        }
        i = i + 1;
    }
    proof {
        assert(forall|j: int| 0 <= j < v@.len() ==> v@[j] != x);
    }
    false
}

/// Whether the two identifier sets share a member.
fn any_common(a: &Vec<u64>, b: &Vec<u64>) -> (r: bool)
    ensures
        r == intersects(a@, b@),
{
    let mut i: usize = 0;
    while i < a.len()
        invariant
            i <= a@.len(),
            forall|j: int| 0 <= j < i ==> !b@.contains(#[trigger] a@[j]),
        decreases a.len() - i,
    {
        if contains_u64(b, a[i]) {
            return true;
        }
        i = i + 1;
    }
    false
}

/// Format replies to messages: for each message, the lines of the pages
/// linked to its friends; messages with nothing to say get no reply.
pub fn make_replies(
    messages: &Vec<(Message, Vec<u64>)>,
    pages: &Vec<Page>,
    footer: &str,
) -> (r: Vec<(String, String)>)
    ensures
        reply_views(r@) == make_replies_spec(pair_views(messages@), page_views(pages@), footer@),
{
    let ghost msgs = pair_views(messages@);
    let ghost pvs = page_views(pages@);
    let mut replies: Vec<(String, String)> = Vec::new();
    let mut i: usize = 0;
    proof {
        assert(msgs.skip(0) =~= msgs);
        assert(reply_views(replies@) =~= Seq::<(Seq<char>, Seq<char>)>::empty());
        assert(Seq::<(Seq<char>, Seq<char>)>::empty() + make_replies_spec(msgs, pvs, footer@)
            =~= make_replies_spec(msgs, pvs, footer@));
    }
    while i < messages.len()
        invariant
            i <= messages@.len(),
            msgs == pair_views(messages@),
            msgs.len() == messages@.len(),
            pvs == page_views(pages@),
            pvs.len() == pages@.len(),
            make_replies_spec(msgs, pvs, footer@) == reply_views(replies@) + make_replies_spec(
                msgs.skip(i as int),
                pvs,
                footer@,
            ),
        decreases messages.len() - i,
    {
        let ghost done = reply_views(replies@);
        let ghost rest = msgs.skip(i as int);
        proof {
            assert(rest[0] == msgs[i as int]);
            assert(rest.drop_first() =~= msgs.skip(i + 1));
            assert(msgs[i as int] == (messages@[i as int].0@, messages@[i as int].1@));
        }
        let ids: &Vec<u64> = &messages[i].1;
        let mut fmt = String::new();
        let mut j: usize = 0;
        proof {
            assert(pvs.skip(0) =~= pvs);
            assert(Seq::<char>::empty() + reply_body(ids@, pvs) =~= reply_body(ids@, pvs));
        }
        while j < pages.len()
            invariant
                j <= pages@.len(),
                pvs == page_views(pages@),
                pvs.len() == pages@.len(),
                ids@ == msgs[i as int].1,
                i < msgs.len(),
                reply_body(ids@, pvs) == fmt@ + reply_body(ids@, pvs.skip(j as int)),
            decreases pages.len() - j,
        {
            let ghost fdone = fmt@;
            let ghost prest = pvs.skip(j as int);
            proof {
                assert(prest[0] == pvs[j as int]);
                assert(prest.drop_first() =~= pvs.skip(j + 1));
                assert(pvs[j as int] == pages@[j as int]@);
            }
            let page = &pages[j];
            if any_common(&page.friends, ids) {
                fmt.append("[");
                let et = escape_md(page.title.as_str());
                fmt.append(et.as_str());
                fmt.append("](");
                fmt.append(page.url.as_str());
                fmt.append(")");
                match &page.image {
                    Option::Some(image) => {
                        fmt.append(" ([pic](");
                        fmt.append(image.as_str());
                        fmt.append("))");
                    },
                    Option::None => {},
                }
                fmt.append("\n\n");
                proof {
                    assert(fmt@ =~= fdone + page_line(pvs[j as int]));
                    assert((fdone + page_line(pvs[j as int])) + reply_body(ids@, pvs.skip(j + 1))
                        =~= fdone + (page_line(pvs[j as int]) + reply_body(
                        ids@,
                        pvs.skip(j + 1),
                    )));
                }
            } else {
                proof {
                    assert(Seq::<char>::empty() + reply_body(ids@, pvs.skip(j + 1)) =~= reply_body(
                        ids@,
                        pvs.skip(j + 1),
                    ));
                }
            }
            j = j + 1;
        }
        proof {
            assert(pvs.skip(pvs.len() as int) =~= Seq::<PageView>::empty());
            assert(fmt@ + Seq::<char>::empty() =~= fmt@);
            assert(fmt@ == reply_body(msgs[i as int].1, pvs));
        }
        if !fmt.as_str().is_empty() {
            fmt.append(footer);
            let name = messages[i].0.name.clone();
            let ghost new_reply = (name@, fmt@);
            replies.push((name, fmt));
            proof {
                assert(reply_views(replies@) =~= done.push(new_reply));
                assert((done + (seq![new_reply] + make_replies_spec(
                    msgs.skip(i + 1),
                    pvs,
                    footer@,
                ))) =~= (done.push(new_reply) + make_replies_spec(
                    msgs.skip(i + 1),
                    pvs,
                    footer@,
                )));
            }
        }
        i = i + 1;
    }
    proof {
        assert(msgs.skip(msgs.len() as int) =~= Seq::<(MessageView, Seq<u64>)>::empty());
        assert(reply_views(replies@) + Seq::<(Seq<char>, Seq<char>)>::empty() =~= reply_views(
            replies@,
        ));
    }
    replies
}

/// Body lengths never add up to less than nothing.
proof fn lemma_total_body_len_nonneg(ms: Seq<MessageView>)
    ensures
        total_body_len(ms) >= 0,
    decreases ms.len(),
{
    if ms.len() > 0 {
        lemma_total_body_len_nonneg(ms.drop_first());
    }
}

} // verus!
