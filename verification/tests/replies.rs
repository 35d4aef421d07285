//! Filtering, friend finding across messages, and reply assembly.

use japari_librarian::message::Message;
use japari_librarian::page::Page;
use japari_librarian::process::{escape_md, filter_messages, find_friends, make_replies};

fn message(name: &str, subreddit: Option<&str>, body: &str) -> Message {
    Message {
        name: String::from(name),
        author: String::from("someone"),
        subreddit: subreddit.map(String::from),
        body: String::from(body),
    }
}

#[test]
fn escape_md_escapes_special_characters() {
    assert_eq!(escape_md("a*b_c#d`e\\f"), "a\\*b\\_c\\#d\\`e\\\\f");
    assert_eq!(escape_md("plain"), "plain");
    assert_eq!(escape_md(""), "");
}

#[test]
fn filter_keeps_direct_messages() {
    let kept = filter_messages(&vec![message("m1", None, "")]);
    assert_eq!(kept.len(), 1);
}

#[test]
fn filter_is_case_insensitive_on_the_allow_list() {
    let messages = vec![
        message("m1", Some("KemonoFriends"), ""),
        message("m2", Some("japari_librarian"), ""),
        message("m3", Some("elsewhere"), ""),
    ];
    let kept = filter_messages(&messages);
    assert_eq!(kept.len(), 2);
    assert_eq!(kept[0].name, "m1");
    assert_eq!(kept[1].name, "m2");
}

#[test]
fn find_friends_numbers_across_messages() {
    let messages = vec![
        message("m1", None, "/u/bot \"serval\" \"tanuki\""),
        message("m2", None, "nothing here"),
        message("m3", None, "/u/bot \"fennec\""),
    ];
    let (pairs, friends) = find_friends(&messages, "bot");
    assert_eq!(pairs.len(), 2);
    assert_eq!(pairs[0].0.name, "m1");
    assert_eq!(pairs[0].1, vec![0, 1]);
    assert_eq!(pairs[1].0.name, "m3");
    assert_eq!(pairs[1].1, vec![2]);
    assert_eq!(friends.len(), 3);
    assert_eq!(friends[0].name, "Serval");
    assert_eq!(friends[1].name, "Tanuki");
    assert_eq!(friends[2].name, "Fennec");
    assert_eq!(friends[2].id, 2);
}

#[test]
fn find_friends_keeps_empty_mention_messages() {
    // a matching mention with no quotes still pairs the message, with no ids
    let messages = vec![message("m1", None, "/u/bot hello")];
    let (pairs, friends) = find_friends(&messages, "bot");
    assert_eq!(pairs.len(), 1);
    assert!(pairs[0].1.is_empty());
    assert!(friends.is_empty());
}

fn page(title: &str, url: &str, image: Option<&str>, friends: Vec<u64>) -> Page {
    Page {
        friends,
        title: String::from(title),
        url: String::from(url),
        image: image.map(String::from),
    }
}

#[test]
fn replies_link_pages_to_their_messages() {
    let messages = vec![
        (message("m1", None, ""), vec![0u64, 1]),
        (message("m2", None, ""), vec![2u64]),
        (message("m3", None, ""), vec![]),
    ];
    let pages = vec![
        page("Serval", "https://wiki/Serval", Some("https://img/serval"), vec![0]),
        page("Tanuki", "https://wiki/Tanuki", None, vec![1, 2]),
        page("Orphan", "https://wiki/Orphan", None, vec![9]),
    ];
    let replies = make_replies(&messages, &pages, "---footer");
    assert_eq!(replies.len(), 2);
    assert_eq!(replies[0].0, "m1");
    assert_eq!(
        replies[0].1,
        "[Serval](https://wiki/Serval) ([pic](https://img/serval))\n\n\
         [Tanuki](https://wiki/Tanuki)\n\n---footer"
    );
    assert_eq!(replies[1].0, "m2");
    assert_eq!(replies[1].1, "[Tanuki](https://wiki/Tanuki)\n\n---footer");
}

#[test]
fn replies_escape_markdown_in_titles() {
    let messages = vec![(message("m1", None, ""), vec![0u64])];
    let pages = vec![page("A*B", "u", None, vec![0])];
    let replies = make_replies(&messages, &pages, "");
    assert_eq!(replies[0].1, "[A\\*B](u)\n\n");
}

#[test]
fn no_linked_pages_means_no_reply() {
    let messages = vec![(message("m1", None, ""), vec![5u64])];
    let pages = vec![page("Serval", "u", None, vec![0])];
    let replies = make_replies(&messages, &pages, "---");
    assert!(replies.is_empty());
}

#[test]
fn mark_read_body_joins_names() {
    let messages = vec![message("t4_a", None, ""), message("t4_b", None, "")];
    assert_eq!(Message::mark_read_body(&messages), Some(String::from("id=t4_a,t4_b,")));
    assert_eq!(Message::mark_read_body(&[]), None);
}

#[test]
fn next_fetch_respects_cap_and_limit() {
    assert_eq!(Message::next_fetch(0, None), Some(100));
    assert_eq!(Message::next_fetch(1000, None), Some(100));
    assert_eq!(Message::next_fetch(0, Some(250)), Some(100));
    assert_eq!(Message::next_fetch(200, Some(250)), Some(50));
    assert_eq!(Message::next_fetch(250, Some(250)), None);
    assert_eq!(Message::next_fetch(300, Some(250)), None);
}
