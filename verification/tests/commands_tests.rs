use bounded_vec_deque::BoundedVecDeque;
use gateway_core::cache::compare_u64;
use gateway_core::commands::{
    cache_text, count_cached, headtail, leaderboard, snipe_text, unrenderable_notices,
};
use gateway_core::obj::{Attachment, Message, User};
use std::collections::HashMap;

fn user(id: u64, name: &str, displayname: Option<&str>) -> User {
    User {
        id,
        displayname: displayname.map(|x| x.to_string()),
        username: name.to_string(),
        discriminator: 0,
        avatar_hash: None,
        banner_hash: None,
        bot: false,
        flags: 0,
    }
}

fn attachment(name: &str, renderable: bool) -> Attachment {
    Attachment {
        id: 1,
        filename: name.to_string(),
        url: format!("https://cdn.example/{}", name),
        renderable,
        size: 10,
        dimensions: if renderable { Some((1, 1)) } else { None },
        content_type: None,
    }
}

fn message(id: u64, content: Option<&str>, attachments: Vec<Attachment>) -> Message {
    Message {
        id,
        channel_id: 5,
        author: user(9, "nelly", None),
        content: content.map(|x| x.to_string()),
        attachments,
        message_type: 0,
    }
}

#[test]
fn headtail_splits_at_the_first_space() {
    assert_eq!(headtail(&"av nelly".to_string()), ("av", Some("nelly")));
    assert_eq!(headtail(&"av  two words".to_string()), ("av", Some(" two words")));
    assert_eq!(headtail(&"ping".to_string()), ("ping", None));
    assert_eq!(headtail(&"".to_string()), ("", None));
    assert_eq!(headtail(&" lead".to_string()), ("", Some("lead")));
}

#[test]
fn headtail_parts_rejoin_into_the_line() {
    for line in ["av nelly", "a b c", "nospace", " x", "x "] {
        let owned = line.to_string();
        let (head, tail) = headtail(&owned);
        let rejoined = match tail {
            Some(t) => format!("{} {}", head, t),
            None => head.to_string(),
        };
        assert_eq!(rejoined, line);
        assert!(!head.contains(' '));
    }
}

#[test]
fn unrenderable_video_notices() {
    let m = message(
        1,
        None,
        vec![
            attachment("a.mov", false),
            attachment("b.mp4", true),
            attachment("c.png", false),
            attachment("d.mkv", false),
        ],
    );
    assert_eq!(unrenderable_notices(&m), vec!["a.mov unrenderable".to_string(), "d.mkv unrenderable".to_string()]);
    assert!(unrenderable_notices(&message(2, None, vec![])).is_empty());
}

#[test]
fn snipe_text_lists_content_and_attachments() {
    let m = message(1, Some("gone"), vec![attachment("a.png", true), attachment("b.png", true)]);
    assert_eq!(
        snipe_text(&m),
        "nelly deleted:\n\ngone\nhttps://cdn.example/a.png\nhttps://cdn.example/b.png\n"
    );
    assert_eq!(snipe_text(&message(1, None, vec![])), "nelly deleted:\n\nno content\n");
}

#[test]
fn cache_text_counts() {
    assert_eq!(cache_text(1, 2, 3), "Message cache:\nChannels: 1\nMessages: 2\nUsers: 3");
    assert_eq!(cache_text(0, 1000, 10), "Message cache:\nChannels: 0\nMessages: 1000\nUsers: 10");
}

#[test]
fn leaderboard_is_highest_first_without_zeros() {
    let mut counts = HashMap::new();
    counts.insert(5u64, 2u64);
    counts.insert(6u64, 0u64);
    counts.insert(7u64, 3u64);
    counts.insert(8u64, 1u64);
    let mut users = HashMap::new();
    users.insert(7u64, user(7, "seven", Some("Seven")));
    users.insert(8u64, user(8, "eight", None));
    assert_eq!(leaderboard(&counts, &users), "SOBS!!! :\nSeven - 3\n5 - 2\neight - 1\n");
    assert_eq!(leaderboard(&HashMap::new(), &users), "SOBS!!! :\n");
}

#[test]
fn cached_messages_are_counted_over_channels() {
    let mut caches: HashMap<u64, BoundedVecDeque<Message>> = HashMap::new();
    let mut a = BoundedVecDeque::new(10);
    a.push_back(message(1, None, vec![]));
    a.push_back(message(2, None, vec![]));
    let mut b = BoundedVecDeque::new(10);
    b.push_back(message(3, None, vec![]));
    caches.insert(1, a);
    caches.insert(2, b);
    assert_eq!(count_cached(&caches), 3);
    assert_eq!(count_cached(&HashMap::new()), 0);
}

#[test]
fn comparisons_are_three_way() {
    assert_eq!(compare_u64(1, 2), std::cmp::Ordering::Less);
    assert_eq!(compare_u64(2, 2), std::cmp::Ordering::Equal);
    assert_eq!(compare_u64(3, 2), std::cmp::Ordering::Greater);
}

#[test]
fn leaderboard_ranks_many_counts() {
    let mut counts = HashMap::new();
    for k in 0..50u64 {
        counts.insert(k, (k * 37) % 101);
    }
    let text = leaderboard(&counts, &HashMap::new());
    let mut expected: Vec<(u64, u64)> = counts.iter().map(|(k, v)| (*k, *v)).filter(|e| e.1 != 0).collect();
    expected.sort_by(|a, b| b.1.cmp(&a.1));
    let lines: Vec<&str> = text.lines().skip(1).collect();
    assert_eq!(lines.len(), expected.len());
    for (line, (k, v)) in lines.iter().zip(expected.iter()) {
        assert_eq!(*line, format!("{} - {}", k, v));
    }
}
