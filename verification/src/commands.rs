//! The text side of chat commands: splitting a command off its argument,
//! recognising user mentions, and the replies the bot writes.

use crate::cache::{cache_len, cached_items, sort_by_count};
use bounded_vec_deque::BoundedVecDeque;
use crate::obj::{
    spec_display, spec_friendly_display, Attachment, AttachmentView, Message, MessageView, User,
    UserView,
};
use crate::text::{str_concat, decimal, ends_with, spec_decimal, spec_ends_with};
use std::collections::HashMap;
use vstd::prelude::*;
use vstd::std_specs::iter::IteratorSpec;
use vstd::string::*;

verus! {

broadcast use vstd::std_specs::hash::group_hash_axioms;

/// The position of the first space in `s`, if any.
pub open spec fn first_space(s: Seq<char>) -> Option<int>
    decreases s.len(),
{
    if s.len() == 0 {
        None
    } else if s[0] == ' ' {
        Some(0)
    } else {
        match first_space(s.drop_first()) {
            Some(p) => Some(p + 1),
            None => None,
        }
    }
}

/// `s.splitn(2, ' ')`: the text before the first space, and the text after it
/// when there is a space.
pub open spec fn spec_headtail(s: Seq<char>) -> (Seq<char>, Option<Seq<char>>) {
    match first_space(s) {
        Some(p) => (s.take(p), Some(s.skip(p + 1))),
        None => (s, None),
    }
}

proof fn lemma_first_space(s: Seq<char>, i: int)
    requires
        0 <= i <= s.len(),
        forall|j: int| 0 <= j < i ==> s[j] != ' ',
    ensures
        i < s.len() && s[i] == ' ' ==> first_space(s) == Some(i),
        i == s.len() ==> first_space(s) is None,
    decreases i,
{
    if i > 0 {
        lemma_first_space(s.drop_first(), i - 1);
    } else if s.len() > 0 && s[0] != ' ' {
    }
}

proof fn lemma_first_space_props(s: Seq<char>)
    ensures
        match first_space(s) {
            Some(p) => 0 <= p < s.len() && s[p] == ' ' && forall|i: int| 0 <= i < p ==> s[i] != ' ',
            None => forall|i: int| 0 <= i < s.len() ==> s[i] != ' ',
        },
    decreases s.len(),
{
    if s.len() > 0 && s[0] != ' ' {
        let r = s.drop_first();
        lemma_first_space_props(r);
        assert forall|i: int| 1 <= i < s.len() implies s[i] == r[i - 1] by {}
    }
}

/// Splitting a command line loses nothing: the command holds no space, and
/// when there is an argument, command, one space and argument make up the
/// line; when there is none, the line holds no space.
pub proof fn lemma_headtail_rejoin(s: Seq<char>)
    ensures
        !spec_headtail(s).0.contains(' '),
        match spec_headtail(s).1 {
            Some(t) => spec_headtail(s).0 + seq![' '] + t == s,
            None => spec_headtail(s).0 == s,
        },
{
    lemma_first_space_props(s);
    match first_space(s) {
        Some(p) => {
            assert(s.take(p) + seq![' '] + s.skip(p + 1) =~= s);
            if s.take(p).contains(' ') {
                let i = choose|i: int| 0 <= i < s.take(p).len() && s.take(p)[i] == ' ';
                assert(s[i] == ' ');
            }
        },
        None => {
            if s.contains(' ') {
                let i = choose|i: int| 0 <= i < s.len() && s[i] == ' ';
            }
        },
    }
}

/// Splits a command line into the command and its argument (see
/// [`spec_headtail`]).
pub fn headtail(s: &String) -> (r: (&str, Option<&str>))
    ensures
        r.0@ == spec_headtail(s@).0,
        match spec_headtail(s@).1 {
            Some(t) => r.1 matches Some(x) && x@ == t,
            None => r.1 is None,
        },
{
    let cs = crate::text::chars_of(s.as_str());
    let mut i: usize = 0;
    while i < cs.len()
        invariant
            cs@ == s@,
            i <= cs.len(),
            forall|j: int| 0 <= j < i ==> cs@[j] != ' ',
        decreases cs.len() - i,
    {
        if cs[i] == ' ' {
            proof {
                lemma_first_space(s@, i as int);
            }
            let head = s.as_str().substring_char(0, i);
            let tail = s.as_str().substring_char(i + 1, cs.len());
            assert(s@.subrange(0, i as int) =~= s@.take(i as int));
            assert(s@.subrange(i + 1, cs.len() as int) =~= s@.skip(i + 1));
            return (head, Some(tail));
        }
        i = i + 1;
    }
    proof {
        lemma_first_space(s@, i as int);
    }
    (s.as_str(), None)
}

/// The text that `str::to_lowercase` gives for `s` (Unicode lower-casing).
pub uninterp spec fn spec_to_lowercase(s: Seq<char>) -> Seq<char>;

/// `str::to_lowercase`. Claims that the result depends on the text alone
/// (named by `spec_to_lowercase`); the Unicode case mapping itself is not
/// stated.
#[verifier::external_body]
pub(crate) fn to_lowercase(s: &str) -> (r: String)
    ensures
        r@ == spec_to_lowercase(s@),
{
    s.to_lowercase()
}

/// Where a run of the character `c` starting at `j` ends.
pub open spec fn run_end(s: Seq<char>, j: int, c: char) -> int
    decreases s.len() - j,
{
    if 0 <= j < s.len() && s[j] == c {
        run_end(s, j + 1, c)
    } else {
        j
    }
}

/// Where a run of ASCII digits starting at `j` ends.
pub open spec fn digits_end(s: Seq<char>, j: int) -> int
    decreases s.len() - j,
{
    if 0 <= j < s.len() && '0' <= s[j] <= '9' {
        digits_end(s, j + 1)
    } else {
        j
    }
}

/// The id text of a user mention starting at `i`: `<@`, a run of `!`, then the
/// id text (a run of `&` and a run of 14 to 20 ASCII digits), then `>`.
/// Every run is taken whole: a shorter one leaves a character that the next
/// part of the mention cannot start with.
pub open spec fn mention_at(s: Seq<char>, i: int) -> Option<Seq<char>> {
    if 0 <= i && i + 2 <= s.len() && s[i] == '<' && s[i + 1] == '@' {
        let a = run_end(s, i + 2, '!');
        let b = run_end(s, a, '&');
        let c = digits_end(s, b);
        if 14 <= c - b <= 20 && c < s.len() && s[c] == '>' {
            Some(s.subrange(a, c))
        } else {
            None
        }
    } else {
        None
    }
}

/// The id text of the first mention starting at or after `i`.
pub open spec fn first_mention(s: Seq<char>, i: int) -> Option<Seq<char>>
    decreases s.len() - i,
{
    if i < 0 || i >= s.len() {
        None
    } else {
        match mention_at(s, i) {
            Some(t) => Some(t),
            None => first_mention(s, i + 1),
        }
    }
}

/// The user-id text captured from the first user mention in `s`: the first
/// group of the leftmost match of `<@!*(&*[0-9]{14,20})>`.
pub open spec fn spec_mention(s: Seq<char>) -> Option<Seq<char>> {
    first_mention(s, 0)
}

/// `regex::Regex::new(r"<@!*(&*[0-9]{14,20})>")` and `Regex::captures`: the
/// first capture group of the leftmost match, which is what `spec_mention`
/// describes (the pattern is a valid one, so `Regex::new` succeeds).
#[verifier::external_body]
pub(crate) fn mention_capture(s: &str) -> (r: Option<String>)
    ensures
        r is Some <==> spec_mention(s@) is Some,
        r matches Some(c) ==> spec_mention(s@) == Some(c@),
{
    let re = regex::Regex::new(r"<@!*(&*[0-9]{14,20})>").unwrap();
    re.captures(s).map(|caps| caps.get(1).unwrap().as_str().to_string())
}

/// Whether a file name is a video that the chat client cannot show inline.
pub open spec fn is_video_name(name: Seq<char>) -> bool {
    spec_ends_with(name, ".mov"@) || spec_ends_with(name, ".mp4"@) || spec_ends_with(name, ".mkv"@)
}

/// The notices for attachments that cannot be rendered and are videos:
/// `<filename> unrenderable`, in order.
pub open spec fn spec_unrenderable(atts: Seq<AttachmentView>) -> Seq<Seq<char>>
    decreases atts.len(),
{
    if atts.len() == 0 {
        Seq::empty()
    } else {
        let rest = spec_unrenderable(atts.drop_last());
        let a = atts.last();
        if !a.renderable && is_video_name(a.filename) {
            rest.push(a.filename + " unrenderable"@)
        } else {
            rest
        }
    }
}

/// Every attachment that cannot be rendered and whose file name ends with
/// `.mov`, `.mp4` or `.mkv` gets the notice `<filename> unrenderable`, and
/// every notice is such an attachment's.
pub proof fn lemma_unrenderable_notices(atts: Seq<AttachmentView>)
    ensures
        forall|i: int|
            0 <= i < atts.len() && !atts[i].renderable && (spec_ends_with(atts[i].filename, ".mov"@)
                || spec_ends_with(atts[i].filename, ".mp4"@) || spec_ends_with(
                atts[i].filename,
                ".mkv"@,
            )) ==> spec_unrenderable(atts).contains(#[trigger] atts[i].filename + " unrenderable"@),
        forall|t: Seq<char>|
            #[trigger] spec_unrenderable(atts).contains(t) ==> exists|i: int|
                0 <= i < atts.len() && !atts[i].renderable && (spec_ends_with(atts[i].filename, ".mov"@)
                    || spec_ends_with(atts[i].filename, ".mp4"@) || spec_ends_with(
                    atts[i].filename,
                    ".mkv"@,
                )) && t == atts[i].filename + " unrenderable"@,
    decreases atts.len(),
{
    if atts.len() > 0 {
        let init = atts.drop_last();
        lemma_unrenderable_notices(init);
        let rest = spec_unrenderable(init);
        let a = atts.last();
        let n = atts.len() - 1;
        assert forall|i: int|
            0 <= i < atts.len() && !atts[i].renderable && (spec_ends_with(atts[i].filename, ".mov"@)
                || spec_ends_with(atts[i].filename, ".mp4"@) || spec_ends_with(
                atts[i].filename,
                ".mkv"@,
            )) implies spec_unrenderable(atts).contains(#[trigger] atts[i].filename + " unrenderable"@) by {
            if i < n {
                assert(init[i] == atts[i]);
                let j = choose|j: int| 0 <= j < rest.len() && rest[j] == init[i].filename + " unrenderable"@;
                assert(spec_unrenderable(atts)[j] == rest[j]);
            } else {
                assert(spec_unrenderable(atts).last() == a.filename + " unrenderable"@);
            }
        }
        assert forall|t: Seq<char>| #[trigger] spec_unrenderable(atts).contains(t) implies exists|i: int|
            0 <= i < atts.len() && !atts[i].renderable && (spec_ends_with(atts[i].filename, ".mov"@)
                || spec_ends_with(atts[i].filename, ".mp4"@) || spec_ends_with(
                atts[i].filename,
                ".mkv"@,
            )) && t == atts[i].filename + " unrenderable"@ by {
            let j = choose|j: int| 0 <= j < spec_unrenderable(atts).len() && spec_unrenderable(atts)[j] == t;
            if j < rest.len() {
                assert(rest[j] == t);
                assert(rest.contains(t));
                let i = choose|i: int|
                    0 <= i < init.len() && !init[i].renderable && (spec_ends_with(init[i].filename, ".mov"@)
                        || spec_ends_with(init[i].filename, ".mp4"@) || spec_ends_with(
                        init[i].filename,
                        ".mkv"@,
                    )) && t == init[i].filename + " unrenderable"@;
                assert(atts[i] == init[i]);
            } else {
                assert(atts[n] == a);
            }
        }
    }
}

/// The notices for a message's unrenderable video attachments (see
/// [`spec_unrenderable`]).
pub fn unrenderable_notices(m: &Message) -> (r: Vec<String>)
    ensures
        Seq::new(r@.len(), |i: int| r@[i]@) == spec_unrenderable(m@.attachments),
{
    let ghost av = m@.attachments;
    let mut out: Vec<String> = Vec::new();
    let mut i: usize = 0;
    while i < m.attachments.len()
        invariant
            av == m@.attachments,
            av.len() == m.attachments@.len(),
            forall|j: int| 0 <= j < av.len() ==> av[j] == (#[trigger] m.attachments@[j])@,
            i <= m.attachments.len(),
            Seq::new(out@.len(), |k: int| out@[k]@) == spec_unrenderable(av.take(i as int)),
        decreases m.attachments.len() - i,
    {
        proof {
            assert(av.take(i + 1).drop_last() =~= av.take(i as int));
        }
        let a = &m.attachments[i];
        if !a.renderable {
            let name = a.filename.as_str();
            if ends_with(name, ".mov") || ends_with(name, ".mp4") || ends_with(name, ".mkv") {
                let ghost before = Seq::new(out@.len(), |k: int| out@[k]@);
                out.push(str_concat(name, " unrenderable"));
                proof {
                    assert(Seq::new(out@.len(), |k: int| out@[k]@) =~= before.push(
                        a.filename@ + " unrenderable"@,
                    ));
                }
            }
        }
        i = i + 1;
    }
    proof {
        assert(av.take(i as int) =~= av);
    }
    out
}

/// The urls of attachments, each followed by a newline.
pub open spec fn attachment_lines(atts: Seq<AttachmentView>) -> Seq<char>
    decreases atts.len(),
{
    if atts.len() == 0 {
        Seq::empty()
    } else {
        attachment_lines(atts.drop_last()) + atts.last().url + "\n"@
    }
}

/// The reply to `snipe`: who deleted what, and the urls of its attachments.
pub open spec fn spec_snipe_text(m: MessageView) -> Seq<char> {
    spec_display(m.author) + " deleted:\n\n"@ + (match m.content {
        Some(c) => c,
        None => "no content"@,
    }) + "\n"@ + attachment_lines(m.attachments)
}

/// The reply to `snipe` for a deleted message (see [`spec_snipe_text`]).
pub fn snipe_text(m: &Message) -> (r: String)
    ensures
        r@ == spec_snipe_text(m@),
{
    let mut r = m.author.display();
    r.append(" deleted:\n\n");
    match &m.content {
        Some(c) => r.append(c.as_str()),
        None => r.append("no content"),
    }
    r.append("\n");
    let ghost head = r@;
    let ghost av = m@.attachments;
    let mut i: usize = 0;
    while i < m.attachments.len()
        invariant
            av == m@.attachments,
            av.len() == m.attachments@.len(),
            forall|j: int| 0 <= j < av.len() ==> av[j] == (#[trigger] m.attachments@[j])@,
            i <= m.attachments.len(),
            r@ == head + attachment_lines(av.take(i as int)),
        decreases m.attachments.len() - i,
    {
        proof {
            assert(av.take(i + 1).drop_last() =~= av.take(i as int));
        }
        r.append(m.attachments[i].url.as_str());
        r.append("\n");
        i = i + 1;
    }
    proof {
        assert(av.take(i as int) =~= av);
    }
    r
}

/// The reply to `cache`: channels cached, messages cached, users cached.
pub open spec fn spec_cache_text(channels: nat, messages: nat, users: nat) -> Seq<char> {
    "Message cache:\nChannels: "@ + spec_decimal(channels) + "\nMessages: "@ + spec_decimal(messages)
        + "\nUsers: "@ + spec_decimal(users)
}

/// The reply to `cache` (see [`spec_cache_text`]).
pub fn cache_text(channels: usize, messages: usize, users: usize) -> (r: String)
    ensures
        r@ == spec_cache_text(channels as nat, messages as nat, users as nat),
{
    let mut r = String::from_str("Message cache:\nChannels: ");
    r.append(decimal(channels as u64).as_str());
    r.append("\nMessages: ");
    r.append(decimal(messages as u64).as_str());
    r.append("\nUsers: ");
    r.append(decimal(users as u64).as_str());
    r
}


/// The users of a cache, each taken by its view.
pub open spec fn users_view(m: Map<u64, User>) -> Map<u64, UserView> {
    m.map_values(|u: User| u@)
}

/// `order` lists the entries of `m`, each as `(key, value)`, every entry once.
pub open spec fn enumerates(order: Seq<(u64, u64)>, m: Map<u64, u64>) -> bool {
    &&& order.len() == m.dom().len()
    &&& forall|i: int|
        0 <= i < order.len() ==> m.contains_key(#[trigger] order[i].0) && m[order[i].0] == order[i].1
    &&& forall|k: u64| #[trigger] m.contains_key(k) ==> order.contains((k, m[k]))
}

/// Counts that never grow along the list.
pub open spec fn descending(order: Seq<(u64, u64)>) -> bool {
    forall|i: int, j: int| 0 <= i < j < order.len() ==> order[i].1 >= order[j].1
}

/// How the leaderboard names a user: the friendly display of a cached user,
/// else the id.
pub open spec fn lb_name(users: Map<u64, UserView>, k: u64) -> Seq<char> {
    if users.contains_key(k) {
        spec_friendly_display(users[k])
    } else {
        spec_decimal(k as nat)
    }
}

/// The leaderboard lines `name - count` for the entries in order, leaving out
/// zero counts.
pub open spec fn lb_lines(order: Seq<(u64, u64)>, users: Map<u64, UserView>) -> Seq<char>
    decreases order.len(),
{
    if order.len() == 0 {
        Seq::empty()
    } else {
        let rest = lb_lines(order.drop_last(), users);
        let (k, c) = order.last();
        if c == 0 {
            rest
        } else {
            rest + lb_name(users, k) + " - "@ + spec_decimal(c as nat) + "\n"@
        }
    }
}

/// The reply to `soblb` for one ordering of the counts.
pub open spec fn spec_leaderboard(order: Seq<(u64, u64)>, users: Map<u64, UserView>) -> Seq<char> {
    "SOBS!!! :\n"@ + lb_lines(order, users)
}

/// Whether `text` is a reply to `soblb`: the leaderboard of every count, in
/// descending order of count (ties in no particular order).
pub open spec fn is_leaderboard(text: Seq<char>, counts: Map<u64, u64>, users: Map<u64, UserView>) -> bool {
    exists|order: Seq<(u64, u64)>|
        enumerates(order, counts) && descending(order) && text == spec_leaderboard(order, users)
}

/// The entries of a count map, in the order the map hands out its keys.
fn count_entries(m: &HashMap<u64, u64>) -> (r: Vec<(u64, u64)>)
    ensures
        enumerates(r@, m@),
{
    let mut r: Vec<(u64, u64)> = Vec::new();
    let keys = m.keys();
    let ghost ks = keys.remaining();
    proof {
        assert(ks.unref().to_set() == m@.dom());
        assert forall|j: int| 0 <= j < ks.len() implies m@.contains_key(*ks[j]) by {
            assert(ks.unref().to_set().contains(ks.unref()[j]));
        }
    }
    for k in it: keys
        invariant
            it.seq() == ks,
            r@.len() == it.index(),
            forall|j: int| 0 <= j < it.index() ==> (#[trigger] r@[j]) == (*ks[j], m@[*ks[j]]),
            forall|j: int| 0 <= j < ks.len() ==> m@.contains_key(*ks[j]),
    {
        let v = *m.get(k).unwrap();
        r.push((*k, v));
    }
    proof {
        assert forall|k: u64| #[trigger] m@.contains_key(k) implies r@.contains((k, m@[k])) by {
            assert(ks.unref().to_set().contains(k));
            let j = choose|j: int| 0 <= j < ks.len() && ks.unref()[j] == k;
            assert(r@[j] == (k, m@[k]));
        }
    }
    r
}

/// How the leaderboard names a user (see [`lb_name`]).
fn leaderboard_name(users: &HashMap<u64, User>, k: u64) -> (r: String)
    ensures
        r@ == lb_name(users_view(users@), k),
{
    match users.get(&k) {
        Some(u) => u.friendly_display(),
        None => decimal(k),
    }
}

/// The reply to `soblb`: every user's count, highest first, leaving out zero
/// counts (see [`is_leaderboard`]).
pub fn leaderboard(counts: &HashMap<u64, u64>, users: &HashMap<u64, User>) -> (r: String)
    ensures
        is_leaderboard(r@, counts@, users_view(users@)),
{
    broadcast use vstd::seq_lib::group_to_multiset_ensures;

    let mut entries = count_entries(counts);
    let ghost collected = entries@;
    sort_by_count(&mut entries);
    let ghost sorted = entries@;
    let ghost rev = sorted.reverse();
    let ghost uv = users_view(users@);
    let n = entries.len();
    let mut r = String::from_str("SOBS!!! :\n");
    let mut i: usize = n;
    while i > 0
        invariant
            n == entries.len(),
            entries@ == sorted,
            rev == sorted.reverse(),
            uv == users_view(users@),
            i <= n,
            r@ == "SOBS!!! :\n"@ + lb_lines(rev.take(n - i), uv),
        decreases i,
    {
        let ghost k = n - i;
        proof {
            assert(rev.take(k + 1).drop_last() =~= rev.take(k));
            assert(rev.take(k + 1).last() == sorted[i - 1]);
        }
        let (user, sobs) = entries[i - 1];
        if sobs != 0 {
            let name = leaderboard_name(users, user);
            r.append(name.as_str());
            r.append(" - ");
            r.append(decimal(sobs).as_str());
            r.append("\n");
        }
        i = i - 1;
    }
    proof {
        assert(rev.take(n as int) =~= rev);
        assert forall|a: int, b: int| 0 <= a < b < rev.len() implies rev[a].1 >= rev[b].1 by {
            assert(rev[a] == sorted[n - 1 - a]);
            assert(rev[b] == sorted[n - 1 - b]);
        }
        assert forall|a: int| 0 <= a < rev.len() implies counts@.contains_key(#[trigger] rev[a].0)
            && counts@[rev[a].0] == rev[a].1 by {
            assert(rev[a] == sorted[n - 1 - a]);
            assert(sorted.contains(sorted[n - 1 - a]));
            assert(sorted.to_multiset().count(rev[a]) > 0);
            assert(collected.contains(rev[a]));
        }
        assert forall|key: u64| #[trigger] counts@.contains_key(key) implies rev.contains(
            (key, counts@[key]),
        ) by {
            let e = (key, counts@[key]);
            assert(collected.contains(e));
            assert(collected.to_multiset().count(e) > 0);
            assert(sorted.contains(e));
            let j = choose|j: int| 0 <= j < sorted.len() && sorted[j] == e;
            assert(rev[n - 1 - j] == e);
        }
        assert(sorted.to_multiset().len() == collected.to_multiset().len());
        assert(rev.len() == counts@.dom().len());
        assert(enumerates(rev, counts@));
        assert(descending(rev));
        assert(r@ == spec_leaderboard(rev, users_view(users@)));
    }
    r
}

/// The number of messages in a set of caches, summed in the order of `keys`
/// (wrapping at `usize::MAX`).
pub open spec fn cached_total(keys: Seq<u64>, cache: Map<u64, Seq<MessageView>>) -> int
    decreases keys.len(),
{
    if keys.len() == 0 {
        0
    } else {
        let sum = cached_total(keys.drop_last(), cache) + cache[keys.last()].len();
        if sum > usize::MAX {
            sum - (usize::MAX + 1)
        } else {
            sum
        }
    }
}

/// Whether `total` is the number of cached messages over all channels.
pub open spec fn is_cached_total(total: usize, cache: Map<u64, Seq<MessageView>>) -> bool {
    exists|keys: Seq<u64>|
        keys.no_duplicates() && keys.to_set() == cache.dom() && total == cached_total(keys, cache)
}

/// The number of cached messages over all channels.
pub fn count_cached(caches: &HashMap<u64, BoundedVecDeque<Message>>) -> (r: usize)
    ensures
        is_cached_total(r, caches@.map_values(|q: BoundedVecDeque<Message>| cached_items(q))),
{
    let ghost view = caches@.map_values(|q: BoundedVecDeque<Message>| cached_items(q));
    let mut total: usize = 0;
    let keys = caches.keys();
    let ghost ks = keys.remaining();
    proof {
        assert(ks.unref().to_set() == caches@.dom());
        assert forall|j: int| 0 <= j < ks.len() implies caches@.contains_key(*ks[j]) by {
            assert(ks.unref().to_set().contains(ks.unref()[j]));
        }
    }
    for k in it: keys
        invariant
            it.seq() == ks,
            view == caches@.map_values(|q: BoundedVecDeque<Message>| cached_items(q)),
            forall|j: int| 0 <= j < ks.len() ==> caches@.contains_key(*ks[j]),
            total == cached_total(ks.unref().take(it.index()), view),
    {
        let ghost idx = it.index();
        proof {
            assert(ks.unref().take(idx + 1).drop_last() =~= ks.unref().take(idx));
        }
        let q = caches.get(k).unwrap();
        let n = cache_len(q);
        assert(n == view[*k].len());
        total = total.wrapping_add(n);
    }
    proof {
        assert(ks.unref().take(ks.len() as int) =~= ks.unref());
        assert(view.dom() == caches@.dom());
    }
    total
}

} // verus!
