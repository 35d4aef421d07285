//! Friends and the media they appear in.
//!
//! A friend is parsed out of a quoted name in a message to the bot: the part
//! before the first `/` becomes a title-cased name, the part after it names a
//! media, and the two together form the expected wiki title. A friend also
//! carries an identifier, assigned by the caller, that later joins it to the
//! pages it resolved to.

use vstd::prelude::*;

use crate::text::{
    ascii_lower, ascii_upper, char_lower, char_upper, chars_of, contains_spec, eq_chars,
    is_alphabetic, is_alphabetic_char, is_ascii_letter, is_whitespace, is_whitespace_char,
    lemma_contains_lift, lower_of, string_from_chars, to_lowercase, to_uppercase,
    to_lowercase_char, trim_chars, trim_spec,
};

verus! {

// ---------------------------------------------------------------------------
// Media
// ---------------------------------------------------------------------------

/// A media a friend might appear in.
///
/// Parsing of a media is forgiving, and falls back to none.
#[derive(Debug, Copy, Clone, PartialEq, Eq, Structural)]
pub enum Media {
    /// No media specified, or the media could not be parsed
    NoMedia,
    /// The first season of the anime
    Anime,
    /// The second season of the anime
    Season2,
    /// All manga adaptations
    Manga,
    /// The game Kemono Friends Festival
    Festival,
    /// The pavilion game
    Pavilion,
    /// The game Kemono Friends 3
    KF3,
    /// The nexon game
    Nexon,
    /// All stage adaptations
    Stage,
}

/// The wiki suffix a media contributes to a title.
pub open spec fn suffix_of(m: Media) -> Seq<char> {
    match m {
        Media::NoMedia => Seq::<char>::empty(),
        Media::Anime => "/Anime"@,
        Media::Season2 => "/Season_2"@,
        Media::Manga => "/Manga"@,
        Media::Festival => "/Festival"@,
        Media::Pavilion => "/Pavilion"@,
        Media::KF3 => "/KF3"@,
        Media::Nexon => "/Nexon Game"@,
        Media::Stage => "/Stage Play"@,
    }
}

/// The media a raw string classifies as: the string is trimmed and lowered,
/// then matched against a fixed synonym table.
pub open spec fn media_of(s: Seq<char>) -> Media {
    let key = lower_of(trim_spec(s));
    if key == "anime"@ || key == "season 1"@ {
        Media::Anime
    } else if key == "season 2"@ {
        Media::Season2
    } else if key == "manga"@ {
        Media::Manga
    } else if key == "festival"@ {
        Media::Festival
    } else if key == "pavilion"@ {
        Media::Pavilion
    } else if key == "kf3"@ || key == "kemono friends 3"@ {
        Media::KF3
    } else if key == "nexon"@ || key == "nexon game"@ {
        Media::Nexon
    } else if key == "stage"@ || key == "stage play"@ {
        Media::Stage
    } else {
        Media::NoMedia
    }
}

impl Media {
    /// Parse a new Media from a string.
    pub fn new(source: &str) -> (m: Media)
        ensures
            m == media_of(source@),
    {
        let chars = chars_of(source);
        let trimmed = trim_chars(&chars);
        let trimmed_str = string_from_chars(&trimmed);
        let key = to_lowercase(trimmed_str.as_str());
        if key == String::from_str("anime") || key == String::from_str("season 1") {
            Media::Anime
        } else if key == String::from_str("season 2") {
            Media::Season2
        } else if key == String::from_str("manga") {
            Media::Manga
        } else if key == String::from_str("festival") {
            Media::Festival
        } else if key == String::from_str("pavilion") {
            Media::Pavilion
        } else if key == String::from_str("kf3") || key == String::from_str("kemono friends 3") {
            Media::KF3
        } else if key == String::from_str("nexon") || key == String::from_str("nexon game") {
            Media::Nexon
        } else if key == String::from_str("stage") || key == String::from_str("stage play") {
            Media::Stage
        } else {
            Media::NoMedia
        }
    }

    /// Format the media into its wiki suffix (includes the slash).
    pub fn wiki_suffix(self) -> (r: &'static str)
        ensures
            r@ == suffix_of(self),
    {
        proof {
            reveal_strlit("");
        }
        match self {
            Media::NoMedia => "",
            Media::Anime => "/Anime",
            Media::Season2 => "/Season_2",
            Media::Manga => "/Manga",
            Media::Festival => "/Festival",
            Media::Pavilion => "/Pavilion",
            Media::KF3 => "/KF3",
            Media::Nexon => "/Nexon Game",
            Media::Stage => "/Stage Play",
        }
    }
}

// ---------------------------------------------------------------------------
// Name formatting
// ---------------------------------------------------------------------------

/// Title-casing of a name: the first letter of every word is upper-cased and
/// the rest lower-cased; an apostrophe neither starts nor ends a word; any
/// other non-letter starts a new word.
pub open spec fn fmt_chars(s: Seq<char>, first: bool) -> Seq<char>
    decreases s.len(),
{
    if s.len() == 0 {
        Seq::<char>::empty()
    } else {
        let c = s[0];
        if is_alphabetic_char(c) {
            (if first {
                char_upper(c)
            } else {
                char_lower(c)
            }) + fmt_chars(s.drop_first(), false)
        } else if c == '\'' {
            seq![c] + fmt_chars(s.drop_first(), first)
        } else {
            seq![c] + fmt_chars(s.drop_first(), true)
        }
    }
}

/// The formatted form of a whole name.
pub open spec fn fmt_name_spec(s: Seq<char>) -> Seq<char> {
    fmt_chars(s, true)
}

/// Formatting a name twice is the same as formatting it once, for names made
/// of ASCII letters, apostrophes and spaces.
pub proof fn lemma_fmt_name_idempotent(s: Seq<char>)
    requires
        forall|i: int|
            0 <= i < s.len() ==> is_ascii_letter(#[trigger] s[i]) || s[i] == '\'' || s[i] == ' ',
    ensures
        fmt_name_spec(fmt_name_spec(s)) == fmt_name_spec(s),
{
    lemma_fmt_idem(s, true);
}

/// The inductive core of idempotence, for either word-start state.
proof fn lemma_fmt_idem(s: Seq<char>, f: bool)
    requires
        forall|i: int|
            0 <= i < s.len() ==> is_ascii_letter(#[trigger] s[i]) || s[i] == '\'' || s[i] == ' ',
    ensures
        fmt_chars(fmt_chars(s, f), f) == fmt_chars(s, f),
    decreases s.len(),
{
    if s.len() == 0 {
    } else {
        let c = s[0];
        let rest = s.drop_first();
        assert forall|i: int|
            0 <= i < rest.len() implies is_ascii_letter(#[trigger] rest[i]) || rest[i] == '\''
            || rest[i] == ' ' by {
            assert(rest[i] == s[i + 1]);
        }
        if is_ascii_letter(c) {
            let m = if f {
                ascii_upper(c)
            } else {
                ascii_lower(c)
            };
            assert(is_ascii_letter(m));
            lemma_fmt_idem(rest, false);
            let x = fmt_chars(rest, false);
            assert(fmt_chars(s, f) == seq![m] + x);
            let o = seq![m] + x;
            if o.len() > 0 {
                assert(o[0] == m);
                assert(o.drop_first() =~= x);
            }
            if f {
                assert(ascii_upper(m) == m);
                assert(char_upper(m) =~= seq![m]);
            } else {
                assert(ascii_lower(m) == m);
                assert(char_lower(m) =~= seq![m]);
            }
            assert(fmt_chars(o, f) == seq![m] + fmt_chars(x, false));
        } else if c == '\'' {
            lemma_fmt_idem(rest, f);
            let x = fmt_chars(rest, f);
            assert(fmt_chars(s, f) == seq![c] + x);
            let o = seq![c] + x;
            assert(o[0] == c);
            assert(o.drop_first() =~= x);
            assert(fmt_chars(o, f) == seq![c] + fmt_chars(x, f));
        } else {
            lemma_fmt_idem(rest, true);
            let x = fmt_chars(rest, true);
            assert(fmt_chars(s, f) == seq![c] + x);
            let o = seq![c] + x;
            assert(o[0] == c);
            assert(o.drop_first() =~= x);
            assert(fmt_chars(o, f) == seq![c] + fmt_chars(x, true));
        }
    }
}

// ---------------------------------------------------------------------------
// Friend
// ---------------------------------------------------------------------------

/// The part of a raw entity string before the first `/`.
pub open spec fn before_slash(s: Seq<char>) -> Seq<char>
    decreases s.len(),
{
    if s.len() == 0 {
        s
    } else if s[0] == '/' {
        Seq::<char>::empty()
    } else {
        seq![s[0]] + before_slash(s.drop_first())
    }
}

/// The part of a raw entity string after the first `/` (empty if there is
/// no `/`).
pub open spec fn after_slash(s: Seq<char>) -> Seq<char>
    decreases s.len(),
{
    if s.len() == 0 {
        s
    } else if s[0] == '/' {
        s.drop_first()
    } else {
        after_slash(s.drop_first())
    }
}

/// The formatted name a raw entity string parses to. A leading backslash
/// escapes all formatting: the rest of the string is taken verbatim.
pub open spec fn friend_name_of(q: Seq<char>) -> Seq<char> {
    if q.len() > 0 && q[0] == '\\' {
        q.drop_first()
    } else {
        fmt_name_spec(trim_spec(before_slash(q)))
    }
}

/// The media a raw entity string parses to.
pub open spec fn friend_media_of(q: Seq<char>) -> Media {
    if q.len() > 0 && q[0] == '\\' {
        Media::NoMedia
    } else {
        media_of(after_slash(q))
    }
}

/// The wiki title a raw entity string parses to.
pub open spec fn friend_title_of(q: Seq<char>) -> Seq<char> {
    friend_name_of(q) + suffix_of(friend_media_of(q))
}

/// The parse of one raw entity string, as one value.
pub ghost struct FriendView {
    pub name: Seq<char>,
    pub media: Media,
    pub title: Seq<char>,
    pub id: u64,
}

/// What a friend parsed from the raw string `q` under identifier `id` must
/// look like.
pub open spec fn friend_view_of(q: Seq<char>, id: u64) -> FriendView {
    FriendView {
        name: friend_name_of(q),
        media: friend_media_of(q),
        title: friend_title_of(q),
        id: id,
    }
}

/// A friend from a media.
///
/// This is the friend name parsed from a message to the bot, linked to the
/// pages it resolves to by its identifier.
#[derive(Debug)]
pub struct Friend {
    /// The name of the friend (formatted)
    pub name: String,
    /// The media the friend appears in
    pub media: Media,
    /// The wiki title for this friend
    ///
    /// This is a guess at what the title would be; the actual wiki title may
    /// be different.
    pub title: String,
    /// The friend identifier
    ///
    /// A lightweight way for messages and replies to keep track of which
    /// friends they contain. It is fresh per parse and meaningful only
    /// within one poll cycle.
    pub id: u64,
}

impl View for Friend {
    type V = FriendView;

    open spec fn view(&self) -> FriendView {
        FriendView { name: self.name@, media: self.media, title: self.title@, id: self.id }
    }
}

impl Friend {
    /// Parse a friend from a raw entity string.
    pub fn new(source: &str, id: u64) -> (f: Friend)
        ensures
            f.name@ == friend_name_of(source@),
            f.media == friend_media_of(source@),
            f.title@ == friend_title_of(source@),
            f.id == id,
            f@ == friend_view_of(source@, id),
    {
        let chars = chars_of(source);
        if chars.len() > 0 && chars[0] == '\\' {
            let mut name_chars: Vec<char> = Vec::new();
            let mut i: usize = 1;
            while i < chars.len()
                invariant
                    1 <= i <= chars@.len(),
                    name_chars@ == chars@.subrange(1, i as int),
                decreases chars.len() - i,
            {
                name_chars.push(chars[i]);
                proof {
                    assert(chars@.subrange(1, i as int).push(chars@[i as int]) =~= chars@.subrange(
                        1,
                        i + 1,
                    ));
                }
                i = i + 1;
            }
            proof {
                assert(chars@.subrange(1, chars@.len() as int) =~= chars@.drop_first());
            }
            let name = string_from_chars(&name_chars);
            let title = string_from_chars(&name_chars);
            let f = Friend { name, media: Media::NoMedia, title, id };
            proof {
                assert(f.title@ =~= friend_name_of(source@) + suffix_of(Media::NoMedia));
            }
            f
        } else {
            let mut name_part: Vec<char> = Vec::new();
            let mut i: usize = 0;
            while i < chars.len() && chars[i] != '/'
                invariant
                    i <= chars@.len(),
                    forall|j: int| 0 <= j < i ==> chars@[j] != '/',
                    name_part@ == chars@.subrange(0, i as int),
                decreases chars.len() - i,
            {
                name_part.push(chars[i]);
                proof {
                    assert(chars@.subrange(0, i as int).push(chars@[i as int]) =~= chars@.subrange(
                        0,
                        i + 1,
                    ));
                }
                i = i + 1;
            }
            let mut media_part: Vec<char> = Vec::new();
            let mut j: usize = if i < chars.len() {
                i + 1
            } else {
                i
            };
            let ghost media_start: int = j as int;
            while j < chars.len()
                invariant
                    0 <= media_start <= j <= chars@.len(),
                    media_part@ == chars@.subrange(media_start, j as int),
                decreases chars.len() - j,
            {
                media_part.push(chars[j]);
                proof {
                    assert(chars@.subrange(media_start, j as int).push(chars@[j as int])
                        =~= chars@.subrange(media_start, j + 1));
                }
                j = j + 1;
            }
            proof {
                lemma_split_at_slash(chars@, i as int);
                if i as int >= chars@.len() {
                    assert(media_part@ =~= Seq::<char>::empty());
                }
                assert(media_part@ == after_slash(chars@));
            }
            let trimmed = trim_chars(&name_part);
            let name_vec = fmt_vec(&trimmed);
            let name = string_from_chars(&name_vec);
            let media_str = string_from_chars(&media_part);
            let media = Media::new(media_str.as_str());
            let mut title = name.clone();
            title.append(media.wiki_suffix());
            Friend { name, media, title, id }
        }
    }

    /// Search a text for a mention of the target handle, and parse out the
    /// quoted friends that follow it, numbering them upward from `first_id`.
    ///
    /// Only the first matching mention is honored. The target handle must be
    /// made of username characters only.
    pub fn find(source: &str, target_user: &str, first_id: u64) -> (r: Option<Vec<Friend>>)
        requires
            forall|k: int|
                0 <= k < target_user@.len() ==> is_username_char(#[trigger] target_user@[k]),
            first_id + source@.len() <= u64::MAX,
        ensures
            (r is Some) == (find_spec(source@, target_user@) is Some),
            r matches Some(fs) ==> fs@.len() <= source@.len(),
            r matches Some(fs) ==> {
                let qs = find_spec(source@, target_user@).unwrap();
                &&& fs@.len() == qs.len()
                &&& forall|k: int|
                    0 <= k < fs@.len() ==> (#[trigger] fs@[k])@ == friend_view_of(
                        qs[k],
                        (first_id + k) as u64,
                    )
            },
    {
        let s = chars_of(source);
        let t = chars_of(target_user);
        let n = s.len();
        let ghost sv = s@;
        let ghost tv = t@;
        let mut i: usize = 0;
        proof {
            assert(sv.skip(0) =~= sv);
        }
        while i < n
            invariant
                i <= n,
                n == sv.len(),
                s@ == sv,
                t@ == tv,
                tv == target_user@,
                sv == source@,
                first_id + sv.len() <= u64::MAX,
                find_spec(sv, tv) == find_spec(sv.skip(i as int), tv),
            decreases n - i,
        {
            let ghost cur = sv.skip(i as int);
            proof {
                assert(cur[0] == sv[i as int]);
            }
            if s[i] == '/' {
                if i + 1 < n && s[i + 1] == 'u' {
                    if i + 2 < n && s[i + 2] == '/' {
                        proof {
                            assert(cur[1] == sv[i + 1]);
                            assert(cur[2] == sv[i + 2]);
                            assert(cur.skip(3) =~= sv.skip(i + 3));
                        }
                        let mut j: usize = i + 3;
                        let mut user: Vec<char> = Vec::new();
                        while j < n && username_char(s[j])
                            invariant
                                i + 3 <= j <= n,
                                n == sv.len(),
                                s@ == sv,
                                user@ == sv.subrange(i + 3, j as int),
                                forall|m: int|
                                    i + 3 <= m < j ==> is_username_char(#[trigger] sv[m]),
                            decreases n - j,
                        {
                            user.push(s[j]);
                            proof {
                                assert(sv.subrange(i + 3, j as int).push(sv[j as int])
                                    =~= sv.subrange(i + 3, j + 1));
                            }
                            j = j + 1;
                        }
                        let ghost rest = sv.skip(i + 3);
                        let ghost k = j - (i + 3) as int;
                        proof {
                            assert forall|m: int| 0 <= m < k implies is_username_char(
                                #[trigger] rest[m],
                            ) by {
                                assert(rest[m] == sv[i + 3 + m]);
                            }
                            if (j as int) < sv.len() {
                                assert(rest[k] == sv[j as int]);
                            }
                            lemma_username_run_is(rest, k);
                            lemma_collect_user_run(rest, Seq::<char>::empty(), tv);
                            assert(user@ =~= rest.take(k));
                            assert(Seq::<char>::empty() + rest.take(k) =~= user@);
                        }
                        let cont: usize = if j < n {
                            j + 1
                        } else {
                            j
                        };
                        proof {
                            if (j as int) < sv.len() {
                                assert(rest.skip(k + 1) =~= sv.skip(cont as int));
                            } else {
                                assert(sv.skip(cont as int) =~= Seq::<char>::empty());
                            }
                        }
                        if eq_chars(user.as_slice(), t.as_slice()) {
                            let ghost full = collect_quoted(sv.skip(cont as int));
                            proof {
                                assert(find_spec(sv, tv) == Some(full));
                            }
                            let mut friends: Vec<Friend> = Vec::new();
                            let ghost mut done: Seq<Seq<char>> = Seq::<Seq<char>>::empty();
                            let mut p: usize = cont;
                            proof {
                                assert(done + collect_quoted(sv.skip(p as int)) =~= full);
                            }
                            while p < n && (s[p] == '"' || is_whitespace(s[p]))
                                invariant
                                    cont <= p <= n,
                                    n == sv.len(),
                                    s@ == sv,
                                    first_id + sv.len() <= u64::MAX,
                                    friends@.len() == done.len(),
                                    friends@.len() + cont <= p,
                                    full == done + collect_quoted(sv.skip(p as int)),
                                    forall|x: int|
                                        0 <= x < done.len() ==> (#[trigger] friends@[x])@
                                            == friend_view_of(done[x], (first_id + x) as u64),
                                decreases n - p,
                            {
                                let ghost qcur = sv.skip(p as int);
                                proof {
                                    assert(qcur[0] == sv[p as int]);
                                }
                                if s[p] == '"' {
                                    let mut w: usize = p + 1;
                                    let mut q: Vec<char> = Vec::new();
                                    while w < n && s[w] != '"'
                                        invariant
                                            p + 1 <= w <= n,
                                            n == sv.len(),
                                            s@ == sv,
                                            q@ == sv.subrange(p + 1, w as int),
                                            forall|m: int| p + 1 <= m < w ==> sv[m] != '"',
                                        decreases n - w,
                                    {
                                        q.push(s[w]);
                                        proof {
                                            assert(sv.subrange(p + 1, w as int).push(sv[w as int])
                                                =~= sv.subrange(p + 1, w + 1));
                                        }
                                        w = w + 1;
                                    }
                                    let ghost qrest = sv.skip(p + 1);
                                    let ghost kq = w - (p + 1) as int;
                                    proof {
                                        assert forall|m: int| 0 <= m < kq implies (
                                        #[trigger] qrest[m]) != '"' by {
                                            assert(qrest[m] == sv[p + 1 + m]);
                                        }
                                        if (w as int) < sv.len() {
                                            assert(qrest[kq] == sv[w as int]);
                                        }
                                        lemma_quote_run_is(qrest, kq);
                                        lemma_collect_in_quote_run(qrest, Seq::<char>::empty());
                                        assert(q@ =~= qrest.take(kq));
                                        assert(Seq::<char>::empty() + qrest.take(kq) =~= q@);
                                        assert(qcur.drop_first() =~= qrest);
                                    }
                                    let qa: usize = if w < n {
                                        w + 1
                                    } else {
                                        w
                                    };
                                    proof {
                                        if (w as int) < sv.len() {
                                            assert(qrest.skip(kq + 1) =~= sv.skip(qa as int));
                                        } else {
                                            assert(sv.skip(qa as int) =~= Seq::<char>::empty());
                                        }
                                        assert(collect_quoted(qcur) == seq![q@] + collect_quoted(
                                            sv.skip(qa as int),
                                        ));
                                    }
                                    let qstr = string_from_chars(&q);
                                    let f = Friend::new(qstr.as_str(), first_id + (friends.len()
                                        as u64));
                                    friends.push(f);
                                    proof {
                                        let prev = done;
                                        done = done.push(q@);
                                        assert(prev + (seq![q@] + collect_quoted(
                                            sv.skip(qa as int),
                                        )) =~= done + collect_quoted(sv.skip(qa as int)));
                                    }
                                    p = qa;
                                } else {
                                    proof {
                                        assert(qcur.drop_first() =~= sv.skip(p + 1));
                                    }
                                    p = p + 1;
                                }
                            }
                            proof {
                                if p < sv.len() {
                                    assert(sv.skip(p as int)[0] == sv[p as int]);
                                } else {
                                    assert(sv.skip(p as int) =~= Seq::<char>::empty());
                                }
                                assert(collect_quoted(sv.skip(p as int))
                                    =~= Seq::<Seq<char>>::empty());
                                assert(full =~= done);
                            }
                            return Some(friends);
                        } else {
                            i = cont;
                        }
                    } else {
                        if i + 2 >= n {
                            proof {
                                assert(cur[1] == sv[i + 1]);
                            }
                            return None;
                        }
                        proof {
                            assert(cur[1] == sv[i + 1]);
                            assert(cur[2] == sv[i + 2]);
                            assert(cur.skip(3) =~= sv.skip(i + 3));
                        }
                        i = i + 3;
                    }
                } else {
                    if i + 1 >= n {
                        return None;
                    }
                    proof {
                        assert(cur[1] == sv[i + 1]);
                        assert(cur.skip(2) =~= sv.skip(i + 2));
                    }
                    i = i + 2;
                }
            } else {
                proof {
                    assert(cur.drop_first() =~= sv.skip(i + 1));
                }
                i = i + 1;
            }
        }
        proof {
            assert(sv.skip(n as int) =~= Seq::<char>::empty());
        }
        None
    }

    /// Format a friend name: the first letter of every word is capitalized.
    pub fn fmt_name(name: &str) -> (r: String)
        ensures
            r@ == fmt_name_spec(name@),
    {
        let chars = chars_of(name);
        let out = fmt_vec(&chars);
        string_from_chars(&out)
    }
}

/// `before_slash` and `after_slash` are exactly the split at the first `/`.
proof fn lemma_split_at_slash(s: Seq<char>, i: int)
    requires
        0 <= i <= s.len(),
        forall|j: int| 0 <= j < i ==> s[j] != '/',
        i < s.len() ==> s[i] == '/',
    ensures
        before_slash(s) == s.subrange(0, i),
        after_slash(s) == if i < s.len() {
            s.subrange(i + 1, s.len() as int)
        } else {
            Seq::<char>::empty()
        },
    decreases s.len(),
{
    if s.len() == 0 {
        assert(before_slash(s) =~= s.subrange(0, 0));
        assert(after_slash(s) =~= Seq::<char>::empty());
    } else if s[0] == '/' {
        assert(i == 0);
        assert(before_slash(s) =~= s.subrange(0, 0));
        assert(after_slash(s) =~= s.subrange(1, s.len() as int));
    } else {
        assert(i >= 1);
        lemma_split_at_slash(s.drop_first(), i - 1);
        assert(before_slash(s) =~= s.subrange(0, i));
        if i < s.len() {
            assert(s.drop_first().subrange(i - 1 + 1, s.drop_first().len() as int)
                =~= s.subrange(i + 1, s.len() as int));
        }
    }
}

// ---------------------------------------------------------------------------
// Mention scanning
// ---------------------------------------------------------------------------

/// The characters allowed in a platform user handle.
pub open spec fn is_username_char(c: char) -> bool {
    ('a' <= c && c <= 'z') || ('A' <= c && c <= 'Z') || ('0' <= c && c <= '9') || c == '_' || c
        == '-'
}

/// The length of the leading run of username characters.
pub open spec fn username_run(s: Seq<char>) -> int
    decreases s.len(),
{
    if s.len() == 0 {
        0
    } else if is_username_char(s[0]) {
        1 + username_run(s.drop_first())
    } else {
        0
    }
}

/// The distance to the first `"` (the whole length if there is none).
pub open spec fn quote_run(s: Seq<char>) -> int
    decreases s.len(),
{
    if s.len() == 0 {
        0
    } else if s[0] == '"' {
        0
    } else {
        1 + quote_run(s.drop_first())
    }
}

/// Entity collection after a matched mention: whitespace is skipped, each
/// double-quoted run is one raw entity string, and any other character ends
/// the collection.
pub open spec fn collect_quoted(s: Seq<char>) -> Seq<Seq<char>>
    decreases s.len(), 1int,
{
    if s.len() == 0 {
        Seq::<Seq<char>>::empty()
    } else if s[0] == '"' {
        collect_in_quote(s.drop_first(), Seq::<char>::empty())
    } else if is_whitespace_char(s[0]) {
        collect_quoted(s.drop_first())
    } else {
        Seq::<Seq<char>>::empty()
    }
}

/// Inside a quoted run: characters accumulate until the closing `"` (or the
/// end of the text), then the run is emitted.
pub open spec fn collect_in_quote(s: Seq<char>, cur: Seq<char>) -> Seq<Seq<char>>
    decreases s.len(), 0int,
{
    if s.len() == 0 {
        seq![cur]
    } else if s[0] == '"' {
        seq![cur] + collect_quoted(s.drop_first())
    } else {
        collect_in_quote(s.drop_first(), cur.push(s[0]))
    }
}

/// After `/u/`: username characters accumulate; at the first other character
/// (which is consumed) the handle is compared against the target. A match
/// collects entities; a mismatch resumes scanning.
pub open spec fn collect_user(s: Seq<char>, acc: Seq<char>, target: Seq<char>) -> Option<
    Seq<Seq<char>>,
>
    decreases s.len(), 0int,
{
    if s.len() == 0 {
        if acc == target {
            Some(Seq::<Seq<char>>::empty())
        } else {
            None
        }
    } else if is_username_char(s[0]) {
        collect_user(s.drop_first(), acc.push(s[0]), target)
    } else if acc == target {
        Some(collect_quoted(s.drop_first()))
    } else {
        find_spec(s.drop_first(), target)
    }
}

/// The whole scan: the raw entity strings collected after the first mention
/// of the target handle, or nothing when no mention matches.
pub open spec fn find_spec(s: Seq<char>, target: Seq<char>) -> Option<Seq<Seq<char>>>
    decreases s.len(), 1int,
{
    if s.len() == 0 {
        None
    } else if s[0] != '/' {
        find_spec(s.drop_first(), target)
    } else if s.len() == 1 {
        None
    } else if s[1] != 'u' {
        find_spec(s.skip(2), target)
    } else if s.len() == 2 {
        None
    } else if s[2] != '/' {
        find_spec(s.skip(3), target)
    } else {
        collect_user(s.skip(3), Seq::<char>::empty(), target)
    }
}

/// The literal text of a mention of the given handle.
pub open spec fn mention_of(target: Seq<char>) -> Seq<char> {
    seq!['/', 'u', '/'] + target
}

/// The leading username run is the unique boundary with username characters
/// before it and none at it.
proof fn lemma_username_run_is(s: Seq<char>, k: int)
    requires
        0 <= k <= s.len(),
        forall|j: int| 0 <= j < k ==> is_username_char(#[trigger] s[j]),
        k < s.len() ==> !is_username_char(s[k]),
    ensures
        username_run(s) == k,
    decreases s.len(),
{
    if s.len() == 0 {
    } else if k == 0 {
    } else {
        lemma_username_run_is(s.drop_first(), k - 1);
    }
}

/// The distance to the first quote is the unique boundary without quotes
/// before it.
proof fn lemma_quote_run_is(s: Seq<char>, k: int)
    requires
        0 <= k <= s.len(),
        forall|j: int| 0 <= j < k ==> s[j] != '"',
        k < s.len() ==> s[k] == '"',
    ensures
        quote_run(s) == k,
    decreases s.len(),
{
    if s.len() == 0 {
    } else if k == 0 {
    } else {
        lemma_quote_run_is(s.drop_first(), k - 1);
    }
}

/// `collect_user` in one step: the whole username run is read, the handle is
/// compared, and the scan either collects, gives up, or resumes.
proof fn lemma_collect_user_run(s: Seq<char>, acc: Seq<char>, target: Seq<char>)
    ensures
        collect_user(s, acc, target) == {
            let k = username_run(s);
            if k == s.len() {
                if acc + s.take(k) == target {
                    Some(Seq::<Seq<char>>::empty())
                } else {
                    None
                }
            } else {
                if acc + s.take(k) == target {
                    Some(collect_quoted(s.skip(k + 1)))
                } else {
                    find_spec(s.skip(k + 1), target)
                }
            }
        },
    decreases s.len(),
{
    let k = username_run(s);
    if s.len() == 0 {
        assert(acc + s.take(0) =~= acc);
    } else if is_username_char(s[0]) {
        lemma_collect_user_run(s.drop_first(), acc.push(s[0]), target);
        let k1 = username_run(s.drop_first());
        lemma_username_run_bounds(s.drop_first());
        assert(k == 1 + k1);
        assert(acc.push(s[0]) + s.drop_first().take(k1) =~= acc + s.take(k));
        if k1 < s.drop_first().len() {
            assert(s.drop_first().skip(k1 + 1) =~= s.skip(k + 1));
        }
    } else {
        assert(k == 0);
        assert(acc + s.take(0) =~= acc);
        assert(s.drop_first() =~= s.skip(1));
    }
}

/// `collect_in_quote` in one step: the quoted run extends to the next quote
/// (or the end), and collection continues after it.
proof fn lemma_collect_in_quote_run(s: Seq<char>, cur: Seq<char>)
    ensures
        collect_in_quote(s, cur) == {
            let k = quote_run(s);
            if k == s.len() {
                seq![cur + s.take(k)]
            } else {
                seq![cur + s.take(k)] + collect_quoted(s.skip(k + 1))
            }
        },
    decreases s.len(),
{
    let k = quote_run(s);
    if s.len() == 0 {
        assert(cur + s.take(0) =~= cur);
    } else if s[0] == '"' {
        assert(k == 0);
        assert(cur + s.take(0) =~= cur);
        assert(s.drop_first() =~= s.skip(1));
    } else {
        lemma_collect_in_quote_run(s.drop_first(), cur.push(s[0]));
        let k1 = quote_run(s.drop_first());
        lemma_quote_run_bounds(s.drop_first());
        assert(k == 1 + k1);
        assert(cur.push(s[0]) + s.drop_first().take(k1) =~= cur + s.take(k));
        if k1 < s.drop_first().len() {
            assert(s.drop_first().skip(k1 + 1) =~= s.skip(k + 1));
        }
    }
}

/// A successful scan always rests on a literal occurrence of the mention.
proof fn lemma_find_some_contains(s: Seq<char>, target: Seq<char>)
    requires
        find_spec(s, target) is Some,
    ensures
        contains_spec(s, mention_of(target)),
    decreases s.len(),
{
    if s.len() == 0 {
    } else if s[0] != '/' {
        lemma_find_some_contains(s.drop_first(), target);
        assert(s.drop_first() =~= s.skip(1));
        lemma_contains_lift(s, mention_of(target), 1);
    } else if s.len() == 1 {
    } else if s[1] != 'u' {
        lemma_find_some_contains(s.skip(2), target);
        lemma_contains_lift(s, mention_of(target), 2);
    } else if s.len() == 2 {
    } else if s[2] != '/' {
        lemma_find_some_contains(s.skip(3), target);
        lemma_contains_lift(s, mention_of(target), 3);
    } else {
        let rest = s.skip(3);
        lemma_collect_user_run(rest, Seq::<char>::empty(), target);
        let k = username_run(rest);
        lemma_username_run_bounds(rest);
        if Seq::<char>::empty() + rest.take(k) == target {
            assert(Seq::<char>::empty() + rest.take(k) =~= rest.take(k));
            assert(s.subrange(0, 3 + target.len() as int) =~= mention_of(target)) by {
                assert(rest.take(k) =~= s.subrange(3, 3 + k));
                assert(target.len() == k);
                assert forall|j: int| 0 <= j < 3 + k implies s.subrange(0, 3 + k)[j]
                    == mention_of(target)[j] by {
                    if j >= 3 {
                        assert(mention_of(target)[j] == target[j - 3]);
                        assert(target[j - 3] == rest.take(k)[j - 3]);
                    }
                }
            }
            assert(s.subrange(0, 0 + mention_of(target).len() as int) == mention_of(target));
            assert(contains_spec(s, mention_of(target)));
        } else {
            if k < rest.len() {
                assert(rest.skip(k + 1) =~= s.skip(3 + k + 1));
                lemma_find_some_contains(s.skip(3 + k + 1), target);
                lemma_contains_lift(s, mention_of(target), 3 + k + 1);
            }
        }
    }
}

/// The leading username run never leaves the sequence.
proof fn lemma_username_run_bounds(s: Seq<char>)
    ensures
        0 <= username_run(s) <= s.len(),
    decreases s.len(),
{
    if s.len() > 0 && is_username_char(s[0]) {
        lemma_username_run_bounds(s.drop_first());
    }
}

/// The distance to the first quote never leaves the sequence.
proof fn lemma_quote_run_bounds(s: Seq<char>)
    ensures
        0 <= quote_run(s) <= s.len(),
    decreases s.len(),
{
    if s.len() > 0 && s[0] != '"' {
        lemma_quote_run_bounds(s.drop_first());
    }
}

/// A text without any occurrence of `/u/` followed by the handle is never
/// scanned into a result.
pub proof fn lemma_find_none_when_absent(s: Seq<char>, target: Seq<char>)
    requires
        !contains_spec(s, mention_of(target)),
    ensures
        find_spec(s, target) is None,
{
    if find_spec(s, target) is Some {
        lemma_find_some_contains(s, target);
    }
}

/// Entity collection over text holding no quote before its first
/// non-whitespace character (or its end, whitespace prefix of length `k`)
/// collects nothing.
proof fn lemma_collect_quoted_none(s: Seq<char>, k: int)
    requires
        0 <= k <= s.len(),
        forall|j: int| 0 <= j < k ==> is_whitespace_char(#[trigger] s[j]),
        k < s.len() ==> (s[k] != '"' && !is_whitespace_char(s[k])),
    ensures
        collect_quoted(s) == Seq::<Seq<char>>::empty(),
    decreases k,
{
    if s.len() == 0 {
    } else if k == 0 {
    } else {
        assert(is_whitespace_char(s[0]));
        assert(s[0] != '"');
        assert forall|j: int| 0 <= j < k - 1 implies is_whitespace_char(
            #[trigger] s.drop_first()[j],
        ) by {
            assert(s.drop_first()[j] == s[j + 1]);
        }
        if k - 1 < s.drop_first().len() {
            assert(s.drop_first()[k - 1] == s[k]);
        }
        lemma_collect_quoted_none(s.drop_first(), k - 1);
    }
}

/// A matched mention that no quoted run follows yields an empty list, not
/// nothing: the handle's boundary character, then any run of whitespace of
/// length `k`, then the end of the text or a character that is neither a
/// quote nor whitespace.
pub proof fn lemma_mention_without_quotes(target: Seq<char>, rest: Seq<char>, k: int)
    requires
        forall|i: int| 0 <= i < target.len() ==> is_username_char(#[trigger] target[i]),
        rest.len() > 0 ==> !is_username_char(rest[0]),
        0 <= k,
        rest.len() > 0 ==> k <= rest.len() - 1,
        rest.len() == 0 ==> k == 0,
        forall|j: int| 0 <= j < k ==> is_whitespace_char(#[trigger] rest[j + 1]),
        rest.len() > 0 && k < rest.len() - 1 ==> (rest[k + 1] != '"' && !is_whitespace_char(
            rest[k + 1],
        )),
    ensures
        find_spec(mention_of(target) + rest, target) == Some(Seq::<Seq<char>>::empty()),
{
    let s = mention_of(target) + rest;
    assert(s[0] == '/' && s[1] == 'u' && s[2] == '/');
    assert(s.len() >= 3);
    assert(s.skip(3) =~= target + rest);
    let s0 = target + rest;
    assert forall|j: int| 0 <= j < target.len() implies is_username_char(#[trigger] s0[j]) by {
        assert(s0[j] == target[j]);
    }
    if rest.len() > 0 {
        assert(s0[target.len() as int] == rest[0]);
    }
    lemma_username_run_is(s0, target.len() as int);
    lemma_collect_user_run(s0, Seq::<char>::empty(), target);
    assert(Seq::<char>::empty() + s0.take(target.len() as int) =~= target);
    if rest.len() == 0 {
        assert(target.len() == s0.len());
    } else {
        let body = rest.drop_first();
        assert(s0.skip(target.len() as int + 1) =~= body);
        assert forall|j: int| 0 <= j < k implies is_whitespace_char(#[trigger] body[j]) by {
            assert(body[j] == rest[j + 1]);
        }
        if k < body.len() {
            assert(body[k] == rest[k + 1]);
        }
        lemma_collect_quoted_none(body, k);
    }
}

/// Text without any slash is scanned past without effect: the result over
/// it and anything after it is the result over what follows it.
pub proof fn lemma_scan_skips_slashless_prefix(p: Seq<char>, s: Seq<char>, target: Seq<char>)
    requires
        forall|i: int| 0 <= i < p.len() ==> #[trigger] p[i] != '/',
    ensures
        find_spec(p + s, target) == find_spec(s, target),
    decreases p.len(),
{
    if p.len() == 0 {
        assert(p + s =~= s);
    } else {
        assert((p + s)[0] == p[0]);
        assert((p + s).drop_first() =~= p.drop_first() + s);
        assert forall|i: int| 0 <= i < p.drop_first().len() implies #[trigger] p.drop_first()[i]
            != '/' by {
            assert(p.drop_first()[i] == p[i + 1]);
        }
        lemma_scan_skips_slashless_prefix(p.drop_first(), s, target);
    }
}

/// Whether a character may appear in a platform user handle.
fn username_char(c: char) -> (r: bool)
    ensures
        r == is_username_char(c),
{
    ('a' <= c && c <= 'z') || ('A' <= c && c <= 'Z') || ('0' <= c && c <= '9') || c == '_' || c
        == '-'
}

/// Append every character of `add` to `out`.
fn push_all(out: &mut Vec<char>, add: &Vec<char>)
    ensures
        final(out)@ == old(out)@ + add@,
{
    let ghost base = out@;
    let mut k: usize = 0;
    proof {
        assert(base + add@.take(0) =~= base);
    }
    while k < add.len()
        invariant
            k <= add@.len(),
            out@ == base + add@.take(k as int),
        decreases add.len() - k,
    {
        out.push(add[k]);
        proof {
            assert((base + add@.take(k as int)).push(add@[k as int]) =~= base + add@.take(k + 1));
        }
        k = k + 1;
    }
    proof {
        assert(base + add@.take(add@.len() as int) =~= base + add@);
    }
}

/// The verified core of name formatting, over character vectors.
fn fmt_vec(v: &Vec<char>) -> (out: Vec<char>)
    ensures
        out@ == fmt_name_spec(v@),
{
    let mut out: Vec<char> = Vec::new();
    let mut first: bool = true;
    let mut i: usize = 0;
    proof {
        assert(v@.skip(0) =~= v@);
    }
    while i < v.len()
        invariant
            i <= v@.len(),
            fmt_name_spec(v@) == out@ + fmt_chars(v@.skip(i as int), first),
        decreases v.len() - i,
    {
        let c = v[i];
        let ghost rest = v@.skip(i as int);
        let ghost done = out@;
        let ghost f0 = first;
        proof {
            assert(rest[0] == v@[i as int]);
            assert(rest.drop_first() =~= v@.skip(i + 1));
        }
        if is_alphabetic(c) {
            if first {
                let ups = to_uppercase(c);
                push_all(&mut out, &ups);
                first = false;
                proof {
                    assert((done + char_upper(c)) + fmt_chars(v@.skip(i + 1), false) =~= done + (
                    char_upper(c) + fmt_chars(v@.skip(i + 1), false)));
                }
            } else {
                let lows = to_lowercase_char(c);
                push_all(&mut out, &lows);
                proof {
                    assert((done + char_lower(c)) + fmt_chars(v@.skip(i + 1), false) =~= done + (
                    char_lower(c) + fmt_chars(v@.skip(i + 1), false)));
                }
            }
        } else if c == '\'' {
            out.push(c);
            proof {
                assert(fmt_chars(rest, f0) == seq![c] + fmt_chars(rest.drop_first(), f0));
                assert(done.push(c) =~= done + seq![c]);
                assert((done + seq![c]) + fmt_chars(v@.skip(i + 1), f0) =~= done + (seq![c]
                    + fmt_chars(v@.skip(i + 1), f0)));
            }
        } else {
            out.push(c);
            first = true;
            proof {
                assert(fmt_chars(rest, f0) == seq![c] + fmt_chars(rest.drop_first(), true));
                assert(done.push(c) =~= done + seq![c]);
                assert((done + seq![c]) + fmt_chars(v@.skip(i + 1), true) =~= done + (seq![c]
                    + fmt_chars(v@.skip(i + 1), true)));
            }
        }
        i = i + 1;
    }
    proof {
        assert(v@.skip(v@.len() as int) =~= Seq::<char>::empty());
        assert(out@ + Seq::<char>::empty() =~= out@);
    }
    out
}

} // verus!
