//! Whole wiki pages: the join of the two lookup halves with the friends
//! that asked for them.

use vstd::prelude::*;

use crate::friend::{Friend, FriendView};
use crate::image_url::{image_views, ImageUrl, ImageView};
use crate::partial_page::{partial_views, PartialPage};
use crate::text::{opt_str_view, str_views};

verus! {

/// An error that might occur when making a wiki request.
#[derive(Debug)]
pub enum WikiError {
    /// A response status other than success
    StatusError(u16),
    /// A transport error, carrying its description
    RequestError(String),
}

/// The most titles one wiki request may carry. The server takes more, but
/// staying under its cap tolerates off-by-one mistakes on either side.
pub const MAX_TITLES: usize = 45;

/// A wiki page.
///
/// A Page usually stands for a friend, but can describe any page. It is
/// built in two requests: one for the title and URL, one for the image URL.
#[derive(Debug, Clone)]
pub struct Page {
    /// The friends this page is linked to
    ///
    /// Several friends might parse differently yet link to the same page,
    /// so all of them are kept.
    pub friends: Vec<u64>,
    /// The title of the page
    pub title: String,
    /// The URL of the page
    pub url: String,
    /// The URL of the image, if any
    pub image: Option<String>,
}

/// A page, as one mathematical value.
pub ghost struct PageView {
    pub friends: Seq<u64>,
    pub title: Seq<char>,
    pub url: Seq<char>,
    pub image: Option<Seq<char>>,
}

impl View for Page {
    type V = PageView;

    open spec fn view(&self) -> PageView {
        PageView {
            friends: self.friends@,
            title: self.title@,
            url: self.url@,
            image: opt_str_view(self.image),
        }
    }
}

/// The views of a sequence of friends.
pub open spec fn friend_views(fs: Seq<Friend>) -> Seq<FriendView> {
    fs.map_values(|f: Friend| f@)
}

/// The URL of the first resolved image carrying the given title.
pub open spec fn image_lookup(title: Seq<char>, images: Seq<ImageView>) -> Option<Seq<char>>
    decreases images.len(),
{
    if images.len() == 0 {
        Option::<Seq<char>>::None
    } else if images[0].title == title {
        Some(images[0].url)
    } else {
        image_lookup(title, images.drop_first())
    }
}

/// The image URL a page ends with: nothing when no image title was
/// selected, else the URL that title resolved to, if any.
pub open spec fn find_image_spec(title: Option<Seq<char>>, images: Seq<ImageView>) -> Option<
    Seq<char>,
> {
    match title {
        Option::Some(t) => image_lookup(t, images),
        Option::None => None,
    }
}

/// The identifiers of the friends a page links: every friend whose title
/// equals the page's canonical title or one of its aliases, in order.
pub open spec fn find_friends_spec(
    title: Seq<char>,
    aliases: Seq<Seq<char>>,
    friends: Seq<FriendView>,
) -> Seq<u64>
    decreases friends.len(),
{
    if friends.len() == 0 {
        Seq::<u64>::empty()
    } else {
        let rest = find_friends_spec(title, aliases, friends.drop_first());
        if friends[0].title == title || aliases.contains(friends[0].title) {
            seq![friends[0].id] + rest
        } else {
            rest
        }
    }
}

/// The alias join, characterized: an identifier is linked to a page exactly
/// when some friend carries it and that friend's title equals the page's
/// canonical title or one of its aliases — and no other title links.
pub proof fn lemma_alias_join(
    title: Seq<char>,
    aliases: Seq<Seq<char>>,
    friends: Seq<FriendView>,
    id: u64,
)
    ensures
        find_friends_spec(title, aliases, friends).contains(id) <==> exists|j: int|
            0 <= j < friends.len() && (#[trigger] friends[j]).id == id && (friends[j].title
                == title || aliases.contains(friends[j].title)),
    decreases friends.len(),
{
    if friends.len() == 0 {
    } else {
        let tail = friends.drop_first();
        lemma_alias_join(title, aliases, tail, id);
        let rest = find_friends_spec(title, aliases, tail);
        let whole = find_friends_spec(title, aliases, friends);
        let linked = friends[0].title == title || aliases.contains(friends[0].title);
        // forward: a linked identifier names a linking friend
        if whole.contains(id) {
            let w = choose|w: int| 0 <= w < whole.len() && whole[w] == id;
            if linked && w == 0 {
                assert(friends[0].id == id && (friends[0].title == title || aliases.contains(
                    friends[0].title,
                )));
            } else {
                if linked {
                    assert(whole == seq![friends[0].id] + rest);
                    assert(rest[w - 1] == id);
                } else {
                    assert(whole == rest);
                }
                assert(rest.contains(id));
                let j = choose|j: int|
                    0 <= j < tail.len() && (#[trigger] tail[j]).id == id && (tail[j].title == title
                        || aliases.contains(tail[j].title));
                assert(friends[j + 1] == tail[j]);
            }
        }
        // backward: a linking friend's identifier is linked
        if exists|j: int|
            0 <= j < friends.len() && (#[trigger] friends[j]).id == id && (friends[j].title
                == title || aliases.contains(friends[j].title)) {
            let j = choose|j: int|
                0 <= j < friends.len() && (#[trigger] friends[j]).id == id && (friends[j].title
                    == title || aliases.contains(friends[j].title));
            if j == 0 {
                assert(whole == seq![friends[0].id] + rest);
                assert(whole[0] == id);
                assert(whole.contains(id));
            } else {
                assert(tail[j - 1] == friends[j]);
                assert(rest.contains(id));
                let w = choose|w: int| 0 <= w < rest.len() && rest[w] == id;
                if linked {
                    assert(whole == seq![friends[0].id] + rest);
                    assert(whole[w + 1] == id);
                } else {
                    assert(whole == rest);
                }
                assert(whole.contains(id));
            }
        }
    }
}

/// What the page built from one partial page must look like.
pub open spec fn page_of(
    partial: crate::partial_page::PartialView,
    images: Seq<ImageView>,
    friends: Seq<FriendView>,
) -> PageView {
    PageView {
        friends: find_friends_spec(partial.title, partial.aliases, friends),
        title: partial.title,
        url: partial.url,
        image: find_image_spec(partial.image_title, images),
    }
}

impl Page {
    /// Join the two lookup halves: each partial page becomes a page, linked
    /// to its image URL and to the friends whose titles match it.
    pub fn make(partials: Vec<PartialPage>, images: &[ImageUrl], friends: &[Friend]) -> (r: Vec<
        Page,
    >)
        ensures
            r@.len() == partials@.len(),
            forall|k: int|
                0 <= k < r@.len() ==> (#[trigger] r@[k])@ == page_of(
                    partials@[k]@,
                    image_views(images@),
                    friend_views(friends@),
                ),
    {
        let mut out: Vec<Page> = Vec::new();
        let mut i: usize = 0;
        while i < partials.len()
            invariant
                i <= partials@.len(),
                out@.len() == i,
                forall|k: int|
                    0 <= k < i ==> (#[trigger] out@[k])@ == page_of(
                        partials@[k]@,
                        image_views(images@),
                        friend_views(friends@),
                    ),
            decreases partials.len() - i,
        {
            let p = &partials[i];
            let image = Page::find_image(&p.image_title, images);
            let ids = Page::find_friends(&p.title, &p.aliases, friends);
            let page = Page { friends: ids, title: p.title.clone(), url: p.url.clone(), image };
            out.push(page);
            i = i + 1;
        }
        out
    }

    /// The URL the selected image title resolved to, if any.
    pub fn find_image(title: &Option<String>, images: &[ImageUrl]) -> (r: Option<String>)
        ensures
            opt_str_view(r) == find_image_spec(opt_str_view(*title), image_views(images@)),
    {
        let t: &String = match title {
            Option::Some(t) => t,
            Option::None => {
                return None;
            },
        };
        let ghost ivs = image_views(images@);
        let mut i: usize = 0;
        proof {
            assert(ivs.skip(0) =~= ivs);
        }
        while i < images.len()
            invariant
                i <= images@.len(),
                t@ == opt_str_view(*title).unwrap(),
                title matches Some(x) && x@ == t@,
                ivs == image_views(images@),
                ivs.len() == images@.len(),
                image_lookup(t@, ivs) == image_lookup(t@, ivs.skip(i as int)),
            decreases images.len() - i,
        {
            proof {
                assert(ivs.skip(i as int)[0] == ivs[i as int]);
                assert(ivs.skip(i as int).drop_first() =~= ivs.skip(i + 1));
                assert(ivs[i as int] == images@[i as int]@);
            }
            if images[i].title == *t {
                return Some(images[i].url.clone());
            }
            i = i + 1;
        }
        proof {
            assert(ivs.skip(ivs.len() as int) =~= Seq::<ImageView>::empty());
        }
        None
    }

    /// The identifiers of the friends whose title equals the page title or
    /// one of its aliases.
    pub fn find_friends(title: &String, aliases: &Vec<String>, friends: &[Friend]) -> (r: Vec<
        u64,
    >)
        ensures
            r@ == find_friends_spec(title@, str_views(aliases@), friend_views(friends@)),
    {
        let ghost fvs = friend_views(friends@);
        let ghost avs = str_views(aliases@);
        let mut ids: Vec<u64> = Vec::new();
        let mut i: usize = 0;
        proof {
            assert(fvs.skip(0) =~= fvs);
            assert(Seq::<u64>::empty() + find_friends_spec(title@, avs, fvs) =~= find_friends_spec(
                title@,
                avs,
                fvs,
            ));
        }
        while i < friends.len()
            invariant
                i <= friends@.len(),
                title@ == title@,
                fvs == friend_views(friends@),
                fvs.len() == friends@.len(),
                avs == str_views(aliases@),
                find_friends_spec(title@, avs, fvs) == ids@ + find_friends_spec(
                    title@,
                    avs,
                    fvs.skip(i as int),
                ),
            decreases friends.len() - i,
        {
            let ghost done = ids@;
            proof {
                assert(fvs.skip(i as int)[0] == fvs[i as int]);
                assert(fvs.skip(i as int).drop_first() =~= fvs.skip(i + 1));
                assert(fvs[i as int] == friends@[i as int]@);
            }
            let hit = if friends[i].title == *title {
                true
            } else {
                has_title(aliases, &friends[i].title)
            };
            if hit {
                ids.push(friends[i].id);
                proof {
                    assert(ids@ =~= done.push(fvs[i as int].id));
                    assert((done + (seq![fvs[i as int].id] + find_friends_spec(
                        title@,
                        avs,
                        fvs.skip(i + 1),
                    ))) =~= (done.push(fvs[i as int].id) + find_friends_spec(
                        title@,
                        avs,
                        fvs.skip(i + 1),
                    )));
                }
            }
            i = i + 1;
        }
        proof {
            assert(fvs.skip(fvs.len() as int) =~= Seq::<FriendView>::empty());
            assert(ids@ + Seq::<u64>::empty() =~= ids@);
        }
        ids
    }
}

/// Whether any of the strings equals the given one.
fn has_title(hay: &Vec<String>, needle: &String) -> (r: bool)
    ensures
        r == str_views(hay@).contains(needle@),
{
    let mut i: usize = 0;
    while i < hay.len()
        invariant
            i <= hay@.len(),
            forall|j: int| 0 <= j < i ==> str_views(hay@)[j] != needle@,
        decreases hay.len() - i,
    {
        proof {
            assert(str_views(hay@)[i as int] == hay@[i as int]@);
        }
        if hay[i] == *needle {
            proof {
                assert(str_views(hay@)[i as int] == needle@);
            }
            return true;
        }
        i = i + 1;
    }
    proof {
        assert(forall|j: int| 0 <= j < str_views(hay@).len() ==> str_views(hay@)[j] != needle@);
    }
    false
}

} // verus!
