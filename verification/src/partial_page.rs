//! Partially resolved wiki pages: the first, metadata half of resolution.
//!
//! The wire work of the lookup stays with the caller; what stands here is
//! everything that decides: the title list a request carries, which returned
//! records become pages, which reported aliases belong to a page, and which
//! of a page's attached images is selected.

use vstd::prelude::*;

use crate::friend::Friend;
use crate::text::{
    chars_of, contains_chars, contains_spec, ends_with_chars, ends_with_spec, lower_of,
    opt_str_view, str_views, to_lowercase,
};

verus! {

/// A partially made page.
#[derive(Debug)]
pub struct PartialPage {
    /// The title of the page
    pub title: String,
    /// Any titles that were normalized to this page's title
    pub aliases: Vec<String>,
    /// The URL of the page
    pub url: String,
    /// The selected image title, if any
    pub image_title: Option<String>,
}

/// A partially made page, as one mathematical value.
pub ghost struct PartialView {
    pub title: Seq<char>,
    pub aliases: Seq<Seq<char>>,
    pub url: Seq<char>,
    pub image_title: Option<Seq<char>>,
}

impl View for PartialPage {
    type V = PartialView;

    open spec fn view(&self) -> PartialView {
        PartialView {
            title: self.title@,
            aliases: str_views(self.aliases@),
            url: self.url@,
            image_title: opt_str_view(self.image_title),
        }
    }
}

/// The views of a sequence of partial pages.
pub open spec fn partial_views(ps: Seq<PartialPage>) -> Seq<PartialView> {
    ps.map_values(|p: PartialPage| p@)
}

/// One page record of a metadata response, as plain values.
#[derive(Debug)]
pub struct PageRecord {
    /// The canonical title, when the server reports one
    pub title: Option<String>,
    /// The titles of the images attached to the page, when listed
    pub images: Option<Vec<String>>,
    /// The canonical URL, when the server reports one
    pub url: Option<String>,
    /// Whether the record is flagged missing
    pub missing: bool,
    /// Whether the record is flagged invalid
    pub invalid: bool,
}

/// A page record, as one mathematical value.
pub ghost struct RecordView {
    pub title: Option<Seq<char>>,
    pub images: Option<Seq<Seq<char>>>,
    pub url: Option<Seq<char>>,
    pub missing: bool,
    pub invalid: bool,
}

impl View for PageRecord {
    type V = RecordView;

    open spec fn view(&self) -> RecordView {
        RecordView {
            title: opt_str_view(self.title),
            images: match self.images {
                Option::Some(v) => Some(str_views(v@)),
                Option::None => None,
            },
            url: opt_str_view(self.url),
            missing: self.missing,
            invalid: self.invalid,
        }
    }
}

/// One alias pair of a metadata response: `from` was normalized to `to`.
#[derive(Debug)]
pub struct Normalized {
    pub from: String,
    pub to: String,
}

/// An alias pair, as one mathematical value.
pub ghost struct NormView {
    pub from: Seq<char>,
    pub to: Seq<char>,
}

impl View for Normalized {
    type V = NormView;

    open spec fn view(&self) -> NormView {
        NormView { from: self.from@, to: self.to@ }
    }
}

// ---------------------------------------------------------------------------
// The title list
// ---------------------------------------------------------------------------

/// Each title followed by a `|` separator.
pub open spec fn titles_concat(ts: Seq<Seq<char>>) -> Seq<char>
    decreases ts.len(),
{
    if ts.len() == 0 {
        Seq::<char>::empty()
    } else {
        ts[0] + "|"@ + titles_concat(ts.drop_first())
    }
}

// ---------------------------------------------------------------------------
// Aliases
// ---------------------------------------------------------------------------

/// The aliases of a title: every `from` whose pair normalizes to the title,
/// in report order.
pub open spec fn aliases_of(title: Seq<char>, ns: Seq<NormView>) -> Seq<Seq<char>>
    decreases ns.len(),
{
    if ns.len() == 0 {
        Seq::<Seq<char>>::empty()
    } else {
        let rest = aliases_of(title, ns.drop_first());
        if ns[0].to == title {
            seq![ns[0].from] + rest
        } else {
            rest
        }
    }
}

// ---------------------------------------------------------------------------
// Image selection
// ---------------------------------------------------------------------------

/// Whether a filename carries one of the common image extensions,
/// case-insensitively.
pub open spec fn is_image_name(name: Seq<char>) -> bool {
    ||| ends_with_spec(lower_of(name), "jpg"@)
    ||| ends_with_spec(lower_of(name), "png"@)
    ||| ends_with_spec(lower_of(name), "jpeg"@)
    ||| ends_with_spec(lower_of(name), "gif"@)
    ||| ends_with_spec(lower_of(name), "bmp"@)
    ||| ends_with_spec(lower_of(name), "tiff"@)
}

/// The first name satisfying the predicate, in order.
pub open spec fn first_where(names: Seq<Seq<char>>, pred: spec_fn(Seq<char>) -> bool) -> Option<
    Seq<char>,
>
    decreases names.len(),
{
    if names.len() == 0 {
        Option::<Seq<char>>::None
    } else if pred(names[0]) {
        Some(names[0])
    } else {
        first_where(names.drop_first(), pred)
    }
}

/// An image file whose lowered name contains "original".
pub open spec fn original_pred() -> spec_fn(Seq<char>) -> bool {
    |n: Seq<char>| is_image_name(n) && contains_spec(lower_of(n), "original"@)
}

/// Any image file.
pub open spec fn image_pred() -> spec_fn(Seq<char>) -> bool {
    |n: Seq<char>| is_image_name(n)
}

/// The image selected for a page: the first image file whose lowered name
/// contains "original"; otherwise the first image file; otherwise none.
///
/// The page title plays no part in the choice: the selector's check for
/// names carrying it asks for a still-open choice, and recording the first
/// image file has always closed it by then.
pub open spec fn select_image_spec(names: Seq<Seq<char>>) -> Option<Seq<char>> {
    if first_where(names, original_pred()) is Some {
        first_where(names, original_pred())
    } else {
        first_where(names, image_pred())
    }
}

/// How `first_where` grows when one more name is scanned.
proof fn lemma_first_where_push(
    names: Seq<Seq<char>>,
    pred: spec_fn(Seq<char>) -> bool,
    y: Seq<char>,
)
    ensures
        first_where(names.push(y), pred) == (if first_where(names, pred) is Some {
            first_where(names, pred)
        } else if pred(y) {
            Option::<Seq<char>>::Some(y)
        } else {
            Option::<Seq<char>>::None
        }),
    decreases names.len(),
{
    if names.len() == 0 {
        assert(names.push(y)[0] == y);
        assert(names.push(y).drop_first() =~= Seq::<Seq<char>>::empty());
        if pred(y) {
            assert(first_where(names.push(y), pred) == Some(y));
        } else {
            assert(first_where(names.push(y), pred) == first_where(
                names.push(y).drop_first(),
                pred,
            ));
        }
    } else {
        assert(names.push(y)[0] == names[0]);
        assert(names.push(y).drop_first() =~= names.drop_first().push(y));
        lemma_first_where_push(names.drop_first(), pred, y);
        if pred(names[0]) {
            assert(first_where(names.push(y), pred) == Some(names[0]));
            assert(first_where(names, pred) == Some(names[0]));
        } else {
            assert(first_where(names.push(y), pred) == first_where(
                names.drop_first().push(y),
                pred,
            ));
            assert(first_where(names, pred) == first_where(names.drop_first(), pred));
        }
    }
}

/// The first match over a split scan: whatever the front half found, else
/// whatever the back half finds.
proof fn lemma_first_where_app(
    a: Seq<Seq<char>>,
    b: Seq<Seq<char>>,
    pred: spec_fn(Seq<char>) -> bool,
)
    ensures
        first_where(a + b, pred) == (if first_where(a, pred) is Some {
            first_where(a, pred)
        } else {
            first_where(b, pred)
        }),
    decreases a.len(),
{
    if a.len() == 0 {
        assert(a + b =~= b);
    } else {
        assert((a + b)[0] == a[0]);
        assert((a + b).drop_first() =~= a.drop_first() + b);
        lemma_first_where_app(a.drop_first(), b, pred);
    }
}

// ---------------------------------------------------------------------------
// Parsing a metadata response
// ---------------------------------------------------------------------------

/// What one record becomes: nothing when flagged missing or invalid or when
/// the title or URL is absent; a partial page otherwise.
pub open spec fn parse_page_spec(r: RecordView, ns: Seq<NormView>) -> Option<PartialView> {
    if r.invalid || r.missing {
        None
    } else {
        match r.title {
            Option::None => None,
            Option::Some(t) => match r.url {
                Option::None => None,
                Option::Some(u) => Some(
                    PartialView {
                        title: t,
                        aliases: aliases_of(t, ns),
                        url: u,
                        image_title: match r.images {
                            Option::Some(names) => select_image_spec(names),
                            Option::None => None,
                        },
                    },
                ),
            },
        }
    }
}

/// What a whole response becomes: the pages of the passing records, in
/// record order.
pub open spec fn parse_response_spec(rs: Seq<RecordView>, ns: Seq<NormView>) -> Seq<PartialView>
    decreases rs.len(),
{
    if rs.len() == 0 {
        Seq::<PartialView>::empty()
    } else {
        let rest = parse_response_spec(rs.drop_first(), ns);
        match parse_page_spec(rs[0], ns) {
            Option::Some(p) => seq![p] + rest,
            Option::None => rest,
        }
    }
}

impl PartialPage {
    /// The `titles` parameter of a metadata request: a known-ordinary title
    /// first — a batch of only special titles can change the response shape
    /// — then every friend's title, each with its separator.
    pub fn make_titles(friends: &[Friend]) -> (r: String)
        ensures
            r@ == "Serval|"@ + titles_concat(
                friends@.map_values(|f: Friend| f@.title),
            ),
    {
        let ghost ts = friends@.map_values(|f: Friend| f@.title);
        let mut s = String::from_str("Serval|");
        let mut i: usize = 0;
        proof {
            assert(ts.skip(0) =~= ts);
        }
        while i < friends.len()
            invariant
                i <= friends@.len(),
                ts == friends@.map_values(|f: Friend| f@.title),
                ts.len() == friends@.len(),
                "Serval|"@ + titles_concat(ts) == s@ + titles_concat(ts.skip(i as int)),
            decreases friends.len() - i,
        {
            let ghost done = s@;
            let ghost rest = ts.skip(i as int);
            proof {
                assert(rest[0] == ts[i as int]);
                assert(rest.drop_first() =~= ts.skip(i + 1));
                assert(ts[i as int] == friends@[i as int]@.title);
            }
            s.append(friends[i].title.as_str());
            s.append("|");
            proof {
                assert((done + (rest[0] + "|"@ + titles_concat(ts.skip(i + 1)))) =~= ((done
                    + rest[0] + "|"@) + titles_concat(ts.skip(i + 1))));
            }
            i = i + 1;
        }
        proof {
            assert(ts.skip(ts.len() as int) =~= Seq::<Seq<char>>::empty());
            assert(s@ + Seq::<char>::empty() =~= s@);
        }
        s
    }

    /// The aliases of a title: every reported pair that normalizes to it.
    pub fn get_aliases(title: &str, normalized: &Option<Vec<Normalized>>) -> (r: Vec<String>)
        ensures
            str_views(r@) == aliases_of(title@, norm_views_ref(normalized)),
    {
        let mut out: Vec<String> = Vec::new();
        let ns: &Vec<Normalized> = match normalized {
            Option::Some(v) => v,
            Option::None => {
                proof {
                    assert(str_views(out@) =~= Seq::<Seq<char>>::empty());
                }
                return out;
            },
        };
        let title_s = String::from_str(title);
        let ghost nv = norm_views_ref(normalized);
        let mut i: usize = 0;
        proof {
            assert(nv.skip(0) =~= nv);
            assert(str_views(out@) =~= Seq::<Seq<char>>::empty());
            assert(Seq::<Seq<char>>::empty() + aliases_of(title@, nv) =~= aliases_of(title@, nv));
        }
        while i < ns.len()
            invariant
                i <= ns@.len(),
                nv == ns@.map_values(|n: Normalized| n@),
                nv.len() == ns@.len(),
                title_s@ == title@,
                aliases_of(title@, nv) == str_views(out@) + aliases_of(title@, nv.skip(i as int)),
            decreases ns.len() - i,
        {
            let ghost done = str_views(out@);
            let ghost rest = nv.skip(i as int);
            proof {
                assert(rest[0] == nv[i as int]);
                assert(rest.drop_first() =~= nv.skip(i + 1));
                assert(nv[i as int] == ns@[i as int]@);
            }
            if ns[i].to == title_s {
                let ghost before = out@;
                out.push(ns[i].from.clone());
                proof {
                    assert(str_views(out@) =~= done.push(nv[i as int].from));
                    assert((done + (seq![nv[i as int].from] + aliases_of(title@, nv.skip(i + 1))))
                        =~= (done.push(nv[i as int].from) + aliases_of(title@, nv.skip(i + 1))));
                }
            }
            i = i + 1;
        }
        proof {
            assert(nv.skip(nv.len() as int) =~= Seq::<NormView>::empty());
            assert(str_views(out@) + Seq::<Seq<char>>::empty() =~= str_views(out@));
        }
        out
    }

    /// Select the image for a page among its attached image titles: the
    /// first whose lowered name contains "original" wins outright and ends
    /// the scan; otherwise the first image file stands.
    ///
    /// The check against the page title below is kept where it stands, but
    /// it asks for a still-open choice, and the line above it has always
    /// recorded a first match by then: the title never changes the outcome.
    pub fn select_image(title: &str, images: &Option<Vec<String>>) -> (r: Option<String>)
        ensures
            images is None ==> r is None,
            images matches Some(v) ==> opt_str_view(r) == select_image_spec(str_views(v@)),
    {
        let v: &Vec<String> = match images {
            Option::Some(v) => v,
            Option::None => {
                return None;
            },
        };
        let ghost names = str_views(v@);
        let title_lc = to_lowercase(title);
        let title_lcv = chars_of(title_lc.as_str());
        let orig_needle = chars_of("original");
        let mut selected: Option<String> = None;
        let mut i: usize = 0;
        proof {
            assert(names.take(0) =~= Seq::<Seq<char>>::empty());
        }
        while i < v.len()
            invariant
                i <= v@.len(),
                images matches Some(x) && x@ == v@,
                names == str_views(v@),
                names.len() == v@.len(),
                orig_needle@ == "original"@,
                first_where(names.take(i as int), original_pred()) is None,
                opt_str_view(selected) == first_where(names.take(i as int), image_pred()),
            decreases v.len() - i,
        {
            let name = &v[i];
            let ghost prefix = names.take(i as int);
            proof {
                assert(names[i as int] == v@[i as int]@);
                assert(names.take(i + 1) =~= prefix.push(names[i as int]));
                lemma_first_where_push(prefix, original_pred(), names[i as int]);
                lemma_first_where_push(prefix, image_pred(), names[i as int]);
            }
            let lc = to_lowercase(name.as_str());
            let lcv = chars_of(lc.as_str());
            if image_ext(&lcv) {
                if selected.is_none() {
                    selected = Some(name.clone());
                }
                if contains_chars(lcv.as_slice(), orig_needle.as_slice()) {
                    proof {
                        assert(names =~= names.take(i + 1) + names.skip(i + 1));
                        lemma_first_where_app(
                            names.take(i + 1),
                            names.skip(i + 1),
                            original_pred(),
                        );
                    }
                    return Some(name.clone());
                }
                if contains_chars(lcv.as_slice(), title_lcv.as_slice()) && selected.is_none() {
                    selected = Some(name.clone());
                }
            }
            i = i + 1;
        }
        proof {
            assert(names.take(names.len() as int) =~= names);
        }
        selected
    }

    /// What one record becomes: a page, unless it is flagged or incomplete.
    pub fn parse_page(page: &PageRecord, normalized: &Option<Vec<Normalized>>) -> (r: Option<
        PartialPage,
    >)
        ensures
            match r {
                Option::Some(p) => parse_page_spec(page@, norm_views_ref(normalized)) == Some(p@),
                Option::None => parse_page_spec(page@, norm_views_ref(normalized)) is None,
            },
    {
        if page.invalid || page.missing {
            return None;
        }
        let title: &String = match &page.title {
            Option::Some(t) => t,
            Option::None => {
                return None;
            },
        };
        let url: &String = match &page.url {
            Option::Some(u) => u,
            Option::None => {
                return None;
            },
        };
        let aliases = PartialPage::get_aliases(title.as_str(), normalized);
        let image_title = PartialPage::select_image(title.as_str(), &page.images);
        Some(
            PartialPage {
                title: title.clone(),
                aliases: aliases,
                url: url.clone(),
                image_title: image_title,
            },
        )
    }

    /// What a whole response becomes: the pages of the passing records, in
    /// record order; failing records are silently dropped.
    pub fn parse_response(pages: &Vec<PageRecord>, normalized: &Option<Vec<Normalized>>) -> (r:
        Vec<PartialPage>)
        ensures
            partial_views(r@) == parse_response_spec(
                pages@.map_values(|p: PageRecord| p@),
                norm_views_ref(normalized),
            ),
    {
        let ghost rs = pages@.map_values(|p: PageRecord| p@);
        let ghost ns = norm_views_ref(normalized);
        let mut out: Vec<PartialPage> = Vec::new();
        let mut i: usize = 0;
        proof {
            assert(rs.skip(0) =~= rs);
            assert(partial_views(out@) =~= Seq::<PartialView>::empty());
            assert(Seq::<PartialView>::empty() + parse_response_spec(rs, ns)
                =~= parse_response_spec(rs, ns));
        }
        while i < pages.len()
            invariant
                i <= pages@.len(),
                rs == pages@.map_values(|p: PageRecord| p@),
                rs.len() == pages@.len(),
                ns == norm_views_ref(normalized),
                parse_response_spec(rs, ns) == partial_views(out@) + parse_response_spec(
                    rs.skip(i as int),
                    ns,
                ),
            decreases pages.len() - i,
        {
            let ghost done = partial_views(out@);
            proof {
                assert(rs.skip(i as int)[0] == rs[i as int]);
                assert(rs.skip(i as int).drop_first() =~= rs.skip(i + 1));
                assert(rs[i as int] == pages@[i as int]@);
            }
            match PartialPage::parse_page(&pages[i], normalized) {
                Option::Some(p) => {
                    out.push(p);
                    proof {
                        assert(partial_views(out@) =~= done.push(p@));
                        assert((done + (seq![p@] + parse_response_spec(rs.skip(i + 1), ns))) =~= (
                        done.push(p@) + parse_response_spec(rs.skip(i + 1), ns)));
                    }
                },
                Option::None => {},
            }
            i = i + 1;
        }
        proof {
            assert(rs.skip(rs.len() as int) =~= Seq::<RecordView>::empty());
            assert(partial_views(out@) + Seq::<PartialView>::empty() =~= partial_views(out@));
        }
        out
    }
}

/// The views of a borrowed optional alias list (absent means empty).
pub open spec fn norm_views_ref(o: &Option<Vec<Normalized>>) -> Seq<NormView> {
    match *o {
        Option::Some(v) => v@.map_values(|n: Normalized| n@),
        Option::None => Seq::<NormView>::empty(),
    }
}

/// Whether an already-lowered filename carries one of the common image
/// extensions.
fn image_ext(lcv: &Vec<char>) -> (r: bool)
    ensures
        r == {
            ||| ends_with_spec(lcv@, "jpg"@)
            ||| ends_with_spec(lcv@, "png"@)
            ||| ends_with_spec(lcv@, "jpeg"@)
            ||| ends_with_spec(lcv@, "gif"@)
            ||| ends_with_spec(lcv@, "bmp"@)
            ||| ends_with_spec(lcv@, "tiff"@)
        },
{
    let jpg = chars_of("jpg");
    let png = chars_of("png");
    let jpeg = chars_of("jpeg");
    let gif = chars_of("gif");
    let bmp = chars_of("bmp");
    let tiff = chars_of("tiff");
    ends_with_chars(lcv.as_slice(), jpg.as_slice()) || ends_with_chars(
        lcv.as_slice(),
        png.as_slice(),
    ) || ends_with_chars(lcv.as_slice(), jpeg.as_slice()) || ends_with_chars(
        lcv.as_slice(),
        gif.as_slice(),
    ) || ends_with_chars(lcv.as_slice(), bmp.as_slice()) || ends_with_chars(
        lcv.as_slice(),
        tiff.as_slice(),
    )
}

} // verus!
