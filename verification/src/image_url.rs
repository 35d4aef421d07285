//! Image URLs: the second, image half of resolution. As with the metadata
//! half, the wire work stays with the caller; the title list and the reading
//! of the response stand here.

use vstd::prelude::*;

use crate::page::WikiError;
use crate::partial_page::{partial_views, PartialPage, PartialView};
use crate::text::{opt_str_view, str_views};

verus! {

/// An image title resolved to its URL.
#[derive(Debug)]
pub struct ImageUrl {
    pub title: String,
    pub url: String,
}

/// A resolved image, as one mathematical value.
pub ghost struct ImageView {
    pub title: Seq<char>,
    pub url: Seq<char>,
}

impl View for ImageUrl {
    type V = ImageView;

    open spec fn view(&self) -> ImageView {
        ImageView { title: self.title@, url: self.url@ }
    }
}

/// The views of a sequence of resolved images.
pub open spec fn image_views(is: Seq<ImageUrl>) -> Seq<ImageView> {
    is.map_values(|i: ImageUrl| i@)
}

/// One record of an image-url response, as plain values.
#[derive(Debug)]
pub struct ImageRecord {
    /// The image title, when the server reports one
    pub title: Option<String>,
    /// The URLs of the image-info entries, when listed
    pub imageinfo: Option<Vec<String>>,
    /// Whether the record is flagged missing
    pub missing: bool,
    /// Whether the record is flagged invalid
    pub invalid: bool,
}

/// An image record, as one mathematical value.
pub ghost struct ImageRecordView {
    pub title: Option<Seq<char>>,
    pub imageinfo: Option<Seq<Seq<char>>>,
    pub missing: bool,
    pub invalid: bool,
}

impl View for ImageRecord {
    type V = ImageRecordView;

    open spec fn view(&self) -> ImageRecordView {
        ImageRecordView {
            title: opt_str_view(self.title),
            imageinfo: match self.imageinfo {
                Option::Some(v) => Some(str_views(v@)),
                Option::None => None,
            },
            missing: self.missing,
            invalid: self.invalid,
        }
    }
}

/// A record that is not flagged must carry a title and an image-info list;
/// the upstream data promises as much, and the caller checks it.
pub open spec fn record_complete(r: ImageRecordView) -> bool {
    !r.missing && !r.invalid ==> r.title is Some && r.imageinfo is Some
}

/// The selected image titles, each with its separator.
pub open spec fn image_titles_concat(ps: Seq<PartialView>) -> Seq<char>
    decreases ps.len(),
{
    if ps.len() == 0 {
        Seq::<char>::empty()
    } else {
        (match ps[0].image_title {
            Option::Some(t) => t + "|"@,
            Option::None => Seq::<char>::empty(),
        }) + image_titles_concat(ps.drop_first())
    }
}

/// What a whole image-url response becomes: for each unflagged record with
/// at least one image-info entry, its title paired with the first entry's
/// URL, in record order.
pub open spec fn parse_images_spec(rs: Seq<ImageRecordView>) -> Seq<ImageView>
    decreases rs.len(),
{
    if rs.len() == 0 {
        Seq::<ImageView>::empty()
    } else {
        let rest = parse_images_spec(rs.drop_first());
        let r = rs[0];
        if !r.missing && !r.invalid && r.imageinfo is Some && r.imageinfo.unwrap().len() > 0 {
            seq![ImageView { title: r.title.unwrap(), url: r.imageinfo.unwrap()[0] }] + rest
        } else {
            rest
        }
    }
}

impl ImageUrl {
    /// The `titles` parameter of an image-url request: a leading separator —
    /// so that the list is never empty, which would change the response
    /// shape — then every selected image title.
    pub fn make_titles(partials: &[PartialPage]) -> (r: String)
        ensures
            r@ == "|"@ + image_titles_concat(partial_views(partials@)),
    {
        let ghost ps = partial_views(partials@);
        let mut s = String::from_str("|");
        let mut i: usize = 0;
        proof {
            assert(ps.skip(0) =~= ps);
        }
        while i < partials.len()
            invariant
                i <= partials@.len(),
                ps == partial_views(partials@),
                ps.len() == partials@.len(),
                "|"@ + image_titles_concat(ps) == s@ + image_titles_concat(ps.skip(i as int)),
            decreases partials.len() - i,
        {
            let ghost done = s@;
            let ghost rest = ps.skip(i as int);
            proof {
                assert(rest[0] == ps[i as int]);
                assert(rest.drop_first() =~= ps.skip(i + 1));
                assert(ps[i as int] == partials@[i as int]@);
            }
            match &partials[i].image_title {
                Option::Some(t) => {
                    s.append(t.as_str());
                    s.append("|");
                    proof {
                        assert((done + ((rest[0].image_title.unwrap() + "|"@)
                            + image_titles_concat(ps.skip(i + 1)))) =~= ((done
                            + rest[0].image_title.unwrap() + "|"@) + image_titles_concat(
                            ps.skip(i + 1),
                        )));
                    }
                },
                Option::None => {
                    proof {
                        assert((done + (Seq::<char>::empty() + image_titles_concat(
                            ps.skip(i + 1),
                        ))) =~= (done + image_titles_concat(ps.skip(i + 1))));
                    }
                },
            }
            i = i + 1;
        }
        proof {
            assert(ps.skip(ps.len() as int) =~= Seq::<PartialView>::empty());
            assert(s@ + Seq::<char>::empty() =~= s@);
        }
        s
    }

    /// What a whole image-url response becomes; flagged records are dropped,
    /// and records without any image-info entry contribute nothing.
    pub fn parse_response(records: &Vec<ImageRecord>) -> (r: Result<Vec<ImageUrl>, WikiError>)
        requires
            forall|k: int|
                0 <= k < records@.len() ==> record_complete(#[trigger] records@[k]@),
        ensures
            r matches Ok(v) && image_views(v@) == parse_images_spec(
                records@.map_values(|x: ImageRecord| x@),
            ),
    {
        let ghost rs = records@.map_values(|x: ImageRecord| x@);
        let mut out: Vec<ImageUrl> = Vec::new();
        let mut i: usize = 0;
        proof {
            assert(rs.skip(0) =~= rs);
            assert(image_views(out@) =~= Seq::<ImageView>::empty());
            assert(Seq::<ImageView>::empty() + parse_images_spec(rs) =~= parse_images_spec(rs));
        }
        while i < records.len()
            invariant
                i <= records@.len(),
                rs == records@.map_values(|x: ImageRecord| x@),
                rs.len() == records@.len(),
                forall|k: int| 0 <= k < records@.len() ==> record_complete(#[trigger] records@[k]@),
                parse_images_spec(rs) == image_views(out@) + parse_images_spec(rs.skip(i as int)),
            decreases records.len() - i,
        {
            let ghost done = image_views(out@);
            proof {
                assert(rs.skip(i as int)[0] == rs[i as int]);
                assert(rs.skip(i as int).drop_first() =~= rs.skip(i + 1));
                assert(rs[i as int] == records@[i as int]@);
            }
            let rec = &records[i];
            if !rec.missing && !rec.invalid {
                let title: &String = match &rec.title {
                    Option::Some(t) => t,
                    Option::None => {
                        proof {
                            assert(record_complete(records@[i as int]@));
                            assert(false);
                        }
                        return Err(WikiError::StatusError(0));
                    },
                };
                let info: &Vec<String> = match &rec.imageinfo {
                    Option::Some(v) => v,
                    Option::None => {
                        proof {
                            assert(record_complete(records@[i as int]@));
                            assert(false);
                        }
                        return Err(WikiError::StatusError(0));
                    },
                };
                if info.len() != 0 {
                    let img = ImageUrl { title: title.clone(), url: info[0].clone() };
                    let ghost iv = img@;
                    out.push(img);
                    proof {
                        assert(image_views(out@) =~= done.push(iv));
                        assert((done + (seq![iv] + parse_images_spec(rs.skip(i + 1)))) =~= (
                        done.push(iv) + parse_images_spec(rs.skip(i + 1))));
                    }
                }
            }
            i = i + 1;
        }
        proof {
            assert(rs.skip(rs.len() as int) =~= Seq::<ImageRecordView>::empty());
            assert(image_views(out@) + Seq::<ImageView>::empty() =~= image_views(out@));
        }
        Ok(out)
    }
}

} // verus!
