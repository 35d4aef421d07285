//! The batched resolution pipeline: title lists, response parsing, image
//! selection, and the final join into pages.

use japari_librarian::batch::batch_spans;
use japari_librarian::friend::Friend;
use japari_librarian::image_url::{ImageRecord, ImageUrl};
use japari_librarian::page::Page;
use japari_librarian::partial_page::{Normalized, PageRecord, PartialPage};

#[test]
fn batch_zero_length_input_is_one_empty_window() {
    assert_eq!(batch_spans(0, 45), vec![(0, 0)]);
}

#[test]
fn batch_windows_tile_the_input() {
    assert_eq!(batch_spans(100, 45), vec![(0, 45), (45, 90), (90, 100)]);
    assert_eq!(batch_spans(90, 45), vec![(0, 45), (45, 90)]);
    assert_eq!(batch_spans(44, 45), vec![(0, 44)]);
    assert_eq!(batch_spans(45, 45), vec![(0, 45)]);
    assert_eq!(batch_spans(46, 45), vec![(0, 45), (45, 46)]);
}

#[test]
fn batch_concatenation_covers_every_element_once() {
    let input: Vec<u32> = (0..103).collect();
    let mut gathered: Vec<u32> = Vec::new();
    for (a, b) in batch_spans(input.len(), 10) {
        gathered.extend_from_slice(&input[a..b]);
    }
    assert_eq!(gathered, input);
}

#[test]
fn metadata_titles_lead_with_the_sentinel() {
    let friends = vec![Friend::new("serval/anime", 0), Friend::new("tanuki", 1)];
    assert_eq!(PartialPage::make_titles(&friends), "Serval|Serval/Anime|Tanuki|");
    assert_eq!(PartialPage::make_titles(&[]), "Serval|");
}

#[test]
fn aliases_are_the_pairs_normalizing_to_the_title() {
    let normalized = Some(vec![
        Normalized { from: String::from("serval cat"), to: String::from("Serval") },
        Normalized { from: String::from("tanuki"), to: String::from("Raccoon Dog") },
        Normalized { from: String::from("SERVAL"), to: String::from("Serval") },
    ]);
    assert_eq!(
        PartialPage::get_aliases("Serval", &normalized),
        vec![String::from("serval cat"), String::from("SERVAL")]
    );
    assert_eq!(PartialPage::get_aliases("Serval", &None), Vec::<String>::new());
}

#[test]
fn image_selection_prefers_original() {
    let images = Some(vec![String::from("x_original.jpg"), String::from("x.png")]);
    assert_eq!(PartialPage::select_image("x", &images), Some(String::from("x_original.jpg")));
}

#[test]
fn image_selection_takes_the_first_image_file() {
    let images = Some(vec![String::from("foo.png"), String::from("bar.gif")]);
    assert_eq!(PartialPage::select_image("Foo", &images), Some(String::from("foo.png")));
    assert_eq!(PartialPage::select_image("zzz", &images), Some(String::from("foo.png")));
}

#[test]
fn image_selection_title_never_overrides_the_first_match() {
    // the title check asks for a still-open choice, which recording the
    // first image file has always closed: a later title match loses
    let images = Some(vec![String::from("a.png"), String::from("e.jpg")]);
    assert_eq!(PartialPage::select_image("e", &images), Some(String::from("a.png")));
    let images = Some(vec![String::from("bar.gif"), String::from("foo.png")]);
    assert_eq!(PartialPage::select_image("Foo", &images), Some(String::from("bar.gif")));
}

#[test]
fn image_selection_ignores_other_files() {
    let images = Some(vec![String::from("readme.txt")]);
    assert_eq!(PartialPage::select_image("readme", &images), None);
    assert_eq!(PartialPage::select_image("x", &None), None);
}

#[test]
fn image_selection_is_case_insensitive() {
    let images = Some(vec![String::from("SERVAL_ORIGINAL.JPG")]);
    assert_eq!(
        PartialPage::select_image("serval", &images),
        Some(String::from("SERVAL_ORIGINAL.JPG"))
    );
}

fn record(title: &str, url: &str) -> PageRecord {
    PageRecord {
        title: Some(String::from(title)),
        images: None,
        url: Some(String::from(url)),
        missing: false,
        invalid: false,
    }
}

#[test]
fn parse_page_keeps_complete_records() {
    let page = PartialPage::parse_page(&record("Serval", "https://wiki/Serval"), &None).unwrap();
    assert_eq!(page.title, "Serval");
    assert_eq!(page.url, "https://wiki/Serval");
    assert!(page.aliases.is_empty());
    assert_eq!(page.image_title, None);
}

#[test]
fn parse_page_drops_flagged_or_incomplete_records() {
    let mut missing = record("Serval", "u");
    missing.missing = true;
    assert!(PartialPage::parse_page(&missing, &None).is_none());
    let mut invalid = record("Serval", "u");
    invalid.invalid = true;
    assert!(PartialPage::parse_page(&invalid, &None).is_none());
    let mut untitled = record("Serval", "u");
    untitled.title = None;
    assert!(PartialPage::parse_page(&untitled, &None).is_none());
    let mut unlinked = record("Serval", "u");
    unlinked.url = None;
    assert!(PartialPage::parse_page(&unlinked, &None).is_none());
}

#[test]
fn parse_response_keeps_record_order() {
    let mut bad = record("Gone", "u");
    bad.missing = true;
    let records = vec![record("A", "ua"), bad, record("B", "ub")];
    let pages = PartialPage::parse_response(&records, &None);
    assert_eq!(pages.len(), 2);
    assert_eq!(pages[0].title, "A");
    assert_eq!(pages[1].title, "B");
}

#[test]
fn parse_page_selects_image_and_aliases() {
    let mut rec = record("Serval", "u");
    rec.images = Some(vec![String::from("notes.txt"), String::from("Serval_original.png")]);
    let normalized = Some(vec![Normalized {
        from: String::from("serval"),
        to: String::from("Serval"),
    }]);
    let page = PartialPage::parse_page(&rec, &normalized).unwrap();
    assert_eq!(page.image_title, Some(String::from("Serval_original.png")));
    assert_eq!(page.aliases, vec![String::from("serval")]);
}

fn partial(title: &str, url: &str, image_title: Option<&str>) -> PartialPage {
    PartialPage {
        title: String::from(title),
        aliases: Vec::new(),
        url: String::from(url),
        image_title: image_title.map(String::from),
    }
}

#[test]
fn image_titles_lead_with_a_separator() {
    let partials = vec![
        partial("A", "ua", Some("a.png")),
        partial("B", "ub", None),
        partial("C", "uc", Some("c.jpg")),
    ];
    assert_eq!(ImageUrl::make_titles(&partials), "|a.png|c.jpg|");
    assert_eq!(ImageUrl::make_titles(&[]), "|");
}

#[test]
fn image_response_takes_the_first_info_url() {
    let records = vec![
        ImageRecord {
            title: Some(String::from("a.png")),
            imageinfo: Some(vec![String::from("https://img/a"), String::from("https://img/a2")]),
            missing: false,
            invalid: false,
        },
        ImageRecord { title: None, imageinfo: None, missing: true, invalid: false },
        ImageRecord {
            title: Some(String::from("empty.png")),
            imageinfo: Some(Vec::new()),
            missing: false,
            invalid: false,
        },
    ];
    let images = ImageUrl::parse_response(&records).unwrap();
    assert_eq!(images.len(), 1);
    assert_eq!(images[0].title, "a.png");
    assert_eq!(images[0].url, "https://img/a");
}

#[test]
fn alias_join_links_title_and_alias_only() {
    let friends = vec![
        Friend::new("\\A", 1),
        Friend::new("\\B", 2),
        Friend::new("\\C", 3),
    ];
    let mut page = partial("B", "ub", None);
    page.aliases = vec![String::from("A")];
    let pages = Page::make(vec![page], &[], &friends);
    assert_eq!(pages.len(), 1);
    assert_eq!(pages[0].friends, vec![1, 2]);
}

#[test]
fn make_joins_images_by_selected_title() {
    let partials = vec![
        partial("A", "ua", Some("a.png")),
        partial("B", "ub", Some("lost.png")),
        partial("C", "uc", None),
    ];
    let images = vec![ImageUrl { title: String::from("a.png"), url: String::from("https://img/a") }];
    let pages = Page::make(partials, &images, &[]);
    assert_eq!(pages[0].image, Some(String::from("https://img/a")));
    assert_eq!(pages[1].image, None);
    assert_eq!(pages[2].image, None);
    assert_eq!(pages[0].title, "A");
    assert_eq!(pages[0].url, "ua");
    assert!(pages[0].friends.is_empty());
}
