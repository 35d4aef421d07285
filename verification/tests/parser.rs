//! The mention parser: name formatting, media classification, and the scan.

use japari_librarian::friend::{Friend, Media};

#[test]
fn fmt_name_capitalizes_words() {
    assert_eq!(Friend::fmt_name("tanuki"), "Tanuki");
    assert_eq!(Friend::fmt_name("ALL CAPS NAME"), "All Caps Name");
    assert_eq!(Friend::fmt_name("a"), "A");
    assert_eq!(Friend::fmt_name("AB"), "Ab");
}

#[test]
fn fmt_name_apostrophe_does_not_start_a_word() {
    assert_eq!(Friend::fmt_name("rothschild's giraffe"), "Rothschild's Giraffe");
}

#[test]
fn fmt_name_other_characters_start_words() {
    assert_eq!(Friend::fmt_name("grey-headed lovebird"), "Grey-Headed Lovebird");
}

#[test]
fn fmt_name_idempotent_on_examples() {
    let once = Friend::fmt_name("rothschild's giraffe");
    let twice = Friend::fmt_name(&once);
    assert_eq!(once, twice);
    let once = Friend::fmt_name("common RACCOON dog");
    let twice = Friend::fmt_name(&once);
    assert_eq!(once, twice);
}

#[test]
fn media_classification() {
    assert_eq!(Media::new("anime"), Media::Anime);
    assert_eq!(Media::new("Season 1"), Media::Anime);
    assert_eq!(Media::new("season 2"), Media::Season2);
    assert_eq!(Media::new(" MANGA "), Media::Manga);
    assert_eq!(Media::new("festival"), Media::Festival);
    assert_eq!(Media::new("pavilion"), Media::Pavilion);
    assert_eq!(Media::new("Kemono Friends 3"), Media::KF3);
    assert_eq!(Media::new("kf3"), Media::KF3);
    assert_eq!(Media::new("nexon game"), Media::Nexon);
    assert_eq!(Media::new("stage play"), Media::Stage);
    assert_eq!(Media::new("stage"), Media::Stage);
    assert_eq!(Media::new("somewhere else"), Media::NoMedia);
    assert_eq!(Media::new(""), Media::NoMedia);
}

#[test]
fn media_suffixes() {
    assert_eq!(Media::NoMedia.wiki_suffix(), "");
    assert_eq!(Media::Anime.wiki_suffix(), "/Anime");
    assert_eq!(Media::Season2.wiki_suffix(), "/Season_2");
    assert_eq!(Media::Nexon.wiki_suffix(), "/Nexon Game");
    assert_eq!(Media::Stage.wiki_suffix(), "/Stage Play");
}

#[test]
fn new_formats_and_classifies() {
    let f = Friend::new("serval/anime", 7);
    assert_eq!(f.name, "Serval");
    assert_eq!(f.media, Media::Anime);
    assert_eq!(f.title, "Serval/Anime");
    assert_eq!(f.id, 7);
}

#[test]
fn new_trims_the_name() {
    let f = Friend::new("  tanuki  ", 0);
    assert_eq!(f.name, "Tanuki");
    assert_eq!(f.title, "Tanuki");
    assert_eq!(f.media, Media::NoMedia);
}

#[test]
fn new_escape_marker_is_verbatim() {
    let f = Friend::new("\\weird/Name", 3);
    assert_eq!(f.name, "weird/Name");
    assert_eq!(f.title, "weird/Name");
    assert_eq!(f.media, Media::NoMedia);
    assert_eq!(f.id, 3);
}

#[test]
fn new_unknown_media_contributes_no_suffix() {
    let f = Friend::new("serval/opera", 0);
    assert_eq!(f.name, "Serval");
    assert_eq!(f.media, Media::NoMedia);
    assert_eq!(f.title, "Serval");
}

#[test]
fn find_none_without_mention() {
    assert!(Friend::find("no mention here", "bot", 0).is_none());
    assert!(Friend::find("", "bot", 0).is_none());
    assert!(Friend::find("/u/somebody \"serval\"", "bot", 0).is_none());
}

#[test]
fn find_empty_when_no_quotes_follow() {
    let found = Friend::find("/u/bot hello", "bot", 0).unwrap();
    assert!(found.is_empty());
}

#[test]
fn find_two_quoted_entities() {
    let found = Friend::find("/u/bot \"tanuki\" \"serval/anime\"", "bot", 0).unwrap();
    assert_eq!(found.len(), 2);
    assert_eq!(found[0].name, "Tanuki");
    assert_eq!(found[0].media, Media::NoMedia);
    assert_eq!(found[0].title, "Tanuki");
    assert_eq!(found[0].id, 0);
    assert_eq!(found[1].name, "Serval");
    assert_eq!(found[1].media, Media::Anime);
    assert_eq!(found[1].title, "Serval/Anime");
    assert_eq!(found[1].id, 1);
}

#[test]
fn find_numbers_from_the_given_identifier() {
    let found = Friend::find("/u/bot \"a\" \"b\"", "bot", 10).unwrap();
    assert_eq!(found[0].id, 10);
    assert_eq!(found[1].id, 11);
}

#[test]
fn find_honors_only_the_first_mention() {
    let found = Friend::find("/u/bot x /u/bot \"serval\"", "bot", 0).unwrap();
    assert!(found.is_empty());
}

#[test]
fn find_longer_handle_does_not_match() {
    assert!(Friend::find("/u/botx \"serval\"", "bot", 0).is_none());
}

#[test]
fn find_loses_one_character_after_a_mismatch() {
    // the scanner consumes the character that ended a failed match, so a
    // mention immediately after a slash is never seen
    assert!(Friend::find("//u/bot \"serval\"", "bot", 0).is_none());
}

#[test]
fn find_unterminated_quote_collects_to_the_end() {
    let found = Friend::find("/u/bot \"serval", "bot", 0).unwrap();
    assert_eq!(found.len(), 1);
    assert_eq!(found[0].name, "Serval");
}

#[test]
fn find_stops_at_first_unquoted_text() {
    let found = Friend::find("/u/bot \"a\" stop \"b\"", "bot", 0).unwrap();
    assert_eq!(found.len(), 1);
    assert_eq!(found[0].name, "A");
}
