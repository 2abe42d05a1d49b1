//! Video-link and Trello-card operations on the sidecar: caps, index
//! errors, the duplicate-card rule, the deprecated single-card URL
//! field, and legacy migration.

use baker::breadcrumbs::{BakerError, BreadcrumbsFile};
use baker::media::{TrelloCard, VideoLink};
use baker::trello::extract_trello_card_id;

fn base_sidecar() -> BreadcrumbsFile {
    BreadcrumbsFile {
        project_title: "Show".to_string(),
        number_of_cameras: 2,
        files: Vec::new(),
        parent_folder: "/media".to_string(),
        created_by: "Alice".to_string(),
        creation_date_time: "2024-01-01T00:00:00Z".to_string(),
        folder_size_bytes: None,
        last_modified: None,
        scanned_by: None,
        trello_card_url: None,
        video_links: None,
        trello_cards: None,
    }
}

fn video(n: usize) -> VideoLink {
    VideoLink {
        url: format!("https://example.test/videos/{}", n),
        sprout_video_id: None,
        title: format!("Video {}", n),
        thumbnail_url: None,
        upload_date: None,
        source_render_file: None,
    }
}

fn card(id: &str) -> TrelloCard {
    TrelloCard {
        url: format!("https://trello.com/c/{}/some-card", id),
        card_id: id.to_string(),
        title: format!("Card {}", id),
        board_name: None,
        last_fetched: None,
    }
}

#[test]
fn twentieth_video_succeeds_twenty_first_fails() {
    let mut b = base_sidecar();
    for n in 0..19 {
        assert!(b.associate_video_link(video(n), "t1").is_ok());
    }
    // The 20th video still fits...
    assert!(b.associate_video_link(video(19), "t2").is_ok());
    assert_eq!(b.video_links.as_ref().unwrap().len(), 20);
    // ...and the 21st is refused with the cap error.
    let err = b.associate_video_link(video(20), "t3").unwrap_err();
    assert_eq!(err, BakerError::VideoCapReached);
    assert_eq!(err.message(), "Maximum of 20 videos per project reached");
    assert_eq!(b.video_links.as_ref().unwrap().len(), 20);
}

#[test]
fn associate_video_updates_last_modified() {
    let mut b = base_sidecar();
    assert!(b.associate_video_link(video(1), "2024-02-02T10:00:00Z").is_ok());
    assert_eq!(b.last_modified.as_deref(), Some("2024-02-02T10:00:00Z"));
    assert_eq!(b.video_links.as_ref().unwrap().len(), 1);
}

#[test]
fn remove_video_out_of_bounds() {
    let mut b = base_sidecar();
    assert_eq!(b.remove_video_link(0, "t").unwrap_err(), BakerError::NoVideos);
    assert!(b.associate_video_link(video(1), "t").is_ok());
    let err = b.remove_video_link(1, "t").unwrap_err();
    assert_eq!(err, BakerError::VideoIndexOutOfBounds);
    assert_eq!(err.message(), "Video index out of bounds");
    assert!(b.remove_video_link(0, "t").is_ok());
    assert_eq!(b.video_links.as_ref().unwrap().len(), 0);
}

#[test]
fn update_and_reorder_video_links() {
    let mut b = base_sidecar();
    for n in 0..3 {
        assert!(b.associate_video_link(video(n), "t").is_ok());
    }
    let replacement = video(9);
    assert!(b.update_video_link(1, replacement, "t").is_ok());
    assert_eq!(b.video_links.as_ref().unwrap()[1].title, "Video 9");

    // Move the first link to the end; the relative order of the others
    // is kept.
    assert!(b.reorder_video_links(0, 2, "t").is_ok());
    let titles: Vec<&str> = b
        .video_links
        .as_ref()
        .unwrap()
        .iter()
        .map(|v| v.title.as_str())
        .collect();
    assert_eq!(titles, vec!["Video 9", "Video 2", "Video 0"]);

    let err = b.reorder_video_links(0, 3, "t").unwrap_err();
    assert_eq!(err, BakerError::ReorderIndexOutOfBounds);
    assert_eq!(err.message(), "Index out of bounds");
}

#[test]
fn tenth_card_succeeds_eleventh_fails() {
    let mut b = base_sidecar();
    for n in 0..10 {
        let id = format!("abcd{:04}", n);
        assert!(b.associate_trello_card(card(&id), "t").is_ok());
    }
    let err = b.associate_trello_card(card("abcdffff"), "t").unwrap_err();
    assert_eq!(err, BakerError::CardCapReached);
    assert_eq!(err.message(), "Maximum of 10 Trello cards per project reached");
}

#[test]
fn duplicate_card_is_refused() {
    let mut b = base_sidecar();
    assert!(b.associate_trello_card(card("abcd1234"), "t").is_ok());
    let err = b.associate_trello_card(card("abcd1234"), "t").unwrap_err();
    assert_eq!(err, BakerError::DuplicateCard);
    assert_eq!(
        err.message(),
        "This Trello card is already associated with the project"
    );
    assert_eq!(b.trello_cards.as_ref().unwrap().len(), 1);
}

#[test]
fn deprecated_url_mirrors_first_card() {
    let mut b = base_sidecar();
    assert!(b.associate_trello_card(card("abcd1111"), "t").is_ok());
    assert_eq!(
        b.trello_card_url.as_deref(),
        Some("https://trello.com/c/abcd1111/some-card")
    );
    assert!(b.associate_trello_card(card("abcd2222"), "t").is_ok());
    // Still the first card's URL.
    assert_eq!(
        b.trello_card_url.as_deref(),
        Some("https://trello.com/c/abcd1111/some-card")
    );
    // Removing the first card re-derives the field from the new first.
    assert!(b.remove_trello_card(0, "t").is_ok());
    assert_eq!(
        b.trello_card_url.as_deref(),
        Some("https://trello.com/c/abcd2222/some-card")
    );
}

#[test]
fn associate_then_remove_card_clears_deprecated_url() {
    let mut b = base_sidecar();
    assert!(b.associate_trello_card(card("abcd1234"), "t").is_ok());
    assert!(b.trello_card_url.is_some());
    assert!(b.remove_trello_card(0, "t").is_ok());
    // The deprecated singular field returns to absent.
    assert_eq!(b.trello_card_url, None);
}

#[test]
fn card_index_out_of_bounds() {
    let mut b = base_sidecar();
    assert_eq!(b.remove_trello_card(0, "t").unwrap_err(), BakerError::NoCards);
    assert!(b.associate_trello_card(card("abcd1234"), "t").is_ok());
    let err = b.remove_trello_card(5, "t").unwrap_err();
    assert_eq!(err, BakerError::CardIndexOutOfBounds);
    assert_eq!(err.message(), "Card index out of bounds");
}

#[test]
fn migration_synthesizes_card_from_legacy_url() {
    let mut b = base_sidecar();
    b.trello_card_url = Some("https://trello.com/c/a1B2c3D4e5/legacy-card".to_string());
    let cards = b.migrated_trello_cards();
    assert_eq!(cards.len(), 1);
    assert_eq!(cards[0].card_id, "a1B2c3D4e5");
    assert_eq!(cards[0].title, "Card a1B2c3D4e5");
    assert_eq!(cards[0].url, "https://trello.com/c/a1B2c3D4e5/legacy-card");
    assert_eq!(cards[0].board_name, None);
    assert_eq!(cards[0].last_fetched, None);
}

#[test]
fn migration_prefers_existing_card_list() {
    let mut b = base_sidecar();
    b.trello_card_url = Some("https://trello.com/c/a1B2c3D4e5/legacy-card".to_string());
    b.trello_cards = Some(vec![card("ffff0000")]);
    let cards = b.migrated_trello_cards();
    assert_eq!(cards.len(), 1);
    assert_eq!(cards[0].card_id, "ffff0000");
}

#[test]
fn migration_with_no_usable_url_yields_nothing() {
    let b = base_sidecar();
    assert_eq!(b.migrated_trello_cards().len(), 0);
    let mut b2 = base_sidecar();
    b2.trello_card_url = Some("https://example.test/not-a-card".to_string());
    assert_eq!(b2.migrated_trello_cards().len(), 0);
}

#[test]
fn extract_card_id_cases() {
    // A plain card URL.
    assert_eq!(
        extract_trello_card_id("https://trello.com/c/a1B2c3D4/title").as_deref(),
        Some("a1B2c3D4")
    );
    // The id is capped at 24 characters.
    assert_eq!(
        extract_trello_card_id("trello.com/c/abcdefghijklmnopqrstuvwxyz01")
            .as_deref(),
        Some("abcdefghijklmnopqrstuvwx")
    );
    // Fewer than 8 alphanumerics is no id.
    assert_eq!(extract_trello_card_id("trello.com/c/abc/x"), None);
    // No marker, no id.
    assert_eq!(extract_trello_card_id("https://example.test/c/abcdefgh"), None);
    // The leftmost candidate wins.
    assert_eq!(
        extract_trello_card_id("trello.com/c/short1 trello.com/c/longenough99")
            .as_deref(),
        Some("longenough99")
    );
}

#[test]
fn video_links_list_reads_back() {
    let mut b = base_sidecar();
    assert!(b.associate_video_link(video(3), "t").is_ok());
    let links = b.video_links_list();
    assert_eq!(links.len(), 1);
    assert_eq!(links[0].title, "Video 3");
    let empty = base_sidecar().video_links_list();
    assert_eq!(empty.len(), 0);
}
