//! Writing a sidecar and reading it back: field-for-field equality, and
//! the parser's treatment of whitespace, member order, unknown members,
//! nulls and malformed documents.

use baker::breadcrumbs::{BreadcrumbsFile, FileInfo};
use baker::codec::{parse_breadcrumbs, serialize_breadcrumbs};
use baker::media::{TrelloCard, VideoLink};

fn full_sidecar() -> BreadcrumbsFile {
    BreadcrumbsFile {
        project_title: "Big \"Show\" \\ Pilot".to_string(),
        number_of_cameras: 2,
        files: vec![
            FileInfo {
                camera: 1,
                name: "a.mov".to_string(),
                path: "Footage/Camera 1/a.mov".to_string(),
            },
            FileInfo {
                camera: 2,
                name: "b.mov".to_string(),
                path: "Footage/Camera 2/b.mov".to_string(),
            },
        ],
        parent_folder: "/media/projects".to_string(),
        created_by: "Alice".to_string(),
        creation_date_time: "2024-01-01T00:00:00Z".to_string(),
        folder_size_bytes: Some(123456),
        last_modified: Some("2024-02-02T00:00:00Z".to_string()),
        scanned_by: Some("Baker".to_string()),
        trello_card_url: Some("https://trello.com/c/abcd1234/x".to_string()),
        video_links: Some(vec![VideoLink {
            url: "https://example.test/videos/1".to_string(),
            sprout_video_id: Some("abc123".to_string()),
            title: "Rough cut\twith tab".to_string(),
            thumbnail_url: None,
            upload_date: Some("2024-03-03T00:00:00Z".to_string()),
            source_render_file: None,
        }]),
        trello_cards: Some(vec![TrelloCard {
            url: "https://trello.com/c/abcd1234/x".to_string(),
            card_id: "abcd1234".to_string(),
            title: "Pilot".to_string(),
            board_name: Some("Production".to_string()),
            last_fetched: None,
        }]),
    }
}

#[test]
fn round_trip_full_sidecar() {
    let b = full_sidecar();
    let text = serialize_breadcrumbs(&b);
    let back = parse_breadcrumbs(&text).expect("written sidecar must parse");
    assert_eq!(back, b);
}

#[test]
fn round_trip_minimal_sidecar() {
    let b = BreadcrumbsFile {
        project_title: "P".to_string(),
        number_of_cameras: 0,
        files: Vec::new(),
        parent_folder: "".to_string(),
        created_by: "x".to_string(),
        creation_date_time: "t".to_string(),
        folder_size_bytes: None,
        last_modified: None,
        scanned_by: None,
        trello_card_url: None,
        video_links: None,
        trello_cards: None,
    };
    let text = serialize_breadcrumbs(&b);
    // Absent list fields are omitted entirely.
    assert!(!text.contains("videoLinks"));
    assert!(!text.contains("trelloCards"));
    // The other optional fields are written as null, each member on its
    // own indented line.
    assert!(text.contains("\n  \"folderSizeBytes\": null"));
    let back = parse_breadcrumbs(&text).expect("written sidecar must parse");
    assert_eq!(back, b);
}

#[test]
fn round_trip_checked_twice() {
    let b = full_sidecar();
    let text = serialize_breadcrumbs(&b);
    let once = parse_breadcrumbs(&text).unwrap();
    let text2 = serialize_breadcrumbs(&once);
    let twice = parse_breadcrumbs(&text2).unwrap();
    assert_eq!(text, text2);
    assert_eq!(twice, b);
}

#[test]
fn parser_accepts_whitespace_and_any_member_order() {
    let text = "\n{\n  \"numberOfCameras\": 1,\n  \"files\": [ { \"path\": \"Footage/Camera 1/a.mov\", \"camera\": 1, \"name\": \"a.mov\" } ],\n  \"projectTitle\": \"X\",\n  \"parentFolder\": \"/p\",\n  \"createdBy\": \"Alice\",\n  \"creationDateTime\": \"t\",\n  \"folderSizeBytes\": 42,\n  \"lastModified\": null,\n  \"scannedBy\": null,\n  \"trelloCardUrl\": null\n}\n";
    let b = parse_breadcrumbs(text).expect("orderly document must parse");
    assert_eq!(b.project_title, "X");
    assert_eq!(b.number_of_cameras, 1);
    assert_eq!(b.files.len(), 1);
    assert_eq!(b.files[0].camera, 1);
    assert_eq!(b.files[0].name, "a.mov");
    assert_eq!(b.folder_size_bytes, Some(42));
    assert_eq!(b.last_modified, None);
    assert_eq!(b.video_links, None);
    assert_eq!(b.trello_cards, None);
}

#[test]
fn parser_ignores_unknown_members() {
    let text = "{\"projectTitle\":\"X\",\"numberOfCameras\":1,\"files\":[],\"parentFolder\":\"/p\",\"createdBy\":\"A\",\"creationDateTime\":\"t\",\"folderSizeBytes\":null,\"lastModified\":null,\"scannedBy\":null,\"trelloCardUrl\":null,\"somethingNew\":true}";
    let b = parse_breadcrumbs(text).expect("unknown members are ignored");
    assert_eq!(b.project_title, "X");
}

#[test]
fn parser_rejects_malformed_documents() {
    // Not JSON at all.
    assert!(parse_breadcrumbs("not json").is_none());
    // Truncated document.
    assert!(parse_breadcrumbs("{\"projectTitle\":\"X\"").is_none());
    // A required member is missing.
    assert!(parse_breadcrumbs("{\"projectTitle\":\"X\"}").is_none());
    // A required member has the wrong type.
    let wrong = "{\"projectTitle\":7,\"numberOfCameras\":1,\"files\":[],\"parentFolder\":\"/p\",\"createdBy\":\"A\",\"creationDateTime\":\"t\",\"folderSizeBytes\":null,\"lastModified\":null,\"scannedBy\":null,\"trelloCardUrl\":null}";
    assert!(parse_breadcrumbs(wrong).is_none());
    // Trailing content after the document.
    let text = serialize_breadcrumbs(&full_sidecar());
    let with_junk = format!("{} junk", text);
    assert!(parse_breadcrumbs(&with_junk).is_none());
    // Trailing whitespace is fine.
    let with_ws = format!("{}\n\n", text);
    assert!(parse_breadcrumbs(&with_ws).is_some());
}

#[test]
fn escapes_round_trip() {
    let mut b = full_sidecar();
    b.project_title = "line\nbreak \"quote\" back\\slash tab\t end".to_string();
    b.created_by = "control\u{1}char".to_string();
    let text = serialize_breadcrumbs(&b);
    let back = parse_breadcrumbs(&text).expect("escaped sidecar must parse");
    assert_eq!(back, b);
}

#[test]
fn negative_and_large_numbers() {
    let mut b = full_sidecar();
    b.number_of_cameras = -5;
    b.folder_size_bytes = Some(u64::MAX);
    let text = serialize_breadcrumbs(&b);
    let back = parse_breadcrumbs(&text).unwrap();
    assert_eq!(back.number_of_cameras, -5);
    assert_eq!(back.folder_size_bytes, Some(u64::MAX));
}

#[test]
fn parser_rejects_fractions_and_exponents() {
    // The sidecar schema has no fractional numbers; a document carrying
    // one is malformed.
    let with_float = "{\"projectTitle\":\"X\",\"numberOfCameras\":1,\"files\":[],\"parentFolder\":\"/p\",\"createdBy\":\"A\",\"creationDateTime\":\"t\",\"folderSizeBytes\":1.5,\"lastModified\":null,\"scannedBy\":null,\"trelloCardUrl\":null}";
    assert!(parse_breadcrumbs(with_float).is_none());
    let with_exp = with_float.replace("1.5", "2e3");
    assert!(parse_breadcrumbs(&with_exp).is_none());
}

#[test]
fn parser_rejects_numbers_beyond_sixty_four_bits() {
    let too_big = "{\"projectTitle\":\"X\",\"numberOfCameras\":1,\"files\":[],\"parentFolder\":\"/p\",\"createdBy\":\"A\",\"creationDateTime\":\"t\",\"folderSizeBytes\":99999999999999999999999,\"lastModified\":null,\"scannedBy\":null,\"trelloCardUrl\":null}";
    assert!(parse_breadcrumbs(too_big).is_none());
}

#[test]
fn parser_rejects_out_of_range_camera_counts() {
    // numberOfCameras must fit 32 bits.
    let too_big = "{\"projectTitle\":\"X\",\"numberOfCameras\":3000000000,\"files\":[],\"parentFolder\":\"/p\",\"createdBy\":\"A\",\"creationDateTime\":\"t\",\"folderSizeBytes\":null,\"lastModified\":null,\"scannedBy\":null,\"trelloCardUrl\":null}";
    assert!(parse_breadcrumbs(too_big).is_none());
    let negative_size = too_big.replace("3000000000", "2").replace(
        "\"folderSizeBytes\":null",
        "\"folderSizeBytes\":-7",
    );
    assert!(parse_breadcrumbs(&negative_size).is_none());
}

#[test]
fn unicode_escapes_cover_the_basic_plane() {
    // A third-party-edited sidecar may escape any non-surrogate code
    // point a four-digit escape can name.
    let base = "{\"projectTitle\":\"T\",\"numberOfCameras\":1,\"files\":[],\"parentFolder\":\"/p\",\"createdBy\":\"A\",\"creationDateTime\":\"t\",\"folderSizeBytes\":null,\"lastModified\":null,\"scannedBy\":null,\"trelloCardUrl\":null}";
    let accented = base.replace("\"T\"", "\"caf\\u00e9\"");
    assert_eq!(
        parse_breadcrumbs(&accented).unwrap().project_title,
        "caf\u{e9}"
    );
    let cjk = base.replace("\"T\"", "\"\\u4e2d\\u6587\"");
    assert_eq!(parse_breadcrumbs(&cjk).unwrap().project_title, "\u{4e2d}\u{6587}");
    // A lone surrogate names no character; the document is malformed.
    let surrogate = base.replace("\"T\"", "\"\\ud800\"");
    assert!(parse_breadcrumbs(&surrogate).is_none());
}
