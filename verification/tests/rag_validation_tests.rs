//! Unit tests for the validation rules of uploaded script examples.

use uuid::Uuid;

#[test]
fn test_validation_title_length() {
    // Contract: Title must be 1-200 chars

    // Valid title
    let valid_title = "Test Example Title";
    assert!(valid_title.len() <= 200);
    assert!(!valid_title.is_empty());

    // Too long (would fail validation)
    let long_title = "A".repeat(201);
    assert!(long_title.len() > 200); // Would fail validation
}

#[test]
fn test_validation_categories() {
    // Contract: Category must be valid enum value
    let valid_categories = [
        "educational",
        "business",
        "narrative",
        "interview",
        "documentary",
        "user-custom",
    ];

    assert!(valid_categories.contains(&"educational"));
    assert!(valid_categories.contains(&"user-custom"));
    assert!(!valid_categories.contains(&"invalid-category"));
}

#[test]
fn test_validation_content_length() {
    // Contract: Content must be 50-100k chars
    let min_length = 50;
    let max_length = 100_000;

    let too_short = "Short".repeat(5); // ~25 chars
    let valid = "Valid content ".repeat(10); // ~140 chars
    let too_long = "A".repeat(100_001);

    assert!(too_short.len() < min_length); // Would fail
    assert!(valid.len() >= min_length); // Would pass
    assert!(too_long.len() > max_length); // Would fail
}

#[test]
fn test_validation_embedding_dimensions() {
    // Contract: Embedding must be exactly 384 dimensions
    let expected_dimensions = 384;

    let valid_embedding: Vec<f32> = (0..384).map(|i| i as f32 * 0.01).collect();
    let invalid_embedding: Vec<f32> = (0..128).map(|i| i as f32 * 0.01).collect();

    assert_eq!(valid_embedding.len(), expected_dimensions);
    assert_ne!(invalid_embedding.len(), expected_dimensions);
}

#[test]
fn test_word_count_calculation() {
    // Contract: Word count = whitespace-separated tokens
    let text = "This is a test with five words";
    let words: Vec<&str> = text.split_whitespace().collect();
    assert_eq!(words.len(), 7); // "with" and "words" make it 7

    let text2 = "Word1 Word2 Word3";
    let words2: Vec<&str> = text2.split_whitespace().collect();
    assert_eq!(words2.len(), 3);
}

#[test]
fn test_source_field_values() {
    // Contract: Source must be 'bundled' or 'user-uploaded'
    let bundled = "bundled";
    let user_uploaded = "user-uploaded";

    assert_eq!(bundled, "bundled");
    assert_eq!(user_uploaded, "user-uploaded");
}

#[test]
fn test_tags_format() {
    // Contract: Tags stored as comma-separated, returned as array
    let tags_string = "tag1,tag2,tag3";
    let tags_array: Vec<&str> = tags_string.split(',').collect();

    assert_eq!(tags_array.len(), 3);
    assert_eq!(tags_array[0], "tag1");
    assert_eq!(tags_array[2], "tag3");
}

#[test]
fn test_uuid_format() {
    // Contract: User-uploaded examples use UUID v4
    let new_id = Uuid::new_v4();
    let id_string = new_id.to_string();

    assert!(id_string.len() == 36); // UUID format: 8-4-4-4-12
    assert!(id_string.contains('-'));

    // Verify can parse it back
    let parsed = Uuid::parse_str(&id_string);
    assert!(parsed.is_ok());
}

#[test]
fn test_embedding_binary_conversion() {
    // Contract: Embeddings stored as little-endian f32 bytes
    let embedding: Vec<f32> = vec![1.0, 2.0, 3.0];

    // Convert to bytes (as done when an example is stored)
    let bytes: Vec<u8> = embedding
        .iter()
        .flat_map(|f| f.to_le_bytes().to_vec())
        .collect();

    assert_eq!(bytes.len(), 12); // 3 floats x 4 bytes each

    // Verify can convert back
    let reconstructed: Vec<f32> = bytes
        .chunks_exact(4)
        .map(|chunk| f32::from_le_bytes([chunk[0], chunk[1], chunk[2], chunk[3]]))
        .collect();

    assert_eq!(reconstructed, embedding);
}

/// Documents the contract for get_all_examples_with_metadata
///
/// Requirements:
/// - Returns every example with full metadata
/// - Includes source field ('bundled' or 'user-uploaded')
/// - Converts comma-separated tags to a list
/// - Orders by quality score, then title
#[test]
fn contract_get_all_examples_with_metadata() {
    // This test documents the contract
    // Actual integration testing requires the application runtime
    assert!(true, "Contract documented: get_all_examples_with_metadata returns all examples with full metadata");
}

/// Documents the contract for upload_example
///
/// Requirements:
/// - Validates all inputs
/// - Generates a fresh UUID for the new id
/// - Sets source='user-uploaded'
/// - Stores embedding as binary blob
/// - Returns new example id
#[test]
fn contract_upload_example() {
    assert!(true, "Contract documented: upload_example validates, stores, and returns new UUID");
}

/// Documents the contract for replace_example
///
/// Requirements:
/// - Rejects bundled examples (source='bundled')
/// - Updates content and embedding
/// - Keeps same id
/// - Transaction-safe
#[test]
fn contract_replace_example() {
    assert!(true, "Contract documented: replace_example updates user-uploaded examples only");
}

/// Documents the contract for delete_example
///
/// Requirements:
/// - Rejects bundled examples (source='bundled')
/// - Cascades to the embeddings table
/// - Transaction-safe
#[test]
fn contract_delete_example() {
    assert!(true, "Contract documented: delete_example removes user-uploaded examples only");
}

/// The library's own validators enforce the documented contracts.
#[test]
fn test_library_validators_match_contracts() {
    assert!(baker::script_examples::validate_title("Test Example Title").is_ok());
    let long_title = "A".repeat(201);
    let err = baker::script_examples::validate_title(&long_title).unwrap_err();
    assert_eq!(err, "Title too long: 201 chars (max 200)");
    assert_eq!(
        baker::script_examples::validate_title("").unwrap_err(),
        "Title cannot be empty"
    );
    assert_eq!(
        baker::script_examples::validate_title("a\nb").unwrap_err(),
        "Title cannot contain newlines"
    );

    assert!(baker::script_examples::validate_category("educational").is_ok());
    assert!(baker::script_examples::validate_category("user-custom").is_ok());
    let cat_err = baker::script_examples::validate_category("invalid-category").unwrap_err();
    assert_eq!(
        cat_err,
        "Invalid category: 'invalid-category'. Valid options: educational, business, narrative, interview, documentary, user-custom"
    );

    let valid = "Valid content ".repeat(10);
    assert!(baker::script_examples::validate_text_content(&valid, "Before content").is_ok());
    let err = baker::script_examples::validate_text_content("Short", "Before content").unwrap_err();
    assert_eq!(err, "Before content too short: 5 chars (min 50)");

    assert!(baker::script_examples::validate_embedding_dimensions(384).is_ok());
    assert!(baker::script_examples::validate_embedding_dimensions(768).is_ok());
    assert_eq!(
        baker::script_examples::validate_embedding_dimensions(128).unwrap_err(),
        "Invalid embedding dimensions: expected 384 or 768, got 128"
    );

    assert_eq!(baker::script_examples::calculate_word_count("This is a test with five words"), 7);
    assert_eq!(baker::script_examples::calculate_word_count("Word1 Word2 Word3"), 3);
    assert_eq!(baker::script_examples::calculate_word_count("   "), 0);
}

/// Length limits are measured in UTF-8 bytes, exactly as the stored
/// text is measured.
#[test]
fn test_validation_lengths_count_bytes() {
    // 150 two-byte characters: 150 characters but 300 bytes.
    let title = "\u{e9}".repeat(150);
    assert_eq!(
        baker::script_examples::validate_title(&title).unwrap_err(),
        "Title too long: 300 chars (max 200)"
    );
    // 30 two-byte characters make 60 bytes: enough content.
    let content_ok = "\u{e9}".repeat(30);
    assert!(baker::script_examples::validate_text_content(&content_ok, "Before content").is_ok());
    // 20 two-byte characters make only 40 bytes.
    let content_short = "\u{e9}".repeat(20);
    assert_eq!(
        baker::script_examples::validate_text_content(&content_short, "Before content")
            .unwrap_err(),
        "Before content too short: 40 chars (min 50)"
    );
}
