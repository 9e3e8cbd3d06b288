use raggust::parse::{extract_text, inner_texts_of, metadata_value, MetadataItem, Novel};

fn item(property: &str, value: &str) -> MetadataItem {
    MetadataItem { property: property.to_string(), value: value.to_string() }
}

#[test]
fn metadata_value_takes_the_first_match() {
    let items = vec![
        item("language", "en"),
        item("title", "The Silent Patient"),
        item("title", "Second Title"),
    ];
    assert_eq!(metadata_value(&items, "title").as_deref(), Some("The Silent Patient"));
    assert_eq!(metadata_value(&items, "language").as_deref(), Some("en"));
    assert_eq!(metadata_value(&items, "creator"), None);
    assert_eq!(metadata_value(&items, "titl"), None);
    assert_eq!(metadata_value(&[], "title"), None);
}

#[test]
fn novel_open_reads_title_and_creator() {
    let items = vec![
        item("creator", "Alex Michaelides"),
        item("title", "The Silent Patient"),
        item("creator", "Someone Else"),
    ];
    let novel = Novel::open(&items);
    assert_eq!(novel.title(), "The Silent Patient");
    assert_eq!(novel.author(), "Alex Michaelides");
}

#[test]
fn extract_text_selects_the_chapter_paragraphs() {
    let html = r#"<html><body>
        <p class="text-standard-tx">First paragraph.</p>
        <p class="other">Skipped.</p>
        <div><p class="text-standard-tx">Second <i>one</i>.</p></div>
    </body></html>"#;
    let (paragraphs, text) = extract_text(html);
    assert_eq!(
        paragraphs,
        Some(vec!["First paragraph.".to_string(), "Second one.".to_string()])
    );
    assert_eq!(text, "return shit");
}

#[test]
fn extract_text_without_paragraphs() {
    let (paragraphs, text) = extract_text("<p>plain</p>");
    assert_eq!(paragraphs, Some(vec![]));
    assert_eq!(text, "return shit");
}

#[test]
fn inner_texts_of_refuses_a_bad_selector() {
    assert_eq!(inner_texts_of("<p>x</p>", ""), None);
    assert_eq!(inner_texts_of("<b>bold</b><b>again</b>", "b"), Some(vec!["bold".to_string(), "again".to_string()]));
}
