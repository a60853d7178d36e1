use minuet::preview::Preview;
use unicode_segmentation::UnicodeSegmentation;

#[test]
fn burst_is_paced_and_failure_can_take_every_received_character() {
    let now: u64 = 1_000_000;
    let text = "中文👩‍💻e\u{301}".repeat(100);
    let mut preview = Preview::new();
    preview.push(&text, now);
    assert!(!preview.advance(now + 39));
    assert!(preview.advance(now + 40));
    let first = preview.visible().to_owned();
    assert!(!first.is_empty());
    assert!(first.len() < text.len());
    assert!(text.grapheme_indices(true).any(|(i, _)| i == first.len()));
    assert!(!preview.advance(now + 40));
    assert!(preview.advance(now + 80));
    assert!(preview.visible().len() > first.len());
    assert_eq!(preview.take(), text);
    assert!(preview.visible().is_empty());
    assert!(!preview.advance(now + 1000));
}

#[test]
fn split_clusters_remain_whole_and_clear_discards_pending_animation() {
    let now: u64 = 1_000_000;
    let mut preview = Preview::new();
    preview.push("Ae", now);
    preview.advance(now + 40);
    assert_eq!(preview.visible(), "A");
    preview.push("\u{301}👩", now);
    preview.advance(now + 80);
    assert_eq!(preview.visible(), "Ae\u{301}");
    preview.push("\u{200d}💻!", now);
    preview.advance(now + 120);
    assert_eq!(preview.visible(), "Ae\u{301}👩‍💻");
    preview.clear();
    preview.push("next", now + 1000);
    assert!(!preview.advance(now + 1000));
    assert!(preview.visible().is_empty());
}
