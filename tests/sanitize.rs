use translation_relay::asset::clean_asset_path;
use translation_relay::sanitize::sanitize;

#[test]
fn reasoning_block_is_removed_and_trimmed() {
    let out = sanitize("<think>\nweighing the terms\n</think>\n\n  Hello world  ");
    assert_eq!(out, "Hello world");
}

#[test]
fn reasoning_block_in_the_middle_is_removed() {
    assert_eq!(sanitize("Bon<think> a b </think>jour"), "Bonjour");
}

#[test]
fn every_reasoning_block_is_removed() {
    assert_eq!(sanitize("<think>x</think>A<think>\ny\n</think>B"), "AB");
}

#[test]
fn block_without_closing_marker_is_kept() {
    assert_eq!(sanitize("<think> still thinking"), "<think> still thinking");
}

#[test]
fn plain_text_is_only_trimmed() {
    assert_eq!(sanitize("  \t Hello, world \n"), "Hello, world");
    assert_eq!(sanitize("Hello"), "Hello");
}

#[test]
fn unicode_white_space_is_trimmed() {
    assert_eq!(sanitize("\u{3000}\u{a0}你好\u{2003}"), "你好");
}

#[test]
fn trailing_think_suffix_is_removed() {
    assert_eq!(sanitize("Hello /think"), "Hello");
    assert_eq!(sanitize("Hello /no_think /think  "), "Hello");
}

#[test]
fn think_token_in_the_middle_is_kept() {
    assert_eq!(sanitize("a /think b"), "a /think b");
}

#[test]
fn empty_and_blank_fragments_sanitize_to_empty() {
    assert_eq!(sanitize(""), "");
    assert_eq!(sanitize("   \n "), "");
    assert_eq!(sanitize("<think>only reasoning</think>"), "");
}

#[test]
fn asset_prefix_is_removed_from_paths() {
    assert_eq!(clean_asset_path("asset://localhost/home/u/doc.pdf"), "home/u/doc.pdf");
    assert_eq!(clean_asset_path("/home/u/doc.pdf"), "/home/u/doc.pdf");
    assert_eq!(clean_asset_path(""), "");
}
