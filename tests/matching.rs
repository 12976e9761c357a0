use image_relay::matcher::{
    calculate_match_score, file_extension, file_stem, find_local_image, find_matching_images,
    handle_normal_filename, handle_short_filename, process_file, AssetFile,
};
use image_relay::normalize::{normalize_text, tidy_text};

fn file(path: &str, name: &str) -> AssetFile {
    AssetFile::new(path.to_string(), name.to_string())
}

fn corpus(entries: &[(&str, &str)]) -> Vec<AssetFile> {
    entries.iter().map(|(p, n)| file(p, n)).collect()
}

#[test]
fn normalize_lowercases_drops_punctuation_and_collapses_spaces() {
    assert_eq!(normalize_text("  Hello,   World!! "), "hello world");
    assert_eq!(normalize_text("Cat.JPG"), "catjpg");
    assert_eq!(normalize_text("a\t\tb\nc"), "a b c");
    assert_eq!(normalize_text(""), "");
    assert_eq!(normalize_text("?!..,"), "");
}

#[test]
fn normalize_keeps_unicode_letters_and_digits() {
    assert_eq!(normalize_text("Ünïcode 42—Fancy"), "ünïcode 42fancy");
    assert_eq!(normalize_text("東京\u{3000}タワー"), "東京 タワー");
}

#[test]
fn normalize_twice_equals_once() {
    for x in ["  Mixed CASE, text!! ", "a..b  c", "ÀÉÎ  õü", "", "   ", "x\u{2003}y"] {
        let once = normalize_text(x);
        assert_eq!(normalize_text(&once), once);
    }
}

#[test]
fn stems_and_extensions_follow_the_last_dot() {
    assert_eq!(file_stem("cat.jpg"), "cat");
    assert_eq!(file_stem("a.b.gif"), "a.b");
    assert_eq!(file_stem(".hidden"), ".hidden");
    assert_eq!(file_stem("plain"), "plain");
    assert_eq!(file_extension("a.b.GIF"), Some("GIF".to_string()));
    assert_eq!(file_extension(".hidden"), None);
    assert_eq!(file_extension("plain"), None);
    assert_eq!(file_extension("trailing."), Some(String::new()));
}

#[test]
fn containment_scores_use_byte_lengths() {
    assert_eq!(calculate_match_score("cats", "cats"), 1004);
    assert_eq!(calculate_match_score("cats", "cat"), 1003);
    assert_eq!(calculate_match_score("cat", "cats"), 903);
    assert_eq!(calculate_match_score("über katze", "über"), 1005);
}

#[test]
fn word_pair_points_without_containment() {
    // one equal pair
    assert_eq!(calculate_match_score("big cat", "cat dog"), 100);
    // "cats" holds "cat": a partial pair
    assert_eq!(calculate_match_score("cats run", "cat sleeps"), 50);
    assert_eq!(calculate_match_score("alpha", "omega"), 0);
}

#[test]
fn short_stem_matches_only_an_equal_query() {
    let f = file("assets/ok.png", "ok.png");
    let mut m = Vec::new();
    handle_short_filename(&f, "ok", "ok", &mut m);
    assert_eq!(m.len(), 1);
    assert_eq!(m[0].1, 2000);
    handle_short_filename(&f, "ok computer", "ok", &mut m);
    assert_eq!(m.len(), 1);
}

#[test]
fn normal_stem_by_containment_or_word_share() {
    let f = file("assets/cat meme.png", "cat meme.png");
    let mut m = Vec::new();
    handle_normal_filename(&f, "funny cat video", "cat meme", &mut m);
    assert_eq!(m.len(), 1);
    assert_eq!(m[0].1, 50);
    assert_eq!(m[0].0.path, "assets/cat meme.png");
    handle_normal_filename(&f, "a cat meme here", "cat meme", &mut m);
    assert_eq!(m[1].1, 1008);
    handle_normal_filename(&f, "nothing alike", "cat meme", &mut m);
    assert_eq!(m.len(), 2);
}

#[test]
fn process_file_skips_a_stem_that_normalizes_to_nothing() {
    let mut m = Vec::new();
    process_file(&file("assets/!!!.png", "!!!.png"), "", &mut m);
    assert!(m.is_empty());
    process_file(&file("assets/Hi.png", "Hi.png"), "hi", &mut m);
    assert_eq!(m.len(), 1);
    assert_eq!(m[0].1, 2000);
}

#[test]
fn short_stem_included_only_on_exact_query() {
    let c = corpus(&[("assets/ok.png", "ok.png"), ("assets/okay.png", "okay.png")]);
    let hits = find_matching_images("OK!", &c);
    assert!(hits.iter().any(|(f, s)| f.path == "assets/ok.png" && *s == 2000));
    let hits = find_matching_images("ok computer", &c);
    assert!(!hits.iter().any(|(f, _)| f.path == "assets/ok.png"));
}

#[test]
fn containment_outranks_word_overlap() {
    let c = corpus(&[
        ("assets/dog cat.png", "dog cat.png"),
        ("assets/cat.png", "cat.png"),
        ("assets/cats.png", "cats.png"),
    ]);
    let hits = find_matching_images("cats", &c);
    let ranked: Vec<(&str, usize)> = hits.iter().map(|(f, s)| (f.path.as_str(), *s)).collect();
    assert_eq!(
        ranked,
        vec![("assets/cats.png", 1004), ("assets/cat.png", 1003), ("assets/dog cat.png", 50)]
    );
}

#[test]
fn matches_are_ordered_by_score_and_ties_keep_corpus_order() {
    let c = corpus(&[
        ("a/x1.png", "red fox.png"),
        ("a/x2.png", "blue fox.png"),
        ("a/x3.png", "fox.png"),
        ("a/x4.png", "green fox.png"),
    ]);
    let hits = find_matching_images("fox", &c);
    for w in hits.windows(2) {
        assert!(w[0].1 >= w[1].1);
    }
    let paths: Vec<&str> = hits.iter().map(|(f, _)| f.path.as_str()).collect();
    assert_eq!(paths, vec!["a/x3.png", "a/x1.png", "a/x2.png", "a/x4.png"]);
}

#[test]
fn best_local_image_for_a_filename_query() {
    let c = corpus(&[("assets/dog.png", "dog.png"), ("assets/cat.jpg", "cat.jpg")]);
    let best = find_local_image("cat.jpg", &c).expect("a match");
    assert_eq!(best.path, "assets/cat.jpg");
    assert!(find_local_image("zebra", &c).is_none());
    assert!(find_local_image("cat", &Vec::new()).is_none());
}

#[test]
fn tidy_keeps_case_but_drops_punctuation() {
    assert_eq!(tidy_text("  A,b   C! "), "Ab C");
    assert_eq!(tidy_text(tidy_text("x -- y").as_str()), "x y");
}
