use image_relay::extract::{
    extract_image_urls, is_provider_asset, keep_image_urls, search_params, strip_query, unescape,
    urls_from_page, SearchError, MAX_URLS,
};

#[test]
fn array_strategy_wins_over_quoted_urls() {
    let body = r#"var a = "https://quoted.example.com/q.png"; data = [["https://array.example.com/a.jpg",640,480]];"#;
    assert_eq!(extract_image_urls(body), vec!["https://array.example.com/a.jpg".to_string()]);
}

#[test]
fn quoted_strategy_when_no_array_matches() {
    let body = r#"<img src="https://quoted.example.com/q.png?x=1"> and "http://b.example.org/z.gif""#;
    assert_eq!(
        extract_image_urls(body),
        vec!["https://quoted.example.com/q.png?x=1".to_string(), "http://b.example.org/z.gif".to_string()]
    );
}

#[test]
fn array_urls_are_unescaped() {
    let body = r#"[["https://e.com/i.jpg?a=1\u0026b\u003d2",10,20]]"#;
    assert_eq!(extract_image_urls(body), vec!["https://e.com/i.jpg?a=1&b=2".to_string()]);
    assert_eq!(unescape(r"x\u0026y\u003dz\u0027"), r"x&y=z\u0027");
}

#[test]
fn redirect_parameter_strategy_decodes_and_cuts_the_query() {
    let body = r#"<a href="/imgres?imgurl=https%3A%2F%2Fexample.com%2Fpic.jpg%3Fw%3D1&amp;imgrefurl=x">"#;
    assert_eq!(extract_image_urls(body), vec!["https://example.com/pic.jpg".to_string()]);
    assert_eq!(strip_query("https://a.b/c.png?d=e"), "https://a.b/c.png");
    assert_eq!(strip_query("no-query"), "no-query");
}

#[test]
fn attribute_strategy_last() {
    let body = r#"<div data-ou="https://orig.example.com/full"></div>"#;
    assert_eq!(extract_image_urls(body), vec!["https://orig.example.com/full".to_string()]);
}

#[test]
fn provider_thumbnails_never_come_out() {
    let body = r#"[["https://encrypted-tbn0.gstatic.com/images?q=tbn.jpg",1,1]] [["https://www.gstatic.com/logo.png",1,1]] [["https://www.google.com/googlelogo.png",1,1]] [["https://real.example.com/x.jpg",1,1]]"#;
    let urls = extract_image_urls(body);
    assert_eq!(urls, vec!["https://real.example.com/x.jpg".to_string()]);
    assert!(is_provider_asset("https://encrypted-tbn0.gstatic.com/a"));
    assert!(!is_provider_asset("https://example.com/a.jpg"));
    let only_thumbs = r#"<div data-ou="https://encrypted-tbn1.gstatic.com/t.jpg"></div>"#;
    assert!(extract_image_urls(only_thumbs).is_empty());
}

#[test]
fn at_most_ten_urls_in_page_order() {
    let mut body = String::new();
    for i in 0..15 {
        body.push_str(&format!(r#"["https://img{}.example.com/p.png",100,100],"#, i));
    }
    let urls = extract_image_urls(&body);
    assert_eq!(urls.len(), MAX_URLS);
    assert_eq!(urls[0], "https://img0.example.com/p.png");
    assert_eq!(urls[9], "https://img9.example.com/p.png");
}

#[test]
fn keep_image_urls_filters_then_caps() {
    let mut c: Vec<String> = (0..12).map(|i| format!("https://h{}.org/a.jpg", i)).collect();
    c.insert(0, "https://x.gstatic.com/t.jpg".to_string());
    let kept = keep_image_urls(&c);
    assert_eq!(kept.len(), 10);
    assert_eq!(kept[0], "https://h0.org/a.jpg");
}

#[test]
fn a_page_without_candidates_is_an_error() {
    assert_eq!(urls_from_page("<html>nothing here</html>"), Err(SearchError::NoCandidates));
    assert!(!SearchError::NoCandidates.message().is_empty());
    let ok = urls_from_page(r#""https://a.example.com/b.gif""#);
    assert_eq!(ok, Ok(vec!["https://a.example.com/b.gif".to_string()]));
}

#[test]
fn search_parameters_follow_the_format() {
    let p = search_params("funny dance", true);
    let expected: Vec<(String, String)> = vec![
        ("q".into(), "funny dance".into()),
        ("tbs".into(), "ift:gif".into()),
        ("tbm".into(), "isch".into()),
        ("hl".into(), "zh-TW".into()),
    ];
    assert_eq!(p, expected);
    assert_eq!(search_params("x", false)[1].1, "ift:jpg");
}
