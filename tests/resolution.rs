use image_relay::delivery::{
    is_animated_name, parse_query, Action, Outcome, Phase, Resolution,
};
use image_relay::fetch::{classify, is_imgur_url, SourceKind};
use image_relay::matcher::AssetFile;

fn finished(a: &Action) -> Option<Outcome> {
    match a {
        Action::Finish { outcome } => Some(*outcome),
        _ => None,
    }
}

#[test]
fn queries_need_a_stem_and_an_image_extension() {
    let q = parse_query("funny dance.gif").expect("a query");
    assert_eq!(q.text, "funny dance");
    assert!(q.animated);
    let q = parse_query("a.b.JPEG").expect("a query");
    assert_eq!(q.text, "a.b");
    assert!(!q.animated);
    assert!(parse_query("cat.PnG").is_some());
    assert!(parse_query("cat.GiF").expect("a query").animated);
    assert!(parse_query(".jpg").is_none());
    assert!(parse_query("cat.bmp").is_none());
    assert!(parse_query("two\nlines.jpg").is_none());
    assert!(parse_query("no extension").is_none());
}

#[test]
fn imgur_urls_require_a_download() {
    assert!(is_imgur_url("https://i.imgur.com/abc.gif"));
    assert!(!is_imgur_url("https://example.com/abc.gif"));
    assert_eq!(classify("https://imgur.com/x.png"), SourceKind::RequiresDownload);
    assert_eq!(classify("https://example.com/x.png"), SourceKind::DirectLink);
}

#[test]
fn media_kind_of_a_local_file() {
    assert!(is_animated_name("dance.GIF"));
    assert!(!is_animated_name("cat.jpg"));
    assert!(!is_animated_name("gif"));
}

#[test]
fn local_match_is_delivered_without_a_search() {
    let mut r = Resolution::new("cat.jpg".to_string(), true);
    assert!(matches!(r.begin(), Action::ReadCorpus));
    let corpus = vec![AssetFile::new("assets/cat.jpg".to_string(), "cat.jpg".to_string())];
    match r.on_corpus(&corpus) {
        Action::SendLocal { path, animated } => {
            assert_eq!(path, "assets/cat.jpg");
            assert!(!animated);
        }
        other => panic!("unexpected {:?}", other),
    }
    assert_eq!(finished(&r.on_sent(true)), Some(Outcome::Delivered));
    assert_eq!(r.phase, Phase::Done);
}

#[test]
fn remote_candidate_delivered_as_animation() {
    let body = r#"[["https://media.example.com/dance.gif",320,240]]"#;
    for local in [false, true] {
        let mut r = Resolution::new("funny dance.gif".to_string(), local);
        let mut a = r.begin();
        if local {
            assert!(matches!(a, Action::ReadCorpus));
            a = r.on_corpus(&Vec::new());
        }
        match a {
            Action::FetchPage { query, animated } => {
                assert_eq!(query, "funny dance");
                assert!(animated);
            }
            other => panic!("unexpected {:?}", other),
        }
        match r.on_page(body) {
            Action::SendUrl { url, animated } => {
                assert_eq!(url, "https://media.example.com/dance.gif");
                assert!(animated);
            }
            other => panic!("unexpected {:?}", other),
        }
        assert_eq!(finished(&r.on_sent(true)), Some(Outcome::Delivered));
    }
}

#[test]
fn page_without_urls_is_exhausted_without_delivery() {
    let mut r = Resolution::new("funny dance.gif".to_string(), false);
    assert!(matches!(r.begin(), Action::FetchPage { .. }));
    assert_eq!(finished(&r.on_page("<html><body>no images</body></html>")), Some(Outcome::Exhausted));
}

#[test]
fn first_failure_then_second_success() {
    let body = r#"[["https://one.example.com/a.jpg",1,1],["https://two.example.com/b.jpg",1,1]]"#;
    let mut r = Resolution::new("thing.jpg".to_string(), false);
    r.begin();
    let mut delivered: Vec<String> = Vec::new();
    let mut a = r.on_page(body);
    let mut outcome = None;
    let mut attempts = 0;
    while outcome.is_none() {
        a = match a {
            Action::SendUrl { url, .. } => {
                attempts += 1;
                let ok = attempts == 2;
                if ok {
                    delivered.push(url);
                }
                r.on_sent(ok)
            }
            Action::Finish { outcome: o } => {
                outcome = Some(o);
                Action::Idle
            }
            other => panic!("unexpected {:?}", other),
        };
    }
    assert_eq!(attempts, 2);
    assert_eq!(outcome, Some(Outcome::Delivered));
    assert_eq!(delivered, vec!["https://two.example.com/b.jpg".to_string()]);
}

#[test]
fn download_hosts_and_malformed_urls() {
    let body = r#"[["http://bad host/a.jpg",1,1],["https://i.imgur.com/c.jpg",1,1],["https://ok.example.com/d.jpg",1,1]]"#;
    let mut r = Resolution::new("x.jpg".to_string(), false);
    r.begin();
    match r.on_page(body) {
        Action::Download { url } => assert_eq!(url, "https://i.imgur.com/c.jpg"),
        other => panic!("unexpected {:?}", other),
    }
    match r.on_downloaded(false) {
        Action::SendUrl { url, animated } => {
            assert_eq!(url, "https://ok.example.com/d.jpg");
            assert!(!animated);
        }
        other => panic!("unexpected {:?}", other),
    }
    assert_eq!(finished(&r.on_sent(false)), Some(Outcome::Exhausted));
}

#[test]
fn downloaded_bytes_are_sent() {
    let body = r#"[["https://i.imgur.com/c.gif",1,1]]"#;
    let mut r = Resolution::new("x.gif".to_string(), false);
    r.begin();
    assert!(matches!(r.on_page(body), Action::Download { .. }));
    assert!(matches!(r.on_downloaded(true), Action::SendDownloaded { animated: true }));
    assert_eq!(finished(&r.on_sent(true)), Some(Outcome::Delivered));
}

#[test]
fn failed_local_send_falls_back_to_search() {
    let mut r = Resolution::new("cat.jpg".to_string(), true);
    r.begin();
    let corpus = vec![AssetFile::new("assets/cat.jpg".to_string(), "cat.jpg".to_string())];
    assert!(matches!(r.on_corpus(&corpus), Action::SendLocal { .. }));
    match r.on_sent(false) {
        Action::FetchPage { query, animated } => {
            assert_eq!(query, "cat");
            assert!(!animated);
        }
        other => panic!("unexpected {:?}", other),
    }
    assert_eq!(finished(&r.on_page_failed()), Some(Outcome::SearchFailed));
}

#[test]
fn plain_chat_is_ignored_and_faults_end_the_resolution() {
    let mut r = Resolution::new("hello there".to_string(), false);
    assert_eq!(finished(&r.begin()), Some(Outcome::Ignored));
    let mut r = Resolution::new("hello.png".to_string(), true);
    r.begin();
    assert_eq!(finished(&r.on_corpus_fault()), Some(Outcome::CorpusFault));
    assert!(matches!(r.on_sent(true), Action::Idle));
}
