use forecast_judge::article::{extract_article, paragraph_html};
use forecast_judge::clock::Timestamp;
use forecast_judge::feed::{
    classify_item, parse_rss_pub_date, plan_feed_items, title_excluded, DateStatus, FeedItem,
    ItemOutcome,
};
use forecast_judge::noise::{
    candidate_word, count_words, noise_keywords, select_top, stop_word, Segmenter,
};
use forecast_judge::sources::{merge_exclude_words, plan_sync, SourceConfig};

fn now() -> Timestamp {
    Timestamp { secs: 1_700_000_000, nanos: 5 }
}

fn item(title: Option<&str>, link: Option<&str>, date: Option<&str>, desc: Option<&str>) -> FeedItem {
    FeedItem {
        title: title.map(|s| s.to_string()),
        link: link.map(|s| s.to_string()),
        pub_date: date.map(|s| s.to_string()),
        description: desc.map(|s| s.to_string()),
    }
}

#[test]
fn pub_date_reads_rfc2822_and_rfc3339() {
    let a = parse_rss_pub_date("Wed, 18 Feb 2015 23:16:09 GMT").unwrap();
    assert_eq!(a, Timestamp { secs: 1_424_301_369, nanos: 0 });
    let b = parse_rss_pub_date("Wed, 18 Feb 2015 23:16:09 +0800").unwrap();
    assert_eq!(b.secs, 1_424_301_369 - 8 * 3600);
    let c = parse_rss_pub_date("2015-02-18T23:16:09.5Z").unwrap();
    assert_eq!(c, Timestamp { secs: 1_424_301_369, nanos: 500_000_000 });
    assert_eq!(parse_rss_pub_date("yesterday"), None);
}

#[test]
fn exclusion_words_match_substrings() {
    let words = vec!["广告".to_string(), "promo".to_string()];
    assert!(title_excluded("今日广告合集", &words));
    assert!(title_excluded("big promotion", &words));
    assert!(!title_excluded("央行宣布降息", &words));
    assert!(!title_excluded("anything", &vec![]));
}

#[test]
fn items_without_title_or_link_are_skipped() {
    let words = vec!["广告".to_string()];
    assert!(matches!(classify_item(&item(None, Some("u"), None, None), &words, now()), ItemOutcome::MissingTitle));
    match classify_item(&item(Some("广告来了"), Some("u"), None, None), &words, now()) {
        ItemOutcome::Excluded { title } => assert_eq!(title, "广告来了"),
        _ => panic!("expected an excluded item"),
    }
    match classify_item(&item(Some("news"), None, None, None), &words, now()) {
        ItemOutcome::MissingLink { title } => assert_eq!(title, "news"),
        _ => panic!("expected a missing link"),
    }
}

#[test]
fn kept_items_carry_dates_and_descriptions() {
    let words: Vec<String> = vec![];
    match classify_item(&item(Some("t"), Some("http://x"), Some("Wed, 18 Feb 2015 23:16:09 GMT"), Some("d")), &words, now()) {
        ItemOutcome::Candidate(c) => {
            assert_eq!(c.title, "t");
            assert_eq!(c.link, "http://x");
            assert_eq!(c.published_at.secs, 1_424_301_369);
            assert_eq!(c.date_status, DateStatus::Parsed);
            assert_eq!(c.description, "d");
        }
        _ => panic!("expected a candidate"),
    }
    match classify_item(&item(Some("t"), Some("http://x"), Some("not a date"), None), &words, now()) {
        ItemOutcome::Candidate(c) => {
            assert_eq!(c.published_at, now());
            assert_eq!(c.date_status, DateStatus::Unreadable);
            assert_eq!(c.description, "");
        }
        _ => panic!("expected a candidate"),
    }
    match classify_item(&item(Some("t"), Some("http://x"), None, None), &words, now()) {
        ItemOutcome::Candidate(c) => assert_eq!(c.date_status, DateStatus::Missing),
        _ => panic!("expected a candidate"),
    }
}

#[test]
fn feed_bytes_are_read_item_by_item() {
    let xml = r#"<?xml version="1.0"?>
<rss version="2.0"><channel><title>c</title><link>http://c</link><description>d</description>
<item><title>first news</title><link>http://a</link><pubDate>Wed, 18 Feb 2015 23:16:09 GMT</pubDate><description>sum</description></item>
<item><link>http://b</link></item>
<item><title>spam offer</title><link>http://c</link></item>
<item><title>no link here</title></item>
</channel></rss>"#;
    let words = vec!["spam".to_string()];
    let plan = plan_feed_items(xml.as_bytes(), &words, now()).unwrap();
    assert_eq!(plan.len(), 4);
    match &plan[0] {
        ItemOutcome::Candidate(c) => {
            assert_eq!(c.title, "first news");
            assert_eq!(c.link, "http://a");
            assert_eq!(c.published_at.secs, 1_424_301_369);
            assert_eq!(c.description, "sum");
        }
        _ => panic!("expected a candidate"),
    }
    assert!(matches!(plan[1], ItemOutcome::MissingTitle));
    assert!(matches!(plan[2], ItemOutcome::Excluded { .. }));
    assert!(matches!(plan[3], ItemOutcome::MissingLink { .. }));
}

#[test]
fn unreadable_feed_is_an_error() {
    assert!(plan_feed_items(b"not xml at all <<<", &vec![], now()).is_err());
}

#[test]
fn paragraph_html_keeps_long_paragraphs() {
    let texts = vec![
        "short".to_string(),
        "this paragraph is long enough".to_string(),
        "exactly twenty bytes".to_string(),
        "另一段足够长的中文段落".to_string(),
    ];
    assert_eq!(
        paragraph_html(&texts),
        Some("<p>this paragraph is long enough</p>\n<p>另一段足够长的中文段落</p>".to_string())
    );
    assert_eq!(paragraph_html(&vec!["tiny".to_string()]), None);
    assert_eq!(paragraph_html(&vec![]), None);
}

#[test]
fn article_extraction_sanitizes() {
    let body = "The central bank raised its policy rate by a quarter point on Wednesday, citing persistent inflation. ".repeat(12);
    let html = format!(
        "<html><head><title>Rates</title></head><body><nav><a href=\"/\">Menu Home About</a></nav><article><h1>Rates</h1><p>{}</p><p>{}</p><script>alert('x')</script></article></body></html>",
        body, body
    );
    let out = extract_article(&html, "https://example.com/news/1").unwrap();
    assert!(out.contains("central bank raised"));
    assert!(!out.contains("<script"));
    // Only the readable part of the page is kept, not its navigation.
    assert!(!out.contains("Menu Home About"));
    assert_eq!(extract_article("<html><body></body></html>", "https://example.com/"), None);
}

#[test]
fn article_falls_back_to_paragraphs() {
    let html = "<html><body><p>short</p><p>this paragraph is long enough</p><div>ignored text in a div</div></body></html>";
    assert_eq!(
        extract_article(html, "relative/path"),
        Some("<p>this paragraph is long enough</p>".to_string())
    );
    assert_eq!(extract_article("<html><body><p>tiny</p></body></html>", "relative/path"), None);
    // Markup that a paragraph's text spells out is sanitized too.
    let escaped = "<html><body><p>&lt;script&gt;alert(1)&lt;/script&gt; and this paragraph is long enough</p></body></html>";
    let out = extract_article(escaped, "relative/path").unwrap();
    assert!(out.contains("this paragraph is long enough"));
    assert!(!out.contains("<script"));
}

#[test]
fn stop_words_and_candidates() {
    assert!(stop_word("的"));
    assert!(stop_word("为什么"));
    assert!(!stop_word("央行"));
    assert!(candidate_word("央行"));
    assert!(candidate_word("央"));
    assert!(!candidate_word("a"));
    assert!(!candidate_word("2024"));
    assert!(!candidate_word("我们"));
    assert!(candidate_word("ab"));
}

#[test]
fn counting_and_selection() {
    let tokens: Vec<String> = ["b", "a", "b", "c", "a", "b"].iter().map(|s| s.to_string()).collect();
    let (words, counts) = count_words(&tokens);
    assert_eq!(words, vec!["b", "a", "c"]);
    assert_eq!(counts, vec![3, 2, 1]);
    assert_eq!(select_top(&vec![1, 5, 3, 5], 3), vec![1, 3, 2]);
    assert_eq!(select_top(&vec![2, 1], 5), vec![0, 1]);
    assert_eq!(select_top(&vec![2, 1], 0), Vec::<usize>::new());
}

#[test]
fn segmenter_cuts_text_into_words() {
    let seg = Segmenter::new();
    let words = seg.cut("apple banana");
    assert_eq!(words.concat(), "apple banana");
    assert!(words.contains(&"apple".to_string()));
}

#[test]
fn noise_keywords_are_most_frequent_words() {
    let titles = vec![
        "apple banana apple".to_string(),
        "apple cherry banana 2024".to_string(),
    ];
    assert_eq!(noise_keywords(&titles, 2), vec!["apple".to_string(), "banana".to_string()]);
    assert_eq!(noise_keywords(&vec![], 5), Vec::<String>::new());
}

#[test]
fn noise_keywords_skip_stop_words_and_numbers() {
    let titles = vec![
        "2024 2024 2024 a a a 我们 我们 我们 央行".to_string(),
        "2024 我们 央行".to_string(),
    ];
    let top = noise_keywords(&titles, 3);
    assert!(top.contains(&"央行".to_string()));
    for w in &top {
        assert!(candidate_word(w));
        assert!(w != "2024" && w != "我们" && w != "a");
    }
}

#[test]
fn exclusion_words_are_pooled_once() {
    let rows = vec![
        Some(vec!["a".to_string(), "b".to_string()]),
        None,
        Some(vec!["b".to_string(), "c".to_string()]),
    ];
    let mut merged = merge_exclude_words(&rows);
    merged.sort();
    assert_eq!(merged, vec!["a", "b", "c"]);
}

#[test]
fn source_config_defaults_and_wraps_interval() {
    let a = SourceConfig::from_row(1, "n".into(), "u".into(), None);
    assert_eq!(a.refresh_interval_sec, 300);
    let b = SourceConfig::from_row(1, "n".into(), "u".into(), Some(60));
    assert_eq!(b.refresh_interval_sec, 60);
    let c = SourceConfig::from_row(1, "n".into(), "u".into(), Some(-1));
    assert_eq!(c.refresh_interval_sec, u64::MAX);
}

#[test]
fn resync_stops_removed_and_starts_new_sources() {
    let running = vec![1, 2, 3];
    let new_ids = vec![3, 4, 4, 5, 1];
    let plan = plan_sync(&running, &new_ids);
    assert_eq!(plan.stop, vec![2]);
    assert_eq!(plan.start, vec![1, 3]);
    let mut after: Vec<i32> = running.iter().copied().filter(|i| !plan.stop.contains(i)).collect();
    after.extend(plan.start.iter().map(|&k| new_ids[k]));
    after.sort();
    assert_eq!(after, vec![1, 3, 4, 5]);
}
