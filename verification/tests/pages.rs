use blogworm::html::Document;
use blogworm::links::{
    after_last_marker, before_first_marker, dedup_links, extract_path, last_segments, only_class_l,
    present_values, profile_paths, values_containing,
};
use blogworm::posts::{
    checked_handle_parse_post, checked_parse_post, checked_parse_postsrc, handle_parse_post, parse_post,
    parse_postsrc,
};

fn s(x: &str) -> String {
    x.to_string()
}

#[test]
fn extract_path_cuts_at_question_mark() {
    assert_eq!(extract_path("/@user/post-1?source=home"), Some("/@user/post-1"));
    assert_eq!(extract_path("?x"), Some(""));
    assert_eq!(extract_path("/@user/post-1"), None);
}

#[test]
fn present_values_keeps_present_in_order() {
    let v = vec![Some(s("a")), None, Some(s("b"))];
    assert_eq!(present_values(&v), vec![s("a"), s("b")]);
}

#[test]
fn values_containing_filters() {
    let v = vec![Some(s("/2023/x")), Some(s("/2022/y")), None, Some(s("a2023"))];
    assert_eq!(values_containing(&v, "2023"), vec![s("/2023/x"), s("a2023")]);
}

#[test]
fn last_segments_take_last_nonempty_segment() {
    let v = vec![Some(s("https://site.com/blog/post-1/")), Some(s("post-2"))];
    assert_eq!(last_segments(&v, ""), Some(vec![s("post-1"), s("post-2")]));
    assert_eq!(last_segments(&v, "/"), Some(vec![s("post-1/"), s("post-2/")]));
    assert_eq!(last_segments(&vec![Some(s("///"))], ""), None);
    assert_eq!(last_segments(&vec![None], ""), None);
}

#[test]
fn markers_cut_texts() {
    assert_eq!(after_last_marker("Jan 1, 2023 Posted by Bob", "Posted by "), Some(s("Bob")));
    assert_eq!(after_last_marker("Posted by ", "Posted by "), None);
    assert_eq!(before_first_marker("Jan 1, 2023 - Posted by Bob", " - Posted by "), Some(s("Jan 1, 2023")));
    assert_eq!(before_first_marker(" - Posted by  - Posted by x", " - Posted by "), Some(s("x")));
}

#[test]
fn class_filter_needs_only_l() {
    assert!(only_class_l(&Some(s("l"))));
    assert!(only_class_l(&Some(s(" l  l "))));
    assert!(only_class_l(&None));
    assert!(!only_class_l(&Some(s("l x"))));
}

#[test]
fn profile_paths_keep_story_links() {
    let hrefs = vec![s("/@a/story?x=1"), s("/tag/x"), s("/@a"), s("/@b/other?y")];
    assert_eq!(profile_paths(&hrefs), Some(vec![s("/@a/story"), s("/@b/other")]));
    assert_eq!(profile_paths(&vec![s("/@a/story")]), None);
}

#[test]
fn dedup_keeps_first_occurrences() {
    let v = vec![s("a"), s("b"), s("a"), s("c"), s("b")];
    assert_eq!(dedup_links(&v), vec![s("a"), s("b"), s("c")]);
    assert_eq!(dedup_links(&vec![]), Vec::<String>::new());
}

#[test]
fn source_two_links_in_link_divs() {
    let page = r#"<html><body><div class="link"><a href="/one">1</a><a>no</a></div><a href="/out">x</a><div class="link"><p><a href="/two">2</a></p></div></body></html>"#;
    assert_eq!(parse_postsrc(page, "ignored", 2), vec![s("/one"), s("/two")]);
}

#[test]
fn source_three_profile_links() {
    let page = r#"<div class="l"><a class="st" href="/@u/p1?s=1">a</a><a class="st" href="/@u/p1?s=2">b</a><a class="st" href="/tag/pentest">c</a></div><div class="l other"><a class="st" href="/@v/p2?s=1">d</a></div><div class="l"><a class="zz" href="/@w/p3?s=1">e</a></div>"#;
    assert_eq!(parse_postsrc(page, "st", 3), vec![s("/@u/p1")]);
    let broken = r#"<div class="l"><a class="st" href="/@u/p1">a</a></div>"#;
    assert_eq!(checked_parse_postsrc(broken, "st", 3), None);
}

#[test]
fn source_four_links_in_noscript() {
    let page = r#"<html><body><noscript>href="/first" and href="/second"</noscript></body></html>"#;
    assert_eq!(parse_postsrc(page, "ignored", 4), vec![s("/first"), s("/second")]);
    assert_eq!(checked_parse_postsrc("<p>nothing</p>", "ignored", 4), None);
}

#[test]
fn sources_five_and_eight_last_segments() {
    let page = r#"<a class="post" href="https://b.com/blog/first/">1</a><a class="post" href="/second">2</a>"#;
    assert_eq!(parse_postsrc(page, "a.post", 5), vec![s("first"), s("second")]);
    assert_eq!(parse_postsrc(page, "a.post", 8), vec![s("first/"), s("second/")]);
    let missing = r#"<a class="post">1</a>"#;
    assert_eq!(checked_parse_postsrc(missing, "a.post", 5), None);
}

#[test]
fn source_ten_data_urls_of_2023() {
    let page = r#"<div class="p" data-url="/2023/a"></div><div class="p" data-url="/2022/b"></div><div class="p"></div>"#;
    assert_eq!(parse_postsrc(page, "div.p", 10), vec![s("/2023/a")]);
}

#[test]
fn other_sources_take_hrefs() {
    let page = r#"<h2 class="t"><a href="/x">x</a></h2><a class="t" href="/y">y</a><a class="t">z</a>"#;
    assert_eq!(parse_postsrc(page, "a.t", 1), vec![s("/y")]);
    assert_eq!(checked_parse_postsrc(page, "a..[", 1), None);
}

#[test]
fn post_parts_by_source() {
    let page = r#"<html><head><meta property="og:title" content="Title"></head><body><p class="lead my-3">Lead</p><a class="author url fn">Ann</a><time datetime="2023-03-05T10:20:30.123Z">x</time><div class="rich-text"><h2>H1</h2><h2>H2</h2></div><div class="post"><p>First</p><p>Second</p></div><span class="post-date">Jan 1 - Posted by Bob</span></body></html>"#;
    let doc = Document::parse_document(page);
    assert_eq!(handle_parse_post("p.lead.my-3", &doc, 3), vec![s("Lead")]);
    assert_eq!(handle_parse_post("meta[property='og:title']", &doc, 4), vec![s("Title")]);
    assert_eq!(handle_parse_post("a.author.url.fn", &doc, 5), vec![s("Ann")]);
    assert_eq!(handle_parse_post("time", &doc, 7), vec![s("2023-03-05T10:20:30.123Z")]);
    assert_eq!(handle_parse_post("div.rich-text", &doc, 6), vec![s("H1"), s("H2")]);
    assert_eq!(handle_parse_post("div.post > p", &doc, 10), vec![s("First")]);
    assert_eq!(handle_parse_post("span.post-date", &doc, 10), vec![s("Bob")]);
    assert_eq!(handle_parse_post("anything", &doc, 10), vec![s("Jan 1")]);
    assert_eq!(handle_parse_post("h2", &doc, 1), vec![s("H1"), s("H2")]);
    assert_eq!(checked_handle_parse_post("a..[", &doc, 1), None);
}

#[test]
fn whole_post_of_first_source() {
    let page = r#"<html><body><h1>My title</h1><span class="by">Eve</span><p class="date">March 5, 2023</p><div class="c">Body</div></body></html>"#;
    let post = parse_post(page, "p.date", "h1", "span.by", "div.c", 1, s("https://x.com/p"));
    assert_eq!(post.title, "My title");
    assert_eq!(post.author, "Eve");
    assert_eq!(post.content, "Body");
    assert_eq!(post.create_timestamp, 1677974400);
    assert_eq!(post.url, "https://x.com/p");
}

#[test]
fn whole_post_missing_parts() {
    let page = r#"<html><body><h1>My title</h1></body></html>"#;
    assert!(checked_parse_post(page, "p.date", "h1", "span.by", "div.c", 1, s("u")).is_none());
    let bad_date = r#"<h1>T</h1><span class="by">E</span><p class="date">soon</p><div class="c">B</div>"#;
    assert!(checked_parse_post(bad_date, "p.date", "h1", "span.by", "div.c", 1, s("u")).is_none());
    let other = checked_parse_post(bad_date, "p.date", "h1", "span.by", "div.c", 9, s("u"));
    assert!(other.is_none());
    let ok = checked_parse_post(bad_date, "p.date", "h1", "span.by", "div.c", 11, s("u")).unwrap();
    assert_eq!(ok.create_timestamp, 0);
    assert_eq!(ok.title, "T");
}

#[test]
fn whole_post_of_a_wordpress_source_is_dated() {
    let page = r#"<html><head><meta property="og:title" content="T"><meta name="author" content="A"><meta property="og:description" content="C"></head><body><time class="entry-date published" datetime="2023-03-05T10:20:30+00:00">March 5</time></body></html>"#;
    let post = parse_post(
        page,
        "time.entry-date.published",
        "meta[property='og:title']",
        "meta[name='author']",
        "meta[property='og:description']",
        5,
        s("https://w.com/p"),
    );
    assert_eq!(post.create_timestamp, 1678011630);
    assert_eq!(post.title, "T");
    assert_eq!(post.author, "A");
    assert_eq!(post.content, "C");
}

#[test]
fn whole_post_of_source_ten_is_dated() {
    let page = r#"<h1 class="post-title">T</h1><span class="post-date">March 5, 2023 - Posted by Bob</span><div class="post"><p>Body</p></div>"#;
    let post = parse_post(page, "span.date-part", "h1.post-title", "span.post-date", "div.post > p", 10, s("u"));
    assert_eq!(post.create_timestamp, 1677974400);
    assert_eq!(post.author, "Bob");
    assert_eq!(post.content, "Body");
}
