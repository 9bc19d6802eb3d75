use blogworm::config::{default_save_path, home_path, Config};
use blogworm::posts::{Post, Postsrc};
use blogworm::sources::{absolute_links, check_name, replace_second_slash, select_new_posts, single_source_links, site_root};

fn s(x: &str) -> String {
    x.to_string()
}

fn source(name: &str, id: u32) -> Postsrc {
    Postsrc {
        name: s(name),
        postsrc_id: id,
        website: format!("https://{}.com/blog", name),
        link_class: s("a"),
        author_class: s("b"),
        content_class: s("c"),
        title_class: s("d"),
        time_class: s("e"),
    }
}

fn post(url: &str, t: u64) -> Post {
    Post { content: s("c"), author: s("a"), title: s("t"), create_timestamp: t, url: s(url) }
}

#[test]
fn check_name_finds_first_match() {
    let list = vec![source("one", 1), source("two", 2), source("two", 3)];
    let found = check_name(s("two"), &list).unwrap();
    assert_eq!(found.postsrc_id, 2);
    assert_eq!(found.website, "https://two.com/blog");
    assert!(check_name(s("three"), &list).is_none());
    assert!(check_name(s("one"), &vec![]).is_none());
}

#[test]
fn site_roots() {
    assert_eq!(site_root("https://a.com/blog/x").into_iter().collect::<String>(), "https://a.com");
    assert_eq!(site_root("https://a.com").into_iter().collect::<String>(), "https://a.com");
    assert_eq!(site_root("a.com").into_iter().collect::<String>(), "a.com");
}

#[test]
fn absolute_links_join_with_one_slash() {
    let links = vec![s("post-1"), s("/post-2")];
    assert_eq!(
        absolute_links("https://a.com/blog", &links),
        vec![s("https://a.com/post-1"), s("https://a.com//post-2")]
    );
}

#[test]
fn single_source_links_collapse_double_slash() {
    let links = vec![s("post-1"), s("/post-2")];
    assert_eq!(
        single_source_links("https://a.com/blog", &links),
        vec![s("https://a.com/post-1"), s("https://a.com/post-2")]
    );
}

#[test]
fn replace_second_slash_cases() {
    assert_eq!(replace_second_slash("https://a.com//x"), "https://a.com/x");
    assert_eq!(replace_second_slash("https://a.com/x"), "https://a.com/x");
    assert_eq!(replace_second_slash("a///b"), "a///b");
    assert_eq!(replace_second_slash("a//b//c//d"), "a//b/c//d");
    assert_eq!(replace_second_slash(""), "");
}

#[test]
fn new_posts_are_those_after_last_run() {
    let posts = vec![post("a", 10), post("b", 5), post("c", 11), post("d", 10)];
    let new = select_new_posts(posts, 10);
    assert_eq!(new.len(), 1);
    assert_eq!(new[0].url, "c");
    let all = select_new_posts(vec![post("a", 1), post("b", 2)], 0);
    assert_eq!(all.iter().map(|p| p.url.clone()).collect::<Vec<_>>(), vec![s("a"), s("b")]);
}

#[test]
fn config_and_paths() {
    let c = Config::new("/tmp/out.json");
    assert_eq!(c.get_save_path(), "/tmp/out.json");
    assert_eq!(default_save_path("/home/u"), "/home/u/.blogworm/new_post.json");
    assert_eq!(default_save_path("/home/u/"), "/home/u/.blogworm/new_post.json");
    assert_eq!(default_save_path(""), ".blogworm/new_post.json");
    assert_eq!(home_path("/home/u", "/etc/x"), "/etc/x");
    assert_eq!(home_path("/home/u", ".blogworm/timestamp"), "/home/u/.blogworm/timestamp");
}
