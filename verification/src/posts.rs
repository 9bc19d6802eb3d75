//! Blog posts and their sources: which links a source's front page lists,
//! and what a post page says of its title, author, content and time.
use vstd::prelude::*;

use crate::html::{
    capture_group, scraper_select_attribute, scraper_select_inner_html,
    scraper_select_nested_attribute, scraper_select_nested_inner_html, regex_capture_group,
    select_attribute, select_inner_html, select_nested_attribute, select_nested_inner_html,
    Document,
};
use crate::links::{
    is_path_of_post_link, lemma_dedup, lemma_inner_values_is_flatten, lemma_values_containing_filter_map, lemma_flatten_texts_is_flatten, lemma_present_values_filter_map,
    lemma_profile_paths, after_last_markers, before_first_markers, dedup_links, first_text, flatten_texts,
    inner_values, last_segments, present_values, profile_hrefs, profile_paths,
    spec_after_last_markers, spec_before_first_markers, spec_dedup, spec_first_text,
    spec_flatten_texts, spec_inner_values, spec_last_segments, spec_present_values,
    spec_profile_hrefs, spec_profile_paths, spec_values_containing, values_containing,
};
use crate::text::{chars_of, contains, string_of, text_is};
use crate::time::{checked_parse_time, chrono_rfc3339_timestamp, spec_page_time, spec_parse_time};
use crate::text::trim;

verus! {

/// A blog post.
pub struct Post {
    pub content: String,
    pub author: String,
    pub title: String,
    /// UNIX timestamp of its publication.
    pub create_timestamp: u64,
    pub url: String,
}

/// A post, as text.
pub struct PostView {
    pub content: Seq<char>,
    pub author: Seq<char>,
    pub title: Seq<char>,
    pub create_timestamp: u64,
    pub url: Seq<char>,
}

impl View for Post {
    type V = PostView;

    open spec fn view(&self) -> PostView {
        PostView {
            content: self.content@,
            author: self.author@,
            title: self.title@,
            create_timestamp: self.create_timestamp,
            url: self.url@,
        }
    }
}

/// A blog that posts are fetched from, with the CSS selectors that find
/// its post links and the parts of its post pages.
pub struct Postsrc {
    pub name: String,
    pub postsrc_id: u32,
    pub website: String,
    pub link_class: String,
    pub author_class: String,
    pub content_class: String,
    pub title_class: String,
    pub time_class: String,
}

/// A post source, as text.
pub struct PostsrcView {
    pub name: Seq<char>,
    pub postsrc_id: u32,
    pub website: Seq<char>,
    pub link_class: Seq<char>,
    pub author_class: Seq<char>,
    pub content_class: Seq<char>,
    pub title_class: Seq<char>,
    pub time_class: Seq<char>,
}

impl View for Postsrc {
    type V = PostsrcView;

    open spec fn view(&self) -> PostsrcView {
        PostsrcView {
            name: self.name@,
            postsrc_id: self.postsrc_id,
            website: self.website@,
            link_class: self.link_class@,
            author_class: self.author_class@,
            content_class: self.content_class@,
            title_class: self.title_class@,
            time_class: self.time_class@,
        }
    }
}

// ---------------------------------------------------------------------
// Links on a source's front page
// ---------------------------------------------------------------------

/// The selector of the post links of the third source.
pub open spec fn spec_profile_selector(link_class: Seq<char>) -> Seq<char> {
    "a."@ + link_class + ":not([href*='/tag/pentest*'])"@
}

/// The links that the front page `doc` of a source of kind `post_id`
/// lists, found with the selector `link_class`; `None` where they cannot
/// be read:
/// - 2: the `href` of the `a` elements in `div.link` elements;
/// - 3: the paths (before `?`) of the `/@name/post?...` links matched by
///   the profile selector inside `div` elements whose classes are all `l`,
///   each once;
/// - 4: the `href="..."` values in the inner HTML of the first `noscript`;
/// - 5 and 8: the last path segment of each `href` (8: followed by `/`);
/// - 10: the `data-url` values that mention 2023;
/// - any other: the `href` of each element.
pub open spec fn spec_parse_postsrc(doc: Seq<char>, link_class: Seq<char>, post_id: u32) -> Option<
    Seq<Seq<char>>,
> {
    if post_id == 2 {
        match scraper_select_nested_attribute(doc, "div.link"@, "a"@, "class"@, "href"@) {
            Some(groups) => Some(spec_present_values(spec_inner_values(groups))),
            None => None,
        }
    } else if post_id == 3 {
        match scraper_select_nested_attribute(
            doc,
            "div.l:not([class*= ' '])"@,
            spec_profile_selector(link_class),
            "class"@,
            "href"@,
        ) {
            Some(groups) => match spec_profile_paths(spec_profile_hrefs(groups)) {
                Some(paths) => Some(spec_dedup(paths)),
                None => None,
            },
            None => None,
        }
    } else if post_id == 4 {
        match scraper_select_inner_html(doc, "noscript"@) {
            Some(htmls) => if htmls.len() == 0 {
                None
            } else {
                match regex_capture_group("href=\"([^\"]+)\""@, htmls[0], 1) {
                    Some(caps) => Some(spec_present_values(caps)),
                    None => None,
                }
            },
            None => None,
        }
    } else if post_id == 5 || post_id == 8 {
        match scraper_select_attribute(doc, link_class, "href"@) {
            Some(hrefs) => spec_last_segments(
                hrefs,
                if post_id == 8 {
                    "/"@
                } else {
                    ""@
                },
            ),
            None => None,
        }
    } else if post_id == 10 {
        match scraper_select_attribute(doc, link_class, "data-url"@) {
            Some(urls) => Some(spec_values_containing(urls, "2023"@)),
            None => None,
        }
    } else {
        match scraper_select_attribute(doc, link_class, "href"@) {
            Some(hrefs) => Some(spec_present_values(hrefs)),
            None => None,
        }
    }
}

fn profile_selector(link_class: &str) -> (s: String)
    ensures
        s@ == spec_profile_selector(link_class@),
{
    let mut cs = chars_of("a.");
    let mut middle = chars_of(link_class);
    let mut tail = chars_of(":not([href*='/tag/pentest*'])");
    cs.append(&mut middle);
    cs.append(&mut tail);
    string_of(cs.as_slice())
}

fn postsrc_links(document_body: &str, link_class: &str, post_id: u32) -> (r: Option<Vec<String>>)
    ensures
        r.deep_view() == spec_parse_postsrc(document_body@, link_class@, post_id),
{
    if post_id == 2 {
        match select_nested_attribute(document_body, "div.link", "a", "class", "href") {
            Some(groups) => Some(present_values(&inner_values(&groups))),
            None => None,
        }
    } else if post_id == 3 {
        let inner = profile_selector(link_class);
        match select_nested_attribute(
            document_body,
            "div.l:not([class*= ' '])",
            inner.as_str(),
            "class",
            "href",
        ) {
            Some(groups) => match profile_paths(&profile_hrefs(&groups)) {
                Some(paths) => Some(dedup_links(&paths)),
                None => None,
            },
            None => None,
        }
    } else if post_id == 4 {
        match select_inner_html(document_body, "noscript") {
            Some(htmls) => {
                if htmls.len() == 0 {
                    None
                } else {
                    match capture_group("href=\"([^\"]+)\"", htmls[0].as_str(), 1) {
                        Some(caps) => Some(present_values(&caps)),
                        None => None,
                    }
                }
            },
            None => None,
        }
    } else if post_id == 5 || post_id == 8 {
        match select_attribute(document_body, link_class, "href") {
            Some(hrefs) => last_segments(
                &hrefs,
                if post_id == 8 {
                    "/"
                } else {
                    ""
                },
            ),
            None => None,
        }
    } else if post_id == 10 {
        match select_attribute(document_body, link_class, "data-url") {
            Some(urls) => Some(values_containing(&urls, "2023")),
            None => None,
        }
    } else {
        match select_attribute(document_body, link_class, "href") {
            Some(hrefs) => Some(present_values(&hrefs)),
            None => None,
        }
    }
}

/// The post links that the front page `document_body` of a source of kind
/// `post_id` lists (see [`spec_parse_postsrc`]), where they can be read.
pub fn parse_postsrc(document_body: &str, link_class: &str, post_id: u32) -> (r: Vec<String>)
    requires
        spec_parse_postsrc(document_body@, link_class@, post_id) is Some,
    ensures
        Some(r.deep_view()) == spec_parse_postsrc(document_body@, link_class@, post_id),
{
    match postsrc_links(document_body, link_class, post_id) {
        Some(links) => links,
        None => Vec::new(),
    }
}

/// [`parse_postsrc`] where the links can be read; `None` elsewhere.
pub fn checked_parse_postsrc(document_body: &str, link_class: &str, post_id: u32) -> (r: Option<
    Vec<String>,
>)
    ensures
        r.deep_view() == spec_parse_postsrc(document_body@, link_class@, post_id),
{
    if postsrc_links(document_body, link_class, post_id).is_some() {
        Some(parse_postsrc(document_body, link_class, post_id))
    } else {
        None
    }
}

/// What the other kinds of source list: for the second, the `href` of
/// every `a` inside every `div.link`, in order, skipping those without
/// one; for the tenth, the `data-url` values of the selected elements that
/// mention 2023, in order; for a kind without a rule of its own, the `href`
/// of every selected element that has one, in order.
pub proof fn lemma_front_page_links(doc: Seq<char>, link_class: Seq<char>, post_id: u32)
    ensures
        post_id == 2 ==> spec_parse_postsrc(doc, link_class, post_id) == (
        match scraper_select_nested_attribute(doc, "div.link"@, "a"@, "class"@, "href"@) {
            Some(groups) => Some(
                groups.map_values(|g: (Option<Seq<char>>, Seq<Option<Seq<char>>>)| g.1).flatten().filter_map(
                    |o: Option<Seq<char>>| o,
                ),
            ),
            None => None,
        }),
        post_id == 10 ==> spec_parse_postsrc(doc, link_class, post_id) == (
        match scraper_select_attribute(doc, link_class, "data-url"@) {
            Some(urls) => Some(
                urls.filter_map(
                    |o: Option<Seq<char>>|
                        match o {
                            Some(v) => if contains(v, "2023"@) {
                                Some(v)
                            } else {
                                None
                            },
                            None => None,
                        },
                ),
            ),
            None => None,
        }),
        !(2 <= post_id <= 5) && post_id != 8 && post_id != 10 ==> spec_parse_postsrc(
            doc,
            link_class,
            post_id,
        ) == (match scraper_select_attribute(doc, link_class, "href"@) {
            Some(hrefs) => Some(hrefs.filter_map(|o: Option<Seq<char>>| o)),
            None => None,
        }),
{
    match scraper_select_nested_attribute(doc, "div.link"@, "a"@, "class"@, "href"@) {
        Some(groups) => {
            lemma_inner_values_is_flatten(groups);
            lemma_present_values_filter_map(spec_inner_values(groups));
        },
        None => {},
    }
    match scraper_select_attribute(doc, link_class, "data-url"@) {
        Some(urls) => lemma_values_containing_filter_map(urls, "2023"@),
        None => {},
    }
    match scraper_select_attribute(doc, link_class, "href"@) {
        Some(hrefs) => lemma_present_values_filter_map(hrefs),
        None => {},
    }
}

/// The links of a source of the fourth kind come from the first
/// `noscript` element of its front page: they are the `href="..."` values
/// that the expression finds in that element's inner HTML, in order; there
/// are none to read when the page has no `noscript` element.
pub proof fn lemma_source_four_reads_first_noscript(doc: Seq<char>, link_class: Seq<char>)
    ensures
        spec_parse_postsrc(doc, link_class, 4) == (match scraper_select_inner_html(doc, "noscript"@) {
            Some(htmls) => if htmls.len() == 0 {
                None
            } else {
                match regex_capture_group("href=\"([^\"]+)\""@, htmls.first(), 1) {
                    Some(caps) => Some(caps.filter_map(|o: Option<Seq<char>>| o)),
                    None => None,
                }
            },
            None => None,
        }),
{
    match scraper_select_inner_html(doc, "noscript"@) {
        Some(htmls) => if htmls.len() > 0 {
            match regex_capture_group("href=\"([^\"]+)\""@, htmls.first(), 1) {
                Some(caps) => lemma_present_values_filter_map(caps),
                None => {},
            }
        },
        None => {},
    }
}

/// A source of the third kind lists only the posts of profiles: each of its
/// links is the part before the first `?` of a selected link that starts
/// with `/@` and holds exactly two `/`, so a link with more `/` (such as a
/// reading list) never gives one.
pub proof fn lemma_source_three_lists_post_links(doc: Seq<char>, link_class: Seq<char>)
    ensures
        spec_parse_postsrc(doc, link_class, 3) is Some ==> {
            let groups = scraper_select_nested_attribute(
                doc,
                "div.l:not([class*= ' '])"@,
                spec_profile_selector(link_class),
                "class"@,
                "href"@,
            );
            &&& groups is Some
            &&& forall|k: int|
                0 <= k < spec_parse_postsrc(doc, link_class, 3)->0.len() ==> is_path_of_post_link(
                    spec_profile_hrefs(groups->0),
                    #[trigger] spec_parse_postsrc(doc, link_class, 3)->0[k],
                )
        },
{
    let groups = scraper_select_nested_attribute(
        doc,
        "div.l:not([class*= ' '])"@,
        spec_profile_selector(link_class),
        "class"@,
        "href"@,
    );
    if spec_parse_postsrc(doc, link_class, 3) is Some {
        let hrefs = spec_profile_hrefs(groups->0);
        let paths = spec_profile_paths(hrefs)->0;
        let links = spec_parse_postsrc(doc, link_class, 3)->0;
        lemma_profile_paths(hrefs);
        lemma_dedup(paths);
        assert(links == spec_dedup(paths));
        assert forall|k: int| 0 <= k < links.len() implies is_path_of_post_link(
            hrefs,
            #[trigger] links[k],
        ) by {
            assert(links.contains(links[k]));
            assert(paths.contains(links[k]));
            let j = choose|j: int| 0 <= j < paths.len() && paths[j] == links[k];
            assert(is_path_of_post_link(hrefs, paths[j]));
        }
    }
}

// ---------------------------------------------------------------------
// Parts of a post page
// ---------------------------------------------------------------------

/// The `content` attributes of the elements that `class` selects.
pub open spec fn spec_content_values(doc: Seq<char>, class: Seq<char>) -> Option<Seq<Seq<char>>> {
    match scraper_select_attribute(doc, class, "content"@) {
        Some(v) => Some(spec_present_values(v)),
        None => None,
    }
}

/// The texts that the selector `class` picks out of the post page `doc` of
/// a source of kind `post_id`; `None` where they cannot be read:
/// - 3, 4, 8, 9: the inner HTML for `p.lead.my-3`, else `content` attributes;
/// - 5, 7: inner HTML for `a.author.url.fn`, `datetime` attributes for
///   `time.entry-date.published` and `time`, else `content` attributes;
/// - 6: for two container selectors, the inner HTML of the `span`s (resp.
///   `h2`s) inside them, else `content` attributes;
/// - 10: the first `div.post > p`, the titles, the text after the last
///   "Posted by " of each `span.post-date`, or (any other selector) the
///   text before the first " - Posted by " of each `span.post-date`;
/// - any other: the inner HTML of each selected element.
pub open spec fn spec_handle_parse_post(class: Seq<char>, doc: Seq<char>, post_id: u32) -> Option<
    Seq<Seq<char>>,
> {
    if post_id == 3 || post_id == 4 || post_id == 8 || post_id == 9 {
        if class == "p.lead.my-3"@ {
            scraper_select_inner_html(doc, class)
        } else {
            spec_content_values(doc, class)
        }
    } else if post_id == 5 || post_id == 7 {
        if class == "a.author.url.fn"@ {
            scraper_select_inner_html(doc, class)
        } else if class == "time.entry-date.published"@ || class == "time"@ {
            match scraper_select_attribute(doc, class, "datetime"@) {
                Some(v) => Some(spec_present_values(v)),
                None => None,
            }
        } else {
            spec_content_values(doc, class)
        }
    } else if post_id == 6 {
        if class == "div.flex.flex-wrap.items-center.gap-x-2.font-semibold"@ {
            match scraper_select_nested_inner_html(
                doc,
                class,
                "span:not([class*= 'text-subtle.mx-2'])"@,
            ) {
                Some(groups) => Some(spec_flatten_texts(groups)),
                None => None,
            }
        } else if class == "div.rich-text"@ {
            match scraper_select_nested_inner_html(doc, class, "h2"@) {
                Some(groups) => Some(spec_flatten_texts(groups)),
                None => None,
            }
        } else {
            spec_content_values(doc, class)
        }
    } else if post_id == 10 {
        if class == "div.post > p"@ {
            match scraper_select_inner_html(doc, class) {
                Some(v) => Some(spec_first_text(v)),
                None => None,
            }
        } else if class == "h1.post-title"@ {
            scraper_select_inner_html(doc, class)
        } else if class == "span.post-date"@ {
            match scraper_select_inner_html(doc, class) {
                Some(v) => spec_after_last_markers(v, "Posted by "@),
                None => None,
            }
        } else {
            match scraper_select_inner_html(doc, "span.post-date"@) {
                Some(v) => spec_before_first_markers(v, " - Posted by "@),
                None => None,
            }
        }
    } else {
        scraper_select_inner_html(doc, class)
    }
}

fn content_values(document: &str, class_name: &str) -> (r: Option<Vec<String>>)
    ensures
        r.deep_view() == spec_content_values(document@, class_name@),
{
    match select_attribute(document, class_name, "content") {
        Some(v) => Some(present_values(&v)),
        None => None,
    }
}

fn post_values(class_name: &str, document: &Document, post_id: u32) -> (r: Option<Vec<String>>)
    ensures
        r.deep_view() == spec_handle_parse_post(class_name@, document@, post_id),
{
    let doc = document.body();
    if post_id == 3 || post_id == 4 || post_id == 8 || post_id == 9 {
        if text_is(class_name, "p.lead.my-3") {
            select_inner_html(doc, class_name)
        } else {
            content_values(doc, class_name)
        }
    } else if post_id == 5 || post_id == 7 {
        if text_is(class_name, "a.author.url.fn") {
            select_inner_html(doc, class_name)
        } else if text_is(class_name, "time.entry-date.published") || text_is(class_name, "time") {
            match select_attribute(doc, class_name, "datetime") {
                Some(v) => Some(present_values(&v)),
                None => None,
            }
        } else {
            content_values(doc, class_name)
        }
    } else if post_id == 6 {
        if text_is(class_name, "div.flex.flex-wrap.items-center.gap-x-2.font-semibold") {
            match select_nested_inner_html(
                doc,
                class_name,
                "span:not([class*= 'text-subtle.mx-2'])",
            ) {
                Some(groups) => Some(flatten_texts(&groups)),
                None => None,
            }
        } else if text_is(class_name, "div.rich-text") {
            match select_nested_inner_html(doc, class_name, "h2") {
                Some(groups) => Some(flatten_texts(&groups)),
                None => None,
            }
        } else {
            content_values(doc, class_name)
        }
    } else if post_id == 10 {
        if text_is(class_name, "div.post > p") {
            match select_inner_html(doc, class_name) {
                Some(v) => Some(first_text(&v)),
                None => None,
            }
        } else if text_is(class_name, "h1.post-title") {
            select_inner_html(doc, class_name)
        } else if text_is(class_name, "span.post-date") {
            proof {
                reveal_strlit("Posted by ");
            }
            match select_inner_html(doc, class_name) {
                Some(v) => after_last_markers(&v, "Posted by "),
                None => None,
            }
        } else {
            proof {
                reveal_strlit(" - Posted by ");
            }
            match select_inner_html(doc, "span.post-date") {
                Some(v) => before_first_markers(&v, " - Posted by "),
                None => None,
            }
        }
    } else {
        select_inner_html(doc, class_name)
    }
}

/// The texts that the selector `class_name` picks out of the post page
/// `document` of a source of kind `post_id` (see
/// [`spec_handle_parse_post`]), where they can be read.
pub fn handle_parse_post(class_name: &str, document: &Document, post_id: u32) -> (r: Vec<String>)
    requires
        spec_handle_parse_post(class_name@, document@, post_id) is Some,
    ensures
        Some(r.deep_view()) == spec_handle_parse_post(class_name@, document@, post_id),
{
    match post_values(class_name, document, post_id) {
        Some(v) => v,
        None => Vec::new(),
    }
}

/// [`handle_parse_post`] where the texts can be read; `None` elsewhere.
pub fn checked_handle_parse_post(class_name: &str, document: &Document, post_id: u32) -> (r: Option<
    Vec<String>,
>)
    ensures
        r.deep_view() == spec_handle_parse_post(class_name@, document@, post_id),
{
    if post_values(class_name, document, post_id).is_some() {
        Some(handle_parse_post(class_name, document, post_id))
    } else {
        None
    }
}

// ---------------------------------------------------------------------
// A whole post page
// ---------------------------------------------------------------------

/// The post that the page `doc` at `url` of a source of kind `post_id`
/// shows: the first content, author and title found with the given
/// selectors, and the time read from the first time text (the last one for
/// source 6); `None` where one of them is missing or cannot be read.
pub open spec fn spec_parse_post(
    doc: Seq<char>,
    time_class: Seq<char>,
    title_class: Seq<char>,
    author_class: Seq<char>,
    content_class: Seq<char>,
    post_id: u32,
    url: Seq<char>,
) -> Option<PostView> {
    match (
        spec_handle_parse_post(time_class, doc, post_id),
        spec_handle_parse_post(title_class, doc, post_id),
        spec_handle_parse_post(author_class, doc, post_id),
        spec_handle_parse_post(content_class, doc, post_id),
    ) {
        (Some(times), Some(titles), Some(authors), Some(contents)) => {
            if times.len() == 0 || titles.len() == 0 || authors.len() == 0 || contents.len() == 0 {
                None
            } else {
                let time = if post_id == 6 {
                    times.last()
                } else {
                    times[0]
                };
                match spec_parse_time(post_id, time) {
                    Some(t) => Some(
                        PostView {
                            content: contents[0],
                            author: authors[0],
                            title: titles[0],
                            create_timestamp: t,
                            url,
                        },
                    ),
                    None => None,
                }
            }
        },
        _ => None,
    }
}

fn post_from_page(
    document_body: &str,
    time_class: &str,
    title_class: &str,
    author_class: &str,
    content_class: &str,
    post_id: u32,
    post_url: String,
) -> (r: Option<Post>)
    ensures
        match r {
            Some(p) => spec_parse_post(
                document_body@,
                time_class@,
                title_class@,
                author_class@,
                content_class@,
                post_id,
                post_url@,
            ) == Some(p@),
            None => spec_parse_post(
                document_body@,
                time_class@,
                title_class@,
                author_class@,
                content_class@,
                post_id,
                post_url@,
            ) is None,
        },
{
    let document = Document::parse_document(document_body);
    let times = post_values(time_class, &document, post_id);
    let titles = post_values(title_class, &document, post_id);
    let authors = post_values(author_class, &document, post_id);
    let contents = post_values(content_class, &document, post_id);
    match (times, titles, authors, contents) {
        (Some(times), Some(titles), Some(authors), Some(contents)) => {
            if times.len() == 0 || titles.len() == 0 || authors.len() == 0 || contents.len() == 0 {
                return None;
            }
            let time = if post_id == 6 {
                &times[times.len() - 1]
            } else {
                &times[0]
            };
            assert(time@ == (if post_id == 6 {
                times.deep_view().last()
            } else {
                times.deep_view()[0]
            }));
            match checked_parse_time(post_id, time.as_str()) {
                Some(t) => Some(
                    Post {
                        content: contents[0].clone(),
                        author: authors[0].clone(),
                        title: titles[0].clone(),
                        create_timestamp: t,
                        url: post_url,
                    },
                ),
                None => None,
            }
        },
        _ => None,
    }
}

/// The post that the page `document_body` at `post_url` of a source of
/// kind `post_id` shows (see [`spec_parse_post`]), where it can be read.
pub fn parse_post(
    document_body: &str,
    time_class: &str,
    title_class: &str,
    author_class: &str,
    content_class: &str,
    post_id: u32,
    post_url: String,
) -> (r: Post)
    requires
        spec_parse_post(
            document_body@,
            time_class@,
            title_class@,
            author_class@,
            content_class@,
            post_id,
            post_url@,
        ) is Some,
    ensures
        spec_parse_post(
            document_body@,
            time_class@,
            title_class@,
            author_class@,
            content_class@,
            post_id,
            post_url@,
        ) == Some(r@),
        r.title@ == spec_handle_parse_post(title_class@, document_body@, post_id)->0.first(),
        r.author@ == spec_handle_parse_post(author_class@, document_body@, post_id)->0.first(),
        r.content@ == spec_handle_parse_post(content_class@, document_body@, post_id)->0.first(),
        r.url@ == post_url@,
{
    let ghost url = post_url@;
    proof {
        lemma_post_parts_are_first_texts(
            document_body@,
            time_class@,
            title_class@,
            author_class@,
            content_class@,
            post_id,
            post_url@,
        );
    }
    match post_from_page(
        document_body,
        time_class,
        title_class,
        author_class,
        content_class,
        post_id,
        post_url,
    ) {
        Some(p) => p,
        None => Post {
            content: String::new(),
            author: String::new(),
            title: String::new(),
            create_timestamp: 0,
            url: String::new(),
        },
    }
}

/// [`parse_post`] where the post can be read; `None` elsewhere.
pub fn checked_parse_post(
    document_body: &str,
    time_class: &str,
    title_class: &str,
    author_class: &str,
    content_class: &str,
    post_id: u32,
    post_url: String,
) -> (r: Option<Post>)
    ensures
        match r {
            Some(p) => spec_parse_post(
                document_body@,
                time_class@,
                title_class@,
                author_class@,
                content_class@,
                post_id,
                post_url@,
            ) == Some(p@),
            None => spec_parse_post(
                document_body@,
                time_class@,
                title_class@,
                author_class@,
                content_class@,
                post_id,
                post_url@,
            ) is None,
        },
{
    let probe = post_from_page(
        document_body,
        time_class,
        title_class,
        author_class,
        content_class,
        post_id,
        post_url.clone(),
    );
    if probe.is_some() {
        Some(
            parse_post(
                document_body,
                time_class,
                title_class,
                author_class,
                content_class,
                post_id,
                post_url,
            ),
        )
    } else {
        None
    }
}

/// On a source of the sixth kind, the author-and-date and the heading
/// selectors read every text found inside the selected containers: the
/// `span`s (resp. `h2`s) of all containers, container after container, none
/// of them dropped.
pub proof fn lemma_source_six_reads_every_inner_text(doc: Seq<char>)
    ensures
        spec_handle_parse_post("div.flex.flex-wrap.items-center.gap-x-2.font-semibold"@, doc, 6) == (
        match scraper_select_nested_inner_html(
            doc,
            "div.flex.flex-wrap.items-center.gap-x-2.font-semibold"@,
            "span:not([class*= 'text-subtle.mx-2'])"@,
        ) {
            Some(groups) => Some(groups.flatten()),
            None => None,
        }),
        spec_handle_parse_post("div.rich-text"@, doc, 6) == (match scraper_select_nested_inner_html(
            doc,
            "div.rich-text"@,
            "h2"@,
        ) {
            Some(groups) => Some(groups.flatten()),
            None => None,
        }),
{
    match scraper_select_nested_inner_html(
        doc,
        "div.flex.flex-wrap.items-center.gap-x-2.font-semibold"@,
        "span:not([class*= 'text-subtle.mx-2'])"@,
    ) {
        Some(groups) => lemma_flatten_texts_is_flatten(groups),
        None => {},
    }
    reveal_strlit("div.rich-text");
    reveal_strlit("div.flex.flex-wrap.items-center.gap-x-2.font-semibold");
    assert("div.rich-text"@[4] != "div.flex.flex-wrap.items-center.gap-x-2.font-semibold"@[4]);
    match scraper_select_nested_inner_html(doc, "div.rich-text"@, "h2"@) {
        Some(groups) => lemma_flatten_texts_is_flatten(groups),
        None => {},
    }
}

/// A post read from a page takes its title, author and content from the
/// first text that each of their selectors picks on the page, its time
/// from the first time text (the last one on source 6, where the texts
/// picked end with the date), and keeps the URL it was given.
pub proof fn lemma_post_parts_are_first_texts(
    doc: Seq<char>,
    time_class: Seq<char>,
    title_class: Seq<char>,
    author_class: Seq<char>,
    content_class: Seq<char>,
    post_id: u32,
    url: Seq<char>,
)
    ensures
        spec_parse_post(doc, time_class, title_class, author_class, content_class, post_id, url) is Some
            ==> {
            let p = spec_parse_post(
                doc,
                time_class,
                title_class,
                author_class,
                content_class,
                post_id,
                url,
            )->0;
            let titles = spec_handle_parse_post(title_class, doc, post_id);
            let authors = spec_handle_parse_post(author_class, doc, post_id);
            let contents = spec_handle_parse_post(content_class, doc, post_id);
            let times = spec_handle_parse_post(time_class, doc, post_id);
            &&& titles is Some && titles->0.len() > 0 && p.title == titles->0.first()
            &&& authors is Some && authors->0.len() > 0 && p.author == authors->0.first()
            &&& contents is Some && contents->0.len() > 0 && p.content == contents->0.first()
            &&& p.url == url
            &&& times is Some && times->0.len() > 0
            &&& spec_parse_time(post_id, if post_id == 6 { times->0.last() } else { times->0.first() })
                == Some(p.create_timestamp)
        },
{
}

/// The time text a post page of source `post_id` is dated by: the first
/// text the time selector picks (the last one for source 6).
pub open spec fn spec_post_time_text(
    doc: Seq<char>,
    time_class: Seq<char>,
    post_id: u32,
) -> Option<Seq<char>> {
    match spec_handle_parse_post(time_class, doc, post_id) {
        Some(times) => if times.len() == 0 {
            None
        } else if post_id == 6 {
            Some(times.last())
        } else {
            Some(times[0])
        },
        None => None,
    }
}

/// A post is dated by the time its page shows: for a source other than the
/// first three, the creation time of a post read from a page is the time
/// its time text shows, in whichever known form it is written (an RFC 3339
/// time such as a `datetime` attribute holds, in particular, gives exactly
/// its instant).
pub proof fn lemma_post_time_is_page_time(
    doc: Seq<char>,
    time_class: Seq<char>,
    title_class: Seq<char>,
    author_class: Seq<char>,
    content_class: Seq<char>,
    post_id: u32,
    url: Seq<char>,
)
    requires
        post_id != 1 && post_id != 2 && post_id != 3,
    ensures
        spec_parse_post(doc, time_class, title_class, author_class, content_class, post_id, url) matches Some(p)
            ==> spec_post_time_text(doc, time_class, post_id) matches Some(t)
            && p.create_timestamp == spec_page_time(trim(t))
            && (chrono_rfc3339_timestamp(trim(t)) is Some && chrono_rfc3339_timestamp(trim(t))->0 >= 0
            ==> p.create_timestamp == chrono_rfc3339_timestamp(trim(t))->0),
{
}

/// Sources without a rule of their own read any selector the same way:
/// the inner HTML of every element it selects.
pub proof fn lemma_plain_sources_agree(class: Seq<char>, doc: Seq<char>, a: u32, b: u32)
    requires
        !(3 <= a <= 10),
        !(3 <= b <= 10),
    ensures
        spec_handle_parse_post(class, doc, a) == spec_handle_parse_post(class, doc, b),
        spec_handle_parse_post(class, doc, a) == scraper_select_inner_html(doc, class),
{
}

/// On source 10, every selector other than its three special ones reads the
/// same texts: the dates of the `span.post-date` elements.
pub proof fn lemma_source_ten_other_selectors_agree(c1: Seq<char>, c2: Seq<char>, doc: Seq<char>)
    requires
        c1 != "div.post > p"@ && c1 != "h1.post-title"@ && c1 != "span.post-date"@,
        c2 != "div.post > p"@ && c2 != "h1.post-title"@ && c2 != "span.post-date"@,
    ensures
        spec_handle_parse_post(c1, doc, 10) == spec_handle_parse_post(c2, doc, 10),
{
}

} // verus!
