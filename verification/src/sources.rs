//! The list of blog sources, the absolute URLs of the links found on a
//! source, and which fetched posts are new since the last run.
use vstd::prelude::*;

use crate::posts::{Post, PostView, Postsrc, PostsrcView};
use crate::run::{spec_next_run, TimestampError};
use crate::text::{
    chars_of, ends_with, ends_with_exec, first_match_from, first_match_from_exec, join, join_exec,
    slice_of, split, split_exec, starts_with, starts_with_exec, string_of,
};

verus! {

// ---------------------------------------------------------------------
// Finding a source by name
// ---------------------------------------------------------------------

/// The first source in `sources` named `name`.
pub open spec fn spec_find_source(sources: Seq<PostsrcView>, name: Seq<char>) -> Option<PostsrcView>
    decreases sources.len(),
{
    if sources.len() == 0 {
        None
    } else if sources[0].name == name {
        Some(sources[0])
    } else {
        spec_find_source(sources.drop_first(), name)
    }
}

/// `i` is the position of the first source in `sources` named `name`.
pub open spec fn is_first_named(sources: Seq<PostsrcView>, name: Seq<char>, i: int) -> bool {
    &&& 0 <= i < sources.len()
    &&& sources[i].name == name
    &&& forall|j: int| 0 <= j < i ==> sources[j].name != name
}

/// The source found for a name is named exactly so, and it is the first
/// source of the list with that name; none is found exactly when no source
/// of the list has that name.
pub proof fn lemma_find_source(sources: Seq<PostsrcView>, name: Seq<char>)
    ensures
        spec_find_source(sources, name) is Some ==> spec_find_source(sources, name)->0.name == name
            && exists|i: int|
            is_first_named(sources, name, i) && sources[i] == spec_find_source(sources, name)->0,
        spec_find_source(sources, name) is None <==> forall|i: int|
            0 <= i < sources.len() ==> sources[i].name != name,
    decreases sources.len(),
{
    if sources.len() > 0 {
        if sources[0].name == name {
            assert(is_first_named(sources, name, 0));
        } else {
            let rest = sources.drop_first();
            lemma_find_source(rest, name);
            if spec_find_source(rest, name) is Some {
                let i = choose|i: int|
                    is_first_named(rest, name, i) && rest[i] == spec_find_source(rest, name)->0;
                assert forall|j: int| 0 <= j < i + 1 implies sources[j].name != name by {
                    if j > 0 {
                        assert(sources[j] == rest[j - 1]);
                    }
                }
                assert(sources[i + 1] == rest[i]);
                assert(is_first_named(sources, name, i + 1));
            } else {
                assert forall|i: int| 0 <= i < sources.len() implies sources[i].name != name by {
                    if i > 0 {
                        assert(sources[i] == rest[i - 1]);
                    }
                }
            }
        }
    }
}

/// A copy of the source.
pub fn copy_postsrc(p: &Postsrc) -> (r: Postsrc)
    ensures
        r@ == p@,
{
    Postsrc {
        name: p.name.clone(),
        postsrc_id: p.postsrc_id,
        website: p.website.clone(),
        link_class: p.link_class.clone(),
        author_class: p.author_class.clone(),
        content_class: p.content_class.clone(),
        title_class: p.title_class.clone(),
        time_class: p.time_class.clone(),
    }
}

/// The first source of `sources` named `postname`, if any.
pub fn check_name(postname: String, sources: &Vec<Postsrc>) -> (r: Option<Postsrc>)
    ensures
        match r {
            Some(p) => spec_find_source(sources@.map_values(|s: Postsrc| s@), postname@) == Some(
                p@,
            ),
            None => spec_find_source(sources@.map_values(|s: Postsrc| s@), postname@) is None,
        },
        r is Some ==> r->0.name@ == postname@,
        r is None <==> forall|i: int| 0 <= i < sources.len() ==> sources@[i].name@ != postname@,
{
    let ghost all = sources@.map_values(|s: Postsrc| s@);
    proof {
        lemma_find_source(all, postname@);
        assert forall|i: int| 0 <= i < sources.len() implies #[trigger] sources@[i].name@ == all[i].name by {}
    }
    let mut k: usize = 0;
    assert(all.skip(0) == all);
    while k < sources.len()
        invariant
            k <= sources.len(),
            all == sources@.map_values(|s: Postsrc| s@),
            spec_find_source(all, postname@) == spec_find_source(all.skip(k as int), postname@),
        decreases sources.len() - k,
    {
        assert(all.skip(k as int)[0] == sources@[k as int]@);
        if sources[k].name == postname {
            assert(sources@[k as int].name@ == postname@);
            return Some(copy_postsrc(&sources[k]));
        }
        assert(all.skip(k as int).drop_first() == all.skip(k + 1));
        k = k + 1;
    }
    None
}

// ---------------------------------------------------------------------
// Absolute links
// ---------------------------------------------------------------------

/// The scheme and host of a website URL: its first three `/`-separated
/// pieces, joined again with `/` (`https://host` of `https://host/blog`).
pub open spec fn spec_site_root(website: Seq<char>) -> Seq<char> {
    let pieces = split(website, seq!['/']);
    join(
        if pieces.len() > 3 {
            pieces.take(3)
        } else {
            pieces
        },
        seq!['/'],
    )
}

/// The scheme and host of the website URL `website`.
pub fn site_root(website: &str) -> (r: Vec<char>)
    ensures
        r@ == spec_site_root(website@),
{
    let cs = chars_of(website);
    let slash: Vec<char> = vec!['/'];
    let pieces = split_exec(cs.as_slice(), slash.as_slice());
    let ghost all = pieces@.map_values(|p: Vec<char>| p@);
    assert(slash@ == seq!['/']);
    assert(all =~= split(website@, seq!['/']));
    let mut head: Vec<Vec<char>> = Vec::new();
    let mut i: usize = 0;
    while i < pieces.len() && i < 3
        invariant
            i <= pieces.len(),
            i <= 3,
            all == pieces@.map_values(|p: Vec<char>| p@),
            all == split(website@, seq!['/']),
            head@.map_values(|p: Vec<char>| p@) == all.take(i as int),
        decreases pieces.len() - i,
    {
        let ghost before = head@.map_values(|p: Vec<char>| p@);
        let v = pieces[i].clone();
        head.push(v);
        assert(all[i as int] == v@);
        assert(head@.map_values(|p: Vec<char>| p@) == before.push(v@));
        assert(all.take(i + 1) == all.take(i as int).push(all[i as int]));
        assert(head@.map_values(|p: Vec<char>| p@) == all.take(i + 1));
        i = i + 1;
    }
    assert(all.len() == pieces.len());
    assert(all.len() <= 3 ==> all.take(all.len() as int) == all);
    join_exec(&head, slash.as_slice())
}

/// A link found on a site, made absolute against the site root `root`: a
/// `/` between them unless `root` already ends with one.
pub open spec fn spec_absolute_link(root: Seq<char>, link: Seq<char>) -> Seq<char> {
    if ends_with(root, seq!['/']) {
        root + link
    } else {
        root + seq!['/'] + link
    }
}

/// The links found on `website`, made absolute against its root.
pub fn absolute_links(website: &str, links: &Vec<String>) -> (r: Vec<String>)
    ensures
        r.deep_view() == links.deep_view().map_values(
            |l: Seq<char>| spec_absolute_link(spec_site_root(website@), l),
        ),
{
    let root = site_root(website);
    let slash: Vec<char> = vec!['/'];
    let ghost want = links.deep_view().map_values(
        |l: Seq<char>| spec_absolute_link(spec_site_root(website@), l),
    );
    let mut r: Vec<String> = Vec::new();
    let mut i: usize = 0;
    while i < links.len()
        invariant
            i <= links.len(),
            root@ == spec_site_root(website@),
            slash@ == seq!['/'],
            want == links.deep_view().map_values(
                |l: Seq<char>| spec_absolute_link(spec_site_root(website@), l),
            ),
            r.deep_view() == want.take(i as int),
        decreases links.len() - i,
    {
        let mut url = root.clone();
        if !ends_with_exec(root.as_slice(), slash.as_slice()) {
            url.push('/');
        }
        let mut link = chars_of(links[i].as_str());
        url.append(&mut link);
        let s = string_of(url.as_slice());
        assert(s@ == want[i as int]);
        let ghost old_r = r;
        r.push(s);
        proof {
            crate::text::lemma_deep_view_push(old_r, r, s);
            assert(want.take(i + 1) == want.take(i as int).push(s@));
        }
        i = i + 1;
    }
    assert(want.take(links.len() as int) == want);
    r
}

/// `url` with its second `//` (the first one after the scheme's) made a
/// single `/`; unchanged when it has fewer than two.
pub open spec fn spec_replace_second_slash(url: Seq<char>) -> Seq<char> {
    let d = seq!['/', '/'];
    match first_match_from(url, d, 0) {
        Some(a) => match first_match_from(url, d, a + 2) {
            Some(b) => url.subrange(0, b) + seq!['/'] + url.subrange(b + 2, url.len() as int),
            None => url,
        },
        None => url,
    }
}

proof fn lemma_first_match_bounds(s: Seq<char>, p: Seq<char>, i: int)
    ensures
        first_match_from(s, p, i) matches Some(k) ==> i <= k && crate::text::matches_at(s, p, k),
    decreases s.len() - i,
{
    if !(i < 0 || i + p.len() > s.len()) && !crate::text::matches_at(s, p, i) && i < s.len() {
        lemma_first_match_bounds(s, p, i + 1);
    }
}

/// `url` with its second `//` made a single `/`.
pub fn replace_second_slash(url: &str) -> (r: String)
    ensures
        r@ == spec_replace_second_slash(url@),
{
    let cs = chars_of(url);
    let d: Vec<char> = vec!['/', '/'];
    proof {
        lemma_first_match_bounds(cs@, d@, 0);
    }
    match first_match_from_exec(cs.as_slice(), d.as_slice(), 0) {
        Some(a) => {
            proof {
                lemma_first_match_bounds(cs@, d@, a + 2);
            }
            if a > cs.len() - 2 {
                return string_of(cs.as_slice());
            }
            match first_match_from_exec(cs.as_slice(), d.as_slice(), a + 2) {
                Some(b) => {
                    let mut out = slice_of(cs.as_slice(), 0, b);
                    out.push('/');
                    let mut rest = slice_of(cs.as_slice(), b + 2, cs.len());
                    out.append(&mut rest);
                    string_of(out.as_slice())
                },
                None => string_of(cs.as_slice()),
            }
        },
        None => string_of(cs.as_slice()),
    }
}

/// A link found on a source fetched on its own, made absolute against the
/// site root `root`.
pub open spec fn spec_single_source_link(root: Seq<char>, link: Seq<char>) -> Seq<char> {
    spec_replace_second_slash(
        if starts_with(link, seq!['/']) {
            root + seq!['/'] + link
        } else {
            root + seq!['/', '/'] + link
        },
    )
}

/// The links found on the source `website` fetched on its own, made
/// absolute against its root.
pub fn single_source_links(website: &str, links: &Vec<String>) -> (r: Vec<String>)
    ensures
        r.deep_view() == links.deep_view().map_values(
            |l: Seq<char>| spec_single_source_link(spec_site_root(website@), l),
        ),
{
    let root = site_root(website);
    let slash: Vec<char> = vec!['/'];
    let ghost want = links.deep_view().map_values(
        |l: Seq<char>| spec_single_source_link(spec_site_root(website@), l),
    );
    let mut r: Vec<String> = Vec::new();
    let mut i: usize = 0;
    while i < links.len()
        invariant
            i <= links.len(),
            root@ == spec_site_root(website@),
            slash@ == seq!['/'],
            want == links.deep_view().map_values(
                |l: Seq<char>| spec_single_source_link(spec_site_root(website@), l),
            ),
            r.deep_view() == want.take(i as int),
        decreases links.len() - i,
    {
        let mut link = chars_of(links[i].as_str());
        let ghost l = link@;
        assert(l == links.deep_view()[i as int]);
        let mut url = root.clone();
        url.push('/');
        let starts = starts_with_exec(link.as_slice(), slash.as_slice());
        if !starts {
            url.push('/');
        }
        url.append(&mut link);
        assert(url@ == (if starts_with(l, seq!['/']) {
            root@ + seq!['/'] + l
        } else {
            root@ + seq!['/', '/'] + l
        }));
        let joined = string_of(url.as_slice());
        let s = replace_second_slash(joined.as_str());
        assert(s@ == want[i as int]);
        let ghost old_r = r;
        r.push(s);
        proof {
            crate::text::lemma_deep_view_push(old_r, r, s);
            assert(want.take(i + 1) == want.take(i as int).push(s@));
        }
        i = i + 1;
    }
    assert(want.take(links.len() as int) == want);
    r
}

// ---------------------------------------------------------------------
// New posts
// ---------------------------------------------------------------------

/// The posts created after `last_timestamp`, in order.
pub open spec fn spec_new_posts(posts: Seq<PostView>, last_timestamp: u64) -> Seq<PostView>
    decreases posts.len(),
{
    if posts.len() == 0 {
        seq![]
    } else {
        let rest = spec_new_posts(posts.drop_last(), last_timestamp);
        if posts.last().create_timestamp > last_timestamp {
            rest.push(posts.last())
        } else {
            rest
        }
    }
}

/// The posts created after the last run at `last_timestamp`, in order.
pub fn select_new_posts(posts: Vec<Post>, last_timestamp: u64) -> (r: Vec<Post>)
    ensures
        r@.map_values(|p: Post| p@) == spec_new_posts(
            posts@.map_values(|p: Post| p@),
            last_timestamp,
        ),
{
    let ghost all = posts@.map_values(|p: Post| p@);
    let mut r: Vec<Post> = Vec::new();
    let mut rest = posts;
    let mut taken: Vec<Post> = Vec::new();
    // walk the posts in order by reversing them once
    while rest.len() > 0
        invariant
            all.len() == rest@.len() + taken@.len(),
            forall|j: int| 0 <= j < taken@.len() ==> #[trigger] taken@[j]@ == all[all.len() - 1 - j],
            forall|j: int| 0 <= j < rest@.len() ==> #[trigger] rest@[j]@ == all[j],
        decreases rest.len(),
    {
        let p = rest.pop().unwrap();
        taken.push(p);
    }
    let ghost n = all.len();
    while taken.len() > 0
        invariant
            n == all.len(),
            taken@.len() <= n,
            forall|j: int| 0 <= j < taken@.len() ==> #[trigger] taken@[j]@ == all[n - 1 - j],
            r@.map_values(|p: Post| p@) == spec_new_posts(
                all.take(n - taken@.len()),
                last_timestamp,
            ),
        decreases taken.len(),
    {
        let ghost k = n - taken@.len();
        let p = taken.pop().unwrap();
        assert(p@ == all[k]);
        assert(all.take(k + 1).drop_last() == all.take(k));
        assert(all.take(k + 1).last() == all[k]);
        if p.create_timestamp > last_timestamp {
            let ghost before = r@.map_values(|q: Post| q@);
            r.push(p);
            assert(r@.map_values(|q: Post| q@) == before.push(all[k]));
        }
    }
    assert(all.take(n as int) == all);
    r
}

/// A post is reported as new exactly when it was created after the last
/// run: the new posts are the posts whose creation time is later than
/// `last_timestamp`, each kept in its place.
pub proof fn lemma_new_posts(posts: Seq<PostView>, last_timestamp: u64)
    ensures
        forall|p: PostView|
            spec_new_posts(posts, last_timestamp).contains(p) <==> posts.contains(p)
                && p.create_timestamp > last_timestamp,
        spec_new_posts(posts, last_timestamp).len() <= posts.len(),
    decreases posts.len(),
{
    if posts.len() > 0 {
        let init = posts.drop_last();
        lemma_new_posts(init, last_timestamp);
        let rest = spec_new_posts(init, last_timestamp);
        assert forall|p: PostView|
            spec_new_posts(posts, last_timestamp).contains(p) <==> posts.contains(p)
                && p.create_timestamp > last_timestamp by {
            if posts.contains(p) {
                let k = choose|k: int| 0 <= k < posts.len() && posts[k] == p;
                if k < posts.len() - 1 {
                    assert(init[k] == p);
                }
            }
            if init.contains(p) {
                let k = choose|k: int| 0 <= k < init.len() && init[k] == p;
                assert(posts[k] == p);
            }
            if posts.last().create_timestamp > last_timestamp {
                let ext = rest.push(posts.last());
                if ext.contains(p) {
                    let k = choose|k: int| 0 <= k < ext.len() && ext[k] == p;
                    if k < rest.len() {
                        assert(rest[k] == p);
                    }
                }
                if rest.contains(p) {
                    let k = choose|k: int| 0 <= k < rest.len() && rest[k] == p;
                    assert(ext[k] == p);
                }
                assert(ext[rest.len() as int] == posts.last());
            }
        }
    }
}

/// On a first run (no timestamp file) every post created after the epoch
/// is reported as new.
pub proof fn lemma_first_run_reports_dated_posts(posts: Seq<PostView>, now: u64)
    ensures
        spec_next_run(None, now) == Ok::<(u64, u64), TimestampError>((0, now)),
        forall|p: PostView|
            posts.contains(p) && p.create_timestamp > 0 ==> spec_new_posts(posts, 0).contains(p),
{
    lemma_new_posts(posts, 0);
}

} // verus!
