//! What becomes of the values picked out of a page: which of them are
//! links or texts, how a link is cut down to the part a source needs, and
//! how repeated links are dropped.
use vstd::prelude::*;

use crate::text::{
    lemma_count_char_is_filter_len, lemma_find_char_result, chars_of, contains, contains_exec, lemma_deep_view_push, count_char, count_char_exec, find_char, find_char_exec,
    first_nonempty, last_nonempty, split, split_exec, starts_with, starts_with_exec, string_of,
    words, words_exec,
};

verus! {

// ---------------------------------------------------------------------
// Present values
// ---------------------------------------------------------------------

/// The values that are present, in order.
pub open spec fn spec_present_values(vals: Seq<Option<Seq<char>>>) -> Seq<Seq<char>>
    decreases vals.len(),
{
    if vals.len() == 0 {
        seq![]
    } else {
        let rest = spec_present_values(vals.drop_last());
        match vals.last() {
            Some(v) => rest.push(v),
            None => rest,
        }
    }
}

/// Keeping the present values is `filter_map` with the identity: the
/// values of the `Some` entries, in their order.
pub proof fn lemma_present_values_filter_map(vals: Seq<Option<Seq<char>>>)
    ensures
        spec_present_values(vals) == vals.filter_map(|o: Option<Seq<char>>| o),
    decreases vals.len(),
{
    if vals.len() > 0 {
        lemma_present_values_filter_map(vals.drop_last());
        let rest = spec_present_values(vals.drop_last());
        match vals.last() {
            Some(v) => {
                assert(rest.push(v) =~= rest + seq![v]);
            },
            None => {},
        }
    }
}

/// A value is kept exactly when some entry holds it.
pub proof fn lemma_present_values_entries(vals: Seq<Option<Seq<char>>>)
    ensures
        forall|v: Seq<char>|
            spec_present_values(vals).contains(v) <==> exists|i: int|
                0 <= i < vals.len() && vals[i] == Some(v),
    decreases vals.len(),
{
    if vals.len() > 0 {
        let init = vals.drop_last();
        lemma_present_values_entries(init);
        let rest = spec_present_values(init);
        assert forall|v: Seq<char>|
            spec_present_values(vals).contains(v) <==> exists|i: int|
                0 <= i < vals.len() && vals[i] == Some(v) by {
            if rest.contains(v) {
                let i = choose|i: int| 0 <= i < init.len() && init[i] == Some(v);
                assert(vals[i] == Some(v));
            }
            if exists|i: int| 0 <= i < vals.len() && vals[i] == Some(v) {
                let i = choose|i: int| 0 <= i < vals.len() && vals[i] == Some(v);
                if i < init.len() {
                    assert(init[i] == Some(v));
                }
            }
            match vals.last() {
                Some(w) => {
                    assert(rest.push(w)[rest.len() as int] == w);
                    if rest.push(w).contains(v) {
                        let k = choose|k: int| 0 <= k < rest.len() + 1 && rest.push(w)[k] == v;
                        if k < rest.len() {
                            assert(rest[k] == v);
                        }
                    }
                    if rest.contains(v) {
                        let k = choose|k: int| 0 <= k < rest.len() && rest[k] == v;
                        assert(rest.push(w)[k] == v);
                    }
                },
                None => {},
            }
        }
    }
}

/// The values that are present, in order (`filter_map` of the attribute
/// values that elements have).
pub fn present_values(vals: &Vec<Option<String>>) -> (r: Vec<String>)
    ensures
        r.deep_view() == spec_present_values(vals.deep_view()),
{
    let mut r: Vec<String> = Vec::new();
    let mut i: usize = 0;
    while i < vals.len()
        invariant
            i <= vals.len(),
            r.deep_view() == spec_present_values(vals.deep_view().take(i as int)),
        decreases vals.len() - i,
    {
        let ghost before = r.deep_view();
        assert(vals.deep_view().take(i + 1).drop_last() == vals.deep_view().take(i as int));
        match &vals[i] {
            Some(v) => {
                r.push(v.clone());
                assert(r.deep_view() == before.push(v@));
            },
            None => {},
        }
        i = i + 1;
    }
    assert(vals.deep_view().take(vals.len() as int) == vals.deep_view());
    r
}

/// The values that are present and contain `marker`, in order.
pub open spec fn spec_values_containing(vals: Seq<Option<Seq<char>>>, marker: Seq<char>) -> Seq<
    Seq<char>,
>
    decreases vals.len(),
{
    if vals.len() == 0 {
        seq![]
    } else {
        let rest = spec_values_containing(vals.drop_last(), marker);
        match vals.last() {
            Some(v) => if contains(v, marker) {
                rest.push(v)
            } else {
                rest
            },
            None => rest,
        }
    }
}

/// Keeping the present values that contain `marker` is a `filter_map`
/// that keeps a value exactly when it is present and contains `marker`.
pub proof fn lemma_values_containing_filter_map(vals: Seq<Option<Seq<char>>>, marker: Seq<char>)
    ensures
        spec_values_containing(vals, marker) == vals.filter_map(
            |o: Option<Seq<char>>|
                match o {
                    Some(v) => if contains(v, marker) {
                        Some(v)
                    } else {
                        None
                    },
                    None => None,
                },
        ),
    decreases vals.len(),
{
    if vals.len() > 0 {
        lemma_values_containing_filter_map(vals.drop_last(), marker);
        let rest = spec_values_containing(vals.drop_last(), marker);
        match vals.last() {
            Some(v) => {
                assert(rest.push(v) =~= rest + seq![v]);
            },
            None => {},
        }
    }
}

/// The values that are present and contain `marker`, in order.
pub fn values_containing(vals: &Vec<Option<String>>, marker: &str) -> (r: Vec<String>)
    ensures
        r.deep_view() == spec_values_containing(vals.deep_view(), marker@),
{
    let m = chars_of(marker);
    let mut r: Vec<String> = Vec::new();
    let mut i: usize = 0;
    while i < vals.len()
        invariant
            i <= vals.len(),
            m@ == marker@,
            r.deep_view() == spec_values_containing(vals.deep_view().take(i as int), marker@),
        decreases vals.len() - i,
    {
        let ghost before = r.deep_view();
        assert(vals.deep_view().take(i + 1).drop_last() == vals.deep_view().take(i as int));
        match &vals[i] {
            Some(v) => {
                let cs = chars_of(v.as_str());
                if contains_exec(cs.as_slice(), m.as_slice()) {
                    r.push(v.clone());
                    assert(r.deep_view() == before.push(v@));
                }
            },
            None => {},
        }
        i = i + 1;
    }
    assert(vals.deep_view().take(vals.len() as int) == vals.deep_view());
    r
}

// ---------------------------------------------------------------------
// Flattening nested selections
// ---------------------------------------------------------------------

/// The inner values of all groups, group after group.
pub open spec fn spec_inner_values(groups: Seq<(Option<Seq<char>>, Seq<Option<Seq<char>>>)>) -> Seq<
    Option<Seq<char>>,
>
    decreases groups.len(),
{
    if groups.len() == 0 {
        seq![]
    } else {
        spec_inner_values(groups.drop_last()) + groups.last().1
    }
}

/// The inner values of the groups are their inner lists concatenated in
/// order.
pub proof fn lemma_inner_values_is_flatten(groups: Seq<(Option<Seq<char>>, Seq<Option<Seq<char>>>)>)
    ensures
        spec_inner_values(groups) == groups.map_values(
            |g: (Option<Seq<char>>, Seq<Option<Seq<char>>>)| g.1,
        ).flatten(),
    decreases groups.len(),
{
    let inner = groups.map_values(|g: (Option<Seq<char>>, Seq<Option<Seq<char>>>)| g.1);
    inner.lemma_flatten_and_flatten_alt_are_equivalent();
    if groups.len() > 0 {
        let init = groups.drop_last();
        let init_inner = init.map_values(|g: (Option<Seq<char>>, Seq<Option<Seq<char>>>)| g.1);
        init_inner.lemma_flatten_and_flatten_alt_are_equivalent();
        lemma_inner_values_is_flatten(init);
        assert(init_inner =~= inner.drop_last());
    }
}

/// The inner values of all groups, group after group.
pub fn inner_values(groups: &Vec<(Option<String>, Vec<Option<String>>)>) -> (r: Vec<Option<String>>)
    ensures
        r.deep_view() == spec_inner_values(groups.deep_view()),
{
    let mut r: Vec<Option<String>> = Vec::new();
    let mut i: usize = 0;
    while i < groups.len()
        invariant
            i <= groups.len(),
            r.deep_view() == spec_inner_values(groups.deep_view().take(i as int)),
        decreases groups.len() - i,
    {
        assert(groups.deep_view().take(i + 1).drop_last() == groups.deep_view().take(i as int));
        let inner = &groups[i].1;
        let ghost before = r.deep_view();
        let mut j: usize = 0;
        while j < inner.len()
            invariant
                j <= inner.len(),
                r.deep_view() == before + inner.deep_view().take(j as int),
            decreases inner.len() - j,
        {
            let v: Option<String> = match &inner[j] {
                Some(s) => Some(s.clone()),
                None => None,
            };
            assert(v.deep_view() == inner.deep_view()[j as int]);
            let ghost old_r = r;
            r.push(v);
            proof {
                lemma_deep_view_push(old_r, r, v);
                assert(inner.deep_view().take(j + 1) == inner.deep_view().take(j as int).push(
                    v.deep_view(),
                ));
            }
            assert(r.deep_view() == before + inner.deep_view().take(j + 1));
            j = j + 1;
        }
        assert(inner.deep_view().take(inner.len() as int) == inner.deep_view());
        i = i + 1;
    }
    assert(groups.deep_view().take(groups.len() as int) == groups.deep_view());
    r
}

/// All texts of all groups, group after group.
pub open spec fn spec_flatten_texts(groups: Seq<Seq<Seq<char>>>) -> Seq<Seq<char>>
    decreases groups.len(),
{
    if groups.len() == 0 {
        seq![]
    } else {
        spec_flatten_texts(groups.drop_last()) + groups.last()
    }
}

/// Gathering the texts of the groups is concatenating the groups in order:
/// no text of any group is dropped.
pub proof fn lemma_flatten_texts_is_flatten(groups: Seq<Seq<Seq<char>>>)
    ensures
        spec_flatten_texts(groups) == groups.flatten(),
        spec_flatten_texts(groups).len() == groups.map_values(|g: Seq<Seq<char>>| g.len() as int).fold_left(0int, |acc: int, n: int| acc + n),
    decreases groups.len(),
{
    groups.lemma_flatten_and_flatten_alt_are_equivalent();
    if groups.len() > 0 {
        groups.drop_last().lemma_flatten_and_flatten_alt_are_equivalent();
        lemma_flatten_texts_is_flatten(groups.drop_last());
        assert(groups.drop_last().map_values(|g: Seq<Seq<char>>| g.len() as int) =~= groups.map_values(|g: Seq<Seq<char>>| g.len() as int).drop_last());
    }
}

/// All texts of all groups, group after group.
pub fn flatten_texts(groups: &Vec<Vec<String>>) -> (r: Vec<String>)
    ensures
        r.deep_view() == spec_flatten_texts(groups.deep_view()),
{
    let mut r: Vec<String> = Vec::new();
    let mut i: usize = 0;
    while i < groups.len()
        invariant
            i <= groups.len(),
            r.deep_view() == spec_flatten_texts(groups.deep_view().take(i as int)),
        decreases groups.len() - i,
    {
        assert(groups.deep_view().take(i + 1).drop_last() == groups.deep_view().take(i as int));
        let inner = &groups[i];
        let ghost before = r.deep_view();
        let mut j: usize = 0;
        while j < inner.len()
            invariant
                j <= inner.len(),
                r.deep_view() == before + inner.deep_view().take(j as int),
            decreases inner.len() - j,
        {
            let v = inner[j].clone();
            assert(v.deep_view() == inner.deep_view()[j as int]);
            let ghost old_r = r;
            r.push(v);
            proof {
                lemma_deep_view_push(old_r, r, v);
                assert(inner.deep_view().take(j + 1) == inner.deep_view().take(j as int).push(
                    v.deep_view(),
                ));
            }
            assert(r.deep_view() == before + inner.deep_view().take(j + 1));
            j = j + 1;
        }
        assert(inner.deep_view().take(inner.len() as int) == inner.deep_view());
        i = i + 1;
    }
    assert(groups.deep_view().take(groups.len() as int) == groups.deep_view());
    r
}

/// The first text, if any, as a list of at most one text.
pub open spec fn spec_first_text(texts: Seq<Seq<char>>) -> Seq<Seq<char>> {
    if texts.len() == 0 {
        seq![]
    } else {
        seq![texts[0]]
    }
}

/// The first text, if any, as a list of at most one text.
pub fn first_text(texts: &Vec<String>) -> (r: Vec<String>)
    ensures
        r.deep_view() == spec_first_text(texts.deep_view()),
{
    let mut r: Vec<String> = Vec::new();
    if texts.len() > 0 {
        r.push(texts[0].clone());
        assert(r.deep_view() == seq![texts.deep_view()[0]]);
    }
    r
}

// ---------------------------------------------------------------------
// Cutting texts at markers
// ---------------------------------------------------------------------

/// The last non-empty piece of `t` between occurrences of `marker`.
pub open spec fn spec_after_last_marker(t: Seq<char>, marker: Seq<char>) -> Option<Seq<char>> {
    last_nonempty(split(t, marker))
}

/// The first non-empty piece of `t` between occurrences of `marker`.
pub open spec fn spec_before_first_marker(t: Seq<char>, marker: Seq<char>) -> Option<Seq<char>> {
    first_nonempty(split(t, marker))
}

/// Every text cut to its last non-empty piece between occurrences of
/// `marker`; `None` when some text has no non-empty piece.
pub open spec fn spec_after_last_markers(texts: Seq<Seq<char>>, marker: Seq<char>) -> Option<
    Seq<Seq<char>>,
> {
    if forall|i: int| 0 <= i < texts.len() ==> #[trigger] spec_after_last_marker(texts[i], marker) is Some {
        Some(Seq::new(texts.len(), |i: int| spec_after_last_marker(texts[i], marker)->0))
    } else {
        None
    }
}

/// Every text cut to its first non-empty piece between occurrences of
/// `marker`; `None` when some text has no non-empty piece.
pub open spec fn spec_before_first_markers(texts: Seq<Seq<char>>, marker: Seq<char>) -> Option<
    Seq<Seq<char>>,
> {
    if forall|i: int| 0 <= i < texts.len() ==> #[trigger] spec_before_first_marker(texts[i], marker) is Some {
        Some(Seq::new(texts.len(), |i: int| spec_before_first_marker(texts[i], marker)->0))
    } else {
        None
    }
}

/// The last non-empty piece among `pieces`.
fn last_nonempty_exec(pieces: &Vec<Vec<char>>) -> (r: Option<usize>)
    ensures
        match r {
            Some(k) => k < pieces.len() && last_nonempty(pieces@.map_values(|p: Vec<char>| p@))
                == Some(pieces@[k as int]@),
            None => last_nonempty(pieces@.map_values(|p: Vec<char>| p@)) is None,
        },
{
    let ghost all = pieces@.map_values(|p: Vec<char>| p@);
    let mut n = pieces.len();
    assert(all.take(n as int) == all);
    while n > 0
        invariant
            n <= pieces.len(),
            all == pieces@.map_values(|p: Vec<char>| p@),
            last_nonempty(all) == last_nonempty(all.take(n as int)),
        decreases n,
    {
        assert(all.take(n as int).last() == pieces@[n - 1]@);
        if pieces[n - 1].len() > 0 {
            return Some(n - 1);
        }
        assert(all.take(n as int).drop_last() == all.take(n - 1));
        n = n - 1;
    }
    None
}

/// The first non-empty piece among `pieces`.
fn first_nonempty_exec(pieces: &Vec<Vec<char>>) -> (r: Option<usize>)
    ensures
        match r {
            Some(k) => k < pieces.len() && first_nonempty(pieces@.map_values(|p: Vec<char>| p@))
                == Some(pieces@[k as int]@),
            None => first_nonempty(pieces@.map_values(|p: Vec<char>| p@)) is None,
        },
{
    let ghost all = pieces@.map_values(|p: Vec<char>| p@);
    let mut k: usize = 0;
    assert(all.skip(0) == all);
    while k < pieces.len()
        invariant
            k <= pieces.len(),
            all == pieces@.map_values(|p: Vec<char>| p@),
            first_nonempty(all) == first_nonempty(all.skip(k as int)),
        decreases pieces.len() - k,
    {
        assert(all.skip(k as int)[0] == pieces@[k as int]@);
        if pieces[k].len() > 0 {
            return Some(k);
        }
        assert(all.skip(k as int).drop_first() == all.skip(k + 1));
        k = k + 1;
    }
    None
}

/// The last non-empty piece of `t` between occurrences of the non-empty
/// `marker`.
pub fn after_last_marker(t: &str, marker: &str) -> (r: Option<String>)
    requires
        marker@.len() > 0,
    ensures
        match r {
            Some(s) => spec_after_last_marker(t@, marker@) == Some(s@),
            None => spec_after_last_marker(t@, marker@) is None,
        },
{
    let cs = chars_of(t);
    let m = chars_of(marker);
    let pieces = split_exec(cs.as_slice(), m.as_slice());
    match last_nonempty_exec(&pieces) {
        Some(k) => Some(string_of(pieces[k].as_slice())),
        None => None,
    }
}

/// The first non-empty piece of `t` between occurrences of the non-empty
/// `marker`.
pub fn before_first_marker(t: &str, marker: &str) -> (r: Option<String>)
    requires
        marker@.len() > 0,
    ensures
        match r {
            Some(s) => spec_before_first_marker(t@, marker@) == Some(s@),
            None => spec_before_first_marker(t@, marker@) is None,
        },
{
    let cs = chars_of(t);
    let m = chars_of(marker);
    let pieces = split_exec(cs.as_slice(), m.as_slice());
    match first_nonempty_exec(&pieces) {
        Some(k) => Some(string_of(pieces[k].as_slice())),
        None => None,
    }
}

/// Every text cut to its last non-empty piece between occurrences of the
/// non-empty `marker`; `None` when some text has none.
pub fn after_last_markers(texts: &Vec<String>, marker: &str) -> (r: Option<Vec<String>>)
    requires
        marker@.len() > 0,
    ensures
        r.deep_view() == spec_after_last_markers(texts.deep_view(), marker@),
{
    let ghost tv = texts.deep_view();
    let mut r: Vec<String> = Vec::new();
    let mut i: usize = 0;
    while i < texts.len()
        invariant
            i <= texts.len(),
            marker@.len() > 0,
            tv == texts.deep_view(),
            r.deep_view() == Seq::new(i as nat, |j: int| spec_after_last_marker(tv[j], marker@)->0),
            forall|j: int| 0 <= j < i ==> #[trigger] spec_after_last_marker(tv[j], marker@) is Some,
        decreases texts.len() - i,
    {
        assert(tv[i as int] == texts@[i as int]@);
        match after_last_marker(texts[i].as_str(), marker) {
            Some(s) => {
                let ghost old_r = r;
                r.push(s);
                proof {
                    lemma_deep_view_push(old_r, r, s);
                    assert(Seq::new((i + 1) as nat, |j: int| spec_after_last_marker(tv[j], marker@)->0)
                        =~= Seq::new(i as nat, |j: int| spec_after_last_marker(tv[j], marker@)->0).push(s@));
                }
                assert(r.deep_view() == Seq::new(
                    (i + 1) as nat,
                    |j: int| spec_after_last_marker(tv[j], marker@)->0,
                ));
            },
            None => {
                assert(spec_after_last_marker(tv[i as int], marker@) is None);
                return None;
            },
        }
        i = i + 1;
    }
    Some(r)
}

/// Every text cut to its first non-empty piece between occurrences of the
/// non-empty `marker`; `None` when some text has none.
pub fn before_first_markers(texts: &Vec<String>, marker: &str) -> (r: Option<Vec<String>>)
    requires
        marker@.len() > 0,
    ensures
        r.deep_view() == spec_before_first_markers(texts.deep_view(), marker@),
{
    let ghost tv = texts.deep_view();
    let mut r: Vec<String> = Vec::new();
    let mut i: usize = 0;
    while i < texts.len()
        invariant
            i <= texts.len(),
            marker@.len() > 0,
            tv == texts.deep_view(),
            r.deep_view() == Seq::new(
                i as nat,
                |j: int| spec_before_first_marker(tv[j], marker@)->0,
            ),
            forall|j: int| 0 <= j < i ==> #[trigger] spec_before_first_marker(tv[j], marker@) is Some,
        decreases texts.len() - i,
    {
        assert(tv[i as int] == texts@[i as int]@);
        match before_first_marker(texts[i].as_str(), marker) {
            Some(s) => {
                let ghost old_r = r;
                r.push(s);
                proof {
                    lemma_deep_view_push(old_r, r, s);
                    assert(Seq::new((i + 1) as nat, |j: int| spec_before_first_marker(tv[j], marker@)->0)
                        =~= Seq::new(i as nat, |j: int| spec_before_first_marker(tv[j], marker@)->0).push(s@));
                }
                assert(r.deep_view() == Seq::new(
                    (i + 1) as nat,
                    |j: int| spec_before_first_marker(tv[j], marker@)->0,
                ));
            },
            None => {
                assert(spec_before_first_marker(tv[i as int], marker@) is None);
                return None;
            },
        }
        i = i + 1;
    }
    Some(r)
}

// ---------------------------------------------------------------------
// Path segments of links
// ---------------------------------------------------------------------

/// The last non-empty `/`-separated segment of a present link, followed by
/// `suffix`; `None` for an absent link or one without such a segment.
pub open spec fn spec_last_segment(v: Option<Seq<char>>, suffix: Seq<char>) -> Option<Seq<char>> {
    match v {
        Some(link) => match last_nonempty(split(link, seq!['/'])) {
            Some(seg) => Some(seg + suffix),
            None => None,
        },
        None => None,
    }
}

/// [`spec_last_segment`] of every value; `None` when one has none.
pub open spec fn spec_last_segments(vals: Seq<Option<Seq<char>>>, suffix: Seq<char>) -> Option<
    Seq<Seq<char>>,
> {
    if forall|i: int| 0 <= i < vals.len() ==> #[trigger] spec_last_segment(vals[i], suffix) is Some {
        Some(Seq::new(vals.len(), |i: int| spec_last_segment(vals[i], suffix)->0))
    } else {
        None
    }
}

/// The last non-empty path segment of every link, followed by `suffix`;
/// `None` when some link is absent or has no non-empty segment.
pub fn last_segments(vals: &Vec<Option<String>>, suffix: &str) -> (r: Option<Vec<String>>)
    ensures
        r.deep_view() == spec_last_segments(vals.deep_view(), suffix@),
{
    let ghost vv = vals.deep_view();
    let sfx = chars_of(suffix);
    let slash: Vec<char> = vec!['/'];
    let mut r: Vec<String> = Vec::new();
    let mut i: usize = 0;
    while i < vals.len()
        invariant
            i <= vals.len(),
            vv == vals.deep_view(),
            sfx@ == suffix@,
            slash@ == seq!['/'],
            r.deep_view() == Seq::new(i as nat, |j: int| spec_last_segment(vv[j], suffix@)->0),
            forall|j: int| 0 <= j < i ==> #[trigger] spec_last_segment(vv[j], suffix@) is Some,
        decreases vals.len() - i,
    {
        match &vals[i] {
            Some(link) => {
                let cs = chars_of(link.as_str());
                let pieces = split_exec(cs.as_slice(), slash.as_slice());
                match last_nonempty_exec(&pieces) {
                    Some(k) => {
                        let mut seg = pieces[k].clone();
                        let mut extra = sfx.clone();
                        seg.append(&mut extra);
                        let s = string_of(seg.as_slice());
                        assert(vv[i as int] == Some(link@));
                        let ghost old_r = r;
                        r.push(s);
                        proof {
                            lemma_deep_view_push(old_r, r, s);
                            assert(Seq::new((i + 1) as nat, |j: int| spec_last_segment(vv[j], suffix@)->0)
                                =~= Seq::new(i as nat, |j: int| spec_last_segment(vv[j], suffix@)->0).push(s@));
                        }
                        assert(r.deep_view() == Seq::new(
                            (i + 1) as nat,
                            |j: int| spec_last_segment(vv[j], suffix@)->0,
                        ));
                    },
                    None => {
                        assert(spec_last_segment(vv[i as int], suffix@) is None);
                        return None;
                    },
                }
            },
            None => {
                assert(spec_last_segment(vv[i as int], suffix@) is None);
                return None;
            },
        }
        i = i + 1;
    }
    Some(r)
}

// ---------------------------------------------------------------------
// Profile links
// ---------------------------------------------------------------------

/// The part of `url` before its first `?`; `None` when it has none.
pub open spec fn spec_extract_path(url: Seq<char>) -> Option<Seq<char>> {
    match find_char(url, '?') {
        Some(i) => Some(url.subrange(0, i)),
        None => None,
    }
}

/// The part of `url` before its first `?`; `None` when it has none.
pub fn extract_path(url: &str) -> (r: Option<&str>)
    ensures
        match r {
            Some(p) => spec_extract_path(url@) == Some(p@),
            None => spec_extract_path(url@) is None,
        },
{
    let cs = chars_of(url);
    match find_char_exec(cs.as_slice(), '?') {
        Some(i) => {
            proof {
                crate::text::lemma_find_char_result(url@, '?');
            }
            Some(url.substring_char(0, i))
        },
        None => None,
    }
}

/// The text of an attribute, empty when it is absent.
pub open spec fn text_or_empty(v: Option<Seq<char>>) -> Seq<char> {
    match v {
        Some(c) => c,
        None => seq![],
    }
}

/// Every whitespace-separated class in `class` (absent: none) is `l`.
pub open spec fn spec_only_class_l(class: Option<Seq<char>>) -> bool {
    forall|i: int|
        0 <= i < words(text_or_empty(class)).len() ==> #[trigger] words(text_or_empty(class))[i]
            == seq!['l']
}

/// Whether every whitespace-separated class in `class` is `l`.
pub fn only_class_l(class: &Option<String>) -> (r: bool)
    ensures
        r == spec_only_class_l(class.deep_view()),
{
    let cs: Vec<char> = match class {
        Some(c) => chars_of(c.as_str()),
        None => Vec::new(),
    };
    let ws = words_exec(cs.as_slice());
    assert(cs@ == text_or_empty(class.deep_view()));
    let ghost w = ws@.map_values(|x: Vec<char>| x@);
    let l: Vec<char> = vec!['l'];
    let mut i: usize = 0;
    while i < ws.len()
        invariant
            i <= ws.len(),
            w == ws@.map_values(|x: Vec<char>| x@),
            w == words(text_or_empty(class.deep_view())),
            l@ == seq!['l'],
            forall|j: int| 0 <= j < i ==> #[trigger] w[j] == seq!['l'],
        decreases ws.len() - i,
    {
        assert(w.len() == ws@.len());
        assert(w[i as int] == ws@[i as int]@);
        if !crate::text::same_chars(ws[i].as_slice(), l.as_slice()) {
            assert(w[i as int] != seq!['l']);
            assert(!spec_only_class_l(class.deep_view()));
            return false;
        }
        i = i + 1;
    }
    true
}

/// The links (absent ones read as empty) inside the groups whose own
/// classes are all `l`.
pub open spec fn spec_profile_hrefs(groups: Seq<(Option<Seq<char>>, Seq<Option<Seq<char>>>)>) -> Seq<
    Seq<char>,
>
    decreases groups.len(),
{
    if groups.len() == 0 {
        seq![]
    } else {
        let rest = spec_profile_hrefs(groups.drop_last());
        let g = groups.last();
        if spec_only_class_l(g.0) {
            rest + g.1.map_values(
                |v: Option<Seq<char>>|
                    match v {
                        Some(h) => h,
                        None => seq![],
                    },
            )
        } else {
            rest
        }
    }
}

/// The links (absent ones read as empty) inside the groups whose own
/// classes are all `l`.
pub fn profile_hrefs(groups: &Vec<(Option<String>, Vec<Option<String>>)>) -> (r: Vec<String>)
    ensures
        r.deep_view() == spec_profile_hrefs(groups.deep_view()),
{
    let mut r: Vec<String> = Vec::new();
    let mut i: usize = 0;
    while i < groups.len()
        invariant
            i <= groups.len(),
            r.deep_view() == spec_profile_hrefs(groups.deep_view().take(i as int)),
        decreases groups.len() - i,
    {
        assert(groups.deep_view().take(i + 1).drop_last() == groups.deep_view().take(i as int));
        let ghost g = groups.deep_view()[i as int];
        if only_class_l(&groups[i].0) {
            let inner = &groups[i].1;
            let ghost before = r.deep_view();
            let ghost mapped = g.1.map_values(
                |v: Option<Seq<char>>|
                    match v {
                        Some(h) => h,
                        None => seq![],
                    },
            );
            let mut j: usize = 0;
            while j < inner.len()
                invariant
                    j <= inner.len(),
                    inner.deep_view() == g.1,
                    mapped == g.1.map_values(
                        |v: Option<Seq<char>>|
                            match v {
                                Some(h) => h,
                                None => seq![],
                            },
                    ),
                    r.deep_view() == before + mapped.take(j as int),
                decreases inner.len() - j,
            {
                let h: String = match &inner[j] {
                    Some(s) => s.clone(),
                    None => String::new(),
                };
                assert(h@ == mapped[j as int]);
                let ghost old_r = r;
                r.push(h);
                proof {
                    lemma_deep_view_push(old_r, r, h);
                    assert(mapped.take(j + 1) == mapped.take(j as int).push(h@));
                }
                assert(r.deep_view() == before + mapped.take(j + 1));
                j = j + 1;
            }
            assert(mapped.take(inner.len() as int) == mapped);
        }
        i = i + 1;
    }
    assert(groups.deep_view().take(groups.len() as int) == groups.deep_view());
    r
}

/// What becomes of one profile link: `Some(Some(path))` for a link of the
/// form `/@name/post?query` (its part before `?`), `Some(None)` for any
/// other link (skipped), `None` for such a link without `?`.
pub open spec fn spec_profile_path(href: Seq<char>) -> Option<Option<Seq<char>>> {
    if starts_with(href, seq!['/', '@']) && count_char(href, '/') == 2 {
        match spec_extract_path(href) {
            Some(p) => Some(Some(p)),
            None => None,
        }
    } else {
        Some(None)
    }
}

/// The paths of the links of the form `/@name/post?query`, in order;
/// `None` when such a link has no `?`.
pub open spec fn spec_profile_paths(hrefs: Seq<Seq<char>>) -> Option<Seq<Seq<char>>> {
    if forall|i: int| 0 <= i < hrefs.len() ==> #[trigger] spec_profile_path(hrefs[i]) is Some {
        Some(spec_present_values(Seq::new(hrefs.len(), |i: int| spec_profile_path(hrefs[i])->0)))
    } else {
        None
    }
}

/// `h` is a link to a post of a profile: it starts with `/@` and holds
/// exactly two `/`.
pub open spec fn is_profile_post_link(h: Seq<char>) -> bool {
    &&& h.len() >= 2
    &&& h[0] == '/'
    &&& h[1] == '@'
    &&& h.filter(|x: char| x == '/').len() == 2
}

/// `q` is the index of the first `?` of `h`.
pub open spec fn is_first_query_mark(h: Seq<char>, q: int) -> bool {
    &&& 0 <= q < h.len()
    &&& h[q] == '?'
    &&& forall|j: int| 0 <= j < q ==> h[j] != '?'
}

/// The tests on a profile link, read character by character.
proof fn lemma_profile_path_shape(h: Seq<char>)
    ensures
        (starts_with(h, seq!['/', '@']) && count_char(h, '/') == 2) <==> is_profile_post_link(h),
        spec_extract_path(h) is Some <==> exists|q: int| is_first_query_mark(h, q),
        spec_extract_path(h) is Some ==> is_first_query_mark(h, find_char(h, '?')->0)
            && spec_extract_path(h)->0 == h.subrange(0, find_char(h, '?')->0),
        spec_extract_path(h) is None <==> !h.contains('?'),
{
    lemma_count_char_is_filter_len(h, '/');
    lemma_find_char_result(h, '?');
    if h.len() >= 2 {
        if h[0] == '/' && h[1] == '@' {
            assert(h.subrange(0, 2) =~= seq!['/', '@']);
        }
        if starts_with(h, seq!['/', '@']) {
            assert(h.subrange(0, 2)[0] == h[0]);
            assert(h.subrange(0, 2)[1] == h[1]);
        }
    }
    if exists|q: int| is_first_query_mark(h, q) {
        let q = choose|q: int| is_first_query_mark(h, q);
        assert(h[q] == '?');
    }
    if h.contains('?') {
        let q = choose|q: int| 0 <= q < h.len() && h[q] == '?';
        assert(h[q] == '?');
    }
    if find_char(h, '?') is Some {
        let q = find_char(h, '?')->0;
        assert(is_first_query_mark(h, q));
        assert(h[q] == '?');
    }
}

/// `p` is the part of `h` before its first `?`.
pub open spec fn is_path_before_query(h: Seq<char>, p: Seq<char>) -> bool {
    &&& p.len() < h.len()
    &&& h[p.len() as int] == '?'
    &&& h.subrange(0, p.len() as int) == p
    &&& !p.contains('?')
}

/// `p` is the path of one of the profile post links among `hrefs`.
pub open spec fn is_path_of_post_link(hrefs: Seq<Seq<char>>, p: Seq<char>) -> bool {
    exists|i: int|
        0 <= i < hrefs.len() && is_profile_post_link(#[trigger] hrefs[i]) && is_path_before_query(
            hrefs[i],
            p,
        )
}

/// Only post links of a profile give paths: each path read from the links
/// is the part before the first `?` of a link that starts with `/@` and
/// holds exactly two `/` (a link with more `/`, such as a reading list,
/// gives none), every such link gives its path, and the paths cannot be
/// read exactly when such a link has no `?`.
pub proof fn lemma_profile_paths(hrefs: Seq<Seq<char>>)
    ensures
        spec_profile_paths(hrefs) is None <==> exists|i: int|
            0 <= i < hrefs.len() && is_profile_post_link(#[trigger] hrefs[i]) && !hrefs[i].contains('?'),
        spec_profile_paths(hrefs) is Some ==> forall|k: int|
            0 <= k < spec_profile_paths(hrefs)->0.len() ==> is_path_of_post_link(
                hrefs,
                #[trigger] spec_profile_paths(hrefs)->0[k],
            ),
        spec_profile_paths(hrefs) is Some ==> forall|i: int, q: int|
            0 <= i < hrefs.len() && is_profile_post_link(hrefs[i]) && #[trigger] is_first_query_mark(hrefs[i], q)
                ==> spec_profile_paths(hrefs)->0.contains(hrefs[i].subrange(0, q)),
{
    let n = hrefs.len();
    let opts = Seq::new(n, |i: int| spec_profile_path(hrefs[i])->0);
    lemma_present_values_entries(opts);
    assert forall|i: int| 0 <= i < n implies #[trigger] spec_profile_path(hrefs[i]) is None <==> (
    is_profile_post_link(hrefs[i]) && !hrefs[i].contains('?')) by {
        lemma_profile_path_shape(hrefs[i]);
    }
    if spec_profile_paths(hrefs) is Some {
        let paths = spec_profile_paths(hrefs)->0;
        assert(paths == spec_present_values(opts));
        assert forall|k: int| 0 <= k < paths.len() implies is_path_of_post_link(
            hrefs,
            #[trigger] paths[k],
        ) by {
            assert(paths.contains(paths[k]));
            let i = choose|i: int| 0 <= i < opts.len() && opts[i] == Some(paths[k]);
            let h = hrefs[i];
            assert(spec_profile_path(h) is Some);
            lemma_profile_path_shape(h);
            let q = find_char(h, '?')->0;
            assert(is_first_query_mark(h, q));
            let p = paths[k];
            assert(p == h.subrange(0, q));
            assert(p.len() == q);
            assert forall|j: int| 0 <= j < p.len() implies p[j] != '?' by {
                assert(p[j] == h[j]);
            }
            assert(is_path_before_query(h, p));
            assert(is_profile_post_link(hrefs[i]));
        }
        assert forall|i: int, q: int|
            0 <= i < hrefs.len() && is_profile_post_link(hrefs[i]) && #[trigger] is_first_query_mark(hrefs[i], q)
                implies paths.contains(hrefs[i].subrange(0, q)) by {
            let h = hrefs[i];
            assert(spec_profile_path(h) is Some);
            lemma_profile_path_shape(h);
            lemma_find_char_result(h, '?');
            let q0 = find_char(h, '?')->0;
            assert(is_first_query_mark(h, q0));
            if q0 < q {
                assert(h[q0] == '?');
            }
            if q < q0 {
                assert(h[q] == '?');
            }
            assert(q == q0);
            assert(opts[i] == Some(h.subrange(0, q)));
        }
        assert forall|i: int| 0 <= i < n && is_profile_post_link(#[trigger] hrefs[i]) implies hrefs[i].contains('?') by {
            assert(spec_profile_path(hrefs[i]) is Some);
        }
    } else {
        let i = choose|i: int| 0 <= i < n && !(#[trigger] spec_profile_path(hrefs[i]) is Some);
        assert(spec_profile_path(hrefs[i]) is None);
        assert(is_profile_post_link(hrefs[i]) && !hrefs[i].contains('?'));
    }
}

/// The paths of the links of the form `/@name/post?query`, in order;
/// `None` when such a link has no `?`.
pub fn profile_paths(hrefs: &Vec<String>) -> (r: Option<Vec<String>>)
    ensures
        r.deep_view() == spec_profile_paths(hrefs.deep_view()),
{
    let ghost hv = hrefs.deep_view();
    let ghost opts = Seq::new(hv.len(), |i: int| spec_profile_path(hv[i])->0);
    let prefix: Vec<char> = vec!['/', '@'];
    let mut r: Vec<String> = Vec::new();
    let mut i: usize = 0;
    while i < hrefs.len()
        invariant
            i <= hrefs.len(),
            hv == hrefs.deep_view(),
            opts == Seq::new(hv.len(), |i: int| spec_profile_path(hv[i])->0),
            prefix@ == seq!['/', '@'],
            forall|j: int| 0 <= j < i ==> #[trigger] spec_profile_path(hv[j]) is Some,
            r.deep_view() == spec_present_values(opts.take(i as int)),
        decreases hrefs.len() - i,
    {
        assert(opts.take(i + 1).drop_last() == opts.take(i as int));
        let h = hrefs[i].as_str();
        let cs = chars_of(h);
        if starts_with_exec(cs.as_slice(), prefix.as_slice()) && count_char_exec(cs.as_slice(), '/')
            == 2 {
            match extract_path(h) {
                Some(p) => {
                    let ghost before = r.deep_view();
                    r.push(p.to_owned());
                    assert(r.deep_view() == before.push(p@));
                },
                None => {
                    assert(spec_profile_path(hv[i as int]) is None);
                    return None;
                },
            }
        }
        i = i + 1;
    }
    assert(opts.take(hrefs.len() as int) == opts);
    Some(r)
}

// ---------------------------------------------------------------------
// Dropping repeated links
// ---------------------------------------------------------------------

/// `links` with every link after its first occurrence dropped.
pub open spec fn spec_dedup(links: Seq<Seq<char>>) -> Seq<Seq<char>>
    decreases links.len(),
{
    if links.len() == 0 {
        seq![]
    } else {
        let rest = spec_dedup(links.drop_last());
        if rest.contains(links.last()) {
            rest
        } else {
            rest.push(links.last())
        }
    }
}

/// No link occurs twice.
pub open spec fn no_duplicates(links: Seq<Seq<char>>) -> bool {
    forall|i: int, j: int| 0 <= i < j < links.len() ==> links[i] != links[j]
}

/// Dropping repeated links keeps each link once: the result holds exactly
/// the links of the input, none of them twice.
pub proof fn lemma_dedup(links: Seq<Seq<char>>)
    ensures
        no_duplicates(spec_dedup(links)),
        forall|x: Seq<char>| spec_dedup(links).contains(x) <==> links.contains(x),
    decreases links.len(),
{
    if links.len() > 0 {
        let init = links.drop_last();
        lemma_dedup(init);
        let rest = spec_dedup(init);
        assert forall|x: Seq<char>| spec_dedup(links).contains(x) <==> links.contains(x) by {
            if links.contains(x) {
                let k = choose|k: int| 0 <= k < links.len() && links[k] == x;
                if k < links.len() - 1 {
                    assert(init[k] == x);
                    assert(init.contains(x));
                }
            }
            if init.contains(x) {
                let k = choose|k: int| 0 <= k < init.len() && init[k] == x;
                assert(links[k] == x);
            }
            if !rest.contains(links.last()) {
                if rest.push(links.last()).contains(x) {
                    let k = choose|k: int| 0 <= k < rest.len() + 1 && rest.push(links.last())[k] == x;
                    if k < rest.len() {
                        assert(rest[k] == x);
                    }
                }
                if rest.contains(x) {
                    let k = choose|k: int| 0 <= k < rest.len() && rest[k] == x;
                    assert(rest.push(links.last())[k] == x);
                }
                assert(rest.push(links.last())[rest.len() as int] == links.last());
            }
        }
    }
}

/// The links with every repeat of an earlier link dropped.
pub fn dedup_links(links: &Vec<String>) -> (r: Vec<String>)
    ensures
        r.deep_view() == spec_dedup(links.deep_view()),
{
    let mut r: Vec<String> = Vec::new();
    let mut i: usize = 0;
    while i < links.len()
        invariant
            i <= links.len(),
            r.deep_view() == spec_dedup(links.deep_view().take(i as int)),
        decreases links.len() - i,
    {
        assert(links.deep_view().take(i + 1).drop_last() == links.deep_view().take(i as int));
        let ghost rv = r.deep_view();
        let cur = chars_of(links[i].as_str());
        let mut seen = false;
        let mut j: usize = 0;
        while j < r.len()
            invariant
                j <= r.len(),
                rv == r.deep_view(),
                cur@ == links.deep_view()[i as int],
                seen ==> rv.contains(cur@),
                !seen ==> forall|k: int| 0 <= k < j ==> rv[k] != cur@,
            decreases r.len() - j,
        {
            let other = chars_of(r[j].as_str());
            assert(rv[j as int] == r@[j as int]@);
            if crate::text::same_chars(other.as_slice(), cur.as_slice()) {
                seen = true;
                assert(rv[j as int] == cur@);
            }
            j = j + 1;
        }
        assert(seen == rv.contains(cur@));
        if !seen {
            r.push(links[i].clone());
            assert(r.deep_view() == rv.push(cur@));
        }
        i = i + 1;
    }
    assert(links.deep_view().take(links.len() as int) == links.deep_view());
    r
}

} // verus!
