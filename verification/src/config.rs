//! The configuration of a run: where the list of new posts is saved.
use vstd::prelude::*;

use crate::text::{chars_of, ends_with, ends_with_exec, starts_with, starts_with_exec, string_of};

verus! {

/// The settings of a run.
pub struct Config {
    save_path: String,
}

impl View for Config {
    type V = Seq<char>;

    /// The path the list of new posts is saved at.
    closed spec fn view(&self) -> Seq<char> {
        self.save_path@
    }
}

impl Config {
    /// The settings that save the list of new posts at `save_path`.
    pub fn new(save_path: &str) -> (c: Config)
        ensures
            c@ == save_path@,
    {
        Config { save_path: save_path.to_owned() }
    }

    /// The path the list of new posts is saved at.
    pub fn get_save_path(&self) -> (s: &str)
        ensures
            s@ == self@,
    {
        self.save_path.as_str()
    }
}

/// `relative` placed under the directory `home`, as `PathBuf::push` does
/// on Unix: a path starting with `/` stands for itself; otherwise a `/`
/// goes between them unless `home` is empty or already ends with one.
pub open spec fn spec_home_path(home: Seq<char>, relative: Seq<char>) -> Seq<char> {
    if starts_with(relative, seq!['/']) {
        relative
    } else if home.len() == 0 || ends_with(home, seq!['/']) {
        home + relative
    } else {
        home + seq!['/'] + relative
    }
}

/// `relative` placed under the directory `home`.
pub fn home_path(home: &str, relative: &str) -> (r: String)
    ensures
        r@ == spec_home_path(home@, relative@),
{
    let h = chars_of(home);
    let mut rel = chars_of(relative);
    let slash: Vec<char> = vec!['/'];
    assert(slash@ == seq!['/']);
    if starts_with_exec(rel.as_slice(), slash.as_slice()) {
        return string_of(rel.as_slice());
    }
    let ghost r0 = rel@;
    let mut out = h.clone();
    if h.len() > 0 && !ends_with_exec(h.as_slice(), slash.as_slice()) {
        out.push('/');
        assert(out@ == home@ + seq!['/']);
    }
    out.append(&mut rel);
    assert(out@ == spec_home_path(home@, r0));
    string_of(out.as_slice())
}

/// Where the list of new posts is saved unless the user says otherwise:
/// `.blogworm/new_post.json` under the home directory `home`.
pub fn default_save_path(home: &str) -> (r: String)
    ensures
        r@ == spec_home_path(home@, ".blogworm/new_post.json"@),
{
    home_path(home, ".blogworm/new_post.json")
}

} // verus!
