//! Where the web front end finds the generated pages.

use vstd::prelude::*;

use crate::page_generator::{
    crate_page_of, crates_subdir, directory_for_name, directory_of, has_directory,
    has_directory_for_name, letters_subdir,
};
use crate::text::lowercase_of;
use crate::paths::{join_path, joined};

verus! {

/// The file that the web front end serves for the crate page asked for as `name`,
/// with the crate pages in `crates_dir`.
pub open spec fn served_page_of(crates_dir: Seq<char>, name: Seq<char>) -> Seq<char> {
    joined(joined(crates_dir, directory_of(name)), name)
}

/// The page that the generator writes for a crate is the page that the web front
/// end serves when asked for the crate's lowercase name, when both work in the same
/// page directory.
pub proof fn lemma_generated_page_is_served(pages_dir: Seq<char>, name: Seq<char>)
    requires
        crate_page_of(joined(pages_dir, crates_subdir()), name) is Some,
    ensures
        has_directory(lowercase_of(name)),
        crate_page_of(joined(pages_dir, crates_subdir()), name).unwrap().1
            == served_page_of(joined(pages_dir, crates_subdir()), lowercase_of(name)),
{
}

/// The directories of the crate pages and of the letter pages.
pub struct Config {
    pub indiv_crate_dir: String,
    pub letters_dir: String,
}

impl Config {
    /// The page directories under `pages_dir`.
    pub fn new(pages_dir: &str) -> (c: Config)
        ensures
            c.indiv_crate_dir@ == joined(pages_dir@, crates_subdir()),
            c.letters_dir@ == joined(pages_dir@, letters_subdir()),
    {
        proof {
            reveal_strlit("crates");
            reveal_strlit("letters");
        }
        Config { indiv_crate_dir: join_path(pages_dir, "crates"), letters_dir: join_path(pages_dir, "letters") }
    }

    /// The page of the letter `letter`.
    pub fn letter_page(&self, letter: &str) -> (r: String)
        ensures
            r@ == joined(self.letters_dir@, letter@),
    {
        join_path(self.letters_dir.as_str(), letter)
    }

    /// The page of the crate named `name` as it is asked for (not lowercased):
    /// its name's directory under the crate pages, then the name. `None` where the
    /// name has no directory.
    pub fn crate_page(&self, name: &str) -> (r: Option<String>)
        ensures
            r is None <==> !has_directory(name@),
            r matches Some(p) ==> p@ == served_page_of(self.indiv_crate_dir@, name@),
    {
        if !has_directory_for_name(name) {
            return None;
        }
        let dir = directory_for_name(name);
        let directory = join_path(self.indiv_crate_dir.as_str(), dir.as_str());
        Some(join_path(directory.as_str(), name))
    }
}

} // verus!
