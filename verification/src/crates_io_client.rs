//! What crates.io reports about a crate.

use std::collections::HashMap;

use vstd::prelude::*;

verus! {

/// The address of crates.io.
pub const CRATES_IO_URL: &'static str = "https://crates.io";

/// One published version of a crate.
pub struct Version {
    pub crate_: String,
    pub created_at: String,
    pub dl_path: String,
    pub downloads: i32,
    pub features: HashMap<String, Vec<String>>,
    pub id: i32,
    pub links: HashMap<String, String>,
    pub num: String,
    pub updated_at: String,
    pub yanked: bool,
}

/// A keyword that a crate is tagged with.
pub struct Keyword {
    pub crates_cnt: i32,
    pub created_at: String,
    pub id: String,
    pub keyword: String,
}

/// A category that a crate is filed in.
pub struct Category {
    pub category: String,
    pub crates_cnt: i32,
    pub created_at: String,
    pub description: String,
    pub id: String,
    pub slug: String,
}

/// A badge shown on a crate's page.
pub struct Badge {
    pub attributes: Attrs,
    pub badge_type: String,
}

/// The attributes of a badge.
pub struct Attrs {
    pub branch: Option<String>,
    pub repository: String,
    pub service: Option<String>,
}

/// The description of a crate itself.
pub struct CrateDetail {
    pub badges: Vec<Badge>,
    pub categories: Option<Vec<String>>,
    pub created_at: String,
    pub description: Option<String>,
    pub documentation: Option<String>,
    pub downloads: i32,
    pub exact_match: bool,
    pub homepage: Option<String>,
    pub id: String,
    pub keywords: Vec<String>,
    pub license: Option<String>,
    pub links: HashMap<String, Option<String>>,
    pub max_version: String,
    pub name: String,
    pub repository: Option<String>,
    pub updated_at: String,
    pub versions: Vec<i32>,
}

/// Everything crates.io reports about one crate.
pub struct Crate {
    pub categories: Option<Vec<Category>>,
    pub crate_: CrateDetail,
    pub keywords: Vec<Keyword>,
    pub versions: Vec<Version>,
}

/// The path under the crates.io address at which a crate's report is served.
pub open spec fn api_path() -> Seq<char> {
    seq!['/', 'a', 'p', 'i', '/', 'v', '1', '/', 'c', 'r', 'a', 't', 'e', 's', '/']
}

/// The address of the crates.io report on the crate called `name`.
pub fn crate_api_url(name: &str) -> (r: String)
    ensures
        r@ == CRATES_IO_URL@ + api_path() + name@,
{
    let mut r = CRATES_IO_URL.to_owned();
    let path = "/api/v1/crates/";
    proof {
        reveal_strlit("/api/v1/crates/");
    }
    r.append(path);
    r.append(name);
    r
}

} // verus!
