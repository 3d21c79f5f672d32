//! Which entries of the crates.io index checkout the page generator visits.

use vstd::prelude::*;

use crate::page_generator::{is_crate_name, is_crate_name_char};
use crate::text::same_text;

verus! {

/// How many entries of the index checkout the generator visits at most.
pub const ENTRY_LIMIT: usize = 2000;

/// The file name of the index's configuration file.
pub open spec fn config_file_name() -> Seq<char> {
    seq!['c', 'o', 'n', 'f', 'i', 'g', '.', 'j', 's', 'o', 'n']
}

/// The entry's file name starts with a dot. A name that is not valid UTF-8
/// (`None`) is not hidden.
pub open spec fn hidden(file_name: Option<Seq<char>>) -> bool {
    file_name matches Some(n) && n.len() > 0 && n[0] == '.'
}

/// The entry is the configuration file. A name that is not valid UTF-8 (`None`)
/// is not.
pub open spec fn config_json(file_name: Option<Seq<char>>) -> bool {
    file_name matches Some(n) && n == config_file_name()
}

/// The file name as character sequences.
pub open spec fn name_view(file_name: Option<&str>) -> Option<Seq<char>> {
    match file_name {
        Some(n) => Some(n@),
        None => None,
    }
}

/// Tells whether the entry is hidden.
pub fn is_hidden_file(file_name: Option<&str>) -> (r: bool)
    ensures
        r == hidden(name_view(file_name)),
{
    match file_name {
        Some(n) => !n.is_empty() && n.get_char(0) == '.',
        None => false,
    }
}

/// Tells whether the entry is the configuration file.
pub fn is_config_json(file_name: Option<&str>) -> (r: bool)
    ensures
        r == config_json(name_view(file_name)),
{
    proof {
        reveal_strlit("config.json");
        assert("config.json"@ =~= config_file_name());
    }
    match file_name {
        Some(n) => same_text(n, "config.json"),
        None => false,
    }
}

/// Tells whether the generator descends into or visits the entry: neither the
/// configuration file nor hidden.
pub fn admits_entry(file_name: Option<&str>) -> (r: bool)
    ensures
        r == (!config_json(name_view(file_name)) && !hidden(name_view(file_name))),
{
    !is_config_json(file_name) && !is_hidden_file(file_name)
}

/// An entry is hidden exactly when its name starts with a dot; every other
/// entry, whatever its length, is visited unless it is the configuration file. In
/// particular every entry named like a crate (such as the directories `1`, `2`,
/// `3`, `s` or `se` of the index checkout, or a crate's file) is visited.
pub proof fn lemma_hidden_is_a_leading_dot(n: Seq<char>)
    ensures
        hidden(Some(n)) <==> (n.len() > 0 && n[0] == '.'),
        !hidden(None::<Seq<char>>) && !config_json(None::<Seq<char>>),
        (n.len() == 0 || n[0] != '.') && n != config_file_name() ==> !config_json(Some(n)) && !hidden(Some(n)),
        is_crate_name(n) ==> !config_json(Some(n)) && !hidden(Some(n)),
{
    if is_crate_name(n) {
        assert(is_crate_name_char(n[0]));
        if n.len() == config_file_name().len() {
            assert(is_crate_name_char(n[6]));
            assert(config_file_name()[6] == '.');
        }
    }
}

} // verus!
