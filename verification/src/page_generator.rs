//! Where the generated pages go: one page per crate, in a directory chosen from
//! the crate's name, and one page per first letter.

use vstd::prelude::*;
use vstd::string::*;
use vstd::utf8::*;

use crate::paths::{join_path, joined};
use crate::text::{lowercase_of, to_lowercase};

verus! {

broadcast use {encode_utf8_valid_utf8, encode_utf8_decode_utf8, is_char_boundary_start_end_of_seq};

/// `directory_for_name` is defined on `name` (it does not slice through a
/// character): the name has at least one byte, and a name of four or more bytes
/// has character boundaries after its second and its fourth byte.
pub open spec fn has_directory(name: Seq<char>) -> bool {
    let b = encode_utf8(name);
    &&& b.len() >= 1
    &&& b.len() >= 4 ==> is_char_boundary(b, 2) && is_char_boundary(b, 4)
}

/// The directory, relative to the crate pages, that holds the page of `name`:
/// `1`, `2` or `3` for names of one, two or three bytes, else the first two bytes
/// joined with the next two.
pub open spec fn directory_of(name: Seq<char>) -> Seq<char> {
    let b = encode_utf8(name);
    if b.len() == 1 {
        seq!['1']
    } else if b.len() == 2 {
        seq!['2']
    } else if b.len() == 3 {
        seq!['3']
    } else {
        joined(decode_utf8(b.subrange(0, 2)), decode_utf8(b.subrange(2, 4)))
    }
}

/// Tells whether `directory_for_name` is defined on `name`.
pub fn has_directory_for_name(name: &str) -> (r: bool)
    ensures
        r == has_directory(name@),
{
    let len = name.as_bytes().len();
    len >= 1 && (len < 4 || (name.is_char_boundary(2) && name.is_char_boundary(4)))
}

/// The directory (relative to the crate pages) that holds the page of `name`.
pub fn directory_for_name(name: &str) -> (r: String)
    requires
        has_directory(name@),
    ensures
        r@ == directory_of(name@),
{
    let len = name.as_bytes().len();
    if len == 1 {
        proof { reveal_strlit("1"); }
        "1".to_owned()
    } else if len == 2 {
        proof { reveal_strlit("2"); }
        "2".to_owned()
    } else if len == 3 {
        proof { reveal_strlit("3"); }
        "3".to_owned()
    } else {
        let ghost b = name.spec_bytes();
        let (head, rest) = name.split_at(2);
        proof {
            let rb = rest.spec_bytes();
            assert(rb =~= b.subrange(2, b.len() as int));
            if rb.len() > 2 {
                is_char_boundary_iff_not_is_continuation_byte(b, 4);
                is_char_boundary_iff_not_is_continuation_byte(rb, 2);
            }
        }
        let (mid, _) = rest.split_at(2);
        proof {
            assert(head@ == decode_utf8(head.spec_bytes()));
            assert(mid@ == decode_utf8(mid.spec_bytes()));
            assert(mid.spec_bytes() =~= b.subrange(2, 4));
        }
        join_path(head, mid)
    }
}

/// The UTF-8 bytes of an ASCII sequence's prefix are the prefix of its bytes.
proof fn lemma_ascii_subrange_bytes(name: Seq<char>, i: int, j: int)
    requires
        is_ascii_chars(name),
        0 <= i <= j <= name.len(),
    ensures
        encode_utf8(name).subrange(i, j) == encode_utf8(name.subrange(i, j)),
{
    let part = name.subrange(i, j);
    assert(is_ascii_chars(part));
    is_ascii_chars_encode_utf8(name);
    is_ascii_chars_encode_utf8(part);
    assert(encode_utf8(name).subrange(i, j) =~= encode_utf8(part));
}

/// For a name of ASCII characters the directory follows its characters: a name of
/// one, two or three characters goes to `1`, `2` or `3`, a longer one to its first
/// two characters joined with the next two.
pub proof fn lemma_ascii_directory(name: Seq<char>)
    requires
        is_ascii_chars(name),
        name.len() >= 1,
    ensures
        has_directory(name),
        name.len() == 1 ==> directory_of(name) == seq!['1'],
        name.len() == 2 ==> directory_of(name) == seq!['2'],
        name.len() == 3 ==> directory_of(name) == seq!['3'],
        name.len() >= 4 ==> directory_of(name) == joined(name.subrange(0, 2), name.subrange(2, 4)),
{
    let b = encode_utf8(name);
    is_ascii_chars_encode_utf8(name);
    if name.len() >= 4 {
        assert(!is_continuation_byte(b[2])) by {
            assert(b[2] == name[2] as u8);
        }
        is_char_boundary_iff_not_is_continuation_byte(b, 2);
        if name.len() > 4 {
            assert(!is_continuation_byte(b[4])) by {
                assert(b[4] == name[4] as u8);
            }
            is_char_boundary_iff_not_is_continuation_byte(b, 4);
        }
        lemma_ascii_subrange_bytes(name, 0, 2);
        lemma_ascii_subrange_bytes(name, 2, 4);
    }
}

/// A character that crate names are made of: an ASCII letter or digit, `-` or `_`.
pub open spec fn is_crate_name_char(c: char) -> bool {
    ||| 'a' <= c && c <= 'z'
    ||| 'A' <= c && c <= 'Z'
    ||| '0' <= c && c <= '9'
    ||| c == '-'
    ||| c == '_'
}

/// A crate name: one or more crate-name characters.
pub open spec fn is_crate_name(name: Seq<char>) -> bool {
    name.len() >= 1 && forall|i: int| 0 <= i < name.len() ==> #[trigger] is_crate_name_char(name[i])
}

/// Two crate names share a page directory only when they are both of the same
/// length of at most three, or both of four or more characters with the same
/// first four; the directory of a short name is one component, that of a longer
/// name two components of two characters.
pub proof fn lemma_crate_directory_shared(a: Seq<char>, b: Seq<char>)
    requires
        is_crate_name(a),
        is_crate_name(b),
        directory_of(a) == directory_of(b),
    ensures
        (a.len() <= 3 && a.len() == b.len()) || (a.len() >= 4 && b.len() >= 4 && a.subrange(0, 4) == b.subrange(0, 4)),
        a.len() <= 3 ==> directory_of(a).len() == 1,
        a.len() >= 4 ==> directory_of(a) == a.subrange(0, 2) + seq!['/'] + a.subrange(2, 4),
{
    assert(is_ascii_chars(a)) by {
        assert forall|i: int| 0 <= i < a.len() implies '\0' <= #[trigger] a[i] <= '\u{7f}' by {
            assert(is_crate_name_char(a[i]));
        }
    }
    assert(is_ascii_chars(b)) by {
        assert forall|i: int| 0 <= i < b.len() implies '\0' <= #[trigger] b[i] <= '\u{7f}' by {
            assert(is_crate_name_char(b[i]));
        }
    }
    lemma_ascii_directory(a);
    lemma_ascii_directory(b);
    if a.len() >= 4 {
        assert(is_crate_name_char(a[1]) && is_crate_name_char(a[2]));
        assert(a.subrange(2, 4)[0] == a[2] && a.subrange(0, 2).last() == a[1]);
        assert(directory_of(a) =~= a.subrange(0, 2) + seq!['/'] + a.subrange(2, 4));
    }
    if b.len() >= 4 {
        assert(is_crate_name_char(b[1]) && is_crate_name_char(b[2]));
        assert(b.subrange(2, 4)[0] == b[2] && b.subrange(0, 2).last() == b[1]);
        assert(directory_of(b) =~= b.subrange(0, 2) + seq!['/'] + b.subrange(2, 4));
    }
    if a.len() <= 3 && b.len() <= 3 {
        assert(directory_of(a)[0] == (if a.len() == 1 { '1' } else if a.len() == 2 { '2' } else { '3' }));
        assert(directory_of(b)[0] == (if b.len() == 1 { '1' } else if b.len() == 2 { '2' } else { '3' }));
    }
    if a.len() >= 4 {
        assert(directory_of(a).len() == 5);
    }
    if b.len() >= 4 {
        assert(directory_of(b).len() == 5);
    }
    if a.len() >= 4 && b.len() >= 4 {
        let d = directory_of(a);
        assert(a.subrange(0, 4) =~= d.subrange(0, 2) + d.subrange(3, 5));
        assert(b.subrange(0, 4) =~= d.subrange(0, 2) + d.subrange(3, 5));
    }
}

/// Names the page directories under a root directory.
pub struct PageGenerator {
    crates_dir: String,
    letters_dir: String,
}

/// The subdirectory that holds the crate pages.
pub open spec fn crates_subdir() -> Seq<char> {
    seq!['c', 'r', 'a', 't', 'e', 's']
}

/// The subdirectory that holds the letter pages.
pub open spec fn letters_subdir() -> Seq<char> {
    seq!['l', 'e', 't', 't', 'e', 'r', 's']
}

/// Where the page of a crate goes: the page's directory and the page file itself,
/// under `crates_dir`, or `None` where the lowercase name has no directory.
pub open spec fn crate_page_of(crates_dir: Seq<char>, name: Seq<char>) -> Option<(Seq<char>, Seq<char>)> {
    let lower = lowercase_of(name);
    if has_directory(lower) {
        let dir = joined(crates_dir, directory_of(lower));
        Some((dir, joined(dir, lower)))
    } else {
        None
    }
}

/// The page of a crate lies in the directory given with it, and that directory is
/// the one the crate's lowercase name is filed under, below the crate pages:
/// the file is that directory joined with the lowercase name. A page is given
/// exactly when the lowercase name has a directory.
pub proof fn lemma_crate_page_in_its_directory(crates_dir: Seq<char>, name: Seq<char>)
    ensures
        crate_page_of(crates_dir, name) is Some <==> has_directory(lowercase_of(name)),
        crate_page_of(crates_dir, name) matches Some((dir, file)) ==> file == joined(dir, lowercase_of(name))
            && dir == joined(crates_dir, directory_of(lowercase_of(name))),
{
}

/// For a crate name whose lowercase is again a crate name, the page's directory is
/// a subdirectory of the crate pages and the page file lies directly in it: the
/// file is the directory, a `/`, and the lowercase name.
pub proof fn lemma_crate_page_file_in_dir(crates_dir: Seq<char>, name: Seq<char>)
    requires
        is_crate_name(lowercase_of(name)),
        crates_dir.len() > 0,
        crates_dir.last() != '/',
    ensures
        crate_page_of(crates_dir, name) matches Some((dir, file)) && file == dir + seq!['/'] + lowercase_of(name)
            && dir.subrange(0, crates_dir.len() + 1int) == crates_dir + seq!['/'],
{
    let lower = lowercase_of(name);
    let d = directory_of(lower);
    lemma_crate_name_directory(lower);
    assert(lower[0] == lower[0]);
    assert(is_crate_name_char(lower[0]));
    let dir = joined(crates_dir, d);
    assert(dir == crates_dir + seq!['/'] + d);
    assert(dir.subrange(0, crates_dir.len() + 1int) =~= crates_dir + seq!['/']);
    assert(dir.len() > 0 && dir.last() == d.last());
}

/// A crate name has a directory, which is one character of `1`, `2`, `3` or two
/// crate-name characters, a `/` and two more: it does not start with a `/` nor end
/// with one.
proof fn lemma_crate_name_directory(name: Seq<char>)
    requires
        is_crate_name(name),
    ensures
        has_directory(name),
        directory_of(name).len() > 0,
        directory_of(name)[0] != '/',
        directory_of(name).last() != '/',
{
    assert(is_ascii_chars(name)) by {
        assert forall|i: int| 0 <= i < name.len() implies '\0' <= #[trigger] name[i] <= '\u{7f}' by {
            assert(is_crate_name_char(name[i]));
        }
    }
    lemma_ascii_directory(name);
    if name.len() >= 4 {
        assert(is_crate_name_char(name[0]) && is_crate_name_char(name[1]) && is_crate_name_char(name[2]) && is_crate_name_char(name[3]));
        assert(name.subrange(2, 4)[0] == name[2] && name.subrange(0, 2).last() == name[1]);
        assert(directory_of(name) =~= name.subrange(0, 2) + seq!['/'] + name.subrange(2, 4));
    }
}

impl PageGenerator {
    /// The directory of the crate pages.
    pub closed spec fn crates_dir_view(&self) -> Seq<char> {
        self.crates_dir@
    }

    /// The directory of the letter pages.
    pub closed spec fn letters_dir_view(&self) -> Seq<char> {
        self.letters_dir@
    }

    /// A generator whose pages go under `page_dir`.
    pub fn new(page_dir: &str) -> (g: PageGenerator)
        ensures
            g.crates_dir_view() == joined(page_dir@, crates_subdir()),
            g.letters_dir_view() == joined(page_dir@, letters_subdir()),
    {
        proof {
            reveal_strlit("crates");
            reveal_strlit("letters");
        }
        PageGenerator { crates_dir: join_path(page_dir, "crates"), letters_dir: join_path(page_dir, "letters") }
    }

    /// The directory of the crate pages.
    pub fn crates_dir(&self) -> (r: &str)
        ensures
            r@ == self.crates_dir_view(),
    {
        self.crates_dir.as_str()
    }

    /// The directory of the letter pages.
    pub fn letters_dir(&self) -> (r: &str)
        ensures
            r@ == self.letters_dir_view(),
    {
        self.letters_dir.as_str()
    }

    /// The page of the letter `letter`.
    pub fn letter_page(&self, letter: &str) -> (r: String)
        ensures
            r@ == joined(self.letters_dir_view(), letter@),
    {
        join_path(self.letters_dir.as_str(), letter)
    }

    /// The directory and the file of the page of the crate called `name`: the
    /// name is lowercased, its directory is found under the crate pages, and the
    /// file carries the lowercase name. `None` where the lowercase name has no
    /// directory.
    pub fn crate_page(&self, name: &str) -> (r: Option<(String, String)>)
        ensures
            r matches Some(p) ==> crate_page_of(self.crates_dir_view(), name@) == Some((p.0@, p.1@)),
            r is None <==> crate_page_of(self.crates_dir_view(), name@) is None,
    {
        let lower = to_lowercase(name);
        if !has_directory_for_name(lower.as_str()) {
            return None;
        }
        let sub = directory_for_name(lower.as_str());
        let dir = join_path(self.crates_dir.as_str(), sub.as_str());
        let file = join_path(dir.as_str(), lower.as_str());
        Some((dir, file))
    }
}

} // verus!
