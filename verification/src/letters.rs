//! Crates grouped by the first letter of their name, for the letter pages.

use vstd::prelude::*;
use vstd::string::*;
use vstd::utf8::*;

use crate::text::{lowercase_of, to_lowercase};

verus! {

broadcast use {encode_utf8_valid_utf8, encode_utf8_decode_utf8};

/// A crate as a letter page lists it: its name and its newest version.
pub open spec fn pair_view(p: (String, String)) -> (Seq<char>, Seq<char>) {
    (p.0@, p.1@)
}

/// The pairs of a group as character sequences.
pub open spec fn pairs_view(v: Seq<(String, String)>) -> Seq<(Seq<char>, Seq<char>)> {
    v.map_values(|p: (String, String)| pair_view(p))
}

/// No two groups carry the same letter.
pub open spec fn letters_distinct(g: Seq<(String, Vec<(String, String)>)>) -> bool {
    forall|i: int, j: int|
        0 <= i < g.len() && 0 <= j < g.len() && i != j ==> #[trigger] g[i].0@ != #[trigger] g[j].0@
}

/// Some group carries the letter `k`.
pub open spec fn has_letter(g: Seq<(String, Vec<(String, String)>)>, k: Seq<char>) -> bool {
    exists|i: int| 0 <= i < g.len() && #[trigger] g[i].0@ == k
}

/// The groups as a map from letter to the pairs filed under it.
pub open spec fn groups_view(g: Seq<(String, Vec<(String, String)>)>) -> Map<Seq<char>, Seq<(Seq<char>, Seq<char>)>> {
    Map::new(
        |k: Seq<char>| has_letter(g, k),
        |k: Seq<char>| pairs_view(g[choose|i: int| 0 <= i < g.len() && #[trigger] g[i].0@ == k].1@),
    )
}

/// The letter under which a crate called `name` is filed: its first byte, which
/// must be a whole character, lowercased. `None` where that byte is not a whole
/// character (or the name is empty).
pub open spec fn first_letter_of(name: Seq<char>) -> Option<Seq<char>> {
    let b = encode_utf8(name);
    if is_char_boundary(b, 1) {
        Some(lowercase_of(decode_utf8(b.subrange(0, 1))))
    } else {
        None
    }
}

/// A crate is filed under the lowercase of the first character of its name exactly
/// when that character is a single byte (ASCII); a name that is empty or starts
/// with a wider character has no letter.
pub proof fn lemma_first_letter_is_first_character(name: Seq<char>)
    ensures
        first_letter_of(name) is Some <==> (name.len() >= 1 && (name[0] as u32) < 0x80),
        name.len() >= 1 && (name[0] as u32) < 0x80 ==> first_letter_of(name) == Some(lowercase_of(seq![name[0]])),
{
    let b = encode_utf8(name);
    if name.len() >= 1 {
        let c = name[0];
        char_is_scalar(c);
        encode_utf8_first_scalar(name);
        assert(pop_first_scalar(b) =~= encode_utf8(name.drop_first()));
        let w = encode_scalar(c as u32);
        assert(b =~= w + encode_utf8(name.drop_first()));
        reveal_with_fuel(is_char_boundary, 2);
        if (c as u32) < 0x80 {
            assert(w.len() == 1);
            assert(is_char_boundary(b, 1));
            assert(seq![c].drop_first() =~= Seq::<char>::empty());
            assert(seq![c][0] == c);
            assert(encode_utf8(Seq::<char>::empty()) =~= Seq::<u8>::empty());
            assert(encode_utf8(seq![c]) == encode_scalar(c as u32) + encode_utf8(seq![c].drop_first()));
            assert(encode_utf8(seq![c]) =~= w);
            assert(b.subrange(0, 1) =~= encode_utf8(seq![c]));
            assert(decode_utf8(encode_utf8(seq![c])) == seq![c]);
        } else {
            assert(w.len() >= 2);
            assert(!is_char_boundary(b, 1));
        }
    } else {
        assert(b.len() == 0);
        assert(!is_char_boundary(b, 1));
    }
}

/// The pairs filed under `k` in `m`, or none.
pub open spec fn filed_under(m: Map<Seq<char>, Seq<(Seq<char>, Seq<char>)>>, k: Seq<char>) -> Seq<(Seq<char>, Seq<char>)> {
    if m.contains_key(k) {
        m[k]
    } else {
        Seq::empty()
    }
}

/// Filing a pair under a letter keeps everything filed before: each letter keeps
/// its pairs in order, the letter filed under gains the pair at its end, and every
/// other letter is unchanged.
pub proof fn lemma_filing_keeps(
    before: Map<Seq<char>, Seq<(Seq<char>, Seq<char>)>>,
    letter: Seq<char>,
    pair: (Seq<char>, Seq<char>),
)
    ensures
        ({
            let after = before.insert(letter, filed_under(before, letter).push(pair));
            &&& forall|k: Seq<char>| filed_under(before, k).is_prefix_of(#[trigger] filed_under(after, k))
            &&& filed_under(after, letter).len() == filed_under(before, letter).len() + 1
            &&& filed_under(after, letter).last() == pair
            &&& forall|k: Seq<char>| k != letter ==> #[trigger] filed_under(after, k) == filed_under(before, k)
        }),
{
    let after = before.insert(letter, filed_under(before, letter).push(pair));
    assert forall|k: Seq<char>| filed_under(before, k).is_prefix_of(#[trigger] filed_under(after, k)) by {
        if k == letter {
            assert(filed_under(after, k) == filed_under(before, k).push(pair));
            assert(filed_under(after, k).take(filed_under(before, k).len() as int) =~= filed_under(before, k));
        } else {
            assert(filed_under(after, k).take(filed_under(before, k).len() as int) =~= filed_under(before, k));
        }
    }
}

/// The letter under which the crate called `name` is filed.
pub fn first_letter(name: &str) -> (r: Option<String>)
    ensures
        r matches Some(l) ==> first_letter_of(name@) == Some(l@),
        r is None <==> first_letter_of(name@) is None,
{
    if !name.is_char_boundary(1) {
        return None;
    }
    let (head, _) = name.split_at(1);
    proof {
        assert(head@ == decode_utf8(head.spec_bytes()));
    }
    Some(to_lowercase(head))
}

/// Crates filed by letter, each letter with its crates in the order they came.
pub struct LetterIndex {
    groups: Vec<(String, Vec<(String, String)>)>,
}

impl View for LetterIndex {
    type V = Map<Seq<char>, Seq<(Seq<char>, Seq<char>)>>;

    closed spec fn view(&self) -> Self::V {
        groups_view(self.groups@)
    }
}

/// Files `(name, version)` under `letter` in `groups`, after the crates already
/// there.
fn add_to_groups(groups: &mut Vec<(String, Vec<(String, String)>)>, letter: String, name: String, version: String)
    requires
        letters_distinct(old(groups)@),
    ensures
        letters_distinct(final(groups)@),
        groups_view(final(groups)@) == groups_view(old(groups)@).insert(letter@, filed_under(groups_view(old(groups)@), letter@).push((name@, version@))),
{
    let ghost g = groups@;
    let ghost m = groups_view(g);
    let mut i: usize = 0;
    while i < groups.len()
        invariant
            groups@ == g,
            i <= g.len(),
            forall|t: int| 0 <= t < i ==> g[t].0@ != letter@,
        ensures
            groups@ == g,
            i <= g.len(),
            forall|t: int| 0 <= t < i ==> g[t].0@ != letter@,
            i < g.len() ==> g[i as int].0@ == letter@,
        decreases g.len() - i,
    {
        if groups[i].0 == letter {
            break;
        }
        i = i + 1;
    }
    if i < groups.len() {
        proof {
            assert(g[i as int].0@ == letter@);
            assert(has_letter(g, letter@));
            assert(m.contains_key(letter@));
            let c = choose|c: int| 0 <= c < g.len() && #[trigger] g[c].0@ == letter@;
            assert(c == i);
        }
        let (k, mut v) = groups.remove(i);
        let ghost old_v = v@;
        v.push((name, version));
        groups.insert(i, (k, v));
        proof {
            let g2 = groups@;
            assert(g2 =~= g.update(i as int, (k, v)));
            assert(pairs_view(v@) =~= pairs_view(old_v).push((name@, version@)));
            assert forall|a: int, b: int|
                0 <= a < g2.len() && 0 <= b < g2.len() && a != b implies #[trigger] g2[a].0@ != #[trigger] g2[b].0@ by {
                assert(g[a].0@ != g[b].0@);
            }
            let target = m.insert(letter@, filed_under(m, letter@).push((name@, version@)));
            assert forall|kk: Seq<char>| has_letter(g2, kk) <==> target.contains_key(kk) by {
                if has_letter(g, kk) {
                    let c = choose|c: int| 0 <= c < g.len() && #[trigger] g[c].0@ == kk;
                    assert(g2[c].0@ == kk);
                }
                if has_letter(g2, kk) {
                    let c = choose|c: int| 0 <= c < g2.len() && #[trigger] g2[c].0@ == kk;
                    assert(g[c].0@ == kk);
                }
            }
            assert forall|kk: Seq<char>| #[trigger] target.contains_key(kk) implies groups_view(g2)[kk] == target[kk] by {
                let c2 = choose|c: int| 0 <= c < g2.len() && #[trigger] g2[c].0@ == kk;
                assert(has_letter(g2, kk));
                if kk == letter@ {
                    assert(c2 == i);
                } else {
                    assert(has_letter(g, kk));
                    let c1 = choose|c: int| 0 <= c < g.len() && #[trigger] g[c].0@ == kk;
                    assert(g2[c1].0@ == kk);
                    assert(c1 == c2);
                }
            }
            assert(groups_view(g2) =~= target);
        }
    } else {
        let mut v: Vec<(String, String)> = Vec::new();
        v.push((name, version));
        groups.push((letter, v));
        proof {
            let g2 = groups@;
            assert(g2 =~= g.push((letter, v)));
            assert(!has_letter(g, letter@));
            assert(pairs_view(v@) =~= seq![(name@, version@)]);
            let target = m.insert(letter@, filed_under(m, letter@).push((name@, version@)));
            assert(filed_under(m, letter@) =~= Seq::<(Seq<char>, Seq<char>)>::empty());
            assert forall|a: int, b: int|
                0 <= a < g2.len() && 0 <= b < g2.len() && a != b implies #[trigger] g2[a].0@ != #[trigger] g2[b].0@ by {
                if a < g.len() && b < g.len() {
                    assert(g[a].0@ != g[b].0@);
                } else if a < g.len() {
                    assert(g2[a] == g[a]);
                } else {
                    assert(g2[b] == g[b]);
                }
            }
            assert forall|kk: Seq<char>| has_letter(g2, kk) <==> target.contains_key(kk) by {
                if has_letter(g, kk) {
                    let c = choose|c: int| 0 <= c < g.len() && #[trigger] g[c].0@ == kk;
                    assert(g2[c].0@ == kk);
                }
                if has_letter(g2, kk) {
                    let c = choose|c: int| 0 <= c < g2.len() && #[trigger] g2[c].0@ == kk;
                    if c < g.len() {
                        assert(g[c].0@ == kk);
                    }
                }
                if kk == letter@ {
                    assert(g2[g.len() as int].0@ == kk);
                }
            }
            assert forall|kk: Seq<char>| #[trigger] target.contains_key(kk) implies groups_view(g2)[kk] == target[kk] by {
                assert(has_letter(g2, kk));
                let c2 = choose|c: int| 0 <= c < g2.len() && #[trigger] g2[c].0@ == kk;
                if kk == letter@ {
                    assert(g2[g.len() as int].0@ == kk);
                    assert(c2 == g.len());
                } else {
                    assert(has_letter(g, kk));
                    let c1 = choose|c: int| 0 <= c < g.len() && #[trigger] g[c].0@ == kk;
                    assert(g2[c1].0@ == kk);
                    assert(c1 == c2);
                }
            }
            assert(groups_view(g2) =~= target);
        }
    }
}

impl LetterIndex {
    /// Each letter has one group.
    #[verifier::type_invariant]
    spec fn letters_once(self) -> bool {
        letters_distinct(self.groups@)
    }

    /// An index with no crates.
    pub fn new() -> (r: LetterIndex)
        ensures
            r@ == Map::<Seq<char>, Seq<(Seq<char>, Seq<char>)>>::empty(),
    {
        let r = LetterIndex { groups: Vec::new() };
        assert(r@ =~= Map::<Seq<char>, Seq<(Seq<char>, Seq<char>)>>::empty());
        r
    }

    /// Files `(name, version)` under `letter`, after the crates already there.
    pub fn add(&mut self, letter: String, name: String, version: String)
        ensures
            final(self)@ == old(self)@.insert(letter@, filed_under(old(self)@, letter@).push((name@, version@))),
    {
        proof {
            use_type_invariant(&*self);
        }
        let mut groups: Vec<(String, Vec<(String, String)>)> = Vec::new();
        std::mem::swap(&mut groups, &mut self.groups);
        add_to_groups(&mut groups, letter, name, version);
        self.groups = groups;
    }

    /// Files the crate called `name`, at version `version`, under its first letter.
    /// Returns `false`, and leaves the index as it was, where the name has no first
    /// letter (it is empty or starts with a character of more than one byte).
    pub fn record(&mut self, name: &str, version: &str) -> (ok: bool)
        ensures
            ok == (first_letter_of(name@) is Some),
            ok ==> final(self)@ == old(self)@.insert(
                first_letter_of(name@)->0,
                filed_under(old(self)@, first_letter_of(name@)->0).push((name@, version@)),
            ),
            !ok ==> final(self)@ == old(self)@,
    {
        match first_letter(name) {
            Some(letter) => {
                self.add(letter, name.to_owned(), version.to_owned());
                true
            }
            None => false,
        }
    }

    /// The groups, each letter once, with the crates filed under it.
    pub fn into_groups(self) -> (r: Vec<(String, Vec<(String, String)>)>)
        ensures
            letters_distinct(r@),
            groups_view(r@) == self@,
    {
        proof {
            use_type_invariant(&self);
        }
        self.groups
    }
}

} // verus!
