//! The templates of an index in display order: by prefix, then by name.

use vstd::prelude::*;
use vstd::utf8::encode_utf8;

use crate::entry::{views, TemplateEntry, TemplateEntryView};
use crate::index::TemplateIndex;

verus! {

broadcast use vstd::seq_lib::to_multiset_insert;

/// Lexicographic order on byte strings, as `str`'s `Ord` compares texts.
pub open spec fn lex_le(a: Seq<u8>, b: Seq<u8>) -> bool
    decreases a.len(),
{
    if a.len() == 0 {
        true
    } else if b.len() == 0 {
        false
    } else if a[0] != b[0] {
        a[0] < b[0]
    } else {
        lex_le(a.drop_first(), b.drop_first())
    }
}

/// `x` may be listed before `y`: its prefix comes first, or the prefixes are
/// equal and its name comes first.
pub open spec fn listed_before(x: TemplateEntryView, y: TemplateEntryView) -> bool {
    let px = encode_utf8(x.prefix);
    let py = encode_utf8(y.prefix);
    if px == py {
        lex_le(encode_utf8(x.name), encode_utf8(y.name))
    } else {
        lex_le(px, py)
    }
}

pub open spec fn sorted_for_listing(s: Seq<TemplateEntryView>) -> bool {
    forall|i: int, j: int| 0 <= i < j < s.len() ==> listed_before(#[trigger] s[i], #[trigger] s[j])
}

pub proof fn lemma_lex_total(a: Seq<u8>, b: Seq<u8>)
    ensures
        lex_le(a, b) || lex_le(b, a),
    decreases a.len(),
{
    if a.len() > 0 && b.len() > 0 && a[0] == b[0] {
        lemma_lex_total(a.drop_first(), b.drop_first());
    }
}

pub proof fn lemma_lex_antisymmetric(a: Seq<u8>, b: Seq<u8>)
    requires
        lex_le(a, b),
        lex_le(b, a),
    ensures
        a == b,
    decreases a.len(),
{
    if a.len() > 0 && b.len() > 0 {
        lemma_lex_antisymmetric(a.drop_first(), b.drop_first());
        assert(a =~= seq![a[0]] + a.drop_first());
        assert(b =~= seq![b[0]] + b.drop_first());
    }
}

pub proof fn lemma_lex_transitive(a: Seq<u8>, b: Seq<u8>, c: Seq<u8>)
    requires
        lex_le(a, b),
        lex_le(b, c),
    ensures
        lex_le(a, c),
    decreases a.len(),
{
    if a.len() > 0 && b.len() > 0 && c.len() > 0 && a[0] == b[0] && b[0] == c[0] {
        lemma_lex_transitive(a.drop_first(), b.drop_first(), c.drop_first());
    }
}

pub proof fn lemma_listed_before_total(x: TemplateEntryView, y: TemplateEntryView)
    ensures
        listed_before(x, y) || listed_before(y, x),
{
    lemma_lex_total(encode_utf8(x.prefix), encode_utf8(y.prefix));
    lemma_lex_total(encode_utf8(x.name), encode_utf8(y.name));
}

pub proof fn lemma_listed_before_transitive(
    x: TemplateEntryView,
    y: TemplateEntryView,
    z: TemplateEntryView,
)
    requires
        listed_before(x, y),
        listed_before(y, z),
    ensures
        listed_before(x, z),
{
    let (px, py, pz) = (encode_utf8(x.prefix), encode_utf8(y.prefix), encode_utf8(z.prefix));
    if px == py && py == pz {
        lemma_lex_transitive(encode_utf8(x.name), encode_utf8(y.name), encode_utf8(z.name));
    } else if px == py {
        assert(lex_le(px, pz));
    } else if py == pz {
        assert(lex_le(px, pz));
    } else {
        lemma_lex_transitive(px, py, pz);
        if px == pz {
            lemma_lex_antisymmetric(px, py);
        }
    }
}

/// Whether `a` comes before `b`, or equals it, in lexicographic order.
fn bytes_le(a: &[u8], b: &[u8]) -> (r: bool)
    ensures
        r == lex_le(a@, b@),
{
    let mut i: usize = 0;
    proof {
        assert(a@.subrange(0, a@.len() as int) =~= a@);
        assert(b@.subrange(0, b@.len() as int) =~= b@);
    }
    while i < a.len() && i < b.len()
        invariant
            i <= a@.len(),
            i <= b@.len(),
            lex_le(a@, b@) == lex_le(a@.subrange(i as int, a@.len() as int), b@.subrange(i as int, b@.len() as int)),
        decreases a@.len() - i,
    {
        let ghost sa = a@.subrange(i as int, a@.len() as int);
        let ghost sb = b@.subrange(i as int, b@.len() as int);
        if a[i] != b[i] {
            proof {
                assert(sa[0] == a@[i as int] && sb[0] == b@[i as int]);
            }
            return a[i] < b[i];
        }
        proof {
            assert(sa.drop_first() =~= a@.subrange(i + 1, a@.len() as int));
            assert(sb.drop_first() =~= b@.subrange(i + 1, b@.len() as int));
        }
        i = i + 1;
    }
    a.len() <= b.len()
}

/// Whether `x` may be listed before `y`.
fn listed_before_exec(x: &TemplateEntry, y: &TemplateEntry) -> (r: bool)
    ensures
        r == listed_before(x@, y@),
{
    let px = x.prefix().as_bytes();
    let py = y.prefix().as_bytes();
    let forward = bytes_le(px, py);
    let backward = bytes_le(py, px);
    if forward && backward {
        proof {
            lemma_lex_antisymmetric(px@, py@);
        }
        bytes_le(x.name().as_bytes(), y.name().as_bytes())
    } else {
        proof {
            if px@ == py@ {
                lemma_lex_total(px@, py@);
            }
        }
        forward
    }
}

/// Whether the prefix of `entry` is one of `prefixes`.
pub fn prefix_is_one_of(entry: &TemplateEntry, prefixes: &Vec<String>) -> (r: bool)
    ensures
        r == exists|i: int| 0 <= i < prefixes@.len() && #[trigger] prefixes@[i]@ == entry@.prefix,
{
    let prefix = entry.prefix().to_owned();
    let mut i: usize = 0;
    while i < prefixes.len()
        invariant
            i <= prefixes@.len(),
            prefix@ == entry@.prefix,
            forall|j: int| 0 <= j < i ==> #[trigger] prefixes@[j]@ != entry@.prefix,
        decreases prefixes@.len() - i,
    {
        if prefixes[i] == prefix {
            return true;
        }
        i = i + 1;
    }
    false
}

impl TemplateIndex {
    /// Every template of the index once, ordered by prefix and then by name,
    /// both compared as `str` compares them.
    pub fn sorted_entries(&self) -> (r: Vec<&TemplateEntry>)
        ensures
            views(r@).to_multiset() == self@.to_multiset(),
            sorted_for_listing(views(r@)),
    {
        let all = self.entries();
        let mut r: Vec<&TemplateEntry> = Vec::new();
        let mut i: usize = 0;
        proof {
            assert(views(r@) =~= all@.subrange(0, 0).map_values(|e: &TemplateEntry| e@));
        }
        while i < all.len()
            invariant
                i <= all@.len(),
                views(all@) == self@,
                views(r@).to_multiset() == views(all@.subrange(0, i as int)).to_multiset(),
                sorted_for_listing(views(r@)),
            decreases all@.len() - i,
        {
            let x = all[i];
            let mut p: usize = 0;
            while p < r.len() && listed_before_exec(r[p], x)
                invariant
                    p <= r@.len(),
                    forall|q: int| 0 <= q < p ==> listed_before(#[trigger] views(r@)[q], x@),
                decreases r@.len() - p,
            {
                p = p + 1;
            }
            let ghost before = views(r@);
            r.insert(p, x);
            proof {
                assert(views(r@) =~= before.insert(p as int, x@));
                assert(views(all@.subrange(0, i + 1)) =~= views(all@.subrange(0, i as int)).push(x@));
                vstd::seq_lib::to_multiset_build(views(all@.subrange(0, i as int)), x@);
                let s = views(r@);
                assert forall|a: int, b: int| 0 <= a < b < s.len() implies listed_before(
                    #[trigger] s[a],
                    #[trigger] s[b],
                ) by {
                    if b < p {
                        assert(s[a] == before[a] && s[b] == before[b]);
                    } else if b == p {
                        assert(s[a] == before[a]);
                    } else if a > p {
                        assert(s[a] == before[a - 1] && s[b] == before[b - 1]);
                    } else if a == p {
                        assert(s[b] == before[b - 1]);
                        lemma_listed_before_total(before[p as int], x@);
                        if b - 1 > p {
                            lemma_listed_before_transitive(x@, before[p as int], before[b - 1]);
                        }
                    } else {
                        assert(s[a] == before[a] && s[b] == before[b - 1]);
                        lemma_listed_before_total(before[p as int], x@);
                        assert(listed_before(before[a], x@));
                        if b - 1 > p {
                            lemma_listed_before_transitive(x@, before[p as int], before[b - 1]);
                        }
                        lemma_listed_before_transitive(before[a], x@, before[b - 1]);
                    }
                }
            }
            i = i + 1;
        }
        proof {
            assert(all@.subrange(0, i as int) =~= all@);
        }
        r
    }
}

} // verus!
