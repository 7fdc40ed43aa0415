//! Edit distance between byte strings, as used for name suggestions.

use vstd::prelude::*;
use vstd::utf8::encode_utf8;

use crate::entry::{views, TemplateEntry, TemplateEntryView};

verus! {

/// Names whose distance from the requested one is this or more are never
/// suggested.
pub const MAX_SUGGESTION_DISTANCE: u32 = 10;

/// Longest byte string whose distance is ever computed.
pub const MAX_COMPARED_LEN: usize = 0x3fff_ffff;

/// The Levenshtein distance between two byte strings: the least number of
/// single-byte insertions, deletions and substitutions that turn `a` into `b`.
pub open spec fn edit_distance(a: Seq<u8>, b: Seq<u8>) -> nat
    decreases a.len() + b.len(),
{
    if a.len() == 0 {
        b.len()
    } else if b.len() == 0 {
        a.len()
    } else {
        let last_cost: nat = if a.last() == b.last() { 0 } else { 1 };
        let replace = edit_distance(a.drop_last(), b.drop_last()) + last_cost;
        let delete = edit_distance(a.drop_last(), b) + 1;
        let insert = edit_distance(a, b.drop_last()) + 1;
        if replace <= delete && replace <= insert {
            replace
        } else if delete <= insert {
            delete
        } else {
            insert
        }
    }
}

/// Relies on `triple_accel::levenshtein_exp`, which returns the Levenshtein
/// distance of its two byte strings. Its exponential search doubles a `u32`
/// bound, so the lengths are kept well below `u32::MAX`.
#[verifier::external_body]
pub(crate) fn byte_edit_distance(a: &[u8], b: &[u8]) -> (r: u32)
    requires
        a@.len() <= MAX_COMPARED_LEN,
        b@.len() <= MAX_COMPARED_LEN,
    ensures
        r as nat == edit_distance(a@, b@),
{
    triple_accel::levenshtein_exp(a, b)
}

/// Whether a text is short enough to be compared.
pub open spec fn comparable(s: Seq<char>) -> bool {
    encode_utf8(s).len() <= MAX_COMPARED_LEN
}

/// The distance between a requested name and a template's name, over their
/// UTF-8 encodings.
pub open spec fn name_distance(target: Seq<char>, e: TemplateEntryView) -> nat {
    edit_distance(encode_utf8(target), encode_utf8(e.name))
}

/// Whether `e` may be suggested for `target`: both can be compared and they
/// lie closer than the cutoff.
pub open spec fn eligible(target: Seq<char>, e: TemplateEntryView) -> bool {
    comparable(target) && comparable(e.name) && name_distance(target, e) < MAX_SUGGESTION_DISTANCE
}

/// `i` is the suggestion for `target` among `cands`: eligible, strictly
/// closer than every eligible candidate before it and no farther than any
/// after it.
pub open spec fn is_closest(target: Seq<char>, cands: Seq<TemplateEntryView>, i: int) -> bool {
    &&& 0 <= i < cands.len()
    &&& eligible(target, cands[i])
    &&& forall|j: int|
        0 <= j < i && eligible(target, #[trigger] cands[j]) ==> name_distance(target, cands[j])
            > name_distance(target, cands[i])
    &&& forall|j: int|
        i < j < cands.len() && eligible(target, #[trigger] cands[j]) ==> name_distance(
            target,
            cands[j],
        ) >= name_distance(target, cands[i])
}

/// Whether no candidate may be suggested for `target`.
pub open spec fn none_eligible(target: Seq<char>, cands: Seq<TemplateEntryView>) -> bool {
    forall|j: int| 0 <= j < cands.len() ==> !eligible(target, #[trigger] cands[j])
}

/// With no candidates there is never a suggestion.
pub proof fn lemma_no_candidates_no_suggestion(target: Seq<char>)
    ensures
        none_eligible(target, Seq::empty()),
{
}

/// The template among `patterns` whose name lies closest to `target`, the
/// first of them on a tie, or `None` when none lies closer than the cutoff.
pub fn find_closest<'a>(target: &str, patterns: Vec<&'a TemplateEntry>) -> (r: Option<&'a TemplateEntry>)
    ensures
        r is None <==> none_eligible(target@, views(patterns@)),
        r is Some ==> exists|i: int|
            is_closest(target@, views(patterns@), i) && r->0 == patterns@[i],
{
    let ghost cands = views(patterns@);
    let tb = target.as_bytes();
    let mut closest_distance: u32 = u32::MAX;
    let mut closest: Option<&'a TemplateEntry> = None;
    let ghost mut k: int = 0;
    let mut i: usize = 0;
    while i < patterns.len()
        invariant
            i <= patterns@.len(),
            cands == views(patterns@),
            tb@ == encode_utf8(target@),
            closest is None ==> closest_distance == u32::MAX,
            closest is None ==> forall|j: int| 0 <= j < i ==> !eligible(target@, #[trigger] cands[j]),
            closest is Some ==> {
                &&& 0 <= k < i
                &&& eligible(target@, cands[k])
                &&& closest->0 == patterns@[k]
                &&& closest_distance as nat == name_distance(target@, cands[k])
                &&& forall|j: int|
                    0 <= j < k && eligible(target@, #[trigger] cands[j]) ==> name_distance(
                        target@,
                        cands[j],
                    ) > name_distance(target@, cands[k])
                &&& forall|j: int|
                    k < j < i && eligible(target@, #[trigger] cands[j]) ==> name_distance(
                        target@,
                        cands[j],
                    ) >= name_distance(target@, cands[k])
            },
        decreases patterns@.len() - i,
    {
        let pattern = patterns[i];
        let nb = pattern.name().as_bytes();
        proof {
            assert(cands[i as int] == pattern@);
            assert(nb@ == encode_utf8(cands[i as int].name));
        }
        if tb.len() <= MAX_COMPARED_LEN && nb.len() <= MAX_COMPARED_LEN {
            let distance = byte_edit_distance(tb, nb);
            if distance < closest_distance && distance < MAX_SUGGESTION_DISTANCE {
                closest_distance = distance;
                closest = Some(pattern);
                proof {
                    k = i as int;
                }
            }
        } else {
            assert(!eligible(target@, cands[i as int]));
        }
        i = i + 1;
    }
    proof {
        if closest is Some {
            assert(is_closest(target@, cands, k));
        }
    }
    closest
}

} // verus!
