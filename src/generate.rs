//! Turns a list of requested titles into one ignore file.

use vstd::prelude::*;

use crate::distance::{find_closest, is_closest, none_eligible};
use crate::error::TemplateError;
use crate::entry::TemplateEntryView;
use crate::index::{has_title, position_of, TemplateIndex};

verus! {

/// The texts of a sequence of strings.
pub open spec fn name_views(names: Seq<String>) -> Seq<Seq<char>> {
    names.map_values(|n: String| n@)
}

/// Whether the title `t` is in the index and its body has been read.
pub open spec fn resolvable(es: Seq<TemplateEntryView>, t: Seq<char>) -> bool {
    has_title(es, t) && es[position_of(es, t)].template is Some
}

pub open spec fn all_resolvable(es: Seq<TemplateEntryView>, names: Seq<Seq<char>>) -> bool {
    forall|k: int| 0 <= k < names.len() ==> resolvable(es, #[trigger] names[k])
}

/// `k` is the first requested title that cannot be resolved.
pub open spec fn first_unresolved(es: Seq<TemplateEntryView>, names: Seq<Seq<char>>, k: int) -> bool {
    &&& 0 <= k < names.len()
    &&& !resolvable(es, names[k])
    &&& forall|j: int| 0 <= j < k ==> resolvable(es, #[trigger] names[j])
}

/// The blocks of the requested templates, in the order of the request.
pub open spec fn blocks(es: Seq<TemplateEntryView>, names: Seq<Seq<char>>) -> Seq<char>
    decreases names.len(),
{
    if names.len() == 0 {
        Seq::empty()
    } else {
        blocks(es, names.drop_last()) + es[position_of(es, names.last())].block()
    }
}

pub open spec fn trim_start_newlines(s: Seq<char>) -> Seq<char>
    decreases s.len(),
{
    if s.len() > 0 && s[0] == '\n' {
        trim_start_newlines(s.drop_first())
    } else {
        s
    }
}

pub open spec fn trim_end_newlines(s: Seq<char>) -> Seq<char>
    decreases s.len(),
{
    if s.len() > 0 && s.last() == '\n' {
        trim_end_newlines(s.drop_last())
    } else {
        s
    }
}

/// `s` without the newlines it starts and ends with.
pub open spec fn trim_newlines(s: Seq<char>) -> Seq<char> {
    trim_end_newlines(trim_start_newlines(s))
}

/// The file generated for a request in which every title resolves.
pub open spec fn document(es: Seq<TemplateEntryView>, names: Seq<Seq<char>>) -> Seq<char> {
    trim_newlines(blocks(es, names))
}

/// `e` is the error for the unresolved title `name`: a failed read when the
/// title is indexed, else the title not found, with the title of the closest
/// template as suggestion when one lies close enough.
pub open spec fn resolution_error(es: Seq<TemplateEntryView>, name: Seq<char>, e: TemplateError) -> bool {
    if has_title(es, name) {
        e is ReadFailure && e->ReadFailure_0@ == name
    } else {
        &&& e is TemplateNotFound
        &&& e->name@ == name
        &&& e->suggestion is None <==> none_eligible(name, es)
        &&& e->suggestion is Some ==> exists|i: int|
            is_closest(name, es, i) && e->suggestion->0@ == es[i].title()
    }
}

/// The positions whose bodies a request needs, in the order of the request,
/// up to its first title that is not indexed.
pub open spec fn read_plan(es: Seq<TemplateEntryView>, names: Seq<Seq<char>>) -> Seq<usize>
    decreases names.len(),
{
    if names.len() == 0 || !has_title(es, names[0]) {
        Seq::empty()
    } else {
        seq![position_of(es, names[0]) as usize] + read_plan(es, names.drop_first())
    }
}

/// A generated file keeps the order of the request: asking for `b` then
/// `a` gives the block of `b` followed by the block of `a`.
pub proof fn lemma_request_order_kept(es: Seq<TemplateEntryView>, b: Seq<char>, a: Seq<char>)
    requires
        has_title(es, b),
        has_title(es, a),
    ensures
        blocks(es, seq![b, a]) == es[position_of(es, b)].block() + es[position_of(es, a)].block(),
        document(es, seq![b, a]) == trim_newlines(
            es[position_of(es, b)].block() + es[position_of(es, a)].block(),
        ),
{
    let names = seq![b, a];
    assert(names.drop_last() =~= seq![b]);
    let one = seq![b];
    assert(one.drop_last() =~= Seq::<Seq<char>>::empty());
    assert(one.last() == b);
    assert(names.last() == a);
    assert(blocks(es, one.drop_last()) == Seq::<char>::empty());
    assert(blocks(es, one) =~= es[position_of(es, b)].block());
}

/// Generation is all or nothing: a request that holds a title missing from
/// the index yields no file.
pub proof fn lemma_missing_title_fails(es: Seq<TemplateEntryView>, names: Seq<Seq<char>>, k: int)
    requires
        0 <= k < names.len(),
        !has_title(es, names[k]),
    ensures
        !all_resolvable(es, names),
{
    assert(!resolvable(es, names[k]));
}

/// `s` without the newlines it starts and ends with.
pub fn trim_newlines_of(s: &str) -> (r: String)
    ensures
        r@ == trim_newlines(s@),
{
    let n = s.unicode_len();
    let mut start: usize = 0;
    proof {
        assert(s@.subrange(0, n as int) =~= s@);
    }
    while start < n && s.get_char(start) == '\n'
        invariant
            start <= n,
            n == s@.len(),
            trim_start_newlines(s@.subrange(start as int, n as int)) == trim_start_newlines(s@),
        decreases n - start,
    {
        proof {
            assert(s@.subrange(start as int, n as int).drop_first() =~= s@.subrange(
                start + 1,
                n as int,
            ));
        }
        start = start + 1;
    }
    let mut end: usize = n;
    while end > start && s.get_char(end - 1) == '\n'
        invariant
            start <= end <= n,
            n == s@.len(),
            trim_end_newlines(s@.subrange(start as int, end as int)) == trim_end_newlines(
                s@.subrange(start as int, n as int),
            ),
        decreases end - start,
    {
        proof {
            assert(s@.subrange(start as int, end as int).drop_last() =~= s@.subrange(
                start as int,
                end - 1,
            ));
        }
        end = end - 1;
    }
    s.substring_char(start, end).to_owned()
}

/// The positions of the templates whose bodies `names` needs, in the order
/// of the request, up to its first title that is not indexed.
pub fn bodies_to_read(index: &TemplateIndex, names: &Vec<String>) -> (r: Vec<usize>)
    requires
        index.wf(),
    ensures
        r@ == read_plan(index@, name_views(names@)),
{
    let ghost nv = name_views(names@);
    let mut r: Vec<usize> = Vec::new();
    let mut k: usize = 0;
    proof {
        assert(nv.subrange(0, nv.len() as int) =~= nv);
        assert(r@ + read_plan(index@, nv) =~= read_plan(index@, nv));
    }
    while k < names.len()
        invariant
            k <= names@.len(),
            index.wf(),
            nv == name_views(names@),
            r@ + read_plan(index@, nv.subrange(k as int, nv.len() as int)) == read_plan(index@, nv),
        decreases names@.len() - k,
    {
        let ghost rest = nv.subrange(k as int, nv.len() as int);
        proof {
            assert(rest[0] == names@[k as int]@);
            assert(rest.drop_first() =~= nv.subrange(k + 1, nv.len() as int));
        }
        match index.position(names[k].as_str()) {
            Some(p) => {
                r.push(p);
                proof {
                    assert(read_plan(index@, rest) == seq![p] + read_plan(index@, rest.drop_first()));
                    assert(r@ + read_plan(index@, rest.drop_first()) =~= r@.drop_last() + read_plan(index@, rest));
                }
            },
            None => {
                proof {
                    assert(read_plan(index@, rest) == Seq::<usize>::empty());
                    assert(r@ =~= r@ + read_plan(index@, rest));
                }
                return r;
            },
        }
        k = k + 1;
    }
    proof {
        assert(nv.subrange(k as int, nv.len() as int).len() == 0);
        assert(r@ =~= r@ + read_plan(index@, nv.subrange(k as int, nv.len() as int)));
    }
    r
}

/// The error for the title `name`, which the index does not hold: it carries
/// the title of the closest template, if any lies close enough.
fn not_found(index: &TemplateIndex, name: &String) -> (r: TemplateError)
    requires
        !has_title(index@, name@),
    ensures
        resolution_error(index@, name@, r),
{
    let suggestion = match find_closest(name.as_str(), index.entries()) {
        Some(closest) => Some(closest.title()),
        None => None,
    };
    TemplateError::TemplateNotFound { name: name.clone(), suggestion }
}

/// The ignore file for the titles `names`: the blocks of their templates in
/// the order requested, without leading or trailing newlines. Stops at the
/// first title that is not indexed or whose body has not been read, and then
/// returns only the error.
pub fn generate_gitignore(index: &TemplateIndex, names: &Vec<String>) -> (r: Result<String, TemplateError>)
    requires
        index.wf(),
    ensures
        r is Ok <==> all_resolvable(index@, name_views(names@)),
        r is Ok ==> r->Ok_0@ == document(index@, name_views(names@)),
        r is Err ==> exists|k: int|
            first_unresolved(index@, name_views(names@), k) && resolution_error(
                index@,
                name_views(names@)[k],
                r->Err_0,
            ),
{
    let ghost nv = name_views(names@);
    let mut acc = String::new();
    let mut k: usize = 0;
    while k < names.len()
        invariant
            k <= names@.len(),
            index.wf(),
            nv == name_views(names@),
            forall|j: int| 0 <= j < k ==> resolvable(index@, #[trigger] nv[j]),
            acc@ == blocks(index@, nv.subrange(0, k as int)),
        decreases names@.len() - k,
    {
        let name = &names[k];
        proof {
            assert(nv[k as int] == name@);
        }
        match index.position(name.as_str()) {
            None => {
                let err = not_found(index, name);
                proof {
                    assert(first_unresolved(index@, nv, k as int));
                }
                return Err(err);
            },
            Some(p) => {
                let entry = index.entry(p);
                if entry.template().is_none() {
                    proof {
                        assert(first_unresolved(index@, nv, k as int));
                    }
                    return Err(TemplateError::ReadFailure(name.clone()));
                }
                let block = entry.to_string();
                acc.append(block.as_str());
                proof {
                    let done = nv.subrange(0, k + 1);
                    assert(done.drop_last() =~= nv.subrange(0, k as int));
                    assert(done.last() == name@);
                }
            },
        }
        k = k + 1;
    }
    proof {
        assert(nv.subrange(0, k as int) =~= nv);
    }
    Ok(trim_newlines_of(acc.as_str()))
}

} // verus!
