//! The index of a template store: its templates, no two under one title.

use vstd::prelude::*;

use crate::entry::{views, TemplateEntry, TemplateEntryView};
use crate::error::TemplateError;

verus! {

/// The views of a sequence of templates.
pub open spec fn entry_views(es: Seq<TemplateEntry>) -> Seq<TemplateEntryView> {
    es.map_values(|e: TemplateEntry| e@)
}

/// No two templates share a title.
pub open spec fn titles_distinct(es: Seq<TemplateEntryView>) -> bool {
    forall|i: int, j: int|
        0 <= i < j < es.len() ==> #[trigger] es[i].title() != #[trigger] es[j].title()
}

/// `j` is the first position whose title an earlier template already has.
pub open spec fn first_duplicate(es: Seq<TemplateEntryView>, j: int) -> bool {
    &&& 0 <= j < es.len()
    &&& exists|i: int| 0 <= i < j && #[trigger] es[i].title() == es[j].title()
    &&& titles_distinct(es.subrange(0, j))
}

/// Whether some template has the title `t`.
pub open spec fn has_title(es: Seq<TemplateEntryView>, t: Seq<char>) -> bool {
    exists|i: int| 0 <= i < es.len() && #[trigger] es[i].title() == t
}

/// The position of the template titled `t`, when there is one.
pub open spec fn position_of(es: Seq<TemplateEntryView>, t: Seq<char>) -> int {
    choose|i: int| 0 <= i < es.len() && #[trigger] es[i].title() == t
}

/// When no two templates share a title, each template is found under its
/// own title, at its own position and nowhere else.
pub proof fn lemma_each_title_once(es: Seq<TemplateEntryView>)
    requires
        titles_distinct(es),
    ensures
        forall|i: int|
            0 <= i < es.len() ==> has_title(es, #[trigger] es[i].title()) && position_of(es, es[i].title())
                == i,
{
    assert forall|i: int| 0 <= i < es.len() implies has_title(es, #[trigger] es[i].title())
        && position_of(es, es[i].title()) == i by {
        assert(es[i].title() == es[i].title());
        let p = position_of(es, es[i].title());
        if p < i {
            assert(es[p].title() != es[i].title());
        } else if p > i {
            assert(es[i].title() != es[p].title());
        }
    }
}

/// The templates of a store, each under its own title.
pub struct TemplateIndex {
    entries: Vec<TemplateEntry>,
}

impl View for TemplateIndex {
    type V = Seq<TemplateEntryView>;

    closed spec fn view(&self) -> Seq<TemplateEntryView> {
        entry_views(self.entries@)
    }
}

impl TemplateIndex {
    /// The index holds no two templates under one title.
    pub open spec fn wf(&self) -> bool {
        titles_distinct(self@)
    }

    /// Indexes `entries`, keeping their order. Fails on the first template
    /// whose title an earlier one already has, and then returns no index.
    pub fn build(entries: Vec<TemplateEntry>) -> (r: Result<TemplateIndex, TemplateError>)
        ensures
            r is Ok <==> titles_distinct(entry_views(entries@)),
            r is Ok ==> r->Ok_0.wf() && r->Ok_0@ == entry_views(entries@),
            r is Ok ==> forall|i: int|
                0 <= i < r->Ok_0@.len() ==> has_title(r->Ok_0@, #[trigger] r->Ok_0@[i].title())
                    && position_of(r->Ok_0@, r->Ok_0@[i].title()) == i,
            r is Err ==> exists|j: int|
                first_duplicate(entry_views(entries@), j) && r->Err_0 is DuplicateTemplate
                    && r->Err_0->DuplicateTemplate_0@ == entries@[j]@.name,
    {
        let ghost es = entry_views(entries@);
        let mut titles: Vec<String> = Vec::new();
        let mut j: usize = 0;
        while j < entries.len()
            invariant
                j <= entries@.len(),
                es == entry_views(entries@),
                titles@.len() == j,
                forall|i: int| 0 <= i < j ==> #[trigger] titles@[i]@ == es[i].title(),
                titles_distinct(es.subrange(0, j as int)),
            decreases entries@.len() - j,
        {
            let title = entries[j].title();
            let mut i: usize = 0;
            while i < j
                invariant
                    i <= j < entries@.len(),
                    es == entry_views(entries@),
                    titles_distinct(es.subrange(0, j as int)),
                    titles@.len() == j,
                    title@ == es[j as int].title(),
                    forall|m: int| 0 <= m < j ==> #[trigger] titles@[m]@ == es[m].title(),
                    forall|m: int| 0 <= m < i ==> es[m].title() != es[j as int].title(),
                decreases j - i,
            {
                if titles[i] == title {
                    proof {
                        assert(es[i as int].title() == es[j as int].title());
                        assert(first_duplicate(es, j as int));
                    }
                    return Err(TemplateError::DuplicateTemplate(entries[j].name_owned()));
                }
                i = i + 1;
            }
            titles.push(title);
            proof {
                assert forall|a: int, b: int|
                    0 <= a < b < j + 1 implies #[trigger] es.subrange(0, j + 1)[a].title()
                        != #[trigger] es.subrange(0, j + 1)[b].title() by {
                    if b < j {
                        assert(es.subrange(0, j as int)[a] == es[a]);
                        assert(es.subrange(0, j as int)[b] == es[b]);
                    }
                }
            }
            j = j + 1;
        }
        proof {
            assert(es.subrange(0, j as int) =~= es);
            lemma_each_title_once(es);
        }
        Ok(TemplateIndex { entries })
    }

    pub fn len(&self) -> (r: usize)
        ensures
            r == self@.len(),
    {
        self.entries.len()
    }

    /// The template at position `i`.
    pub fn entry(&self, i: usize) -> (r: &TemplateEntry)
        requires
            i < self@.len(),
        ensures
            r@ == self@[i as int],
    {
        &self.entries[i]
    }

    /// The templates in index order.
    pub fn entries(&self) -> (r: Vec<&TemplateEntry>)
        ensures
            views(r@) == self@,
    {
        let mut r: Vec<&TemplateEntry> = Vec::new();
        let mut i: usize = 0;
        while i < self.entries.len()
            invariant
                i <= self.entries@.len(),
                r@.len() == i,
                forall|m: int| 0 <= m < i ==> #[trigger] r@[m]@ == self@[m],
            decreases self.entries@.len() - i,
        {
            r.push(&self.entries[i]);
            i = i + 1;
        }
        proof {
            assert(views(r@) =~= self@);
        }
        r
    }

    /// The position of the template titled `title`, if any.
    pub fn position(&self, title: &str) -> (r: Option<usize>)
        requires
            self.wf(),
        ensures
            r is None <==> !has_title(self@, title@),
            r is Some ==> r->0 == position_of(self@, title@),
    {
        let wanted = title.to_owned();
        let mut i: usize = 0;
        while i < self.entries.len()
            invariant
                i <= self.entries@.len(),
                self.wf(),
                wanted@ == title@,
                forall|m: int| 0 <= m < i ==> #[trigger] self@[m].title() != title@,
            decreases self.entries@.len() - i,
        {
            if self.entries[i].title() == wanted {
                proof {
                    assert(self@[i as int].title() == title@);
                    let p = position_of(self@, title@);
                    assert(self@[p].title() == title@);
                    if p != i {
                        if p < i {
                            assert(self@[p].title() != self@[i as int].title());
                        } else {
                            assert(self@[i as int].title() != self@[p].title());
                        }
                    }
                }
                return Some(i);
            }
            i = i + 1;
        }
        None
    }

    /// Gives the template at position `i` the body `body`.
    pub fn load(&mut self, i: usize, body: String)
        requires
            i < old(self)@.len(),
        ensures
            final(self)@ == old(self)@.update(
                i as int,
                TemplateEntryView { template: Some(body@), ..old(self)@[i as int] },
            ),
            old(self).wf() ==> final(self).wf(),
    {
        let loaded = self.entries[i].with_template(body);
        self.entries.set(i, loaded);
        proof {
            assert(self@ =~= old(self)@.update(
                i as int,
                TemplateEntryView { template: Some(body@), ..old(self)@[i as int] },
            ));
            if old(self).wf() {
                assert forall|a: int, b: int| 0 <= a < b < self@.len() implies #[trigger] self@[a].title()
                    != #[trigger] self@[b].title() by {
                    assert(self@[a].title() == old(self)@[a].title());
                    assert(self@[b].title() == old(self)@[b].title());
                }
            }
        }
    }
}

} // verus!
