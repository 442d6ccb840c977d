//! A named template set: one page template per tag, looked up by tag when a
//! page is rendered.

use vstd::prelude::*;

use crate::template_page::PageModel;
use crate::template_page::TemplatePage;
use crate::text::str_eq;

verus! {

/// The mathematical shape of a template set: its name and its pages, keyed
/// by tag.
pub struct TemplateModel {
    pub name: Seq<char>,
    pub pages: Seq<(Seq<char>, PageModel)>,
}

/// A template set is well formed when no tag appears twice.
pub open spec fn template_wf(m: TemplateModel) -> bool {
    forall|i: int, j: int|
        0 <= i < m.pages.len() && 0 <= j < m.pages.len() && i != j ==> (#[trigger] m.pages[i]).0
            != (#[trigger] m.pages[j]).0
}

/// Whether some page is registered under the tag.
pub open spec fn has_tag(pages: Seq<(Seq<char>, PageModel)>, tag: Seq<char>) -> bool {
    exists|i: int| 0 <= i < pages.len() && (#[trigger] pages[i]).0 == tag
}

/// The first page registered under the tag.
pub open spec fn lookup_page(pages: Seq<(Seq<char>, PageModel)>, tag: Seq<char>) -> PageModel
    decreases pages.len(),
{
    if pages.len() == 0 {
        arbitrary()
    } else if pages[0].0 == tag {
        pages[0].1
    } else {
        lookup_page(pages.drop_first(), tag)
    }
}

pub proof fn lemma_lookup_at(pages: Seq<(Seq<char>, PageModel)>, tag: Seq<char>, i: int)
    requires
        0 <= i < pages.len(),
        pages[i].0 == tag,
        forall|j: int| 0 <= j < i ==> (#[trigger] pages[j]).0 != tag,
    ensures
        lookup_page(pages, tag) == pages[i].1,
    decreases i,
{
    if i > 0 {
        assert forall|j: int| 0 <= j < i - 1 implies (#[trigger] pages.drop_first()[j]).0
            != tag by {
            assert(pages.drop_first()[j] == pages[j + 1]);
        }
        assert(pages.drop_first()[i - 1] == pages[i]);
        lemma_lookup_at(pages.drop_first(), tag, i - 1);
    }
}

/// What registering a page does: the first entry with the same tag is
/// replaced, otherwise a new entry is appended.
pub open spec fn pages_insert(
    pages: Seq<(Seq<char>, PageModel)>,
    tag: Seq<char>,
    pm: PageModel,
) -> Seq<(Seq<char>, PageModel)>
    decreases pages.len(),
{
    if pages.len() == 0 {
        seq![(tag, pm)]
    } else if pages[0].0 == tag {
        seq![(tag, pm)] + pages.drop_first()
    } else {
        seq![pages[0]] + pages_insert(pages.drop_first(), tag, pm)
    }
}

proof fn lemma_pages_insert_found(
    pages: Seq<(Seq<char>, PageModel)>,
    tag: Seq<char>,
    pm: PageModel,
    i: int,
)
    requires
        0 <= i < pages.len(),
        pages[i].0 == tag,
        forall|j: int| 0 <= j < i ==> (#[trigger] pages[j]).0 != tag,
    ensures
        pages_insert(pages, tag, pm) == pages.update(i, (tag, pm)),
    decreases i,
{
    if i == 0 {
        assert(seq![(tag, pm)] + pages.drop_first() =~= pages.update(0, (tag, pm)));
    } else {
        assert forall|j: int| 0 <= j < i - 1 implies (#[trigger] pages.drop_first()[j]).0
            != tag by {
            assert(pages.drop_first()[j] == pages[j + 1]);
        }
        assert(pages.drop_first()[i - 1] == pages[i]);
        lemma_pages_insert_found(pages.drop_first(), tag, pm, i - 1);
        assert(seq![pages[0]] + pages.drop_first().update(i - 1, (tag, pm)) =~= pages.update(
            i,
            (tag, pm),
        ));
    }
}

proof fn lemma_pages_insert_not_found(
    pages: Seq<(Seq<char>, PageModel)>,
    tag: Seq<char>,
    pm: PageModel,
)
    requires
        forall|j: int| 0 <= j < pages.len() ==> (#[trigger] pages[j]).0 != tag,
    ensures
        pages_insert(pages, tag, pm) == pages.push((tag, pm)),
    decreases pages.len(),
{
    if pages.len() > 0 {
        assert forall|j: int| 0 <= j < pages.drop_first().len() implies (#[trigger] pages
            .drop_first()[j]).0 != tag by {
            assert(pages.drop_first()[j] == pages[j + 1]);
        }
        lemma_pages_insert_not_found(pages.drop_first(), tag, pm);
        assert(seq![pages[0]] + pages.drop_first().push((tag, pm)) =~= pages.push((tag, pm)));
    }
}

/// A named, read-only set of page templates keyed by tag.
#[derive(Debug)]
pub struct Template {
    name: String,
    pages: Vec<(String, TemplatePage)>,
}

impl View for Template {
    type V = TemplateModel;

    closed spec fn view(&self) -> TemplateModel {
        TemplateModel {
            name: self.name@,
            pages: self.pages@.map(|i: int, p: (String, TemplatePage)| (p.0@, p.1@)),
        }
    }
}

impl Template {
    /// An empty template set with the given name.
    pub fn new(name: &str) -> (r: Self)
        ensures
            r@.name == name@,
            r@.pages == Seq::<(Seq<char>, PageModel)>::empty(),
            template_wf(r@),
    {
        let r = Template { name: name.to_owned(), pages: Vec::new() };
        proof {
            assert(r@.pages =~= Seq::<(Seq<char>, PageModel)>::empty());
        }
        r
    }

    /// Registers a page under a tag, replacing any page already registered
    /// under it.
    pub fn add_page(&mut self, tag: &str, page: TemplatePage)
        requires
            template_wf(old(self)@),
        ensures
            final(self)@.name == old(self)@.name,
            final(self)@.pages == pages_insert(old(self)@.pages, tag@, page@),
            template_wf(final(self)@),
    {
        let ghost orig = self@.pages;
        let ghost pm = page@;
        let n = self.pages.len();
        let mut i: usize = 0;
        while i < n
            invariant
                i <= n,
                n == self.pages@.len(),
                self.pages@ == old(self).pages@,
                self.name@ == old(self).name@,
                template_wf(old(self)@),
                page@ == pm,
                orig == self@.pages,
                orig.len() == n,
                forall|j: int| 0 <= j < i ==> (#[trigger] orig[j]).0 != tag@,
            decreases n - i,
        {
            proof {
                assert(orig[i as int] == (self.pages@[i as int].0@, self.pages@[i as int].1@));
            }
            if str_eq(self.pages[i].0.as_str(), tag) {
                proof {
                    lemma_pages_insert_found(orig, tag@, pm, i as int);
                }
                self.pages.set(i, (tag.to_owned(), page));
                proof {
                    assert(self@.pages =~= orig.update(i as int, (tag@, pm)));
                }
                return ;
            }
            i = i + 1;
        }
        proof {
            lemma_pages_insert_not_found(orig, tag@, pm);
        }
        self.pages.push((tag.to_owned(), page));
        proof {
            assert(self@.pages =~= orig.push((tag@, pm)));
        }
    }

    /// The page registered under a tag, if any.
    pub fn get_page(&self, tag: &String) -> (r: Option<&TemplatePage>)
        ensures
            match r {
                Some(p) => has_tag(self@.pages, tag@) && p@ == lookup_page(self@.pages, tag@),
                None => !has_tag(self@.pages, tag@),
            },
    {
        let ghost pages = self@.pages;
        let n = self.pages.len();
        let mut i: usize = 0;
        while i < n
            invariant
                i <= n,
                n == self.pages@.len(),
                pages == self@.pages,
                pages.len() == n,
                forall|j: int| 0 <= j < i ==> (#[trigger] pages[j]).0 != tag@,
            decreases n - i,
        {
            proof {
                assert(pages[i as int] == (self.pages@[i as int].0@, self.pages@[i as int].1@));
            }
            if str_eq(self.pages[i].0.as_str(), tag.as_str()) {
                proof {
                    lemma_lookup_at(pages, tag@, i as int);
                }
                return Some(&self.pages[i].1);
            }
            i = i + 1;
        }
        proof {
            assert(!has_tag(pages, tag@));
        }
        None
    }
}

} // verus!
