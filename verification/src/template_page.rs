//! A page-level template: literal text, single-value placeholders (plain or
//! with a default), and named element slots that accumulate template
//! elements, rendered in section order.

use vstd::prelude::*;
use vstd::pervasive::VecAdditionalExecFns;
use vstd::string::StringExecFns;

use crate::template_element::TemplateElement;
use crate::template_element::TemplateElementModel;
use crate::template_element::TemplateElementType;
use crate::template_element::TemplateElementTemplates;
use crate::template_element::TemplatesModel;
use crate::template_element::default_bold_skeleton;
use crate::template_element::default_content_skeleton;
use crate::template_element::default_header_skeleton;
use crate::template_element::default_italic_skeleton;
use crate::template_element::default_paragraph_skeleton;
use crate::template_element::clone_telems;
use crate::template_element::lemma_telems_model_index;
use crate::template_element::list_render_model;
use crate::template_element::render_element_list;
use crate::template_element::telem_model;
use crate::template_element::telems_model;
use crate::template_element::templates_model;
use crate::template_element::tm_set;
use crate::template_errors::ErrorModel;
use crate::template_errors::TemplateError;
use crate::template_errors::error_model;
use crate::template_string::SectionModel;
use crate::template_string::TemplateString;
use crate::template_string::TemplateStringSection;
use crate::template_string::ts_sections;
use crate::text::str_eq;

verus! {

/// One section of a page template.
#[derive(Debug)]
pub enum TemplatePageSection {
    /// Literal output.
    Text(String),
    /// A named slot with the elements pushed into it so far.
    Elements(String, Vec<TemplateElement>),
    /// An unresolved single-value placeholder; rendering fails on it.
    Variable(String),
    /// A placeholder that renders as its default text.
    DefaultVariable(String, String),
}

/// The mathematical shape of a page section.
pub enum PageSectionModel {
    Text(Seq<char>),
    Elements(Seq<char>, Seq<TemplateElementModel>),
    Variable(Seq<char>),
    DefaultVariable(Seq<char>, Seq<char>),
}

pub open spec fn psection_model(s: TemplatePageSection) -> PageSectionModel {
    match s {
        TemplatePageSection::Text(t) => PageSectionModel::Text(t@),
        TemplatePageSection::Elements(n, els) => PageSectionModel::Elements(
            n@,
            telems_model(els@),
        ),
        TemplatePageSection::Variable(n) => PageSectionModel::Variable(n@),
        TemplatePageSection::DefaultVariable(n, d) => PageSectionModel::DefaultVariable(n@, d@),
    }
}

pub open spec fn psections_model(v: Seq<TemplatePageSection>) -> Seq<PageSectionModel> {
    v.map(|i: int, s: TemplatePageSection| psection_model(s))
}

/// The mathematical shape of a page: its identity, its skeleton table, and
/// its sections in order.
pub struct PageModel {
    pub id: Seq<char>,
    pub templates: TemplatesModel,
    pub sections: Seq<PageSectionModel>,
}

/// The skeleton table holding every default skeleton.
pub open spec fn default_templates_model() -> TemplatesModel {
    TemplatesModel {
        header: Some(default_header_skeleton()),
        paragraph: Some(default_paragraph_skeleton()),
        line: Some(default_content_skeleton()),
        text: Some(default_content_skeleton()),
        italic: Some(default_italic_skeleton()),
        bold: Some(default_bold_skeleton()),
    }
}

/// A page template: parsed once from its section-description text, then
/// filled through `add` and rendered exactly once.
#[derive(Debug)]
pub struct TemplatePage {
    id: String,
    templates: TemplateElementTemplates,
    sections: Vec<TemplatePageSection>,
}

impl View for TemplatePage {
    type V = PageModel;

    closed spec fn view(&self) -> PageModel {
        PageModel {
            id: self.id@,
            templates: templates_model(self.templates),
            sections: psections_model(self.sections@),
        }
    }
}

/// Reinterpretation of template-string sections as page sections.
pub open spec fn page_sections_of(secs: Seq<SectionModel>) -> Seq<PageSectionModel> {
    secs.map(
        |i: int, s: SectionModel|
            match s {
                SectionModel::Text(t) => PageSectionModel::Text(t),
                SectionModel::Variable(n) => PageSectionModel::Variable(n),
                SectionModel::DefaultVariable(n, d) => PageSectionModel::DefaultVariable(n, d),
            },
    )
}

/// The name a page section answers to, if any.
pub open spec fn psec_name(sec: PageSectionModel) -> Option<Seq<char>> {
    match sec {
        PageSectionModel::Text(_) => None,
        PageSectionModel::Elements(n, _) => Some(n),
        PageSectionModel::Variable(n) => Some(n),
        PageSectionModel::DefaultVariable(n, _) => Some(n),
    }
}

/// What `add` makes of the first section matching the name: an existing slot
/// grows by the element, any other section becomes a slot holding just it.
pub open spec fn promoted(
    sec: PageSectionModel,
    name: Seq<char>,
    el: TemplateElementModel,
) -> PageSectionModel {
    match sec {
        PageSectionModel::Elements(n, els) => PageSectionModel::Elements(n, els.push(el)),
        _ => PageSectionModel::Elements(name, seq![el]),
    }
}

/// What `add` does to a section list: the first section whose name matches
/// takes the element; with no match the list is unchanged.
pub open spec fn page_add(
    secs: Seq<PageSectionModel>,
    name: Seq<char>,
    el: TemplateElementModel,
) -> Seq<PageSectionModel>
    decreases secs.len(),
{
    if secs.len() == 0 {
        secs
    } else if psec_name(secs[0]) == Some(name) {
        seq![promoted(secs[0], name, el)] + secs.drop_first()
    } else {
        seq![secs[0]] + page_add(secs.drop_first(), name, el)
    }
}

pub proof fn lemma_page_add_found(
    secs: Seq<PageSectionModel>,
    name: Seq<char>,
    el: TemplateElementModel,
    i: int,
)
    requires
        0 <= i < secs.len(),
        forall|j: int| 0 <= j < i ==> psec_name(#[trigger] secs[j]) != Some(name),
        psec_name(secs[i]) == Some(name),
    ensures
        page_add(secs, name, el) == secs.update(i, promoted(secs[i], name, el)),
    decreases i,
{
    if i == 0 {
        assert(seq![promoted(secs[0], name, el)] + secs.drop_first() =~= secs.update(
            0,
            promoted(secs[0], name, el),
        ));
    } else {
        assert forall|j: int| 0 <= j < i - 1 implies psec_name(
            #[trigger] secs.drop_first()[j],
        ) != Some(name) by {
            assert(secs.drop_first()[j] == secs[j + 1]);
        }
        assert(secs.drop_first()[i - 1] == secs[i]);
        lemma_page_add_found(secs.drop_first(), name, el, i - 1);
        assert(seq![secs[0]] + secs.drop_first().update(i - 1, promoted(secs[i], name, el))
            =~= secs.update(i, promoted(secs[i], name, el)));
    }
}

/// `add` with a name no section answers to leaves the sections unchanged.
pub proof fn lemma_page_add_not_found(
    secs: Seq<PageSectionModel>,
    name: Seq<char>,
    el: TemplateElementModel,
)
    requires
        forall|j: int| 0 <= j < secs.len() ==> psec_name(#[trigger] secs[j]) != Some(name),
    ensures
        page_add(secs, name, el) == secs,
    decreases secs.len(),
{
    if secs.len() > 0 {
        assert forall|j: int| 0 <= j < secs.drop_first().len() implies psec_name(
            #[trigger] secs.drop_first()[j],
        ) != Some(name) by {
            assert(secs.drop_first()[j] == secs[j + 1]);
        }
        lemma_page_add_not_found(secs.drop_first(), name, el);
        assert(seq![secs[0]] + secs.drop_first() =~= secs);
    }
}

/// The text one page section renders to: literal text itself, a slot as its
/// elements' renders joined without separator, a default its fallback, and
/// an unresolved placeholder a failure naming itself.
pub open spec fn psection_render(sec: PageSectionModel, t: TemplatesModel) -> Result<
    Seq<char>,
    ErrorModel,
> {
    match sec {
        PageSectionModel::Text(s) => Ok(s),
        PageSectionModel::Elements(_, els) => list_render_model(els, t, Seq::empty(), false),
        PageSectionModel::DefaultVariable(_, d) => Ok(d),
        PageSectionModel::Variable(n) => Err(ErrorModel::MissingVariables(seq![n])),
    }
}

/// The whole page's render: section texts concatenated in order, failing
/// fast on the first section that fails.
pub open spec fn psections_render(secs: Seq<PageSectionModel>, t: TemplatesModel) -> Result<
    Seq<char>,
    ErrorModel,
>
    decreases secs.len(),
{
    if secs.len() == 0 {
        Ok(Seq::empty())
    } else {
        match psection_render(secs[0], t) {
            Err(e) => Err(e),
            Ok(s0) => match psections_render(secs.drop_first(), t) {
                Err(e) => Err(e),
                Ok(rest) => Ok(s0 + rest),
            },
        }
    }
}

pub open spec fn page_render_model(p: PageModel) -> Result<Seq<char>, ErrorModel> {
    psections_render(p.sections, p.templates)
}

impl Clone for TemplatePageSection {
    fn clone(&self) -> (r: Self)
        ensures
            psection_model(r) == psection_model(*self),
    {
        match self {
            TemplatePageSection::Text(t) => TemplatePageSection::Text(t.clone()),
            TemplatePageSection::Elements(n, els) => TemplatePageSection::Elements(
                n.clone(),
                clone_telems(els),
            ),
            TemplatePageSection::Variable(n) => TemplatePageSection::Variable(n.clone()),
            TemplatePageSection::DefaultVariable(n, d) => TemplatePageSection::DefaultVariable(
                n.clone(),
                d.clone(),
            ),
        }
    }
}

impl Clone for TemplatePage {
    fn clone(&self) -> (r: Self)
        ensures
            r@ == self@,
    {
        let mut sections: Vec<TemplatePageSection> = Vec::new();
        let mut i: usize = 0;
        let n = self.sections.len();
        while i < n
            invariant
                i <= n,
                n == self.sections@.len(),
                sections@.len() == i,
                forall|j: int|
                    0 <= j < i ==> psection_model(#[trigger] sections@[j]) == psection_model(
                        self.sections@[j],
                    ),
            decreases n - i,
        {
            sections.push(self.sections[i].clone());
            i = i + 1;
        }
        let r = TemplatePage {
            id: self.id.clone(),
            templates: self.templates.clone(),
            sections,
        };
        proof {
            assert(psections_model(r.sections@) =~= psections_model(self.sections@));
        }
        r
    }
}

impl TemplatePage {
    /// A fresh page with the given identity, the default skeletons, and no
    /// sections yet.
    pub fn new(id: String) -> (r: Self)
        ensures
            r@.id == id@,
            r@.templates == default_templates_model(),
            r@.sections == Seq::<PageSectionModel>::empty(),
    {
        let r = TemplatePage {
            id,
            templates: TemplateElementTemplates::default(),
            sections: Vec::new(),
        };
        proof {
            assert(r@.sections =~= Seq::<PageSectionModel>::empty());
        }
        r
    }

    /// Parses the page's section-description text: the placeholder grammar
    /// of a template string, each section then carried over as a page
    /// section. Replaces any sections parsed before.
    pub fn parse_sections_string(&mut self, s: &str)
        ensures
            final(self)@.id == old(self)@.id,
            final(self)@.templates == old(self)@.templates,
            final(self)@.sections == page_sections_of(ts_sections(s@)),
    {
        let template_string = TemplateString::parse_string(s);
        let mut sections: Vec<TemplatePageSection> = Vec::new();
        let n = template_string.sections.len();
        let mut i: usize = 0;
        while i < n
            invariant
                i <= n,
                n == template_string.sections@.len(),
                template_string@ == ts_sections(s@),
                sections@.len() == i,
                forall|j: int|
                    0 <= j < i ==> psection_model(#[trigger] sections@[j]) == page_sections_of(
                        ts_sections(s@),
                    )[j],
            decreases n - i,
        {
            match &template_string.sections[i] {
                TemplateStringSection::Text(text) => {
                    sections.push(TemplatePageSection::Text(text.clone()));
                },
                TemplateStringSection::Variable(name) => {
                    sections.push(TemplatePageSection::Variable(name.clone()));
                },
                TemplateStringSection::DefaultVariable(name, text) => {
                    sections.push(TemplatePageSection::DefaultVariable(name.clone(), text.clone()));
                },
            }
            proof {
                assert(template_string@[i as int] == ts_sections(s@)[i as int]);
            }
            i = i + 1;
        }
        self.sections = sections;
        proof {
            assert(psections_model(self.sections@) =~= page_sections_of(ts_sections(s@)));
        }
    }

    /// Registers (or replaces) the skeleton this page uses for one element
    /// kind.
    pub fn add_template(&mut self, element_type: TemplateElementType, template: TemplateString)
        ensures
            final(self)@.id == old(self)@.id,
            final(self)@.sections == old(self)@.sections,
            final(self)@.templates == tm_set(old(self)@.templates, element_type, template@),
    {
        self.templates.add(element_type, template);
    }

    /// Pushes an element into the first section whose name matches: an
    /// existing slot grows, a placeholder is promoted to a slot holding just
    /// this element, and with no matching section nothing happens.
    pub fn add(&mut self, name: &str, element: TemplateElement)
        ensures
            final(self)@.id == old(self)@.id,
            final(self)@.templates == old(self)@.templates,
            final(self)@.sections == page_add(old(self)@.sections, name@, telem_model(element)),
    {
        let ghost orig = psections_model(self.sections@);
        let ghost el = telem_model(element);
        let n = self.sections.len();
        let mut i: usize = 0;
        while i < n
            invariant
                i <= n,
                n == self.sections@.len(),
                self.sections@ == old(self).sections@,
                self.id@ == old(self).id@,
                templates_model(self.templates) == templates_model(old(self).templates),
                telem_model(element) == el,
                forall|j: int| 0 <= j < i ==> psec_name(#[trigger] orig[j]) != Some(name@),
                orig == psections_model(self.sections@),
                orig.len() == n,
            decreases n - i,
        {
            let matches_name: bool = match &self.sections[i] {
                TemplatePageSection::Text(_) => false,
                TemplatePageSection::Elements(section_name, _) => str_eq(
                    section_name.as_str(),
                    name,
                ),
                TemplatePageSection::Variable(section_name) => str_eq(
                    section_name.as_str(),
                    name,
                ),
                TemplatePageSection::DefaultVariable(section_name, _) => str_eq(
                    section_name.as_str(),
                    name,
                ),
            };
            if matches_name {
                proof {
                    assert(psec_name(orig[i as int]) == Some(name@));
                    lemma_page_add_found(orig, name@, el, i as int);
                }
                let mut taken = TemplatePageSection::Text(String::new());
                self.sections.set_and_swap(i, &mut taken);
                match taken {
                    TemplatePageSection::Elements(slot_name, mut elements) => {
                        let ghost orig_els = elements@;
                        elements.push(element);
                        proof {
                            lemma_telems_model_index(elements@);
                            lemma_telems_model_index(orig_els);
                            assert(telems_model(elements@) =~= telems_model(orig_els).push(el));
                        }
                        let new_section = TemplatePageSection::Elements(slot_name, elements);
                        let ghost m = psection_model(new_section);
                        proof {
                            assert(m == promoted(orig[i as int], name@, el));
                        }
                        self.sections.set(i, new_section);
                        proof {
                            assert(psections_model(self.sections@) =~= orig.update(i as int, m));
                        }
                    },
                    _ => {
                        let mut single: Vec<TemplateElement> = Vec::new();
                        single.push(element);
                        proof {
                            lemma_telems_model_index(single@);
                            assert(telems_model(single@) =~= seq![el]);
                        }
                        let new_section = TemplatePageSection::Elements(name.to_owned(), single);
                        let ghost m = psection_model(new_section);
                        proof {
                            assert(m == promoted(orig[i as int], name@, el));
                        }
                        self.sections.set(i, new_section);
                        proof {
                            assert(psections_model(self.sections@) =~= orig.update(i as int, m));
                        }
                    },
                }
                return ;
            }
            i = i + 1;
        }
        proof {
            lemma_page_add_not_found(orig, name@, el);
        }
    }

    /// Renders the page: sections concatenate in order — literal text
    /// verbatim, element slots through the page's skeletons, defaults as
    /// their fallback — failing fast on the first still-unresolved plain
    /// placeholder or failing slot.
    pub fn render(&self) -> (r: Result<String, TemplateError>)
        ensures
            match r {
                Ok(out) => page_render_model(self@) == Ok::<Seq<char>, ErrorModel>(out@),
                Err(e) => page_render_model(self@) == Err::<Seq<char>, ErrorModel>(
                    error_model(e),
                ),
            },
    {
        let ghost secs = psections_model(self.sections@);
        let ghost tmodel = templates_model(self.templates);
        let mut out = String::new();
        let n = self.sections.len();
        let mut i: usize = 0;
        proof {
            assert(secs.skip(0) =~= secs);
        }
        while i < n
            invariant
                i <= n,
                n == self.sections@.len(),
                secs == psections_model(self.sections@),
                tmodel == templates_model(self.templates),
                secs.len() == n,
                ({
                    match psections_render(secs.skip(i as int), tmodel) {
                        Err(e) => psections_render(secs, tmodel) == Err::<Seq<char>, ErrorModel>(
                            e,
                        ),
                        Ok(rest) => psections_render(secs, tmodel) == Ok::<Seq<char>, ErrorModel>(
                            out@ + rest,
                        ),
                    }
                }),
            decreases n - i,
        {
            let ghost tail = secs.skip(i as int);
            let ghost prev_out = out@;
            proof {
                assert(tail[0] == secs[i as int]);
                assert(tail.drop_first() =~= secs.skip(i + 1));
            }
            match &self.sections[i] {
                TemplatePageSection::Text(text) => {
                    out.append(text.as_str());
                    proof {
                        assert(psection_render(tail[0], tmodel) == Ok::<Seq<char>, ErrorModel>(
                            text@,
                        ));
                        if psections_render(secs.skip(i + 1), tmodel) is Ok {
                            let rest = psections_render(secs.skip(i + 1), tmodel)->Ok_0;
                            assert(prev_out + (text@ + rest) =~= out@ + rest);
                        }
                    }
                },
                TemplatePageSection::Elements(_, elements) => {
                    match render_element_list(elements, &self.templates, "", false) {
                        Ok(rendered) => {
                            out.append(rendered.as_str());
                            proof {
                                reveal_strlit("");
                                assert(""@ =~= Seq::<char>::empty());
                                assert(psection_render(tail[0], tmodel) == Ok::<
                                    Seq<char>,
                                    ErrorModel,
                                >(rendered@));
                                if psections_render(secs.skip(i + 1), tmodel) is Ok {
                                    let rest = psections_render(secs.skip(i + 1), tmodel)->Ok_0;
                                    assert(prev_out + (rendered@ + rest) =~= out@ + rest);
                                }
                            }
                        },
                        Err(e) => {
                            proof {
                                reveal_strlit("");
                                assert(""@ =~= Seq::<char>::empty());
                                assert(psection_render(tail[0], tmodel) == Err::<
                                    Seq<char>,
                                    ErrorModel,
                                >(error_model(e)));
                            }
                            return Err(e);
                        },
                    }
                },
                TemplatePageSection::DefaultVariable(_, default_text) => {
                    out.append(default_text.as_str());
                    proof {
                        assert(psection_render(tail[0], tmodel) == Ok::<Seq<char>, ErrorModel>(
                            default_text@,
                        ));
                        if psections_render(secs.skip(i + 1), tmodel) is Ok {
                            let rest = psections_render(secs.skip(i + 1), tmodel)->Ok_0;
                            assert(prev_out + (default_text@ + rest) =~= out@ + rest);
                        }
                    }
                },
                TemplatePageSection::Variable(name) => {
                    let mut names: Vec<String> = Vec::new();
                    names.push(name.clone());
                    proof {
                        assert(names.deep_view() =~= seq![name@]);
                        assert(psection_render(tail[0], tmodel) == Err::<Seq<char>, ErrorModel>(
                            ErrorModel::MissingVariables(seq![name@]),
                        ));
                    }
                    return Err(TemplateError::MissingVariables(names));
                },
            }
            i = i + 1;
        }
        proof {
            assert(secs.skip(n as int) =~= Seq::<PageSectionModel>::empty());
            assert(out@ + Seq::<char>::empty() =~= out@);
        }
        Ok(out)
    }
}

} // verus!
