//! Loaded pages and their rendering: each page owns a name, a tag naming the
//! page template to use, and a parsed document; rendering maps the document
//! into the tagged template's `content` slot and renders the whole page.

use vstd::prelude::*;
use vstd::string::StrSliceExecFns;

use crate::document::Document;
use crate::document::Element;
use crate::document::ElementModel;
use crate::document::InlineElement;
use crate::document::InlineModel;
use crate::document::Line;
use crate::document::doc_wf;
use crate::document::document_model;
use crate::document::element_model;
use crate::document::element_wf;
use crate::document::inline_model;
use crate::document::inline_wf;
use crate::document::inlines_wf;
use crate::document::lemma_doc_wf_all;
use crate::document::lemma_inlines_model_index;
use crate::document::lemma_inlines_wf_all;
use crate::document::lemma_lines_wf_all;
use crate::document::line_model;
use crate::document::lines_model;
use crate::document::lines_wf;
use crate::parser::lemma_parse_doc_wf;
use crate::parser::parse;
use crate::parser::parse_doc;
use crate::template::Template;
use crate::template::has_tag;
use crate::template::lookup_page;
use crate::template_element::TemplateElement;
use crate::template_element::TemplateElementModel;
use crate::template_element::lemma_telems_model_index;
use crate::template_element::telem_model;
use crate::template_element::telems_model;
use crate::template_errors::ErrorModel;
use crate::template_errors::TemplateError;
use crate::template_errors::error_model;
use crate::template_page::PageModel;
use crate::template_page::PageSectionModel;
use crate::template_page::page_add;
use crate::template_page::psections_render;

verus! {

/// The template element an inline element maps to: text stays text, level
/// one emphasis becomes italic, deeper emphasis becomes bold.
pub open spec fn inline_to_template(m: InlineModel) -> TemplateElementModel
    decreases m,
{
    match m {
        InlineModel::Text(s) => TemplateElementModel::Text(s),
        InlineModel::Emphasis(level, elems) => if level == 1 {
            TemplateElementModel::Italic(line_to_templates(elems))
        } else {
            TemplateElementModel::Bold(line_to_templates(elems))
        },
    }
}

pub open spec fn line_to_templates(elems: Seq<InlineModel>) -> Seq<TemplateElementModel>
    decreases elems,
{
    if elems.len() == 0 {
        Seq::empty()
    } else {
        seq![inline_to_template(elems[0])] + line_to_templates(elems.drop_first())
    }
}

pub proof fn lemma_line_to_templates_index(elems: Seq<InlineModel>)
    ensures
        line_to_templates(elems).len() == elems.len(),
        forall|i: int|
            0 <= i < elems.len() ==> line_to_templates(elems)[i] == inline_to_template(elems[i]),
    decreases elems,
{
    if elems.len() > 0 {
        lemma_line_to_templates_index(elems.drop_first());
        assert forall|i: int| 0 <= i < elems.len() implies line_to_templates(elems)[i]
            == inline_to_template(elems[i]) by {
            if i > 0 {
                assert(elems.drop_first()[i - 1] == elems[i]);
            }
        }
    }
}

/// The children of the paragraph node a paragraph maps to: one line node
/// per source line.
pub open spec fn paragraph_children(ls: Seq<Seq<InlineModel>>) -> Seq<TemplateElementModel>
    decreases ls,
{
    if ls.len() == 0 {
        Seq::empty()
    } else {
        seq![TemplateElementModel::Line(line_to_templates(ls[0]))] + paragraph_children(
            ls.drop_first(),
        )
    }
}

pub proof fn lemma_paragraph_children_index(ls: Seq<Seq<InlineModel>>)
    ensures
        paragraph_children(ls).len() == ls.len(),
        forall|i: int|
            0 <= i < ls.len() ==> paragraph_children(ls)[i] == TemplateElementModel::Line(
                line_to_templates(ls[i]),
            ),
    decreases ls,
{
    if ls.len() > 0 {
        lemma_paragraph_children_index(ls.drop_first());
        assert forall|i: int| 0 <= i < ls.len() implies paragraph_children(ls)[i]
            == TemplateElementModel::Line(line_to_templates(ls[i])) by {
            if i > 0 {
                assert(ls.drop_first()[i - 1] == ls[i]);
            }
        }
    }
}

/// The template element a block element maps to.
pub open spec fn element_to_template(e: ElementModel) -> TemplateElementModel {
    match e {
        ElementModel::Header(level, line) => TemplateElementModel::Header(
            level,
            line_to_templates(line),
        ),
        ElementModel::Paragraph(ls) => TemplateElementModel::Paragraph(paragraph_children(ls)),
    }
}

/// Maps one inline element into the template tree: text stays text, level
/// one emphasis becomes italic, deeper emphasis becomes bold.
pub fn markdown_inline_element_to_template_element(element: &InlineElement) -> (r: TemplateElement)
    requires
        inline_wf(inline_model(*element)),
    ensures
        telem_model(r) == inline_to_template(inline_model(*element)),
    decreases *element,
{
    match element {
        InlineElement::Text(text) => TemplateElement::Text(text.clone()),
        InlineElement::Emphasis(level, line) => {
            proof {
                lemma_inlines_wf_all(line_model(*line));
            }
            let children = markdown_line_to_template_elements(line);
            if *level == 1 {
                TemplateElement::Italic(children)
            } else {
                TemplateElement::Bold(children)
            }
        },
    }
}

/// Maps a line's inline elements into template elements, in order.
pub fn markdown_line_to_template_elements(line: &Line) -> (r: Vec<TemplateElement>)
    requires
        inlines_wf(line_model(*line)),
    ensures
        telems_model(r@) == line_to_templates(line_model(*line)),
    decreases *line,
{
    let ghost m = line_model(*line);
    proof {
        lemma_inlines_model_index(line.elements@);
        lemma_inlines_wf_all(m);
        lemma_line_to_templates_index(m);
    }
    let mut r: Vec<TemplateElement> = Vec::new();
    let n = line.elements.len();
    let mut i: usize = 0;
    while i < n
        invariant
            i <= n,
            n == line.elements@.len(),
            m == line_model(*line),
            m.len() == n,
            inlines_wf(m),
            forall|j: int| 0 <= j < n ==> m[j] == inline_model(#[trigger] line.elements@[j]),
            r@.len() == i,
            forall|j: int|
                0 <= j < i ==> telem_model(#[trigger] r@[j]) == inline_to_template(m[j]),
        decreases n - i,
    {
        proof {
            lemma_inlines_wf_all(m);
        }
        let converted = markdown_inline_element_to_template_element(&line.elements[i]);
        r.push(converted);
        i = i + 1;
    }
    proof {
        lemma_telems_model_index(r@);
        lemma_line_to_templates_index(m);
        assert(telems_model(r@) =~= line_to_templates(m));
    }
    r
}

/// Maps one block element into the template tree: a header keeps its level,
/// a paragraph becomes a paragraph node of line nodes.
pub fn markdown_element_to_template_element(element: &Element) -> (r: TemplateElement)
    requires
        element_wf(element_model(*element)),
    ensures
        telem_model(r) == element_to_template(element_model(*element)),
{
    match element {
        Element::Header(level, line) => TemplateElement::Header(
            *level,
            markdown_line_to_template_elements(line),
        ),
        Element::Paragraph(lines) => {
            let ghost ls = lines_model(lines@);
            proof {
                lemma_lines_wf_all(ls);
                lemma_paragraph_children_index(ls);
            }
            let mut children: Vec<TemplateElement> = Vec::new();
            let n = lines.len();
            let mut i: usize = 0;
            while i < n
                invariant
                    i <= n,
                    n == lines@.len(),
                    ls == lines_model(lines@),
                    ls.len() == n,
                    lines_wf(ls),
                    children@.len() == i,
                    forall|j: int|
                        0 <= j < i ==> telem_model(#[trigger] children@[j])
                            == TemplateElementModel::Line(line_to_templates(ls[j])),
                decreases n - i,
            {
                proof {
                    lemma_lines_wf_all(ls);
                    assert(ls[i as int] == line_model(lines@[i as int]));
                }
                let converted = markdown_line_to_template_elements(&lines[i]);
                children.push(TemplateElement::Line(converted));
                i = i + 1;
            }
            proof {
                lemma_telems_model_index(children@);
                lemma_paragraph_children_index(ls);
                assert(telems_model(children@) =~= paragraph_children(ls));
            }
            TemplateElement::Paragraph(children)
        },
    }
}

/// The page sections after the whole document has been pushed into the
/// `content` slot, element by element.
pub open spec fn add_elements(
    secs: Seq<PageSectionModel>,
    docs: Seq<ElementModel>,
) -> Seq<PageSectionModel>
    decreases docs.len(),
{
    if docs.len() == 0 {
        secs
    } else {
        add_elements(
            page_add(secs, "content"@, element_to_template(docs[0])),
            docs.drop_first(),
        )
    }
}

/// What rendering a document against a page template yields: the `title`
/// placeholder is set to the fixed article title, every document element is
/// pushed into the `content` slot, and the page is rendered.
pub open spec fn page_render_spec(doc: Seq<ElementModel>, pm: PageModel) -> Result<
    Seq<char>,
    ErrorModel,
> {
    psections_render(
        add_elements(
            page_add(pm.sections, "title"@, TemplateElementModel::Text("Article"@)),
            doc,
        ),
        pm.templates,
    )
}

/// One loaded page: its output name, the tag of the page template to render
/// it with, and its parsed document.
#[derive(Debug)]
pub struct Page {
    name: String,
    tag: String,
    document: Document,
}

/// The mathematical shape of a loaded page.
pub struct PageRecordModel {
    pub name: Seq<char>,
    pub tag: Seq<char>,
    pub document: Seq<ElementModel>,
}

impl View for Page {
    type V = PageRecordModel;

    closed spec fn view(&self) -> PageRecordModel {
        PageRecordModel {
            name: self.name@,
            tag: self.tag@,
            document: document_model(self.document),
        }
    }
}

impl Page {
    #[verifier::type_invariant]
    closed spec fn wf(self) -> bool {
        doc_wf(document_model(self.document))
    }

    /// A page parsed from raw Markdown text, with its output name and its
    /// template tag.
    pub fn new(name: String, tag: String, raw_text: &str) -> (r: Self)
        requires
            raw_text@.len() < 0x1_0000_0000,
        ensures
            r@.name == name@,
            r@.tag == tag@,
            r@.document == parse_doc(raw_text@),
    {
        let document = parse(raw_text);
        proof {
            lemma_parse_doc_wf(raw_text@);
        }
        Page { name, tag, document }
    }

    /// Renders this page against the template set: the page template under
    /// this page's tag is copied, its `title` placeholder set to the fixed
    /// article title, the document pushed into its `content` slot, and the
    /// copy rendered.
    pub fn render(&self, template: &Template) -> (r: Result<String, TemplateError>)
        requires
            has_tag(template@.pages, self@.tag),
        ensures
            match r {
                Ok(out) => page_render_spec(
                    self@.document,
                    lookup_page(template@.pages, self@.tag),
                ) == Ok::<Seq<char>, ErrorModel>(out@),
                Err(e) => page_render_spec(
                    self@.document,
                    lookup_page(template@.pages, self@.tag),
                ) == Err::<Seq<char>, ErrorModel>(error_model(e)),
            },
    {
        proof {
            use_type_invariant(self);
        }
        let ghost pm = lookup_page(template@.pages, self@.tag);
        let page_opt = template.get_page(&self.tag);
        let mut page_template = page_opt.unwrap().clone();
        page_template.add("title", TemplateElement::Text("Article".to_owned()));
        let ghost doc = self@.document;
        let ghost base = page_add(pm.sections, "title"@, TemplateElementModel::Text("Article"@));
        proof {
            assert(page_template@.sections == base);
            assert(doc.skip(0) =~= doc);
            lemma_doc_wf_all(doc);
        }
        let n = self.document.elements.len();
        let mut i: usize = 0;
        while i < n
            invariant
                i <= n,
                n == self.document.elements@.len(),
                doc == document_model(self.document),
                doc.len() == n,
                doc_wf(doc),
                forall|j: int|
                    0 <= j < n ==> doc[j] == element_model(#[trigger] self.document.elements@[j]),
                page_template@.templates == pm.templates,
                add_elements(page_template@.sections, doc.skip(i as int)) == add_elements(
                    base,
                    doc,
                ),
            decreases n - i,
        {
            let ghost tail = doc.skip(i as int);
            proof {
                lemma_doc_wf_all(doc);
                assert(tail[0] == doc[i as int]);
                assert(tail.drop_first() =~= doc.skip(i + 1));
            }
            let converted = markdown_element_to_template_element(&self.document.elements[i]);
            page_template.add("content", converted);
            i = i + 1;
        }
        proof {
            assert(doc.skip(n as int) =~= Seq::<ElementModel>::empty());
            assert(page_template@.sections == add_elements(base, doc));
        }
        page_template.render()
    }
}

/// The pages loaded for one site, rendered together against one template
/// set.
#[derive(Debug)]
pub struct Pages {
    pages: Vec<Page>,
}

impl View for Pages {
    type V = Seq<PageRecordModel>;

    closed spec fn view(&self) -> Seq<PageRecordModel> {
        self.pages@.map(|i: int, p: Page| p@)
    }
}

impl Pages {
    /// A collection of already-loaded pages.
    pub fn from_pages(pages: Vec<Page>) -> (r: Self)
        ensures
            r@.len() == pages@.len(),
            forall|i: int| 0 <= i < pages@.len() ==> r@[i] == (#[trigger] pages@[i])@,
    {
        Pages { pages }
    }

    /// Renders every page against the template set, each to a pair of its
    /// name and its own outcome: one page's failure leaves the others
    /// untouched.
    pub fn render(&self, template: &Template) -> (r: Vec<(String, Result<String, TemplateError>)>)
        requires
            forall|i: int| 0 <= i < self@.len() ==> has_tag(template@.pages, (#[trigger] self@[i]).tag),
        ensures
            r@.len() == self@.len(),
            forall|i: int|
                0 <= i < self@.len() ==> (#[trigger] r@[i]).0@ == self@[i].name && (match r@[i].1 {
                    Ok(out) => page_render_spec(
                        self@[i].document,
                        lookup_page(template@.pages, self@[i].tag),
                    ) == Ok::<Seq<char>, ErrorModel>(out@),
                    Err(e) => page_render_spec(
                        self@[i].document,
                        lookup_page(template@.pages, self@[i].tag),
                    ) == Err::<Seq<char>, ErrorModel>(error_model(e)),
                }),
    {
        let mut r: Vec<(String, Result<String, TemplateError>)> = Vec::new();
        let n = self.pages.len();
        let mut i: usize = 0;
        while i < n
            invariant
                i <= n,
                n == self.pages@.len(),
                self@.len() == n,
                forall|j: int| 0 <= j < n ==> self@[j] == (#[trigger] self.pages@[j])@,
                forall|j: int|
                    0 <= j < n ==> has_tag(template@.pages, (#[trigger] self@[j]).tag),
                r@.len() == i,
                forall|j: int|
                    0 <= j < i ==> (#[trigger] r@[j]).0@ == self@[j].name && (match r@[j].1 {
                        Ok(out) => page_render_spec(
                            self@[j].document,
                            lookup_page(template@.pages, self@[j].tag),
                        ) == Ok::<Seq<char>, ErrorModel>(out@),
                        Err(e) => page_render_spec(
                            self@[j].document,
                            lookup_page(template@.pages, self@[j].tag),
                        ) == Err::<Seq<char>, ErrorModel>(error_model(e)),
                    }),
            decreases n - i,
        {
            let page = &self.pages[i];
            let outcome = page.render(template);
            r.push((page.name_string(), outcome));
            i = i + 1;
        }
        r
    }
}

impl Page {
    /// The page's output name.
    pub fn name_string(&self) -> (r: String)
        ensures
            r@ == self@.name,
    {
        self.name.clone()
    }
}

} // verus!
