//! The template element model and renderer: a small tree of header,
//! paragraph, line, text, italic and bold nodes, rendered through a lookup
//! table holding one template-string skeleton per node kind.

use vstd::prelude::*;
use vstd::string::StringExecFns;

use crate::template_errors::ErrorModel;
use crate::template_errors::TemplateError;
use crate::template_errors::error_model;
use crate::template_string::SectionModel;
use crate::template_string::TemplateString;
use crate::template_string::TemplateStringSection;
use crate::template_string::rendered_text;
use crate::template_string::rendered_upto;
use crate::template_string::ts_set;
use crate::template_string::unset_names;
use crate::template_string::unset_upto;
use crate::text::decimal_digits;
use crate::text::join_seqs;
use crate::text::join_upto;
use crate::text::str_eq;
use crate::text::trim_model;
use crate::text::trim_str;
use crate::text::u32_to_string;

verus! {

/// The closed set of renderable element kinds.
#[derive(Debug, Clone, PartialEq, Eq, Structural)]
pub enum TemplateElementType {
    Header,
    Paragraph,
    Line,
    Text,
    Italic,
    Bold,
}

/// The tree fed into rendering: a header with its level, containers of
/// children, or literal text.
#[derive(Debug)]
pub enum TemplateElement {
    Header(u32, Vec<TemplateElement>),
    Paragraph(Vec<TemplateElement>),
    Line(Vec<TemplateElement>),
    Text(String),
    Italic(Vec<TemplateElement>),
    Bold(Vec<TemplateElement>),
}

/// The mathematical shape of a template element.
pub enum TemplateElementModel {
    Header(nat, Seq<TemplateElementModel>),
    Paragraph(Seq<TemplateElementModel>),
    Line(Seq<TemplateElementModel>),
    Text(Seq<char>),
    Italic(Seq<TemplateElementModel>),
    Bold(Seq<TemplateElementModel>),
}

pub open spec fn telem_model(e: TemplateElement) -> TemplateElementModel
    decreases e,
{
    match e {
        TemplateElement::Header(level, children) => TemplateElementModel::Header(
            level as nat,
            telems_model(children@),
        ),
        TemplateElement::Paragraph(children) => TemplateElementModel::Paragraph(
            telems_model(children@),
        ),
        TemplateElement::Line(children) => TemplateElementModel::Line(telems_model(children@)),
        TemplateElement::Text(s) => TemplateElementModel::Text(s@),
        TemplateElement::Italic(children) => TemplateElementModel::Italic(telems_model(children@)),
        TemplateElement::Bold(children) => TemplateElementModel::Bold(telems_model(children@)),
    }
}

pub open spec fn telems_model(s: Seq<TemplateElement>) -> Seq<TemplateElementModel>
    decreases s,
{
    if s.len() == 0 {
        Seq::empty()
    } else {
        seq![telem_model(s[0])] + telems_model(s.drop_first())
    }
}

pub proof fn lemma_telems_model_index(s: Seq<TemplateElement>)
    ensures
        telems_model(s).len() == s.len(),
        forall|i: int| 0 <= i < s.len() ==> telems_model(s)[i] == telem_model(s[i]),
    decreases s,
{
    if s.len() > 0 {
        lemma_telems_model_index(s.drop_first());
        assert forall|i: int| 0 <= i < s.len() implies telems_model(s)[i] == telem_model(
            s[i],
        ) by {
            if i > 0 {
                assert(s.drop_first()[i - 1] == s[i]);
            }
        }
    }
}

/// The kind of a template element model.
pub open spec fn telem_type(e: TemplateElementModel) -> TemplateElementType {
    match e {
        TemplateElementModel::Header(_, _) => TemplateElementType::Header,
        TemplateElementModel::Paragraph(_) => TemplateElementType::Paragraph,
        TemplateElementModel::Line(_) => TemplateElementType::Line,
        TemplateElementModel::Text(_) => TemplateElementType::Text,
        TemplateElementModel::Italic(_) => TemplateElementType::Italic,
        TemplateElementModel::Bold(_) => TemplateElementType::Bold,
    }
}

/// The name an element kind shows in messages.
pub open spec fn kind_name(t: TemplateElementType) -> Seq<char> {
    match t {
        TemplateElementType::Header => "Header"@,
        TemplateElementType::Paragraph => "Paragraph"@,
        TemplateElementType::Line => "Line"@,
        TemplateElementType::Text => "Text"@,
        TemplateElementType::Italic => "Italic"@,
        TemplateElementType::Bold => "Bold"@,
    }
}

/// The element kind a lowercase file stem names, if any.
pub open spec fn type_from_name(s: Seq<char>) -> Option<TemplateElementType> {
    if s == "header"@ {
        Some(TemplateElementType::Header)
    } else if s == "paragraph"@ {
        Some(TemplateElementType::Paragraph)
    } else if s == "line"@ {
        Some(TemplateElementType::Line)
    } else if s == "text"@ {
        Some(TemplateElementType::Text)
    } else if s == "italic"@ {
        Some(TemplateElementType::Italic)
    } else if s == "bold"@ {
        Some(TemplateElementType::Bold)
    } else {
        None
    }
}

impl TemplateElementType {
    /// The kind a lowercase name refers to: `header`, `paragraph`, `line`,
    /// `text`, `italic` or `bold`.
    pub fn from_str(s: &str) -> (r: Option<Self>)
        ensures
            r == type_from_name(s@),
    {
        if str_eq(s, "header") {
            Some(TemplateElementType::Header)
        } else if str_eq(s, "paragraph") {
            Some(TemplateElementType::Paragraph)
        } else if str_eq(s, "line") {
            Some(TemplateElementType::Line)
        } else if str_eq(s, "text") {
            Some(TemplateElementType::Text)
        } else if str_eq(s, "italic") {
            Some(TemplateElementType::Italic)
        } else if str_eq(s, "bold") {
            Some(TemplateElementType::Bold)
        } else {
            None
        }
    }

    /// The kind's name written out.
    pub fn to_string(&self) -> (r: String)
        ensures
            r@ == kind_name(*self),
    {
        match self {
            TemplateElementType::Header => String::from_str("Header"),
            TemplateElementType::Paragraph => String::from_str("Paragraph"),
            TemplateElementType::Line => String::from_str("Line"),
            TemplateElementType::Text => String::from_str("Text"),
            TemplateElementType::Italic => String::from_str("Italic"),
            TemplateElementType::Bold => String::from_str("Bold"),
        }
    }
}

pub(crate) fn clone_telems(v: &Vec<TemplateElement>) -> (r: Vec<TemplateElement>)
    ensures
        telems_model(r@) == telems_model(v@),
    decreases v@,
{
    let mut r: Vec<TemplateElement> = Vec::new();
    let mut i: usize = 0;
    let n = v.len();
    while i < n
        invariant
            i <= n,
            n == v@.len(),
            r@.len() == i,
            forall|j: int|
                0 <= j < i ==> telem_model(#[trigger] r@[j]) == telem_model(v@[j]),
        decreases n - i,
    {
        r.push(v[i].clone());
        i = i + 1;
    }
    proof {
        lemma_telems_model_index(r@);
        lemma_telems_model_index(v@);
        assert(telems_model(r@) =~= telems_model(v@));
    }
    r
}

impl Clone for TemplateElement {
    fn clone(&self) -> (r: Self)
        ensures
            telem_model(r) == telem_model(*self),
        decreases *self,
    {
        match self {
            TemplateElement::Header(level, children) => TemplateElement::Header(
                *level,
                clone_telems(children),
            ),
            TemplateElement::Paragraph(children) => TemplateElement::Paragraph(
                clone_telems(children),
            ),
            TemplateElement::Line(children) => TemplateElement::Line(clone_telems(children)),
            TemplateElement::Text(s) => TemplateElement::Text(s.clone()),
            TemplateElement::Italic(children) => TemplateElement::Italic(clone_telems(children)),
            TemplateElement::Bold(children) => TemplateElement::Bold(clone_telems(children)),
        }
    }
}

impl TemplateElement {
    /// The kind of this element.
    pub fn to_type(&self) -> (r: TemplateElementType)
        ensures
            r == telem_type(telem_model(*self)),
    {
        match self {
            TemplateElement::Header(_, _) => TemplateElementType::Header,
            TemplateElement::Paragraph(_) => TemplateElementType::Paragraph,
            TemplateElement::Line(_) => TemplateElementType::Line,
            TemplateElement::Text(_) => TemplateElementType::Text,
            TemplateElement::Italic(_) => TemplateElementType::Italic,
            TemplateElement::Bold(_) => TemplateElementType::Bold,
        }
    }
}

/// The per-kind rendering skeletons: one optional template string for each
/// element kind.
#[derive(Debug)]
pub struct TemplateElementTemplates {
    pub header: Option<TemplateString>,
    pub paragraph: Option<TemplateString>,
    pub line: Option<TemplateString>,
    pub text: Option<TemplateString>,
    pub italic: Option<TemplateString>,
    pub bold: Option<TemplateString>,
}

pub open spec fn slot_model(o: Option<TemplateString>) -> Option<Seq<SectionModel>> {
    match o {
        Some(ts) => Some(ts@),
        None => None,
    }
}

/// The mathematical shape of a skeleton table: one optional section list
/// per element kind.
pub struct TemplatesModel {
    pub header: Option<Seq<SectionModel>>,
    pub paragraph: Option<Seq<SectionModel>>,
    pub line: Option<Seq<SectionModel>>,
    pub text: Option<Seq<SectionModel>>,
    pub italic: Option<Seq<SectionModel>>,
    pub bold: Option<Seq<SectionModel>>,
}

pub open spec fn templates_model(t: TemplateElementTemplates) -> TemplatesModel {
    TemplatesModel {
        header: slot_model(t.header),
        paragraph: slot_model(t.paragraph),
        line: slot_model(t.line),
        text: slot_model(t.text),
        italic: slot_model(t.italic),
        bold: slot_model(t.bold),
    }
}

impl View for TemplateElementTemplates {
    type V = TemplatesModel;

    open spec fn view(&self) -> TemplatesModel {
        templates_model(*self)
    }
}

/// The skeleton a table holds for a kind.
pub open spec fn tm_get(m: TemplatesModel, ty: TemplateElementType) -> Option<Seq<SectionModel>> {
    match ty {
        TemplateElementType::Header => m.header,
        TemplateElementType::Paragraph => m.paragraph,
        TemplateElementType::Line => m.line,
        TemplateElementType::Text => m.text,
        TemplateElementType::Italic => m.italic,
        TemplateElementType::Bold => m.bold,
    }
}

/// The table with one kind's skeleton replaced.
pub open spec fn tm_set(
    m: TemplatesModel,
    ty: TemplateElementType,
    secs: Seq<SectionModel>,
) -> TemplatesModel {
    match ty {
        TemplateElementType::Header => TemplatesModel { header: Some(secs), ..m },
        TemplateElementType::Paragraph => TemplatesModel { paragraph: Some(secs), ..m },
        TemplateElementType::Line => TemplatesModel { line: Some(secs), ..m },
        TemplateElementType::Text => TemplatesModel { text: Some(secs), ..m },
        TemplateElementType::Italic => TemplatesModel { italic: Some(secs), ..m },
        TemplateElementType::Bold => TemplatesModel { bold: Some(secs), ..m },
    }
}

/// The skeleton registered for a kind, as a section list.
pub open spec fn get_model(t: TemplateElementTemplates, ty: TemplateElementType) -> Option<
    Seq<SectionModel>,
> {
    tm_get(templates_model(t), ty)
}

pub open spec fn default_header_skeleton() -> Seq<SectionModel> {
    seq![
        SectionModel::Text("<h"@),
        SectionModel::Variable("level"@),
        SectionModel::Text(">"@),
        SectionModel::Variable("content"@),
        SectionModel::Text("</h"@),
        SectionModel::Variable("level"@),
        SectionModel::Text(">"@),
    ]
}

pub open spec fn default_paragraph_skeleton() -> Seq<SectionModel> {
    seq![
        SectionModel::Text("<p>"@),
        SectionModel::Variable("content"@),
        SectionModel::Text("</p>"@),
    ]
}

pub open spec fn default_content_skeleton() -> Seq<SectionModel> {
    seq![SectionModel::Variable("content"@)]
}

pub open spec fn default_italic_skeleton() -> Seq<SectionModel> {
    seq![
        SectionModel::Text("<i>"@),
        SectionModel::Variable("content"@),
        SectionModel::Text("</i>"@),
    ]
}

pub open spec fn default_bold_skeleton() -> Seq<SectionModel> {
    seq![
        SectionModel::Text("<b>"@),
        SectionModel::Variable("content"@),
        SectionModel::Text("</b>"@),
    ]
}

fn content_only_template() -> (r: TemplateString)
    ensures
        r@ == default_content_skeleton(),
{
    let mut sections: Vec<TemplateStringSection> = Vec::new();
    sections.push(TemplateStringSection::Variable(String::from_str("content")));
    let r = TemplateString { sections };
    proof {
        assert(r@ =~= default_content_skeleton());
    }
    r
}

fn framed_template(open_text: &str, close_text: &str) -> (r: TemplateString)
    ensures
        r@ =~= seq![
            SectionModel::Text(open_text@),
            SectionModel::Variable("content"@),
            SectionModel::Text(close_text@),
        ],
{
    let mut sections: Vec<TemplateStringSection> = Vec::new();
    sections.push(TemplateStringSection::Text(open_text.to_owned()));
    sections.push(TemplateStringSection::Variable(String::from_str("content")));
    sections.push(TemplateStringSection::Text(close_text.to_owned()));
    let r = TemplateString { sections };
    proof {
        assert(r@ =~= seq![
            SectionModel::Text(open_text@),
            SectionModel::Variable("content"@),
            SectionModel::Text(close_text@),
        ]);
    }
    r
}

impl Default for TemplateElementTemplates {
    /// The default skeletons: headers in `<h…>` tags with their level,
    /// paragraphs in `<p>`, italic in `<i>`, bold in `<b>`, and lines and
    /// text as their bare content.
    fn default() -> (r: Self)
        ensures
            get_model(r, TemplateElementType::Header) == Some(default_header_skeleton()),
            get_model(r, TemplateElementType::Paragraph) == Some(default_paragraph_skeleton()),
            get_model(r, TemplateElementType::Line) == Some(default_content_skeleton()),
            get_model(r, TemplateElementType::Text) == Some(default_content_skeleton()),
            get_model(r, TemplateElementType::Italic) == Some(default_italic_skeleton()),
            get_model(r, TemplateElementType::Bold) == Some(default_bold_skeleton()),
    {
        let mut header_sections: Vec<TemplateStringSection> = Vec::new();
        header_sections.push(TemplateStringSection::Text(String::from_str("<h")));
        header_sections.push(TemplateStringSection::Variable(String::from_str("level")));
        header_sections.push(TemplateStringSection::Text(String::from_str(">")));
        header_sections.push(TemplateStringSection::Variable(String::from_str("content")));
        header_sections.push(TemplateStringSection::Text(String::from_str("</h")));
        header_sections.push(TemplateStringSection::Variable(String::from_str("level")));
        header_sections.push(TemplateStringSection::Text(String::from_str(">")));
        let header = TemplateString { sections: header_sections };
        proof {
            assert(header@ =~= default_header_skeleton());
        }
        let r = TemplateElementTemplates {
            header: Some(header),
            paragraph: Some(framed_template("<p>", "</p>")),
            line: Some(content_only_template()),
            text: Some(content_only_template()),
            italic: Some(framed_template("<i>", "</i>")),
            bold: Some(framed_template("<b>", "</b>")),
        };
        proof {
            assert(get_model(r, TemplateElementType::Paragraph) =~= Some(
                default_paragraph_skeleton(),
            ));
            assert(get_model(r, TemplateElementType::Italic) =~= Some(default_italic_skeleton()));
            assert(get_model(r, TemplateElementType::Bold) =~= Some(default_bold_skeleton()));
        }
        r
    }
}

fn clone_slot(o: &Option<TemplateString>) -> (r: Option<TemplateString>)
    ensures
        slot_model(r) == slot_model(*o),
{
    match o {
        Some(ts) => Some(ts.clone()),
        None => None,
    }
}

impl Clone for TemplateElementTemplates {
    fn clone(&self) -> (r: Self)
        ensures
            templates_model(r) == templates_model(*self),
    {
        TemplateElementTemplates {
            header: clone_slot(&self.header),
            paragraph: clone_slot(&self.paragraph),
            line: clone_slot(&self.line),
            text: clone_slot(&self.text),
            italic: clone_slot(&self.italic),
            bold: clone_slot(&self.bold),
        }
    }
}

impl TemplateElementTemplates {
    /// Registers (or replaces) the skeleton for one element kind.
    pub fn add(&mut self, element_type: TemplateElementType, template: TemplateString)
        ensures
            templates_model(*final(self)) == tm_set(
                templates_model(*old(self)),
                element_type,
                template@,
            ),
    {
        match element_type {
            TemplateElementType::Header => {
                self.header = Some(template);
            },
            TemplateElementType::Paragraph => {
                self.paragraph = Some(template);
            },
            TemplateElementType::Line => {
                self.line = Some(template);
            },
            TemplateElementType::Text => {
                self.text = Some(template);
            },
            TemplateElementType::Italic => {
                self.italic = Some(template);
            },
            TemplateElementType::Bold => {
                self.bold = Some(template);
            },
        }
    }

    /// The skeleton registered for a kind, if any.
    pub fn get(&self, element_type: TemplateElementType) -> (r: Option<&TemplateString>)
        ensures
            match r {
                Some(ts) => get_model(*self, element_type) == Some(ts@),
                None => get_model(*self, element_type) is None,
            },
    {
        match element_type {
            TemplateElementType::Header => self.header.as_ref(),
            TemplateElementType::Paragraph => self.paragraph.as_ref(),
            TemplateElementType::Line => self.line.as_ref(),
            TemplateElementType::Text => self.text.as_ref(),
            TemplateElementType::Italic => self.italic.as_ref(),
            TemplateElementType::Bold => self.bold.as_ref(),
        }
    }
}

/// The final step of rendering a filled skeleton: the concatenated section
/// texts, unless any placeholder is still unresolved.
pub open spec fn finish_render(secs: Seq<SectionModel>) -> Result<Seq<char>, ErrorModel> {
    if unset_names(secs).len() == 0 {
        Ok(rendered_text(secs))
    } else {
        Err(ErrorModel::MissingVariables(unset_names(secs)))
    }
}

/// The renders of a list of children, in order, stopping at the first
/// error; the parts are untrimmed.
pub open spec fn children_render(
    es: Seq<TemplateElementModel>,
    t: TemplatesModel,
) -> Result<Seq<Seq<char>>, ErrorModel>
    decreases es, 0int,
{
    if es.len() == 0 {
        Ok(Seq::empty())
    } else {
        match render_model(es[0], t) {
            Err(e) => Err(e),
            Ok(s0) => match children_render(es.drop_first(), t) {
                Err(e) => Err(e),
                Ok(rest) => Ok(seq![s0] + rest),
            },
        }
    }
}

/// The render of a child list joined with a separator, each part first
/// trimmed when `trim` is set.
pub open spec fn list_render_model(
    es: Seq<TemplateElementModel>,
    t: TemplatesModel,
    sep: Seq<char>,
    trim: bool,
) -> Result<Seq<char>, ErrorModel>
    decreases es, 1int,
{
    match children_render(es, t) {
        Err(e) => Err(e),
        Ok(parts) => Ok(
            join_seqs(
                if trim {
                    parts.map(|i: int, p: Seq<char>| trim_model(p))
                } else {
                    parts
                },
                sep,
            ),
        ),
    }
}

/// The render of one element: its kind's skeleton with `level` (for
/// headers) and `content` filled in. Container children are joined without
/// a separator; paragraph children are each trimmed and joined with one
/// space. Fails when the kind has no skeleton or a child fails.
pub open spec fn render_model(e: TemplateElementModel, t: TemplatesModel) -> Result<
    Seq<char>,
    ErrorModel,
>
    decreases e, 2int,
{
    match tm_get(t, telem_type(e)) {
        None => Err(ErrorModel::MissingTemplate(kind_name(telem_type(e)))),
        Some(skel) => match e {
            TemplateElementModel::Text(s) => finish_render(ts_set(skel, "content"@, s)),
            TemplateElementModel::Header(level, children) => match list_render_model(
                children,
                t,
                Seq::empty(),
                false,
            ) {
                Err(er) => Err(er),
                Ok(content) => finish_render(
                    ts_set(
                        ts_set(skel, "level"@, decimal_digits(level)),
                        "content"@,
                        content,
                    ),
                ),
            },
            TemplateElementModel::Paragraph(children) => match list_render_model(
                children,
                t,
                " "@,
                true,
            ) {
                Err(er) => Err(er),
                Ok(content) => finish_render(ts_set(skel, "content"@, content)),
            },
            TemplateElementModel::Line(children) => match list_render_model(
                children,
                t,
                Seq::empty(),
                false,
            ) {
                Err(er) => Err(er),
                Ok(content) => finish_render(ts_set(skel, "content"@, content)),
            },
            TemplateElementModel::Italic(children) => match list_render_model(
                children,
                t,
                Seq::empty(),
                false,
            ) {
                Err(er) => Err(er),
                Ok(content) => finish_render(ts_set(skel, "content"@, content)),
            },
            TemplateElementModel::Bold(children) => match list_render_model(
                children,
                t,
                Seq::empty(),
                false,
            ) {
                Err(er) => Err(er),
                Ok(content) => finish_render(ts_set(skel, "content"@, content)),
            },
        },
    }
}

/// Renders each element of a list, trims each render when `trim` is set,
/// and joins the parts with the delimiter; the first failing element's
/// error is returned.
pub fn render_element_list(
    elements: &Vec<TemplateElement>,
    templates: &TemplateElementTemplates,
    delimiter: &str,
    trim: bool,
) -> (r: Result<String, TemplateError>)
    ensures
        match r {
            Ok(out) => list_render_model(telems_model(elements@), templates_model(*templates), delimiter@, trim)
                == Ok::<Seq<char>, ErrorModel>(out@),
            Err(e) => list_render_model(telems_model(elements@), templates_model(*templates), delimiter@, trim)
                == Err::<Seq<char>, ErrorModel>(error_model(e)),
        },
    decreases elements@, 3int,
{
    let ghost es = telems_model(elements@);
    proof {
        lemma_telems_model_index(elements@);
    }
    let mut rendered: Vec<String> = Vec::new();
    let n = elements.len();
    let mut i: usize = 0;
    proof {
        assert(es.skip(0) =~= es);
        assert(rendered.deep_view() =~= Seq::<Seq<char>>::empty());
    }
    while i < n
        invariant
            i <= n,
            n == elements@.len(),
            n == es.len(),
            es == telems_model(elements@),
            forall|j: int| 0 <= j < es.len() ==> es[j] == telem_model(elements@[j]),
            rendered.deep_view().len() == i,
            ({
                let done = rendered.deep_view();
                match children_render(es.skip(i as int), templates_model(*templates)) {
                    Err(e) => children_render(es, templates_model(*templates)) == Err::<Seq<Seq<char>>, ErrorModel>(
                        e,
                    ),
                    Ok(rest) => children_render(es, templates_model(*templates)) == Ok::<
                        Seq<Seq<char>>,
                        ErrorModel,
                    >(done + rest),
                }
            }),
        decreases n - i,
    {
        let ghost prev = rendered.deep_view();
        let ghost tail = es.skip(i as int);
        proof {
            assert(tail[0] == es[i as int]);
            assert(tail.drop_first() =~= es.skip(i + 1));
        }
        match elements[i].render(templates) {
            Ok(piece) => {
                rendered.push(piece);
                proof {
                    assert(rendered.deep_view() =~= prev.push(
                        rendered@[rendered@.len() - 1]@,
                    ));
                    if children_render(es.skip(i + 1), templates_model(*templates)) is Ok {
                        let rest = children_render(es.skip(i + 1), templates_model(*templates))->Ok_0;
                        assert(prev + (seq![rendered.deep_view()[i as int]] + rest)
                            =~= rendered.deep_view() + rest);
                    }
                }
            },
            Err(e) => {
                return Err(e);
            },
        }
        i = i + 1;
    }
    proof {
        assert(es.skip(n as int) =~= Seq::<TemplateElementModel>::empty());
        assert(rendered.deep_view() + Seq::<Seq<char>>::empty() =~= rendered.deep_view());
    }
    let ghost parts = rendered.deep_view();
    if trim {
        let mut j: usize = 0;
        while j < n
            invariant
                j <= n,
                n == rendered@.len(),
                parts.len() == n,
                forall|k: int|
                    0 <= k < j ==> #[trigger] rendered@[k]@ == trim_model(parts[k]),
                forall|k: int| j <= k < n ==> #[trigger] rendered@[k]@ == parts[k],
            decreases n - j,
        {
            let t = trim_str(rendered[j].as_str());
            rendered[j] = t;
            j = j + 1;
        }
        proof {
            assert(rendered.deep_view() =~= parts.map(|i: int, p: Seq<char>| trim_model(p)));
        }
    }
    let ghost finals = rendered.deep_view();
    let mut out = String::new();
    let mut j: usize = 0;
    while j < n
        invariant
            j <= n,
            n == rendered@.len(),
            finals == rendered.deep_view(),
            finals.len() == n,
            out@ == join_upto(finals, delimiter@, j as int),
        decreases n - j,
    {
        if j > 0 {
            out.append(delimiter);
        }
        out.append(rendered[j].as_str());
        j = j + 1;
    }
    proof {
        assert(out@ == join_seqs(finals, delimiter@));
    }
    Ok(out)
}

impl TemplateElement {
    /// Renders this element through the skeleton registered for its kind:
    /// `level` is set for headers, `content` to the joined renders of the
    /// children (or the literal text), and the filled skeleton is rendered.
    pub fn render(&self, templates: &TemplateElementTemplates) -> (r: Result<
        String,
        TemplateError,
    >)
        ensures
            match r {
                Ok(out) => render_model(telem_model(*self), templates_model(*templates)) == Ok::<
                    Seq<char>,
                    ErrorModel,
                >(out@),
                Err(e) => render_model(telem_model(*self), templates_model(*templates)) == Err::<
                    Seq<char>,
                    ErrorModel,
                >(error_model(e)),
            },
        decreases *self, 4int,
    {
        let mut template: TemplateString = match templates.get(self.to_type()) {
            Some(t) => t.clone(),
            None => {
                return Err(TemplateError::MissingTemplate(self.to_type().to_string()));
            },
        };
        match self {
            TemplateElement::Header(level, elements) => {
                let digits = u32_to_string(*level);
                template.set("level", digits.as_str());
                let content = match render_element_list(elements, templates, "", false) {
                    Ok(c) => c,
                    Err(e) => {
                        return Err(e);
                    },
                };
                template.set("content", content.as_str());
                proof {
                    reveal_strlit("");
                    assert(""@ =~= Seq::<char>::empty());
                }
            },
            TemplateElement::Paragraph(elements) => {
                let content = match render_element_list(elements, templates, " ", true) {
                    Ok(c) => c,
                    Err(e) => {
                        return Err(e);
                    },
                };
                template.set("content", content.as_str());
            },
            TemplateElement::Line(elements) => {
                let content = match render_element_list(elements, templates, "", false) {
                    Ok(c) => c,
                    Err(e) => {
                        return Err(e);
                    },
                };
                template.set("content", content.as_str());
                proof {
                    reveal_strlit("");
                    assert(""@ =~= Seq::<char>::empty());
                }
            },
            TemplateElement::Italic(elements) => {
                let content = match render_element_list(elements, templates, "", false) {
                    Ok(c) => c,
                    Err(e) => {
                        return Err(e);
                    },
                };
                template.set("content", content.as_str());
                proof {
                    reveal_strlit("");
                    assert(""@ =~= Seq::<char>::empty());
                }
            },
            TemplateElement::Bold(elements) => {
                let content = match render_element_list(elements, templates, "", false) {
                    Ok(c) => c,
                    Err(e) => {
                        return Err(e);
                    },
                };
                template.set("content", content.as_str());
                proof {
                    reveal_strlit("");
                    assert(""@ =~= Seq::<char>::empty());
                }
            },
            TemplateElement::Text(text) => {
                template.set("content", text.as_str());
            },
        }
        template.render()
    }
}

/// The literal texts of a list of `Text` elements, in order.
pub open spec fn texts_of(es: Seq<TemplateElementModel>) -> Seq<Seq<char>> {
    es.map(
        |i: int, e: TemplateElementModel|
            match e {
                TemplateElementModel::Text(s) => s,
                _ => Seq::empty(),
            },
    )
}

/// Rendering a lone `Text` element through a bare-content skeleton yields
/// exactly its literal text.
pub proof fn lemma_text_render(s: Seq<char>, t: TemplatesModel)
    requires
        tm_get(t, TemplateElementType::Text) == Some(default_content_skeleton()),
    ensures
        render_model(TemplateElementModel::Text(s), t) == Ok::<Seq<char>, ErrorModel>(s),
{
    let filled = ts_set(default_content_skeleton(), "content"@, s);
    assert(filled =~= seq![SectionModel::Text(s)]);
    assert(unset_upto(filled, 0) == Seq::<Seq<char>>::empty());
    assert(unset_names(filled) =~= Seq::<Seq<char>>::empty());
    assert(rendered_upto(filled, 0) == Seq::<char>::empty());
    assert(rendered_text(filled) =~= s);
}

proof fn lemma_children_all_text(es: Seq<TemplateElementModel>, t: TemplatesModel)
    requires
        tm_get(t, TemplateElementType::Text) == Some(default_content_skeleton()),
        forall|i: int| 0 <= i < es.len() ==> es[i] is Text,
    ensures
        children_render(es, t) == Ok::<Seq<Seq<char>>, ErrorModel>(texts_of(es)),
    decreases es.len(),
{
    if es.len() == 0 {
        assert(texts_of(es) =~= Seq::<Seq<char>>::empty());
    } else {
        assert(es[0] is Text);
        lemma_text_render(es[0]->Text_0, t);
        assert forall|i: int| 0 <= i < es.drop_first().len() implies es.drop_first()[i]
            is Text by {
            assert(es.drop_first()[i] == es[i + 1]);
        }
        lemma_children_all_text(es.drop_first(), t);
        assert(texts_of(es) =~= seq![es[0]->Text_0] + texts_of(es.drop_first()));
    }
}

/// Round trip: a line node built purely from `Text` elements, rendered
/// through bare-content skeletons for lines and text, yields exactly the
/// concatenation of the literal strings in order.
pub proof fn lemma_text_line_round_trip(
    es: Seq<TemplateElementModel>,
    t: TemplatesModel,
)
    requires
        tm_get(t, TemplateElementType::Line) == Some(default_content_skeleton()),
        tm_get(t, TemplateElementType::Text) == Some(default_content_skeleton()),
        forall|i: int| 0 <= i < es.len() ==> es[i] is Text,
    ensures
        render_model(TemplateElementModel::Line(es), t) == Ok::<Seq<char>, ErrorModel>(
            join_seqs(texts_of(es), Seq::empty()),
        ),
{
    lemma_children_all_text(es, t);
    let joined = join_seqs(texts_of(es), Seq::empty());
    assert(list_render_model(es, t, Seq::empty(), false) == Ok::<Seq<char>, ErrorModel>(joined));
    let filled = ts_set(default_content_skeleton(), "content"@, joined);
    assert(filled =~= seq![SectionModel::Text(joined)]);
    assert(unset_upto(filled, 0) == Seq::<Seq<char>>::empty());
    assert(unset_names(filled) =~= Seq::<Seq<char>>::empty());
    assert(rendered_upto(filled, 0) == Seq::<char>::empty());
    assert(rendered_text(filled) =~= joined);
}

} // verus!
