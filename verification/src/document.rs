//! The parsed Markdown document model: a document is an ordered list of block
//! elements (headers and paragraphs), a paragraph is a list of lines, and a
//! line is a list of inline elements (literal text and nested emphasis).

use vstd::prelude::*;
use vstd::string::StrSliceExecFns;
use vstd::string::StringExecFns;

use crate::text::decimal_digits;
use crate::text::join_seqs;
use crate::text::join_upto;
use crate::text::u32_to_string;

verus! {

/// A parsed Markdown document: its block elements in source order.
#[derive(Debug, Default, PartialEq, Eq)]
pub struct Document {
    pub elements: Vec<Element>,
}

/// One line of inline content.
#[derive(Debug, Default, PartialEq, Eq)]
pub struct Line {
    pub elements: Vec<InlineElement>,
}

/// A block element: a header with its level, or a paragraph of lines.
#[derive(Debug, PartialEq, Eq)]
pub enum Element {
    Header(u32, Line),
    Paragraph(Vec<Line>),
}

/// An inline element: literal text, or emphasised content whose level counts
/// the delimiter characters (one for italic, two for bold).
#[derive(Debug, PartialEq, Eq)]
pub enum InlineElement {
    Text(String),
    Emphasis(u32, Line),
}

/// The mathematical shape of an inline element.
pub enum InlineModel {
    Text(Seq<char>),
    Emphasis(nat, Seq<InlineModel>),
}

/// The mathematical shape of a block element; a line is a sequence of
/// inline models.
pub enum ElementModel {
    Header(nat, Seq<InlineModel>),
    Paragraph(Seq<Seq<InlineModel>>),
}

pub open spec fn inline_model(e: InlineElement) -> InlineModel
    decreases e,
{
    match e {
        InlineElement::Text(s) => InlineModel::Text(s@),
        InlineElement::Emphasis(level, line) => InlineModel::Emphasis(
            level as nat,
            line_model(line),
        ),
    }
}

pub open spec fn inlines_model(s: Seq<InlineElement>) -> Seq<InlineModel>
    decreases s,
{
    if s.len() == 0 {
        Seq::empty()
    } else {
        seq![inline_model(s[0])] + inlines_model(s.drop_first())
    }
}

pub open spec fn line_model(l: Line) -> Seq<InlineModel>
    decreases l,
{
    inlines_model(l.elements@)
}

pub proof fn lemma_inlines_model_index(s: Seq<InlineElement>)
    ensures
        inlines_model(s).len() == s.len(),
        forall|i: int| 0 <= i < s.len() ==> inlines_model(s)[i] == inline_model(s[i]),
    decreases s,
{
    if s.len() > 0 {
        lemma_inlines_model_index(s.drop_first());
        assert forall|i: int| 0 <= i < s.len() implies inlines_model(s)[i] == inline_model(
            s[i],
        ) by {
            if i > 0 {
                assert(s.drop_first()[i - 1] == s[i]);
            }
        }
    }
}

pub open spec fn lines_model(ls: Seq<Line>) -> Seq<Seq<InlineModel>> {
    ls.map(|i: int, l: Line| line_model(l))
}

pub open spec fn element_model(e: Element) -> ElementModel {
    match e {
        Element::Header(level, line) => ElementModel::Header(level as nat, line_model(line)),
        Element::Paragraph(lines) => ElementModel::Paragraph(lines_model(lines@)),
    }
}

pub open spec fn elements_model(es: Seq<Element>) -> Seq<ElementModel> {
    es.map(|i: int, e: Element| element_model(e))
}

pub open spec fn document_model(d: Document) -> Seq<ElementModel> {
    elements_model(d.elements@)
}

impl Line {
    /// A line holding the given text verbatim as a single literal element.
    pub fn from_str(s: &str) -> (r: Self)
        ensures
            line_model(r) =~= seq![InlineModel::Text(s@)],
    {
        let mut elements: Vec<InlineElement> = Vec::new();
        elements.push(InlineElement::Text(s.to_owned()));
        let r = Line { elements };
        proof {
            assert(r.elements@.len() == 1);
            assert(inline_model(r.elements@[0]) == InlineModel::Text(s@));
            assert(r.elements@.drop_first() =~= Seq::<InlineElement>::empty());
            assert(line_model(r) =~= seq![InlineModel::Text(s@)]);
        }
        r
    }
}

/// What an inline element shows when written out: literal text shows itself,
/// emphasis shows its level and content inside a fixed frame.
pub open spec fn inline_display(e: InlineModel) -> Seq<char>
    decreases e,
{
    match e {
        InlineModel::Text(s) => s,
        InlineModel::Emphasis(level, elems) => "Emphasis["@ + decimal_digits(level) + "]("@
            + line_display(elems) + ")"@,
    }
}

/// What a line shows when written out: its elements, concatenated.
pub open spec fn line_display(elems: Seq<InlineModel>) -> Seq<char>
    decreases elems,
{
    if elems.len() == 0 {
        Seq::empty()
    } else {
        inline_display(elems[0]) + line_display(elems.drop_first())
    }
}

impl InlineElement {
    pub fn to_string(&self) -> (r: String)
        ensures
            r@ == inline_display(inline_model(*self)),
        decreases *self,
    {
        match self {
            InlineElement::Text(s) => s.clone(),
            InlineElement::Emphasis(level, line) => {
                let mut r = String::from_str("Emphasis[");
                let digits = u32_to_string(*level);
                r.append(digits.as_str());
                r.append("](");
                let inner = line.to_string();
                r.append(inner.as_str());
                r.append(")");
                proof {
                    assert(r@ =~= inline_display(inline_model(*self)));
                }
                r
            },
        }
    }
}

impl Line {
    pub fn to_string(&self) -> (r: String)
        ensures
            r@ == line_display(line_model(*self)),
        decreases *self,
    {
        let mut r = String::new();
        let mut i: usize = 0;
        let n = self.elements.len();
        proof {
            lemma_inlines_model_index(self.elements@);
            assert(line_model(*self).skip(0) =~= line_model(*self));
            assert(Seq::<char>::empty() + line_display(line_model(*self)) =~= line_display(
                line_model(*self),
            ));
        }
        while i < n
            invariant
                i <= n,
                n == self.elements@.len(),
                n == line_model(*self).len(),
                line_display(line_model(*self)) == r@ + line_display(
                    line_model(*self).skip(i as int),
                ),
            decreases n - i,
        {
            let piece = self.elements[i].to_string();
            r.append(piece.as_str());
            proof {
                lemma_inlines_model_index(self.elements@);
                let m = line_model(*self);
                assert(m.skip(i as int).drop_first() =~= m.skip(i + 1));
                assert(m.skip(i as int)[0] == inline_model(self.elements@[i as int]));
                assert(line_display(m) == r@ + line_display(m.skip(i + 1)));
            }
            i = i + 1;
        }
        proof {
            assert(line_model(*self).skip(n as int) =~= Seq::<InlineModel>::empty());
            assert(r@ =~= line_display(line_model(*self)));
        }
        r
    }
}

impl Clone for InlineElement {
    fn clone(&self) -> (r: Self)
        ensures
            inline_model(r) == inline_model(*self),
        decreases *self,
    {
        match self {
            InlineElement::Text(s) => InlineElement::Text(s.clone()),
            InlineElement::Emphasis(level, line) => InlineElement::Emphasis(*level, line.clone()),
        }
    }
}

impl Clone for Line {
    fn clone(&self) -> (r: Self)
        ensures
            line_model(r) == line_model(*self),
        decreases *self,
    {
        let mut elements: Vec<InlineElement> = Vec::new();
        let mut i: usize = 0;
        let n = self.elements.len();
        while i < n
            invariant
                i <= n,
                n == self.elements@.len(),
                elements@.len() == i,
                forall|j: int|
                    0 <= j < i ==> inline_model(#[trigger] elements@[j]) == inline_model(
                        self.elements@[j],
                    ),
            decreases n - i,
        {
            elements.push(self.elements[i].clone());
            i = i + 1;
        }
        let r = Line { elements };
        proof {
            lemma_inlines_model_index(r.elements@);
            lemma_inlines_model_index(self.elements@);
            assert(line_model(r) =~= line_model(*self));
        }
        r
    }
}

/// Any line built with `Line::from_str` shows exactly the text it was built
/// from.
/// The single-space joining of a paragraph's lines when written out.
pub open spec fn paragraph_display(ls: Seq<Seq<InlineModel>>) -> Seq<char> {
    join_seqs(ls.map(|i: int, l: Seq<InlineModel>| line_display(l)), " "@)
}

/// What a block element shows when written out: a header names its level
/// and shows its content, a paragraph joins its lines with single spaces;
/// either ends with a newline.
pub open spec fn element_display(e: ElementModel) -> Seq<char> {
    match e {
        ElementModel::Header(level, line) => "Header["@ + decimal_digits(level) + "] "@
            + line_display(line) + "\n"@,
        ElementModel::Paragraph(ls) => paragraph_display(ls) + "\n"@,
    }
}

/// What a document shows when written out: its elements, concatenated.
pub open spec fn document_display(es: Seq<ElementModel>) -> Seq<char>
    decreases es,
{
    if es.len() == 0 {
        Seq::empty()
    } else {
        element_display(es[0]) + document_display(es.drop_first())
    }
}

impl Element {
    pub fn to_string(&self) -> (r: String)
        ensures
            r@ == element_display(element_model(*self)),
    {
        match self {
            Element::Header(level, line) => {
                let mut r = String::from_str("Header[");
                let digits = u32_to_string(*level);
                r.append(digits.as_str());
                r.append("] ");
                let body = line.to_string();
                r.append(body.as_str());
                r.append("\n");
                proof {
                    assert(r@ =~= element_display(element_model(*self)));
                }
                r
            },
            Element::Paragraph(lines) => {
                let ghost ls = lines_model(lines@);
                let ghost parts = ls.map(|i: int, l: Seq<InlineModel>| line_display(l));
                let mut r = String::new();
                let n = lines.len();
                let mut j: usize = 0;
                while j < n
                    invariant
                        j <= n,
                        n == lines@.len(),
                        ls == lines_model(lines@),
                        parts == ls.map(|i: int, l: Seq<InlineModel>| line_display(l)),
                        parts.len() == n,
                        r@ == join_upto(parts, " "@, j as int),
                    decreases n - j,
                {
                    if j > 0 {
                        r.append(" ");
                    }
                    let piece = lines[j].to_string();
                    r.append(piece.as_str());
                    proof {
                        assert(parts[j as int] == line_display(line_model(lines@[j as int])));
                    }
                    j = j + 1;
                }
                r.append("\n");
                proof {
                    assert(r@ =~= element_display(element_model(*self)));
                }
                r
            },
        }
    }
}

impl Document {
    pub fn to_string(&self) -> (r: String)
        ensures
            r@ == document_display(document_model(*self)),
    {
        let ghost es = document_model(*self);
        let mut r = String::new();
        let n = self.elements.len();
        let mut i: usize = 0;
        proof {
            assert(es.skip(0) =~= es);
            assert(Seq::<char>::empty() + document_display(es) =~= document_display(es));
        }
        while i < n
            invariant
                i <= n,
                n == self.elements@.len(),
                es == document_model(*self),
                es.len() == n,
                forall|j: int| 0 <= j < n ==> es[j] == element_model(#[trigger] self.elements@[j]),
                document_display(es) == r@ + document_display(es.skip(i as int)),
            decreases n - i,
        {
            let piece = self.elements[i].to_string();
            r.append(piece.as_str());
            proof {
                let tail = es.skip(i as int);
                assert(tail[0] == es[i as int]);
                assert(tail.drop_first() =~= es.skip(i + 1));
                assert(document_display(es) == r@ + document_display(es.skip(i + 1)));
            }
            i = i + 1;
        }
        proof {
            assert(es.skip(n as int) =~= Seq::<ElementModel>::empty());
            assert(r@ =~= document_display(es));
        }
        r
    }
}

/// A well-formed inline element: every emphasis, however deep, has a
/// delimiter level of at least one.
pub open spec fn inline_wf(m: InlineModel) -> bool
    decreases m,
{
    match m {
        InlineModel::Text(_) => true,
        InlineModel::Emphasis(level, elems) => level >= 1 && inlines_wf(elems),
    }
}

pub open spec fn inlines_wf(s: Seq<InlineModel>) -> bool
    decreases s,
{
    if s.len() == 0 {
        true
    } else {
        inline_wf(s[0]) && inlines_wf(s.drop_first())
    }
}

pub open spec fn lines_wf(ls: Seq<Seq<InlineModel>>) -> bool
    decreases ls,
{
    if ls.len() == 0 {
        true
    } else {
        inlines_wf(ls[0]) && lines_wf(ls.drop_first())
    }
}

pub open spec fn element_wf(e: ElementModel) -> bool {
    match e {
        ElementModel::Header(_, line) => inlines_wf(line),
        ElementModel::Paragraph(ls) => lines_wf(ls),
    }
}

pub open spec fn doc_wf(es: Seq<ElementModel>) -> bool
    decreases es,
{
    if es.len() == 0 {
        true
    } else {
        element_wf(es[0]) && doc_wf(es.drop_first())
    }
}

pub proof fn lemma_inlines_wf_all(s: Seq<InlineModel>)
    ensures
        inlines_wf(s) <==> (forall|i: int| 0 <= i < s.len() ==> inline_wf(#[trigger] s[i])),
    decreases s,
{
    if s.len() > 0 {
        lemma_inlines_wf_all(s.drop_first());
        assert(forall|i: int|
            0 < i < s.len() ==> #[trigger] s[i] == s.drop_first()[i - 1]);
    }
}

pub proof fn lemma_lines_wf_all(ls: Seq<Seq<InlineModel>>)
    ensures
        lines_wf(ls) <==> (forall|i: int| 0 <= i < ls.len() ==> inlines_wf(#[trigger] ls[i])),
    decreases ls,
{
    if ls.len() > 0 {
        lemma_lines_wf_all(ls.drop_first());
        assert(forall|i: int|
            0 < i < ls.len() ==> #[trigger] ls[i] == ls.drop_first()[i - 1]);
    }
}

pub proof fn lemma_doc_wf_all(es: Seq<ElementModel>)
    ensures
        doc_wf(es) <==> (forall|i: int| 0 <= i < es.len() ==> element_wf(#[trigger] es[i])),
    decreases es,
{
    if es.len() > 0 {
        lemma_doc_wf_all(es.drop_first());
        assert(forall|i: int|
            0 < i < es.len() ==> #[trigger] es[i] == es.drop_first()[i - 1]);
    }
}

pub proof fn lemma_from_str_display(s: Seq<char>)
    ensures
        line_display(seq![InlineModel::Text(s)]) == s,
{
    let elems = seq![InlineModel::Text(s)];
    assert(elems.len() == 1);
    assert(elems[0] == InlineModel::Text(s));
    assert(elems.drop_first() =~= Seq::<InlineModel>::empty());
    assert(line_display(elems.drop_first()) == Seq::<char>::empty());
    assert(line_display(elems) == inline_display(elems[0]) + line_display(elems.drop_first()));
    assert(inline_display(InlineModel::Text(s)) == s);
    assert(line_display(elems) =~= s);
}

} // verus!
