//! A small accumulator for paragraph lines: lines are added one at a time or
//! in batches, and `finish` closes them into a single paragraph element.

use vstd::prelude::*;

use crate::document::Element;
use crate::document::ElementModel;
use crate::document::InlineModel;
use crate::document::Line;
use crate::document::elements_model;
use crate::document::line_model;
use crate::document::lines_model;

verus! {

/// Accumulates lines until they are closed into one paragraph.
#[derive(Debug)]
pub struct ParagraphBuilder {
    lines: Vec<Line>,
}

impl View for ParagraphBuilder {
    type V = Seq<Seq<InlineModel>>;

    closed spec fn view(&self) -> Seq<Seq<InlineModel>> {
        lines_model(self.lines@)
    }
}

impl Default for ParagraphBuilder {
    /// A builder with no pending lines.
    fn default() -> (r: Self)
        ensures
            r@ == Seq::<Seq<InlineModel>>::empty(),
    {
        let r = ParagraphBuilder { lines: Vec::new() };
        proof {
            assert(r@ =~= Seq::<Seq<InlineModel>>::empty());
        }
        r
    }
}

impl ParagraphBuilder {
    /// Adds one line to the pending paragraph.
    pub fn add_line(&mut self, line: Line)
        ensures
            final(self)@ == old(self)@.push(line_model(line)),
    {
        self.lines.push(line);
        proof {
            assert(self@ =~= old(self)@.push(line_model(line)));
        }
    }

    /// Adds a batch of lines to the pending paragraph, in order.
    pub fn add_lines(&mut self, lines: Vec<Line>)
        ensures
            final(self)@ == old(self)@ + lines_model(lines@),
    {
        let ghost added = lines_model(lines@);
        let mut other = lines;
        self.lines.append(&mut other);
        proof {
            assert(self@ =~= old(self)@ + added);
        }
    }

    /// Adds one line holding the given text verbatim.
    pub fn add_str(&mut self, s: &str)
        ensures
            final(self)@ == old(self)@.push(seq![InlineModel::Text(s@)]),
    {
        self.add_line(Line::from_str(s));
    }

    /// Closes the pending lines into one paragraph pushed onto `out_vec`;
    /// with no pending lines nothing is pushed. The builder is empty after.
    pub fn finish(&mut self, out_vec: &mut Vec<Element>)
        ensures
            final(self)@ == Seq::<Seq<InlineModel>>::empty(),
            old(self)@.len() > 0 ==> elements_model(final(out_vec)@) == elements_model(
                old(out_vec)@,
            ).push(ElementModel::Paragraph(old(self)@)),
            old(self)@.len() == 0 ==> final(out_vec)@ == old(out_vec)@,
    {
        proof {
            assert(old(self)@.len() == lines_model(old(self).lines@).len());
        }
        if self.lines.len() > 0 {
            let mut finished: Vec<Line> = Vec::new();
            core::mem::swap(&mut finished, &mut self.lines);
            out_vec.push(Element::Paragraph(finished));
            proof {
                assert(self@ =~= Seq::<Seq<InlineModel>>::empty());
                assert(elements_model(out_vec@) =~= elements_model(old(out_vec)@).push(
                    ElementModel::Paragraph(old(self)@),
                ));
            }
        }
    }
}

} // verus!
