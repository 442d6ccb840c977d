//! The Markdown parser: splits raw text into physical lines, recognises
//! header lines (a leading run of `#` followed by whitespace), accumulates
//! consecutive plain lines into paragraphs, and parses emphasis delimited by
//! one or two `*` or `_` characters, recursively.

use vstd::prelude::*;
use vstd::string::StrSliceExecFns;

use crate::document::Document;
use crate::document::Element;
use crate::document::ElementModel;
use crate::document::InlineElement;
use crate::document::InlineModel;
use crate::document::Line;
use crate::document::document_model;
use crate::document::element_model;
use crate::document::inline_model;
use crate::document::inlines_model;
use crate::document::lemma_inlines_model_index;
use crate::document::line_model;
use crate::document::lines_model;
use crate::document::elements_model;
use crate::document::doc_wf;
use crate::document::inline_wf;
use crate::document::inlines_wf;
use crate::document::lines_wf;
use crate::document::lemma_doc_wf_all;
use crate::document::lemma_inlines_wf_all;
use crate::document::lemma_lines_wf_all;
use crate::text::is_blank;
use crate::text::is_space_char;
use crate::text::blank_str;
use crate::text::space_char;

verus! {

/// An emphasis delimiter character.
pub open spec fn is_marker_char(c: char) -> bool {
    c == '*' || c == '_'
}

pub fn marker_char(c: char) -> (r: bool)
    ensures
        r == is_marker_char(c),
{
    c == '*' || c == '_'
}

/// The first index at or after `from` holding `c`, or the length when none.
pub open spec fn first_close1(s: Seq<char>, c: char, from: int) -> int
    decreases s.len() - from,
{
    if from >= s.len() {
        s.len() as int
    } else if s[from] == c {
        from
    } else {
        first_close1(s, c, from + 1)
    }
}

pub proof fn lemma_first_close1(s: Seq<char>, c: char, from: int)
    requires
        0 <= from,
    ensures
        from <= first_close1(s, c, from) || first_close1(s, c, from) == s.len(),
        first_close1(s, c, from) <= s.len(),
        first_close1(s, c, from) < s.len() ==> s[first_close1(s, c, from)] == c,
        forall|j: int| from <= j < first_close1(s, c, from) ==> s[j] != c,
    decreases s.len() - from,
{
    if from < s.len() && s[from] != c {
        lemma_first_close1(s, c, from + 1);
    }
}

pub proof fn lemma_first_close1_is(s: Seq<char>, c: char, from: int, i: int)
    requires
        0 <= from <= i <= s.len(),
        forall|j: int| from <= j < i ==> s[j] != c,
        i < s.len() ==> s[i] == c,
    ensures
        first_close1(s, c, from) == i,
    decreases s.len() - from,
{
    if from < s.len() && s[from] != c {
        lemma_first_close1_is(s, c, from + 1, i);
    }
}

/// Whether a closing double delimiter `cc` sits at index `k`.
pub open spec fn close2_at(s: Seq<char>, c: char, k: int) -> bool {
    0 <= k && k + 1 < s.len() && s[k] == c && s[k + 1] == c
}

/// The first index at or after `from` where a closing double delimiter sits,
/// or the length when none.
pub open spec fn first_close2(s: Seq<char>, c: char, from: int) -> int
    decreases s.len() - from,
{
    if from >= s.len() {
        s.len() as int
    } else if close2_at(s, c, from) {
        from
    } else {
        first_close2(s, c, from + 1)
    }
}

pub proof fn lemma_first_close2(s: Seq<char>, c: char, from: int)
    requires
        0 <= from,
    ensures
        from <= first_close2(s, c, from) || first_close2(s, c, from) == s.len(),
        first_close2(s, c, from) <= s.len(),
        first_close2(s, c, from) < s.len() ==> close2_at(s, c, first_close2(s, c, from)),
        forall|j: int| from <= j < first_close2(s, c, from) ==> !close2_at(s, c, j),
    decreases s.len() - from,
{
    if from < s.len() && !close2_at(s, c, from) {
        lemma_first_close2(s, c, from + 1);
    }
}

pub proof fn lemma_first_close2_is(s: Seq<char>, c: char, from: int, i: int)
    requires
        0 <= from <= i <= s.len(),
        forall|j: int| from <= j < i ==> !close2_at(s, c, j),
        i < s.len() ==> close2_at(s, c, i),
    ensures
        first_close2(s, c, from) == i,
    decreases s.len() - from,
{
    if from < s.len() && !close2_at(s, c, from) {
        lemma_first_close2_is(s, c, from + 1, i);
    }
}

/// Whether a double-delimiter emphasis match begins at `i`: two identical
/// markers, at least one content character, then the same pair again.
pub open spec fn match2_at(s: Seq<char>, i: int) -> bool {
    &&& 0 <= i
    &&& i + 1 < s.len()
    &&& is_marker_char(s[i])
    &&& s[i + 1] == s[i]
    &&& first_close2(s, s[i], i + 3) < s.len()
}

/// Whether a single-delimiter emphasis match begins at `i`: one marker, at
/// least one content character, then the same marker again.
pub open spec fn match1_at(s: Seq<char>, i: int) -> bool {
    &&& 0 <= i < s.len()
    &&& is_marker_char(s[i])
    &&& first_close1(s, s[i], i + 2) < s.len()
}

/// Whether an emphasis match begins at `i`. A double match is preferred; a
/// single match is the fallback.
pub open spec fn any_match_at(s: Seq<char>, i: int) -> bool {
    match2_at(s, i) || match1_at(s, i)
}

/// The delimiter length of the match at `i`.
pub open spec fn delim_len_at(s: Seq<char>, i: int) -> int {
    if match2_at(s, i) {
        2
    } else {
        1
    }
}

/// The index of the closing delimiter of the match at `i`.
pub open spec fn close_pos_at(s: Seq<char>, i: int) -> int {
    if match2_at(s, i) {
        first_close2(s, s[i], i + 3)
    } else {
        first_close1(s, s[i], i + 2)
    }
}

/// The first index at or after `from` where an emphasis match begins, or the
/// length when none.
pub open spec fn first_any_match(s: Seq<char>, from: int) -> int
    decreases s.len() - from,
{
    if from >= s.len() {
        s.len() as int
    } else if any_match_at(s, from) {
        from
    } else {
        first_any_match(s, from + 1)
    }
}

pub proof fn lemma_first_any_match(s: Seq<char>, from: int)
    requires
        0 <= from <= s.len(),
    ensures
        from <= first_any_match(s, from) <= s.len(),
        first_any_match(s, from) < s.len() ==> any_match_at(s, first_any_match(s, from)),
        forall|j: int| from <= j < first_any_match(s, from) ==> !any_match_at(s, j),
    decreases s.len() - from,
{
    if from < s.len() && !any_match_at(s, from) {
        lemma_first_any_match(s, from + 1);
    }
}

pub proof fn lemma_first_any_match_is(s: Seq<char>, from: int, i: int)
    requires
        0 <= from <= i <= s.len(),
        forall|j: int| from <= j < i ==> !any_match_at(s, j),
        i < s.len() ==> any_match_at(s, i),
    ensures
        first_any_match(s, from) == i,
    decreases s.len() - from,
{
    if from < s.len() && !any_match_at(s, from) {
        lemma_first_any_match_is(s, from + 1, i);
    }
}

/// Bounds of the match at a matched position: the content is non-empty, lies
/// strictly inside the text, and the match ends past its start.
pub proof fn lemma_match_bounds(s: Seq<char>, i: int)
    requires
        any_match_at(s, i),
    ensures
        0 <= i,
        i + delim_len_at(s, i) < close_pos_at(s, i),
        close_pos_at(s, i) + delim_len_at(s, i) <= s.len(),
        close_pos_at(s, i) - (i + delim_len_at(s, i)) < s.len(),
{
    if match2_at(s, i) {
        lemma_first_close2(s, s[i], i + 3);
    } else {
        lemma_first_close1(s, s[i], i + 2);
    }
}

/// The inline elements of a parsed line: a blank line is one empty literal;
/// otherwise the emphasis matches become `Emphasis` elements with recursively
/// parsed content and the non-empty gaps between them become `Text`.
pub open spec fn parse_line_model(s: Seq<char>) -> Seq<InlineModel>
    decreases s.len(), s.len() + 1,
{
    if is_blank(s) {
        seq![InlineModel::Text(Seq::empty())]
    } else {
        emph_segs(s, 0)
    }
}

/// The inline elements produced from index `from` on.
pub open spec fn emph_segs(s: Seq<char>, from: int) -> Seq<InlineModel>
    decreases s.len(), s.len() - from,
    via emph_segs_decreases
{
    if !(0 <= from < s.len()) {
        Seq::empty()
    } else {
        let j = first_any_match(s, from);
        if j >= s.len() {
            seq![InlineModel::Text(s.subrange(from, s.len() as int))]
        } else {
            let d = delim_len_at(s, j);
            let k = close_pos_at(s, j);
            let inner = InlineModel::Emphasis(d as nat, parse_line_model(s.subrange(j + d, k)));
            let rest = emph_segs(s, k + d);
            if j > from {
                seq![InlineModel::Text(s.subrange(from, j))] + seq![inner] + rest
            } else {
                seq![inner] + rest
            }
        }
    }
}

#[via_fn]
proof fn emph_segs_decreases(s: Seq<char>, from: int) {
    if 0 <= from < s.len() {
        lemma_first_any_match(s, from);
        let j = first_any_match(s, from);
        if j < s.len() {
            lemma_match_bounds(s, j);
        }
    }
}

/// Looks for an emphasis match starting exactly at `i`; yields the delimiter
/// length and the closing delimiter index.
fn emph_match_at(s: &str, i: usize) -> (r: Option<(usize, usize)>)
    requires
        i < s@.len(),
    ensures
        match r {
            Some(dk) => any_match_at(s@, i as int) && dk.0 == delim_len_at(s@, i as int) && dk.1
                == close_pos_at(s@, i as int),
            None => !any_match_at(s@, i as int),
        },
{
    let len = s.unicode_len();
    let c = s.get_char(i);
    if !marker_char(c) {
        return None;
    }
    // a double match first: two identical markers and a closing pair
    if i + 1 < len && s.get_char(i + 1) == c {
        let start2 = if len - i >= 3 {
            i + 3
        } else {
            len
        };
        let mut k: usize = start2;
        while k < len - 1 && !(s.get_char(k) == c && s.get_char(k + 1) == c)
            invariant
                start2 <= k <= len,
                len == s@.len(),
                len >= 1,
                forall|j: int| start2 <= j < k ==> !close2_at(s@, c, j),
            decreases len - k,
        {
            k = k + 1;
        }
        if k < len - 1 {
            proof {
                lemma_first_close2_is(s@, c, start2 as int, k as int);
                assert(first_close2(s@, c, i + 3) == k as int);
                assert(match2_at(s@, i as int));
            }
            return Some((2, k));
        }
        proof {
            assert(forall|j: int| k <= j < len ==> !close2_at(s@, c, j));
            lemma_first_close2_is(s@, c, start2 as int, len as int);
            assert(!match2_at(s@, i as int));
        }
    }
    proof {
        assert(!match2_at(s@, i as int)) by {
            if i + 1 < len && s@[i + 1] == c {
            } else {
            }
        }
    }
    // fall back to a single match: one marker and a closing marker
    let start1 = if len - i >= 2 {
        i + 2
    } else {
        len
    };
    let mut k: usize = start1;
    while k < len && s.get_char(k) != c
        invariant
            start1 <= k <= len,
            len == s@.len(),
            forall|j: int| start1 <= j < k ==> s@[j] != c,
        decreases len - k,
    {
        k = k + 1;
    }
    proof {
        lemma_first_close1_is(s@, c, start1 as int, k as int);
        assert(first_close1(s@, c, i + 2) == k as int);
    }
    if k < len {
        proof {
            assert(match1_at(s@, i as int));
        }
        Some((1, k))
    } else {
        proof {
            assert(!match1_at(s@, i as int));
        }
        None
    }
}

/// Finds the first emphasis match at or after `from`: its start, delimiter
/// length and closing index.
fn find_emph(s: &str, from: usize) -> (r: Option<(usize, usize, usize)>)
    requires
        from <= s@.len(),
    ensures
        match r {
            Some(m) => {
                &&& first_any_match(s@, from as int) == m.0
                &&& (m.0 as int) < s@.len()
                &&& any_match_at(s@, m.0 as int)
                &&& m.1 == delim_len_at(s@, m.0 as int)
                &&& m.2 == close_pos_at(s@, m.0 as int)
            },
            None => first_any_match(s@, from as int) == s@.len(),
        },
{
    let len = s.unicode_len();
    let mut i: usize = from;
    while i < len
        invariant
            from <= i <= len,
            len == s@.len(),
            forall|j: int| from <= j < i ==> !any_match_at(s@, j),
        decreases len - i,
    {
        match emph_match_at(s, i) {
            Some(dk) => {
                proof {
                    lemma_first_any_match_is(s@, from as int, i as int);
                }
                return Some((i, dk.0, dk.1));
            },
            None => {
                i = i + 1;
            },
        }
    }
    proof {
        lemma_first_any_match_is(s@, from as int, len as int);
    }
    None
}

/// Parses one line of inline content. A blank line yields a single empty
/// literal; otherwise emphasis matches become `Emphasis` elements with
/// recursively parsed content, and everything between them stays literal.
pub fn parse_line(line: &str) -> (r: Line)
    ensures
        line_model(r) == parse_line_model(line@),
    decreases line@.len(),
{
    if blank_str(line) {
        proof {
            reveal_strlit("");
        }
        let r = Line::from_str("");
        proof {
            assert(""@ =~= Seq::<char>::empty());
            assert(line_model(r) =~= parse_line_model(line@));
        }
        return r;
    }
    let len = line.unicode_len();
    let mut elements: Vec<InlineElement> = Vec::new();
    let mut pos: usize = 0;
    proof {
        assert(inlines_model(elements@) =~= Seq::<InlineModel>::empty());
        assert(emph_segs(line@, 0) == inlines_model(elements@) + emph_segs(line@, 0));
    }
    while pos < len
        invariant
            pos <= len,
            len == line@.len(),
            !is_blank(line@),
            emph_segs(line@, 0) == inlines_model(elements@) + emph_segs(line@, pos as int),
        decreases len - pos,
    {
        let ghost prev_elems = elements@;
        let ghost prev = inlines_model(elements@);
        proof {
            lemma_inlines_model_index(prev_elems);
        }
        match find_emph(line, pos) {
            None => {
                let text = line.substring_char(pos, len);
                elements.push(InlineElement::Text(text.to_owned()));
                proof {
                    lemma_inlines_model_index(elements@);
                    assert(elements@ == prev_elems.push(elements@[elements@.len() - 1]));
                    assert(inlines_model(elements@) =~= prev + seq![
                        InlineModel::Text(line@.subrange(pos as int, len as int)),
                    ]);
                    assert(emph_segs(line@, len as int) =~= Seq::<InlineModel>::empty());
                    assert(emph_segs(line@, 0) == inlines_model(elements@) + emph_segs(
                        line@,
                        len as int,
                    ));
                }
                pos = len;
            },
            Some(m) => {
                let (j, d, k) = m;
                proof {
                    lemma_match_bounds(line@, j as int);
                    lemma_first_any_match(line@, pos as int);
                }
                if j > pos {
                    let gap = line.substring_char(pos, j);
                    elements.push(InlineElement::Text(gap.to_owned()));
                }
                let ghost mid_elems = elements@;
                let content = line.substring_char(j + d, k);
                let inner = parse_line(content);
                elements.push(InlineElement::Emphasis(d as u32, inner));
                proof {
                    lemma_inlines_model_index(mid_elems);
                    lemma_inlines_model_index(elements@);
                    assert(d == 1 || d == 2);
                    let jv = j as int;
                    let dv = d as int;
                    let kv = k as int;
                    let inner_model = InlineModel::Emphasis(
                        dv as nat,
                        parse_line_model(line@.subrange(jv + dv, kv)),
                    );
                    assert(inline_model(elements@[elements@.len() - 1]) == inner_model);
                    if jv > pos as int {
                        assert(inlines_model(elements@) =~= prev + seq![
                            InlineModel::Text(line@.subrange(pos as int, jv)),
                        ] + seq![inner_model]);
                        assert(emph_segs(line@, pos as int) == seq![
                            InlineModel::Text(line@.subrange(pos as int, jv)),
                        ] + seq![inner_model] + emph_segs(line@, kv + dv));
                    } else {
                        assert(inlines_model(elements@) =~= prev + seq![inner_model]);
                        assert(emph_segs(line@, pos as int) == seq![inner_model] + emph_segs(
                            line@,
                            kv + dv,
                        ));
                    }
                    assert(emph_segs(line@, 0) =~= inlines_model(elements@) + emph_segs(
                        line@,
                        kv + dv,
                    ));
                }
                pos = k + d;
            },
        }
    }
    proof {
        assert(emph_segs(line@, pos as int) =~= Seq::<InlineModel>::empty());
    }
    let r = Line { elements };
    proof {
        assert(line_model(r) =~= parse_line_model(line@));
    }
    r
}

/// The index just past the run of `#` characters starting at `from`.
pub open spec fn hash_run_end(s: Seq<char>, from: int) -> int
    decreases s.len() - from,
{
    if from >= s.len() {
        s.len() as int
    } else if s[from] != '#' {
        from
    } else {
        hash_run_end(s, from + 1)
    }
}

pub proof fn lemma_hash_run_end_is(s: Seq<char>, from: int, i: int)
    requires
        0 <= from <= i <= s.len(),
        forall|j: int| from <= j < i ==> s[j] == '#',
        i < s.len() ==> s[i] != '#',
    ensures
        hash_run_end(s, from) == i,
    decreases s.len() - from,
{
    if from < s.len() && s[from] == '#' {
        lemma_hash_run_end_is(s, from + 1, i);
    }
}

/// The index just past the run of whitespace starting at `from`.
pub open spec fn space_run_end(s: Seq<char>, from: int) -> int
    decreases s.len() - from,
{
    if from >= s.len() {
        s.len() as int
    } else if !is_space_char(s[from]) {
        from
    } else {
        space_run_end(s, from + 1)
    }
}

pub proof fn lemma_space_run_end_is(s: Seq<char>, from: int, i: int)
    requires
        0 <= from <= i <= s.len(),
        forall|j: int| from <= j < i ==> is_space_char(s[j]),
        i < s.len() ==> !is_space_char(s[i]),
    ensures
        space_run_end(s, from) == i,
    decreases s.len() - from,
{
    if from < s.len() && is_space_char(s[from]) {
        lemma_space_run_end_is(s, from + 1, i);
    }
}

/// Whether a line is a header: a leading run of at least one `#`, followed
/// by at least one whitespace character.
pub open spec fn is_header_line(s: Seq<char>) -> bool {
    let k = hash_run_end(s, 0);
    k >= 1 && k < s.len() && is_space_char(s[k])
}

/// The header level: the number of leading `#` characters.
pub open spec fn header_level(s: Seq<char>) -> nat {
    hash_run_end(s, 0) as nat
}

/// The header text: what follows the `#` run and the whitespace run after it.
pub open spec fn header_content(s: Seq<char>) -> Seq<char> {
    s.subrange(space_run_end(s, hash_run_end(s, 0)), s.len() as int)
}

/// Recognises a header line and parses its content. Yields nothing when the
/// line has no leading `#` run or no whitespace after it.
pub fn parse_header(line: &str) -> (r: Option<Element>)
    requires
        line@.len() < 0x1_0000_0000,
    ensures
        match r {
            Some(e) => is_header_line(line@) && element_model(e) == ElementModel::Header(
                header_level(line@),
                parse_line_model(header_content(line@)),
            ),
            None => !is_header_line(line@),
        },
{
    let len = line.unicode_len();
    let mut k: usize = 0;
    while k < len && line.get_char(k) == '#'
        invariant
            k <= len,
            len == line@.len(),
            forall|j: int| 0 <= j < k ==> line@[j] == '#',
        decreases len - k,
    {
        k = k + 1;
    }
    proof {
        lemma_hash_run_end_is(line@, 0, k as int);
    }
    if k == 0 || k >= len || !space_char(line.get_char(k)) {
        return None;
    }
    let mut w: usize = k;
    while w < len && space_char(line.get_char(w))
        invariant
            k <= w <= len,
            len == line@.len(),
            forall|j: int| k <= j < w ==> is_space_char(line@[j]),
        decreases len - w,
    {
        w = w + 1;
    }
    proof {
        lemma_space_run_end_is(line@, k as int, w as int);
    }
    let content = line.substring_char(w, len);
    let parsed = parse_line(content);
    Some(Element::Header(k as u32, parsed))
}

/// What one raw line contributes: nothing for a blank line, a header when
/// the header grammar matches, and otherwise a one-line paragraph.
pub open spec fn raw_line_model(line: Seq<char>) -> Option<ElementModel> {
    if is_blank(line) {
        Option::None
    } else if is_header_line(line) {
        Option::Some(
            ElementModel::Header(header_level(line), parse_line_model(header_content(line))),
        )
    } else {
        Option::Some(ElementModel::Paragraph(seq![parse_line_model(line)]))
    }
}

/// Parses one raw source line: blank lines yield nothing, header lines a
/// header, and any other line a single-line paragraph.
pub fn parse_raw_line(line: &str) -> (r: Option<Element>)
    requires
        line@.len() < 0x1_0000_0000,
    ensures
        match r {
            Some(e) => raw_line_model(line@) == Option::Some(element_model(e)),
            None => raw_line_model(line@) is None,
        },
{
    if blank_str(line) {
        return None;
    }
    match parse_header(line) {
        Some(e) => Some(e),
        None => {
            let parsed = parse_line(line);
            let mut lines: Vec<Line> = Vec::new();
            lines.push(parsed);
            let e = Element::Paragraph(lines);
            proof {
                assert(lines_model(lines@) =~= seq![parse_line_model(line@)]);
            }
            Some(e)
        },
    }
}

/// A line with its line ending removed: a trailing carriage return is
/// dropped when the line was ended by a newline.
pub open spec fn strip_cr(l: Seq<char>) -> Seq<char> {
    if l.len() > 0 && l[l.len() - 1] == '\r' {
        l.drop_last()
    } else {
        l
    }
}

/// The physical lines of the text from index `from` on: split at every
/// newline, each line's trailing carriage return dropped; a final segment
/// after the last newline is kept only when non-empty.
pub open spec fn md_lines_from(text: Seq<char>, from: int) -> Seq<Seq<char>>
    decreases text.len() - from,
    via md_lines_from_decreases
{
    if !(0 <= from < text.len()) {
        Seq::empty()
    } else {
        let j = first_close1(text, '\n', from);
        if j >= text.len() {
            seq![text.subrange(from, text.len() as int)]
        } else {
            seq![strip_cr(text.subrange(from, j))] + md_lines_from(text, j + 1)
        }
    }
}

#[via_fn]
proof fn md_lines_from_decreases(text: Seq<char>, from: int) {
    if 0 <= from < text.len() {
        lemma_first_close1(text, '\n', from);
    }
}

/// The physical lines of the whole text.
pub open spec fn md_lines(text: Seq<char>) -> Seq<Seq<char>> {
    md_lines_from(text, 0)
}

/// Splits text into physical lines at newlines, dropping each line's
/// trailing carriage return; a trailing newline produces no final empty line.
pub fn split_lines<'a>(s: &'a str) -> (r: Vec<&'a str>)
    ensures
        r.deep_view() == md_lines(s@),
        forall|i: int| 0 <= i < r.deep_view().len() ==> (#[trigger] r.deep_view()[i]).len()
            <= s@.len(),
{
    let len = s.unicode_len();
    let mut r: Vec<&'a str> = Vec::new();
    let mut pos: usize = 0;
    proof {
        assert(r.deep_view() =~= Seq::<Seq<char>>::empty());
    }
    while pos < len
        invariant
            pos <= len,
            len == s@.len(),
            md_lines(s@) == r.deep_view() + md_lines_from(s@, pos as int),
            forall|i: int| 0 <= i < r.deep_view().len() ==> (#[trigger] r.deep_view()[i]).len()
                <= s@.len(),
        decreases len - pos,
    {
        let ghost prev = r.deep_view();
        let mut j: usize = pos;
        while j < len && s.get_char(j) != '\n'
            invariant
                pos <= j <= len,
                len == s@.len(),
                forall|t: int| pos <= t < j ==> s@[t] != '\n',
            decreases len - j,
        {
            j = j + 1;
        }
        proof {
            lemma_first_close1_is(s@, '\n', pos as int, j as int);
        }
        if j == len {
            let line = s.substring_char(pos, len);
            r.push(line);
            proof {
                assert(r.deep_view() =~= prev + seq![s@.subrange(pos as int, len as int)]);
                assert(md_lines_from(s@, len as int) =~= Seq::<Seq<char>>::empty());
                assert(md_lines(s@) == r.deep_view() + md_lines_from(s@, len as int));
            }
            pos = len;
        } else {
            let line_end = if j > pos && s.get_char(j - 1) == '\r' {
                j - 1
            } else {
                j
            };
            let line = s.substring_char(pos, line_end);
            r.push(line);
            proof {
                let lv = s@.subrange(pos as int, j as int);
                if j > pos && s@[j - 1] == '\r' {
                    assert(lv.len() > 0 && lv[lv.len() - 1] == '\r');
                    assert(lv.drop_last() =~= s@.subrange(pos as int, line_end as int));
                } else {
                    assert(strip_cr(lv) == lv);
                }
                assert(line@ == strip_cr(lv));
                assert(r.deep_view() =~= prev + seq![strip_cr(lv)]);
                assert(md_lines(s@) =~= r.deep_view() + md_lines_from(s@, j + 1));
            }
            pos = j + 1;
        }
    }
    proof {
        assert(md_lines_from(s@, pos as int) =~= Seq::<Seq<char>>::empty());
        assert(md_lines(s@) =~= r.deep_view());
    }
    r
}

/// Closes the pending paragraph: when any lines are pending they become one
/// paragraph element; otherwise nothing is added.
pub open spec fn flush_model(
    elems: Seq<ElementModel>,
    para: Seq<Seq<InlineModel>>,
) -> Seq<ElementModel> {
    if para.len() > 0 {
        elems.push(ElementModel::Paragraph(para))
    } else {
        elems
    }
}

/// The document fold: walks the lines with the elements finished so far and
/// the paragraph lines still pending. Blank lines flush the paragraph,
/// header lines flush it and add the header, and any other line joins the
/// pending paragraph. The end of input flushes what is left.
pub open spec fn md_fold(
    lines: Seq<Seq<char>>,
    elems: Seq<ElementModel>,
    para: Seq<Seq<InlineModel>>,
) -> Seq<ElementModel>
    decreases lines.len(),
{
    if lines.len() == 0 {
        flush_model(elems, para)
    } else {
        match raw_line_model(lines[0]) {
            Option::None => md_fold(lines.drop_first(), flush_model(elems, para), Seq::empty()),
            Option::Some(ElementModel::Paragraph(ls)) => md_fold(
                lines.drop_first(),
                elems,
                para + ls,
            ),
            Option::Some(m) => md_fold(
                lines.drop_first(),
                flush_model(elems, para).push(m),
                Seq::empty(),
            ),
        }
    }
}

/// The document a text parses to.
pub open spec fn parse_doc(text: Seq<char>) -> Seq<ElementModel> {
    md_fold(md_lines(text), Seq::empty(), Seq::empty())
}

/// Parses raw Markdown text into a document: lines are walked in order,
/// consecutive plain lines accumulate into paragraphs, headers stand alone,
/// and blank lines close the pending paragraph.
pub fn parse(raw_text: &str) -> (r: Document)
    requires
        raw_text@.len() < 0x1_0000_0000,
    ensures
        document_model(r) == parse_doc(raw_text@),
{
    let lines = split_lines(raw_text);
    let ghost all = lines.deep_view();
    let mut elements: Vec<Element> = Vec::new();
    let mut current_paragraph: Vec<Line> = Vec::new();
    let n = lines.len();
    let mut i: usize = 0;
    proof {
        assert(all.skip(0) =~= all);
        assert(elements_model(elements@) =~= Seq::<ElementModel>::empty());
        assert(lines_model(current_paragraph@) =~= Seq::<Seq<InlineModel>>::empty());
    }
    while i < n
        invariant
            i <= n,
            n == lines@.len(),
            n == all.len(),
            all == lines.deep_view(),
            forall|t: int| 0 <= t < all.len() ==> (#[trigger] all[t]).len() < 0x1_0000_0000,
            parse_doc(raw_text@) == md_fold(
                all.skip(i as int),
                elements_model(elements@),
                lines_model(current_paragraph@),
            ),
        decreases n - i,
    {
        let ghost prev_elems = elements_model(elements@);
        let ghost prev_para = lines_model(current_paragraph@);
        let ghost rest = all.skip(i as int);
        proof {
            assert(rest[0] == all[i as int]);
            assert(rest.drop_first() =~= all.skip(i + 1));
        }
        let line = lines[i];
        proof {
            assert(line@ == all[i as int]);
        }
        match parse_raw_line(line) {
            None => {
                if current_paragraph.len() > 0 {
                    let finished = current_paragraph;
                    current_paragraph = Vec::new();
                    elements.push(Element::Paragraph(finished));
                    proof {
                        assert(elements_model(elements@) =~= prev_elems.push(
                            ElementModel::Paragraph(prev_para),
                        ));
                    }
                }
                proof {
                    assert(lines_model(current_paragraph@) =~= Seq::<Seq<InlineModel>>::empty());
                    assert(elements_model(elements@) =~= flush_model(prev_elems, prev_para));
                }
            },
            Some(element) => {
                match element {
                    Element::Paragraph(mut paragraph_lines) => {
                        proof {
                            assert(raw_line_model(line@) == Option::Some(
                                ElementModel::Paragraph(lines_model(paragraph_lines@)),
                            ));
                        }
                        let ghost added = lines_model(paragraph_lines@);
                        current_paragraph.append(&mut paragraph_lines);
                        proof {
                            assert(lines_model(current_paragraph@) =~= prev_para + added);
                        }
                    },
                    other => {
                        if current_paragraph.len() > 0 {
                            let finished = current_paragraph;
                            current_paragraph = Vec::new();
                            elements.push(Element::Paragraph(finished));
                            proof {
                                assert(elements_model(elements@) =~= prev_elems.push(
                                    ElementModel::Paragraph(prev_para),
                                ));
                            }
                        }
                        let ghost flushed = elements_model(elements@);
                        proof {
                            assert(flushed =~= flush_model(prev_elems, prev_para));
                        }
                        elements.push(other);
                        proof {
                            assert(lines_model(current_paragraph@) =~= Seq::<
                                Seq<InlineModel>,
                            >::empty());
                            assert(elements_model(elements@) =~= flushed.push(
                                element_model(elements@[elements@.len() - 1]),
                            ));
                        }
                    },
                }
            },
        }
        i = i + 1;
    }
    proof {
        assert(all.skip(n as int) =~= Seq::<Seq<char>>::empty());
    }
    if current_paragraph.len() > 0 {
        let ghost prev_elems = elements_model(elements@);
        let ghost prev_para = lines_model(current_paragraph@);
        let finished = current_paragraph;
        elements.push(Element::Paragraph(finished));
        proof {
            assert(elements_model(elements@) =~= prev_elems.push(
                ElementModel::Paragraph(prev_para),
            ));
        }
    }
    let r = Document { elements };
    proof {
        assert(document_model(r) =~= parse_doc(raw_text@));
    }
    r
}

/// Every line the parser produces is well formed: emphasis levels are one
/// or two, never zero.
pub proof fn lemma_parse_line_wf(s: Seq<char>)
    ensures
        inlines_wf(parse_line_model(s)),
    decreases s.len(), s.len() + 1,
{
    if is_blank(s) {
        let elems = parse_line_model(s);
        assert(elems == seq![InlineModel::Text(Seq::<char>::empty())]);
        assert(elems.drop_first() =~= Seq::<InlineModel>::empty());
        assert(inlines_wf(elems.drop_first()));
        assert(inline_wf(elems[0]));
        assert(inlines_wf(elems));
    } else {
        lemma_emph_segs_wf(s, 0);
        assert(parse_line_model(s) == emph_segs(s, 0));
    }
}

proof fn lemma_emph_segs_wf(s: Seq<char>, from: int)
    ensures
        inlines_wf(emph_segs(s, from)),
    decreases s.len(), s.len() - from,
{
    if !(0 <= from < s.len()) {
    } else {
        lemma_first_any_match(s, from);
        let j = first_any_match(s, from);
        if j >= s.len() {
            let elems = emph_segs(s, from);
            assert(elems == seq![InlineModel::Text(s.subrange(from, s.len() as int))]);
            assert(elems.drop_first() =~= Seq::<InlineModel>::empty());
            assert(inlines_wf(elems.drop_first()));
            assert(inline_wf(elems[0]));
            assert(inlines_wf(elems));
        } else {
            lemma_match_bounds(s, j);
            let d = delim_len_at(s, j);
            let k = close_pos_at(s, j);
            lemma_parse_line_wf(s.subrange(j + d, k));
            lemma_emph_segs_wf(s, k + d);
            let inner = InlineModel::Emphasis(
                d as nat,
                parse_line_model(s.subrange(j + d, k)),
            );
            let rest = emph_segs(s, k + d);
            let both = seq![inner] + rest;
            lemma_inlines_wf_all(rest);
            assert(d == 1 || d == 2);
            assert(inline_wf(inner));
            assert forall|i: int| 0 <= i < both.len() implies inline_wf(#[trigger] both[i]) by {
                if i == 0 {
                    assert(both[0] == inner);
                } else {
                    assert(both[i] == rest[i - 1]);
                }
            }
            lemma_inlines_wf_all(both);
            if j > from {
                let gap = InlineModel::Text(s.subrange(from, j));
                let all = seq![gap] + seq![inner] + rest;
                assert forall|i: int| 0 <= i < all.len() implies inline_wf(
                    #[trigger] all[i],
                ) by {
                    if i == 0 {
                        assert(all[0] == gap);
                    } else {
                        assert(all[i] == both[i - 1]);
                    }
                }
                lemma_inlines_wf_all(all);
                assert(emph_segs(s, from) == all);
            } else {
                assert(emph_segs(s, from) == both);
            }
        }
    }
}

proof fn lemma_md_fold_wf(
    lines: Seq<Seq<char>>,
    elems: Seq<ElementModel>,
    para: Seq<Seq<InlineModel>>,
)
    requires
        doc_wf(elems),
        lines_wf(para),
    ensures
        doc_wf(md_fold(lines, elems, para)),
    decreases lines.len(),
{
    lemma_doc_wf_all(elems);
    lemma_lines_wf_all(para);
    if para.len() > 0 {
        lemma_doc_wf_all(elems.push(ElementModel::Paragraph(para)));
    }
    if lines.len() == 0 {
    } else {
        let line = lines[0];
        let flushed = flush_model(elems, para);
        match raw_line_model(line) {
            Option::None => {
                lemma_md_fold_wf(lines.drop_first(), flushed, Seq::empty());
            },
            Option::Some(ElementModel::Paragraph(ls)) => {
                lemma_parse_line_wf(line);
                assert(ls == seq![parse_line_model(line)]);
                let grown = para + ls;
                assert forall|i: int| 0 <= i < grown.len() implies inlines_wf(
                    #[trigger] grown[i],
                ) by {
                    if i < para.len() {
                        assert(grown[i] == para[i]);
                    } else {
                        assert(grown[i] == parse_line_model(line));
                    }
                }
                lemma_lines_wf_all(grown);
                lemma_md_fold_wf(lines.drop_first(), elems, grown);
            },
            Option::Some(m) => {
                lemma_parse_line_wf(header_content(line));
                lemma_doc_wf_all(flushed);
                lemma_doc_wf_all(flushed.push(m));
                lemma_md_fold_wf(lines.drop_first(), flushed.push(m), Seq::empty());
            },
        }
    }
}

/// Every document the parser produces is well formed.
pub proof fn lemma_parse_doc_wf(text: Seq<char>)
    ensures
        doc_wf(parse_doc(text)),
{
    lemma_md_fold_wf(md_lines(text), Seq::empty(), Seq::empty());
}

/// A run of `n` hash characters.
pub open spec fn hashes(n: nat) -> Seq<char> {
    Seq::new(n, |i: int| '#')
}

/// Header parsing: for every level of at least one and any text that does
/// not begin with whitespace, the line made of that many `#`, one space,
/// and the text parses to a header of that level whose content is the
/// parsed text.
pub proof fn lemma_header_parsing(level: nat, t: Seq<char>)
    requires
        1 <= level,
        t.len() == 0 || !is_space_char(t[0]),
    ensures
        raw_line_model(hashes(level) + seq![' '] + t) == Some(
            ElementModel::Header(level, parse_line_model(t)),
        ),
{
    let line = hashes(level) + seq![' '] + t;
    let lv = level as int;
    assert(line.len() == lv + 1 + t.len());
    assert(line[0] == '#');
    assert(!is_blank(line));
    assert(forall|j: int| 0 <= j < lv ==> line[j] == '#');
    assert(line[lv] == ' ');
    lemma_hash_run_end_is(line, 0, lv);
    assert(is_header_line(line));
    assert(header_level(line) == level);
    if t.len() == 0 {
        lemma_space_run_end_is(line, lv, lv + 1);
    } else {
        assert(line[lv + 1] == t[0]);
        lemma_space_run_end_is(line, lv, lv + 1);
    }
    assert(header_content(line) =~= t);
}

/// A line that does not begin with a `#` never parses to a header.
pub proof fn lemma_no_hash_no_header(line: Seq<char>)
    requires
        line.len() == 0 || line[0] != '#',
    ensures
        !is_header_line(line),
{
    assert(hash_run_end(line, 0) == 0);
}

/// The lines of a paragraph run, each parsed.
pub open spec fn plain_lines_parse(lines: Seq<Seq<char>>) -> Seq<Seq<InlineModel>> {
    lines.map(|i: int, l: Seq<char>| parse_line_model(l))
}

proof fn lemma_md_fold_plain(
    lines: Seq<Seq<char>>,
    elems: Seq<ElementModel>,
    para: Seq<Seq<InlineModel>>,
)
    requires
        forall|i: int|
            0 <= i < lines.len() ==> !is_blank(#[trigger] lines[i]) && !is_header_line(lines[i]),
    ensures
        md_fold(lines, elems, para) == flush_model(elems, para + plain_lines_parse(lines)),
    decreases lines.len(),
{
    if lines.len() == 0 {
        assert(para + plain_lines_parse(lines) =~= para);
    } else {
        let l0 = lines[0];
        assert(raw_line_model(l0) == Some(
            ElementModel::Paragraph(seq![parse_line_model(l0)]),
        ));
        assert(forall|i: int|
            0 <= i < lines.drop_first().len() ==> !is_blank(#[trigger] lines.drop_first()[i])
                && !is_header_line(lines.drop_first()[i])) by {
            assert(forall|i: int|
                0 <= i < lines.drop_first().len() ==> #[trigger] lines.drop_first()[i] == lines[
                    i + 1
                ]);
        }
        lemma_md_fold_plain(lines.drop_first(), elems, para + seq![parse_line_model(l0)]);
        assert((para + seq![parse_line_model(l0)]) + plain_lines_parse(lines.drop_first()) =~= para
            + plain_lines_parse(lines));
    }
}

/// Paragraph accumulation: consecutive lines that are neither blank nor
/// headers merge into one paragraph holding one parsed line per source
/// line, in order.
pub proof fn lemma_paragraph_accumulation(lines: Seq<Seq<char>>)
    requires
        lines.len() > 0,
        forall|i: int|
            0 <= i < lines.len() ==> !is_blank(#[trigger] lines[i]) && !is_header_line(lines[i]),
    ensures
        md_fold(lines, Seq::empty(), Seq::empty()) == seq![
            ElementModel::Paragraph(plain_lines_parse(lines)),
        ],
{
    lemma_md_fold_plain(lines, Seq::empty(), Seq::empty());
    assert(Seq::<Seq<InlineModel>>::empty() + plain_lines_parse(lines) =~= plain_lines_parse(
        lines,
    ));
    assert(Seq::<ElementModel>::empty().push(
        ElementModel::Paragraph(plain_lines_parse(lines)),
    ) =~= seq![ElementModel::Paragraph(plain_lines_parse(lines))]);
}

/// A blank line always closes the pending paragraph: the fold flushes it
/// before walking on with an empty accumulator.
pub proof fn lemma_blank_line_terminates(
    lines: Seq<Seq<char>>,
    elems: Seq<ElementModel>,
    para: Seq<Seq<InlineModel>>,
)
    requires
        lines.len() > 0,
        is_blank(lines[0]),
    ensures
        md_fold(lines, elems, para) == md_fold(
            lines.drop_first(),
            flush_model(elems, para),
            Seq::empty(),
        ),
{
}

} // verus!
