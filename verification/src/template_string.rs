//! The template string engine: parses a flat string with `{name}`
//! placeholders into an ordered section list, supports setting a value for a
//! placeholder name, and renders to a final string or reports every variable
//! still unset.

use vstd::prelude::*;
use vstd::string::StrSliceExecFns;
use vstd::string::StringExecFns;

use crate::template_errors::ErrorModel;
use crate::template_errors::TemplateError;
use crate::template_errors::error_model;
use crate::text::str_eq;

verus! {

/// One section of a parsed template string.
#[derive(Debug, PartialEq, Eq)]
pub enum TemplateStringSection {
    /// Literal text, emitted verbatim.
    Text(String),
    /// An unresolved placeholder; rendering fails while any remain.
    Variable(String),
    /// A placeholder with a fallback: the name, then the default text.
    DefaultVariable(String, String),
}

/// The mathematical shape of a section.
pub enum SectionModel {
    Text(Seq<char>),
    Variable(Seq<char>),
    DefaultVariable(Seq<char>, Seq<char>),
}

pub open spec fn section_model(s: TemplateStringSection) -> SectionModel {
    match s {
        TemplateStringSection::Text(t) => SectionModel::Text(t@),
        TemplateStringSection::Variable(n) => SectionModel::Variable(n@),
        TemplateStringSection::DefaultVariable(n, d) => SectionModel::DefaultVariable(n@, d@),
    }
}

pub open spec fn sections_model(v: Seq<TemplateStringSection>) -> Seq<SectionModel> {
    v.map(|i: int, s: TemplateStringSection| section_model(s))
}

/// A parsed template string: its sections in source order.
#[derive(Debug)]
pub struct TemplateString {
    pub sections: Vec<TemplateStringSection>,
}

impl View for TemplateString {
    type V = Seq<SectionModel>;

    open spec fn view(&self) -> Seq<SectionModel> {
        sections_model(self.sections@)
    }
}

impl Clone for TemplateStringSection {
    fn clone(&self) -> (r: Self)
        ensures
            section_model(r) == section_model(*self),
    {
        match self {
            TemplateStringSection::Text(t) => TemplateStringSection::Text(t.clone()),
            TemplateStringSection::Variable(n) => TemplateStringSection::Variable(n.clone()),
            TemplateStringSection::DefaultVariable(n, d) => TemplateStringSection::DefaultVariable(
                n.clone(),
                d.clone(),
            ),
        }
    }
}

impl Clone for TemplateString {
    fn clone(&self) -> (r: Self)
        ensures
            r@ == self@,
    {
        let mut sections: Vec<TemplateStringSection> = Vec::new();
        let mut i: usize = 0;
        let n = self.sections.len();
        while i < n
            invariant
                i <= n,
                n == self.sections@.len(),
                sections@.len() == i,
                forall|j: int|
                    0 <= j < i ==> section_model(#[trigger] sections@[j]) == section_model(
                        self.sections@[j],
                    ),
            decreases n - i,
        {
            sections.push(self.sections[i].clone());
            i = i + 1;
        }
        let r = TemplateString { sections };
        proof {
            assert(r@ =~= self@);
        }
        r
    }
}

/// A character that may appear in a placeholder name: an ASCII letter or
/// digit, a hyphen, or an underscore.
pub open spec fn is_ident_char(c: char) -> bool {
    ('a' as u32 <= c as u32 && c as u32 <= 'z' as u32) || ('A' as u32 <= c as u32 && c as u32
        <= 'Z' as u32) || ('0' as u32 <= c as u32 && c as u32 <= '9' as u32) || c == '-' || c == '_'
}

pub fn ident_char(c: char) -> (r: bool)
    ensures
        r == is_ident_char(c),
{
    (c as u32 >= 'a' as u32 && c as u32 <= 'z' as u32) || (c as u32 >= 'A' as u32 && c as u32
        <= 'Z' as u32) || (c as u32 >= '0' as u32 && c as u32 <= '9' as u32) || c == '-' || c == '_'
}

/// The index just past the run of identifier characters starting at `from`.
pub open spec fn ident_run_end(s: Seq<char>, from: int) -> int
    decreases s.len() - from,
{
    if from >= s.len() {
        s.len() as int
    } else if !is_ident_char(s[from]) {
        from
    } else {
        ident_run_end(s, from + 1)
    }
}

pub proof fn lemma_ident_run_end(s: Seq<char>, from: int)
    requires
        0 <= from <= s.len(),
    ensures
        from <= ident_run_end(s, from) <= s.len(),
        forall|j: int| from <= j < ident_run_end(s, from) ==> is_ident_char(s[j]),
        ident_run_end(s, from) < s.len() ==> !is_ident_char(s[ident_run_end(s, from)]),
    decreases s.len() - from,
{
    if from < s.len() && is_ident_char(s[from]) {
        lemma_ident_run_end(s, from + 1);
    }
}

pub proof fn lemma_ident_run_end_is(s: Seq<char>, from: int, i: int)
    requires
        0 <= from <= i <= s.len(),
        forall|j: int| from <= j < i ==> is_ident_char(s[j]),
        i < s.len() ==> !is_ident_char(s[i]),
    ensures
        ident_run_end(s, from) == i,
    decreases s.len() - from,
{
    if from < s.len() && is_ident_char(s[from]) {
        lemma_ident_run_end_is(s, from + 1, i);
    }
}

/// Whether a complete placeholder `{name}` begins at index `i`.
pub open spec fn ph_match_at(s: Seq<char>, i: int) -> bool {
    &&& 0 <= i < s.len()
    &&& s[i] == '{'
    &&& ident_run_end(s, i + 1) > i + 1
    &&& ident_run_end(s, i + 1) < s.len()
    &&& s[ident_run_end(s, i + 1)] == '}'
}

/// The first index at or after `from` where a placeholder begins, or the
/// length when there is none.
pub open spec fn ph_first_match(s: Seq<char>, from: int) -> int
    decreases s.len() - from,
{
    if from >= s.len() {
        s.len() as int
    } else if ph_match_at(s, from) {
        from
    } else {
        ph_first_match(s, from + 1)
    }
}

pub proof fn lemma_ph_first_match(s: Seq<char>, from: int)
    requires
        0 <= from <= s.len(),
    ensures
        from <= ph_first_match(s, from) <= s.len(),
        ph_first_match(s, from) < s.len() ==> ph_match_at(s, ph_first_match(s, from)),
        forall|j: int| from <= j < ph_first_match(s, from) ==> !ph_match_at(s, j),
    decreases s.len() - from,
{
    if from < s.len() && !ph_match_at(s, from) {
        lemma_ph_first_match(s, from + 1);
    }
}

pub proof fn lemma_ph_first_match_is(s: Seq<char>, from: int, i: int)
    requires
        0 <= from <= i <= s.len(),
        forall|j: int| from <= j < i ==> !ph_match_at(s, j),
        i < s.len() ==> ph_match_at(s, i),
    ensures
        ph_first_match(s, from) == i,
    decreases s.len() - from,
{
    if from < s.len() && !ph_match_at(s, from) {
        lemma_ph_first_match_is(s, from + 1, i);
    }
}

/// The sections the placeholder grammar yields from index `from` on: literal
/// text between placeholders becomes `Text` (only when non-empty), each
/// `{name}` becomes `Variable(name)`.
pub open spec fn ts_sections_from(s: Seq<char>, from: int) -> Seq<SectionModel>
    decreases s.len() - from,
    via ts_sections_from_decreases
{
    if !(0 <= from < s.len()) {
        Seq::empty()
    } else {
        let j = ph_first_match(s, from);
        if j >= s.len() {
            seq![SectionModel::Text(s.subrange(from, s.len() as int))]
        } else {
            let e = ident_run_end(s, j + 1);
            let var = SectionModel::Variable(s.subrange(j + 1, e));
            let rest = ts_sections_from(s, e + 1);
            if j > from {
                seq![SectionModel::Text(s.subrange(from, j))] + seq![var] + rest
            } else {
                seq![var] + rest
            }
        }
    }
}

#[via_fn]
proof fn ts_sections_from_decreases(s: Seq<char>, from: int) {
    if 0 <= from < s.len() {
        lemma_ph_first_match(s, from);
        let j = ph_first_match(s, from);
        if j < s.len() {
            lemma_ident_run_end(s, j + 1);
        }
    }
}

/// The whole section list of a template string.
pub open spec fn ts_sections(s: Seq<char>) -> Seq<SectionModel> {
    ts_sections_from(s, 0)
}

/// The index just past the run of identifier characters starting at `from`.
fn ident_end(s: &str, from: usize) -> (r: usize)
    requires
        from <= s@.len(),
    ensures
        r == ident_run_end(s@, from as int),
        from <= r <= s@.len(),
{
    let len = s.unicode_len();
    let mut i: usize = from;
    while i < len && ident_char(s.get_char(i))
        invariant
            from <= i <= len,
            len == s@.len(),
            forall|j: int| from <= j < i ==> is_ident_char(s@[j]),
        decreases len - i,
    {
        i = i + 1;
    }
    proof {
        lemma_ident_run_end_is(s@, from as int, i as int);
    }
    i
}

/// Whether a complete placeholder begins at index `i`.
fn ph_check(s: &str, i: usize) -> (r: bool)
    requires
        i < s@.len(),
    ensures
        r == ph_match_at(s@, i as int),
{
    let len = s.unicode_len();
    if s.get_char(i) != '{' {
        return false;
    }
    let e = ident_end(s, i + 1);
    e > i + 1 && e < len && s.get_char(e) == '}'
}

/// The first index at or after `from` where a placeholder begins, or the
/// length when there is none.
fn find_ph(s: &str, from: usize) -> (r: usize)
    requires
        from <= s@.len(),
    ensures
        r == ph_first_match(s@, from as int),
        from <= r <= s@.len(),
        r < s@.len() ==> ph_match_at(s@, r as int),
{
    let len = s.unicode_len();
    let mut i: usize = from;
    while i < len
        invariant
            from <= i <= len,
            len == s@.len(),
            forall|j: int| from <= j < i ==> !ph_match_at(s@, j),
        decreases len - i,
    {
        if ph_check(s, i) {
            proof {
                lemma_ph_first_match_is(s@, from as int, i as int);
            }
            return i;
        }
        i = i + 1;
    }
    proof {
        lemma_ph_first_match_is(s@, from as int, len as int);
    }
    len
}

/// Replacement of one section under `set`: a placeholder (plain or with a
/// default) whose name matches becomes literal text holding the value.
pub open spec fn section_set(sec: SectionModel, name: Seq<char>, value: Seq<char>) -> SectionModel {
    match sec {
        SectionModel::Text(t) => SectionModel::Text(t),
        SectionModel::Variable(n) => if n == name {
            SectionModel::Text(value)
        } else {
            SectionModel::Variable(n)
        },
        SectionModel::DefaultVariable(n, d) => if n == name {
            SectionModel::Text(value)
        } else {
            SectionModel::DefaultVariable(n, d)
        },
    }
}

/// What `set` does to a whole section list.
pub open spec fn ts_set(secs: Seq<SectionModel>, name: Seq<char>, value: Seq<char>) -> Seq<
    SectionModel,
> {
    secs.map(|i: int, sec: SectionModel| section_set(sec, name, value))
}

/// The text a section contributes to rendered output: literal text shows
/// itself, an unset default shows its fallback, an unresolved placeholder
/// contributes nothing (rendering fails instead).
pub open spec fn section_text(sec: SectionModel) -> Seq<char> {
    match sec {
        SectionModel::Text(t) => t,
        SectionModel::Variable(n) => Seq::empty(),
        SectionModel::DefaultVariable(n, d) => d,
    }
}

/// The concatenation of the first `j` sections' texts.
pub open spec fn rendered_upto(secs: Seq<SectionModel>, j: int) -> Seq<char>
    decreases j,
{
    if j <= 0 {
        Seq::empty()
    } else {
        rendered_upto(secs, j - 1) + section_text(secs[j - 1])
    }
}

/// The full rendered text of a section list, defaults included.
pub open spec fn rendered_text(secs: Seq<SectionModel>) -> Seq<char> {
    rendered_upto(secs, secs.len() as int)
}

/// The distinct names of still-unresolved placeholders among the first `j`
/// sections, in order of first appearance.
pub open spec fn unset_upto(secs: Seq<SectionModel>, j: int) -> Seq<Seq<char>>
    decreases j,
{
    if j <= 0 {
        Seq::empty()
    } else {
        let rest = unset_upto(secs, j - 1);
        match secs[j - 1] {
            SectionModel::Variable(n) => if rest.contains(n) {
                rest
            } else {
                rest.push(n)
            },
            _ => rest,
        }
    }
}

/// The distinct names of all still-unresolved placeholders, in order of first
/// appearance.
pub open spec fn unset_names(secs: Seq<SectionModel>) -> Seq<Seq<char>> {
    unset_upto(secs, secs.len() as int)
}

fn names_contain(v: &Vec<String>, name: &str) -> (r: bool)
    ensures
        r == v.deep_view().contains(name@),
{
    let mut i: usize = 0;
    let n = v.len();
    while i < n
        invariant
            i <= n,
            n == v@.len(),
            forall|j: int| 0 <= j < i ==> v.deep_view()[j] != name@,
        decreases n - i,
    {
        if str_eq(v[i].as_str(), name) {
            proof {
                assert(v.deep_view()[i as int] == name@);
            }
            return true;
        }
        i = i + 1;
    }
    proof {
        assert(forall|j: int| 0 <= j < v.deep_view().len() ==> v.deep_view()[j] != name@);
    }
    false
}

impl TemplateString {
    /// Parses a template string: every `{name}` placeholder (identifier made
    /// of ASCII letters, digits, hyphen, underscore) becomes a `Variable`
    /// section, and every non-empty stretch of other text becomes a `Text`
    /// section, in source order.
    pub fn parse_string(s: &str) -> (r: Self)
        ensures
            r@ == ts_sections(s@),
    {
        let len = s.unicode_len();
        let mut sections: Vec<TemplateStringSection> = Vec::new();
        let mut pos: usize = 0;
        proof {
            assert(sections_model(sections@) =~= Seq::<SectionModel>::empty());
            assert(ts_sections(s@) == sections_model(sections@) + ts_sections_from(s@, 0));
        }
        while pos < len
            invariant
                pos <= len,
                len == s@.len(),
                ts_sections(s@) == sections_model(sections@) + ts_sections_from(s@, pos as int),
            decreases len - pos,
        {
            let ghost prev = sections_model(sections@);
            let j = find_ph(s, pos);
            if j == len {
                let text = s.substring_char(pos, len);
                sections.push(TemplateStringSection::Text(text.to_owned()));
                proof {
                    assert(sections_model(sections@) =~= prev + seq![
                        SectionModel::Text(s@.subrange(pos as int, len as int)),
                    ]);
                    assert(ts_sections_from(s@, len as int) =~= Seq::<SectionModel>::empty());
                    assert(ts_sections(s@) == sections_model(sections@) + ts_sections_from(
                        s@,
                        len as int,
                    ));
                }
                pos = len;
            } else {
                let e = ident_end(s, j + 1);
                proof {
                    assert(ph_match_at(s@, j as int));
                    lemma_ident_run_end(s@, j + 1);
                }
                if j > pos {
                    let gap = s.substring_char(pos, j);
                    sections.push(TemplateStringSection::Text(gap.to_owned()));
                }
                let name = s.substring_char(j + 1, e);
                sections.push(TemplateStringSection::Variable(name.to_owned()));
                proof {
                    let jv = j as int;
                    let ev = e as int;
                    let var = SectionModel::Variable(s@.subrange(jv + 1, ev));
                    if jv > pos as int {
                        assert(sections_model(sections@) =~= prev + seq![
                            SectionModel::Text(s@.subrange(pos as int, jv)),
                        ] + seq![var]);
                        assert(ts_sections_from(s@, pos as int) == seq![
                            SectionModel::Text(s@.subrange(pos as int, jv)),
                        ] + seq![var] + ts_sections_from(s@, ev + 1));
                    } else {
                        assert(sections_model(sections@) =~= prev + seq![var]);
                        assert(ts_sections_from(s@, pos as int) == seq![var] + ts_sections_from(
                            s@,
                            ev + 1,
                        ));
                    }
                    assert(ts_sections(s@) =~= sections_model(sections@) + ts_sections_from(
                        s@,
                        ev + 1,
                    ));
                }
                pos = e + 1;
            }
        }
        proof {
            assert(ts_sections_from(s@, pos as int) =~= Seq::<SectionModel>::empty());
        }
        let r = TemplateString { sections };
        proof {
            assert(r@ =~= ts_sections(s@));
        }
        r
    }

    /// Replaces every section — `Variable` or `DefaultVariable` — whose name
    /// equals `name` with a `Text` section holding `value`. A no-op when the
    /// name is absent; a default's stored fallback is discarded once set.
    pub fn set(&mut self, name: &str, value: &str)
        ensures
            final(self)@ == ts_set(old(self)@, name@, value@),
    {
        let n = self.sections.len();
        let mut i: usize = 0;
        while i < n
            invariant
                i <= n,
                n == self.sections@.len(),
                self.sections@.len() == old(self).sections@.len(),
                forall|j: int|
                    i <= j < n ==> #[trigger] self.sections@[j] == old(self).sections@[j],
                forall|j: int|
                    0 <= j < i ==> section_model(#[trigger] self.sections@[j]) == section_set(
                        section_model(old(self).sections@[j]),
                        name@,
                        value@,
                    ),
            decreases n - i,
        {
            let matches_name: bool = match &self.sections[i] {
                TemplateStringSection::Variable(var_name) => str_eq(var_name.as_str(), name),
                TemplateStringSection::DefaultVariable(var_name, _) => str_eq(
                    var_name.as_str(),
                    name,
                ),
                TemplateStringSection::Text(_) => false,
            };
            if matches_name {
                self.sections[i] = TemplateStringSection::Text(value.to_owned());
            }
            i = i + 1;
        }
        proof {
            assert(self@ =~= ts_set(old(self)@, name@, value@));
        }
    }

    /// Renders the sections in order. Fails with the set of all distinct
    /// unresolved placeholder names when any plain `Variable` remains;
    /// otherwise yields the concatenated text, unset defaults showing their
    /// fallback.
    pub fn render(&self) -> (r: Result<String, TemplateError>)
        ensures
            ({
                let u = unset_names(self@);
                match r {
                    Ok(out) => u.len() == 0 && out@ == rendered_text(self@),
                    Err(e) => u.len() > 0 && error_model(e) == ErrorModel::MissingVariables(u),
                }
            }),
    {
        let mut out = String::new();
        let mut missing: Vec<String> = Vec::new();
        let n = self.sections.len();
        let mut i: usize = 0;
        proof {
            assert(missing.deep_view() =~= Seq::<Seq<char>>::empty());
        }
        while i < n
            invariant
                i <= n,
                n == self.sections@.len(),
                out@ == rendered_upto(self@, i as int),
                missing.deep_view() == unset_upto(self@, i as int),
            decreases n - i,
        {
            let ghost prev_missing = missing.deep_view();
            match &self.sections[i] {
                TemplateStringSection::Text(text) => {
                    out.append(text.as_str());
                },
                TemplateStringSection::DefaultVariable(_, default_text) => {
                    out.append(default_text.as_str());
                },
                TemplateStringSection::Variable(name) => {
                    if !names_contain(&missing, name.as_str()) {
                        missing.push(name.clone());
                        proof {
                            assert(missing.deep_view() =~= prev_missing.push(name@));
                        }
                    }
                },
            }
            proof {
                assert(self@[i as int] == section_model(self.sections@[i as int]));
            }
            i = i + 1;
        }
        if missing.len() > 0 {
            proof {
                assert(missing.deep_view().len() == missing@.len());
            }
            Err(TemplateError::MissingVariables(missing))
        } else {
            proof {
                assert(missing.deep_view().len() == missing@.len());
            }
            Ok(out)
        }
    }
}

/// The source text a parsed section came from: literal text came from
/// itself, a placeholder from its name wrapped in braces.
pub open spec fn section_source(sec: SectionModel) -> Seq<char> {
    match sec {
        SectionModel::Text(t) => t,
        SectionModel::Variable(n) => seq!['{'] + n + seq!['}'],
        SectionModel::DefaultVariable(n, d) => seq!['{'] + n + seq!['}'],
    }
}

pub open spec fn sections_source(secs: Seq<SectionModel>) -> Seq<char>
    decreases secs.len(),
{
    if secs.len() == 0 {
        Seq::empty()
    } else {
        section_source(secs[0]) + sections_source(secs.drop_first())
    }
}

proof fn lemma_sections_source_cons(a: SectionModel, rest: Seq<SectionModel>)
    ensures
        sections_source(seq![a] + rest) == section_source(a) + sections_source(rest),
{
    let whole = seq![a] + rest;
    assert(whole.len() == rest.len() + 1);
    assert(whole[0] == a);
    assert(whole.drop_first() =~= rest);
}

proof fn lemma_ts_sections_from_reconstruct(s: Seq<char>, from: int)
    requires
        0 <= from <= s.len(),
    ensures
        sections_source(ts_sections_from(s, from)) == s.subrange(from, s.len() as int),
    decreases s.len() - from,
{
    if from == s.len() {
        assert(s.subrange(from, s.len() as int) =~= Seq::<char>::empty());
    } else {
        lemma_ph_first_match(s, from);
        let j = ph_first_match(s, from);
        if j >= s.len() {
            let single = seq![SectionModel::Text(s.subrange(from, s.len() as int))];
            assert(single[0] == SectionModel::Text(s.subrange(from, s.len() as int)));
            assert(single.drop_first() =~= Seq::<SectionModel>::empty());
            assert(sections_source(single.drop_first()) == Seq::<char>::empty());
            assert(sections_source(single) =~= s.subrange(from, s.len() as int));
        } else {
            lemma_ident_run_end(s, j + 1);
            let e = ident_run_end(s, j + 1);
            let var = SectionModel::Variable(s.subrange(j + 1, e));
            let rest = ts_sections_from(s, e + 1);
            lemma_ts_sections_from_reconstruct(s, e + 1);
            assert(section_source(var) =~= s.subrange(j, e + 1));
            lemma_sections_source_cons(var, rest);
            assert(s.subrange(j, e + 1) + s.subrange(e + 1, s.len() as int) =~= s.subrange(
                j,
                s.len() as int,
            ));
            if j > from {
                let gap = SectionModel::Text(s.subrange(from, j));
                lemma_sections_source_cons(gap, seq![var] + rest);
                assert(seq![gap] + (seq![var] + rest) =~= seq![gap] + seq![var] + rest);
                assert(s.subrange(from, j) + s.subrange(j, s.len() as int) =~= s.subrange(
                    from,
                    s.len() as int,
                ));
            } else {
                assert(s.subrange(j, s.len() as int) =~= s.subrange(from, s.len() as int));
            }
        }
    }
}

/// Splitting round trip: the placeholder grammar splits a template string
/// into sections whose source substrings, concatenated in order,
/// reconstruct the input exactly.
pub proof fn lemma_ts_sections_reconstruct(s: Seq<char>)
    ensures
        sections_source(ts_sections(s)) == s,
{
    lemma_ts_sections_from_reconstruct(s, 0);
    assert(s.subrange(0, s.len() as int) =~= s);
}

/// The name a section answers to, if any.
pub open spec fn section_name(sec: SectionModel) -> Option<Seq<char>> {
    match sec {
        SectionModel::Text(_) => None,
        SectionModel::Variable(n) => Some(n),
        SectionModel::DefaultVariable(n, _) => Some(n),
    }
}

/// Setting a name no section answers to leaves the section list unchanged.
pub proof fn lemma_set_absent_name(secs: Seq<SectionModel>, name: Seq<char>, value: Seq<char>)
    requires
        forall|i: int| 0 <= i < secs.len() ==> section_name(#[trigger] secs[i]) != Some(name),
    ensures
        ts_set(secs, name, value) == secs,
{
    assert(ts_set(secs, name, value) =~= secs);
}

/// Setting the same name to the same value twice yields the same section
/// list as setting it once.
pub proof fn lemma_set_idempotent(secs: Seq<SectionModel>, name: Seq<char>, value: Seq<char>)
    ensures
        ts_set(ts_set(secs, name, value), name, value) == ts_set(secs, name, value),
{
    assert(ts_set(ts_set(secs, name, value), name, value) =~= ts_set(secs, name, value));
}

/// A `DefaultVariable` section renders as its stored default while unset;
/// once set it is literal text holding the assigned value, and no later
/// assignment to the same name can bring the default back.
pub proof fn lemma_default_fallback(
    secs: Seq<SectionModel>,
    i: int,
    name: Seq<char>,
    d: Seq<char>,
    value: Seq<char>,
    value2: Seq<char>,
)
    requires
        0 <= i < secs.len(),
        secs[i] == SectionModel::DefaultVariable(name, d),
    ensures
        section_text(secs[i]) == d,
        ts_set(secs, name, value)[i] == SectionModel::Text(value),
        ts_set(ts_set(secs, name, value), name, value2)[i] == SectionModel::Text(value),
{
}

} // verus!
