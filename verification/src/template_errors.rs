//! Rendering failures: placeholders that never received a value, and element
//! kinds with no rendering skeleton registered.

use vstd::prelude::*;
use vstd::string::StringExecFns;

use crate::text::join_seqs;
use crate::text::join_upto;

verus! {

/// An error produced while rendering a template.
#[derive(Debug, PartialEq, Eq)]
pub enum TemplateError {
    /// The distinct placeholder names that were still unresolved, in order of
    /// first appearance.
    MissingVariables(Vec<String>),
    /// The name of an element kind that has no rendering skeleton.
    MissingTemplate(String),
}

/// The mathematical shape of a rendering error.
pub enum ErrorModel {
    MissingVariables(Seq<Seq<char>>),
    MissingTemplate(Seq<char>),
}

pub open spec fn error_model(e: TemplateError) -> ErrorModel {
    match e {
        TemplateError::MissingVariables(names) => ErrorModel::MissingVariables(names.deep_view()),
        TemplateError::MissingTemplate(name) => ErrorModel::MissingTemplate(name@),
    }
}

/// The message a rendering error shows: the unresolved names joined with a
/// comma, or the element kind that lacked a skeleton.
pub open spec fn error_message(e: ErrorModel) -> Seq<char> {
    match e {
        ErrorModel::MissingVariables(names) => "contents not set for variables: "@ + join_seqs(
            names,
            ", "@,
        ),
        ErrorModel::MissingTemplate(name) => "missing template for "@ + name,
    }
}

impl Clone for TemplateError {
    fn clone(&self) -> (r: Self)
        ensures
            error_model(r) == error_model(*self),
    {
        match self {
            TemplateError::MissingVariables(names) => {
                let mut copied: Vec<String> = Vec::new();
                let mut i: usize = 0;
                let n = names.len();
                while i < n
                    invariant
                        i <= n,
                        n == names@.len(),
                        copied@.len() == i,
                        forall|j: int| 0 <= j < i ==> #[trigger] copied@[j]@ == names@[j]@,
                    decreases n - i,
                {
                    copied.push(names[i].clone());
                    i = i + 1;
                }
                proof {
                    assert(copied.deep_view() =~= names.deep_view());
                }
                TemplateError::MissingVariables(copied)
            },
            TemplateError::MissingTemplate(name) => TemplateError::MissingTemplate(name.clone()),
        }
    }
}

impl TemplateError {
    /// The error written out as text.
    pub fn to_string(&self) -> (r: String)
        ensures
            r@ == error_message(error_model(*self)),
    {
        match self {
            TemplateError::MissingVariables(names) => {
                let mut r = String::from_str("contents not set for variables: ");
                let n = names.len();
                let mut j: usize = 0;
                while j < n
                    invariant
                        j <= n,
                        n == names@.len(),
                        n == names.deep_view().len(),
                        forall|k: int|
                            0 <= k < n ==> names.deep_view()[k] == #[trigger] names@[k]@,
                        r@ == "contents not set for variables: "@ + join_upto(
                            names.deep_view(),
                            ", "@,
                            j as int,
                        ),
                    decreases n - j,
                {
                    if j > 0 {
                        r.append(", ");
                    }
                    r.append(names[j].as_str());
                    j = j + 1;
                }
                r
            },
            TemplateError::MissingTemplate(name) => {
                let mut r = String::from_str("missing template for ");
                r.append(name.as_str());
                r
            },
        }
    }
}

} // verus!
