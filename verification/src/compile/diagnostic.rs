//! Compiler diagnostics.
//!
//! The compiler collects *every* problem it can in one pass rather than bailing on
//! the first.

use vstd::prelude::*;

use crate::text::cat3;

verus! {

#[derive(Clone, Copy, Debug, PartialEq, Eq, Structural)]
pub enum Severity {
    Error,
    Warning,
}

/// A single compiler finding. `code` is stable (`E_UNKNOWN_ADAPTER`) so errors can
/// be documented and searched; `context` names the offending entity.
#[derive(Debug, PartialEq, Eq)]
pub struct Diagnostic {
    pub severity: Severity,
    pub code: &'static str,
    pub message: String,
    pub context: Option<String>,
}

/// [`Diagnostic`] with its text as characters.
pub struct Finding {
    pub severity: Severity,
    pub code: Seq<char>,
    pub message: Seq<char>,
    pub context: Option<Seq<char>>,
}

/// An optional text as characters.
pub open spec fn opt_text(s: Option<String>) -> Option<Seq<char>> {
    match s {
        Some(t) => Some(t@),
        None => None,
    }
}

impl View for Diagnostic {
    type V = Finding;

    open spec fn view(&self) -> Finding {
        Finding {
            severity: self.severity,
            code: self.code@,
            message: self.message@,
            context: opt_text(self.context),
        }
    }
}

/// An error about an entity.
pub open spec fn error_at(code: Seq<char>, message: Seq<char>, at: Seq<char>) -> Finding {
    Finding { severity: Severity::Error, code, message, context: Some(at) }
}

/// A warning about an entity.
pub open spec fn warning_at(code: Seq<char>, message: Seq<char>, at: Seq<char>) -> Finding {
    Finding { severity: Severity::Warning, code, message, context: Some(at) }
}

pub open spec fn findings(ds: Seq<Diagnostic>) -> Seq<Finding> {
    ds.map_values(|d: Diagnostic| d@)
}

/// Whether compilation fails: warnings alone do not fail it.
pub open spec fn has_error(fs: Seq<Finding>) -> bool {
    exists|i: int| 0 <= i < fs.len() && (#[trigger] fs[i]).severity == Severity::Error
}

impl Clone for Diagnostic {
    fn clone(&self) -> (r: Self)
        ensures
            r@ == self@,
    {
        Diagnostic {
            severity: self.severity,
            code: self.code,
            message: self.message.clone(),
            context: match &self.context {
                Some(c) => Some(c.clone()),
                None => None,
            },
        }
    }
}

impl Diagnostic {
    pub fn error(code: &'static str, message: String) -> (r: Self)
        ensures
            r@ == (Finding {
                severity: Severity::Error,
                code: code@,
                message: message@,
                context: None,
            }),
    {
        Diagnostic { severity: Severity::Error, code, message, context: None }
    }

    pub fn warning(code: &'static str, message: String) -> (r: Self)
        ensures
            r@ == (Finding {
                severity: Severity::Warning,
                code: code@,
                message: message@,
                context: None,
            }),
    {
        Diagnostic { severity: Severity::Warning, code, message, context: None }
    }

    pub fn at(self, context: &str) -> (r: Self)
        ensures
            r@ == (Finding { context: Some(context@), ..self@ }),
    {
        Diagnostic {
            severity: self.severity,
            code: self.code,
            message: self.message,
            context: Some(context.to_owned()),
        }
    }

    pub fn is_error(&self) -> (r: bool)
        ensures
            r == (self.severity == Severity::Error),
    {
        self.severity == Severity::Error
    }

    /// The finding on one line, as in `error[E_X] (device 'lamp'): message`.
    pub fn text(&self) -> (r: String)
        ensures
            r@ == finding_text(self@),
    {
        let label: &str = match self.severity {
            Severity::Error => "error",
            Severity::Warning => "warning",
        };
        let mut r = cat3(label, "[", self.code);
        r.append("]");
        if let Some(c) = &self.context {
            r.append(" (");
            r.append(c.as_str());
            r.append(")");
        }
        r.append(": ");
        r.append(self.message.as_str());
        r
    }
}

/// A finding on one line.
pub open spec fn finding_text(f: Finding) -> Seq<char> {
    let label = match f.severity {
        Severity::Error => "error"@,
        Severity::Warning => "warning"@,
    };
    let head = label + "["@ + f.code + "]"@;
    let place = match f.context {
        Some(c) => head + " ("@ + c + ")"@,
        None => head,
    };
    place + ": "@ + f.message
}

/// Findings one to a line.
pub open spec fn report_text(fs: Seq<Finding>) -> Seq<char>
    decreases fs.len(),
{
    if fs.len() == 0 {
        Seq::empty()
    } else if fs.len() == 1 {
        finding_text(fs[0])
    } else {
        report_text(fs.drop_last()) + "\n"@ + finding_text(fs.last())
    }
}

/// The compiler's error type: a bag of diagnostics, at least one of which is an
/// `Error`.
#[derive(Debug)]
pub struct CompileErrors(pub Vec<Diagnostic>);

impl CompileErrors {
    /// The errors among the findings, in their order.
    pub fn errors(&self) -> (r: Vec<&Diagnostic>)
        ensures
            r@.map_values(|d: &Diagnostic| *d) == self.0@.filter(
                |d: Diagnostic| d.severity == Severity::Error,
            ),
    {
        let ghost keep = |d: Diagnostic| d.severity == Severity::Error;
        let mut r: Vec<&Diagnostic> = Vec::new();
        let mut i: usize = 0;
        proof {
            reveal(Seq::filter);
            assert(r@.map_values(|d: &Diagnostic| *d) =~= self.0@.take(0).filter(keep));
        }
        while i < self.0.len()
            invariant
                i <= self.0@.len(),
                keep == (|d: Diagnostic| d.severity == Severity::Error),
                r@.map_values(|d: &Diagnostic| *d) == self.0@.take(i as int).filter(keep),
            decreases self.0@.len() - i,
        {
            let d = &self.0[i];
            let ghost was = r@;
            proof {
                reveal(Seq::filter);
                assert(self.0@.take(i + 1).drop_last() =~= self.0@.take(i as int));
                assert(self.0@.take(i + 1).last() == *d);
            }
            if d.is_error() {
                r.push(d);
                assert(r@.map_values(|d: &Diagnostic| *d) =~= was.map_values(
                    |d: &Diagnostic| *d,
                ).push(*d));
            }
            i += 1;
        }
        assert(self.0@.take(i as int) =~= self.0@);
        r
    }

    /// The findings, one to a line.
    pub fn text(&self) -> (r: String)
        ensures
            r@ == report_text(findings(self.0@)),
    {
        let mut r = String::new();
        let mut i: usize = 0;
        let ghost all = findings(self.0@);
        assert(all.take(0) =~= Seq::empty());
        assert(r@ =~= report_text(all.take(0)));
        while i < self.0.len()
            invariant
                i <= self.0@.len(),
                all == findings(self.0@),
                r@ == report_text(all.take(i as int)),
            decreases self.0@.len() - i,
        {
            if i > 0 {
                r.append("\n");
            }
            let line = self.0[i].text();
            r.append(line.as_str());
            proof {
                let upto = all.take(i + 1);
                assert(upto.drop_last() =~= all.take(i as int));
                assert(upto.last() == self.0@[i as int]@);
                if i == 0 {
                    assert(upto[0] == self.0@[0]@);
                    assert(r@ =~= finding_text(upto[0]));
                }
            }
            i += 1;
        }
        assert(all.take(i as int) =~= all);
        r
    }
}

/// Whether any finding is an error.
pub fn any_error(ds: &Vec<Diagnostic>) -> (r: bool)
    ensures
        r == has_error(findings(ds@)),
{
    let mut i: usize = 0;
    while i < ds.len()
        invariant
            i <= ds@.len(),
            forall|j: int| 0 <= j < i ==> findings(ds@)[j].severity != Severity::Error,
        decreases ds@.len() - i,
    {
        if ds[i].is_error() {
            assert(findings(ds@)[i as int].severity == Severity::Error);
            return true;
        }
        i += 1;
    }
    false
}

/// The one error of a configuration that could not be read at all.
pub fn parse_failure(why: String) -> (r: CompileErrors)
    ensures
        findings(r.0@) == seq![
            (Finding {
                severity: Severity::Error,
                code: "E_PARSE"@,
                message: why@,
                context: None,
            }),
        ],
{
    let mut all: Vec<Diagnostic> = Vec::new();
    let ghost said = why@;
    all.push(Diagnostic::error("E_PARSE", why));
    assert(findings(all@) =~= seq![
        Finding { severity: Severity::Error, code: "E_PARSE"@, message: said, context: None },
    ]);
    CompileErrors(all)
}

} // verus!
