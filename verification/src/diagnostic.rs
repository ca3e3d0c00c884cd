//! Positioned errors: what went wrong, in words, and where in the template.

use vstd::prelude::*;
use vstd::string::*;
use crate::data_type::DataType;
use crate::grammar::{Fault, SyntaxError};
use crate::span::{chars_since_newline, line_col, newlines_before, Span};

verus! {

/// The kinds of failure of parsing and compiling a template.
#[derive(Clone, Copy, Debug, PartialEq, Eq, Structural)]
pub enum DiagnosticKind {
    /// A placeholder does not fit the grammar, lacks the type behind its
    /// `:`, or has a pipeline without a type.
    Grammar,
    /// The declared type is none of the known ones.
    UnknownType,
    /// A function of the pipeline is not registered.
    UnknownFunction,
    /// A variable that is not nullable has no binding.
    UnboundVariable,
    /// The value, after its pipeline, is no literal of the declared type.
    TypeMismatch,
}

/// A failure with its message and the byte range of the template it is about.
#[derive(Debug)]
pub struct Diagnostic {
    pub kind: DiagnosticKind,
    pub message: String,
    pub span: Span,
}

pub struct DiagnosticModel {
    pub kind: DiagnosticKind,
    pub message: Seq<char>,
    pub span: (int, int),
}

impl View for Diagnostic {
    type V = DiagnosticModel;

    open spec fn view(&self) -> DiagnosticModel {
        DiagnosticModel { kind: self.kind, message: self.message@, span: self.span@ }
    }
}

/// The words for a fault of the grammar.
pub open spec fn fault_message(fault: Fault) -> Seq<char> {
    match fault {
        Fault::ExpectedName => "expected variable name"@,
        Fault::ExpectedFunctionName => "expected function name"@,
        Fault::ExpectedClose => "expected `|` or `}}`"@,
    }
}

/// The diagnostic for a fault at the offset `at` of a template of `len`
/// bytes: it points at the byte there, or at the end of the text.
pub open spec fn syntax_diagnostic(fault: Fault, at: int, len: int) -> DiagnosticModel {
    DiagnosticModel {
        kind: DiagnosticKind::Grammar,
        message: fault_message(fault),
        span: (
            at,
            if at < len {
                at + 1
            } else {
                at
            },
        ),
    }
}

/// The diagnostic for a `:` without a type, or a pipeline without one.
pub open spec fn missing_type_diagnostic(name_span: (int, int)) -> DiagnosticModel {
    DiagnosticModel {
        kind: DiagnosticKind::Grammar,
        message: "expected data type"@,
        span: name_span,
    }
}

/// The words that offer a suggestion, or nothing.
pub open spec fn hint(suggested: Option<Seq<char>>) -> Seq<char> {
    match suggested {
        Some(m) => "did you mean: `"@ + m + "` ?"@,
        None => Seq::empty(),
    }
}

pub open spec fn unknown_type_diagnostic(
    name: Seq<char>,
    suggested: Option<Seq<char>>,
    span: (int, int),
) -> DiagnosticModel {
    DiagnosticModel {
        kind: DiagnosticKind::UnknownType,
        message: "unknown Data type: `"@ + name + "` "@ + hint(suggested),
        span,
    }
}

pub open spec fn unknown_function_diagnostic(
    name: Seq<char>,
    suggested: Option<Seq<char>>,
    span: (int, int),
) -> DiagnosticModel {
    DiagnosticModel {
        kind: DiagnosticKind::UnknownFunction,
        message: "undefined function: "@ + name + " "@ + hint(suggested),
        span,
    }
}

pub open spec fn unbound_variable_diagnostic(
    name: Seq<char>,
    suggested: Option<Seq<char>>,
    span: (int, int),
) -> DiagnosticModel {
    DiagnosticModel {
        kind: DiagnosticKind::UnboundVariable,
        message: "undefined variable: `"@ + name + "` "@ + match suggested {
            Some(m) => hint(suggested),
            None => "consider adding a bind for it"@,
        },
        span,
    }
}

/// The value as a message shows it: its first fifteen characters, and three
/// dots if it has more.
pub open spec fn shortened(value: Seq<char>) -> Seq<char> {
    if value.len() > 15 {
        value.take(15) + "..."@
    } else {
        value
    }
}

pub open spec fn type_mismatch_diagnostic(
    value: Seq<char>,
    dt: DataType,
    name: Seq<char>,
    span: (int, int),
) -> DiagnosticModel {
    DiagnosticModel {
        kind: DiagnosticKind::TypeMismatch,
        message: "cannot parse input `"@ + shortened(value) + "` into `"@ + dt.label()
            + "` for var `"@ + name + "` !"@,
        span,
    }
}

/// Writes the words that offer a suggestion.
pub fn hint_text(suggested: &Option<String>) -> (r: String)
    ensures
        r@ == hint(
            match *suggested {
                Some(m) => Some(m@),
                None => None,
            },
        ),
{
    match suggested {
        Some(m) => {
            let mut r = String::from_str("did you mean: `");
            r.append(m.as_str());
            r.append("` ?");
            r
        },
        None => String::new(),
    }
}

/// The view of an optional string.
pub open spec fn text_of_option(s: Option<String>) -> Option<Seq<char>> {
    match s {
        Some(m) => Some(m@),
        None => None,
    }
}

impl Diagnostic {
    /// The one-based line and column at which the range of the diagnostic
    /// starts in `template`; none if it starts behind the end of the text.
    pub fn position(&self, template: &str) -> (r: Option<(usize, usize)>)
        ensures
            match r {
                Some(lc) => self.span.start <= template.spec_bytes().len() && lc.0
                    == newlines_before(template.spec_bytes(), self.span.start as int) + 1 && lc.1
                    == chars_since_newline(template.spec_bytes(), self.span.start as int) + 1,
                None => self.span.start > template.spec_bytes().len() || self.span.start
                    == usize::MAX,
            },
    {
        let bytes = template.as_bytes();
        if self.span.start <= bytes.len() && self.span.start < usize::MAX {
            Some(line_col(bytes, self.span.start))
        } else {
            None
        }
    }

    /// The diagnostic for a fault of the grammar in a template of `len` bytes.
    pub fn syntax(e: SyntaxError, len: usize) -> (d: Diagnostic)
        requires
            e.at <= len,
        ensures
            d@ == syntax_diagnostic(e.fault, e.at as int, len as int),
    {
        let message = match e.fault {
            Fault::ExpectedName => String::from_str("expected variable name"),
            Fault::ExpectedFunctionName => String::from_str("expected function name"),
            Fault::ExpectedClose => String::from_str("expected `|` or `}}`"),
        };
        let end: usize = if e.at < len {
            e.at + 1
        } else {
            e.at
        };
        Diagnostic { kind: DiagnosticKind::Grammar, message, span: Span { start: e.at, end } }
    }

    /// The diagnostic for a `:` without a type, or a pipeline without one.
    pub fn missing_type(name_span: Span) -> (d: Diagnostic)
        ensures
            d@ == missing_type_diagnostic(name_span@),
    {
        Diagnostic {
            kind: DiagnosticKind::Grammar,
            message: String::from_str("expected data type"),
            span: name_span,
        }
    }

    pub fn unknown_type(name: &str, suggested: &Option<String>, span: Span) -> (d: Diagnostic)
        ensures
            d@ == unknown_type_diagnostic(name@, text_of_option(*suggested), span@),
    {
        let mut message = String::from_str("unknown Data type: `");
        message.append(name);
        message.append("` ");
        message.append(hint_text(suggested).as_str());
        Diagnostic { kind: DiagnosticKind::UnknownType, message, span }
    }

    pub fn unknown_function(name: &str, suggested: &Option<String>, span: Span) -> (d: Diagnostic)
        ensures
            d@ == unknown_function_diagnostic(name@, text_of_option(*suggested), span@),
    {
        let mut message = String::from_str("undefined function: ");
        message.append(name);
        message.append(" ");
        message.append(hint_text(suggested).as_str());
        Diagnostic { kind: DiagnosticKind::UnknownFunction, message, span }
    }

    pub fn unbound_variable(name: &str, suggested: &Option<String>, span: Span) -> (d: Diagnostic)
        ensures
            d@ == unbound_variable_diagnostic(name@, text_of_option(*suggested), span@),
    {
        let mut message = String::from_str("undefined variable: `");
        message.append(name);
        message.append("` ");
        match suggested {
            Some(_) => {
                message.append(hint_text(suggested).as_str());
            },
            None => {
                message.append("consider adding a bind for it");
            },
        }
        Diagnostic { kind: DiagnosticKind::UnboundVariable, message, span }
    }

    pub fn type_mismatch(value: &str, dt: DataType, name: &str, span: Span) -> (d: Diagnostic)
        ensures
            d@ == type_mismatch_diagnostic(value@, dt, name@, span@),
    {
        let mut message = String::from_str("cannot parse input `");
        if value.unicode_len() > 15 {
            message.append(value.substring_char(0, 15));
            message.append("...");
            assert(value@.take(15) == value@.subrange(0, 15));
        } else {
            message.append(value);
        }
        message.append("` into `");
        message.append(dt.variant_name());
        message.append("` for var `");
        message.append(name);
        message.append("` !");
        proof {
            let a = "cannot parse input `"@;
            if value@.len() > 15 {
                assert(a + value@.take(15) + "..."@ =~= a + shortened(value@));
            }
        }
        Diagnostic { kind: DiagnosticKind::TypeMismatch, message, span }
    }
}

} // verus!
