//! Variables: what the placeholders of a template declare, resolved against
//! the known types, the registered functions and the bindings.

use vstd::prelude::*;
use vstd::string::*;
use crate::data_type::{data_type_named, DataType};
use crate::diagnostic::{
    missing_type_diagnostic, syntax_diagnostic, unbound_variable_diagnostic,
    unknown_function_diagnostic, unknown_type_diagnostic, DiagnosticModel,
};
use crate::grammar::{
    ascii_between, lemma_placeholders, lemma_plain_text, opens_at, placeholders, PlaceholderModel,
};
use crate::registry::distinct;
use crate::span::Span;
use crate::suggest::suggestion;
use crate::text::{lemma_slice_text_encodes, slice_text};
use vstd::utf8::encode_utf8;

verus! {

/// A variable of a template: the last declaration of its name.
#[derive(Debug)]
pub struct Variable {
    pub name: String,
    pub nullable: bool,
    /// A `:` was seen.
    pub typed: bool,
    /// The declared type and where it is written.
    pub data_type: Option<(DataType, Span)>,
    /// Where the placeholder starts and ends.
    pub location: (usize, usize),
    /// The names of the pipeline's functions, in order, and where each is
    /// written.
    pub functions: Vec<(String, Span)>,
    pub name_span: Span,
    /// The exact text of the placeholder, from `{{` to `}}`.
    pub pair_str: String,
}

pub struct VariableModel {
    pub name: Seq<char>,
    pub nullable: bool,
    pub typed: bool,
    pub data_type: Option<(DataType, (int, int))>,
    pub location: (int, int),
    pub functions: Seq<(Seq<char>, (int, int))>,
    pub name_span: (int, int),
    pub pair_str: Seq<char>,
}

/// One occurrence of a placeholder: where it stands and which variable it
/// names.
#[derive(Debug)]
pub struct Occurrence {
    pub span: Span,
    pub name: String,
}

pub struct OccurrenceModel {
    pub span: (int, int),
    pub name: Seq<char>,
}

impl View for Occurrence {
    type V = OccurrenceModel;

    open spec fn view(&self) -> OccurrenceModel {
        OccurrenceModel { span: self.span@, name: self.name@ }
    }
}

/// The views of a list of occurrences.
pub open spec fn occurrence_views(occurrences: Seq<Occurrence>) -> Seq<OccurrenceModel> {
    Seq::new(occurrences.len(), |i: int| occurrences[i]@)
}

/// The occurrences that the placeholders `ps` of the template `s` are, left
/// to right.
pub open spec fn occurrences_of(s: Seq<u8>, ps: Seq<PlaceholderModel>) -> Seq<OccurrenceModel> {
    Seq::new(
        ps.len(),
        |i: int| OccurrenceModel { span: ps[i].span, name: slice_text(s, ps[i].name.0, ps[i].name.1) },
    )
}

/// The occurrences lie inside the template `s`, one behind the other, and
/// each is written in ASCII and not empty.
pub open spec fn laid_out(occurrences: Seq<OccurrenceModel>, s: Seq<u8>) -> bool {
    &&& forall|i: int|
        0 <= i < occurrences.len() ==> 0 <= (#[trigger] occurrences[i]).span.0
            < occurrences[i].span.1 <= s.len() && ascii_between(
            s,
            occurrences[i].span.0,
            occurrences[i].span.1,
        )
    &&& forall|i: int, j: int|
        0 <= i < j < occurrences.len() ==> (#[trigger] occurrences[i]).span.1
            <= (#[trigger] occurrences[j]).span.0
}

/// The placeholders of a template are laid out in it.
pub proof fn lemma_occurrences_laid_out(s: Seq<u8>)
    requires
        placeholders(s) is Ok,
    ensures
        laid_out(occurrences_of(s, placeholders(s)->Ok_0), s),
{
    lemma_placeholders(s);
    let ps = placeholders(s)->Ok_0;
    let occurrences = occurrences_of(s, ps);
    assert forall|i: int| 0 <= i < occurrences.len() implies 0 <= (#[trigger] occurrences[i]).span.0
        < occurrences[i].span.1 <= s.len() && ascii_between(
        s,
        occurrences[i].span.0,
        occurrences[i].span.1,
    ) by {
        assert(ps[i].fits(s.len() as int));
        assert(ps[i].written_in_ascii(s));
    }
    assert forall|i: int, j: int| 0 <= i < j < occurrences.len() implies (#[trigger] occurrences[i]).span.1
        <= (#[trigger] occurrences[j]).span.0 by {
        assert(ps[i].span.1 <= ps[j].span.0);
    }
}

/// The names and ranges of a pipeline.
pub open spec fn stage_views(stages: Seq<(String, Span)>) -> Seq<(Seq<char>, (int, int))> {
    Seq::new(stages.len(), |i: int| (stages[i].0@, stages[i].1@))
}

impl View for Variable {
    type V = VariableModel;

    open spec fn view(&self) -> VariableModel {
        VariableModel {
            name: self.name@,
            nullable: self.nullable,
            typed: self.typed,
            data_type: match self.data_type {
                Some((dt, span)) => Some((dt, span@)),
                None => None,
            },
            location: (self.location.0 as int, self.location.1 as int),
            functions: stage_views(self.functions@),
            name_span: self.name_span@,
            pair_str: self.pair_str@,
        }
    }
}

/// The views of a list of variables.
pub open spec fn variable_views(vars: Seq<Variable>) -> Seq<VariableModel> {
    Seq::new(vars.len(), |i: int| vars[i]@)
}

/// The names of a list of variables.
pub open spec fn names_of(vars: Seq<VariableModel>) -> Seq<Seq<char>> {
    Seq::new(vars.len(), |i: int| vars[i].name)
}

/// The names of the types, in the order in which they are tried for a
/// suggestion.
pub open spec fn type_names() -> Seq<Seq<char>> {
    seq![
        "u8"@,
        "u16"@,
        "u32"@,
        "u64"@,
        "i8"@,
        "i16"@,
        "i32"@,
        "i64"@,
        "f32"@,
        "f64"@,
        "str"@,
        "bool"@,
    ]
}

/// The declared type of the placeholder `p` of the template `s`: none
/// without a `:`, a fault for a `:` without a type or with an unknown one.
pub open spec fn resolve_type(s: Seq<u8>, p: PlaceholderModel) -> Result<
    Option<(DataType, (int, int))>,
    DiagnosticModel,
> {
    match p.data_type {
        None => if p.typed {
            Err(missing_type_diagnostic(p.name))
        } else {
            Ok(None)
        },
        Some(t) => {
            let name = slice_text(s, t.0, t.1);
            match data_type_named(name) {
                Some(dt) => Ok(Some((dt, t))),
                None => Err(unknown_type_diagnostic(name, suggestion(name, type_names()), t)),
            }
        },
    }
}

/// The fault of the first stage from `i` on that is at fault: a stage of a
/// placeholder without a type, or one whose function is not among `known`.
pub open spec fn stage_fault(s: Seq<u8>, p: PlaceholderModel, known: Seq<Seq<char>>, i: int) -> Option<
    DiagnosticModel,
>
    decreases p.functions.len() - i,
{
    if i < 0 || i >= p.functions.len() {
        None
    } else if p.data_type is None {
        Some(missing_type_diagnostic(p.name))
    } else {
        let f = p.functions[i];
        let name = slice_text(s, f.0, f.1);
        if !known.contains(name) {
            Some(unknown_function_diagnostic(name, suggestion(name, known), f))
        } else {
            stage_fault(s, p, known, i + 1)
        }
    }
}

/// The names of the pipeline of `p`, each with its range.
pub open spec fn stages_of(s: Seq<u8>, p: PlaceholderModel) -> Seq<(Seq<char>, (int, int))> {
    Seq::new(
        p.functions.len(),
        |i: int| (slice_text(s, p.functions[i].0, p.functions[i].1), p.functions[i]),
    )
}

/// The variable that the placeholder `p` of the template `s` declares, where
/// the names in `bound` have a binding and those in `known` a function; or
/// the first fault: of the type, of the pipeline, of the binding.
pub open spec fn resolve(
    s: Seq<u8>,
    p: PlaceholderModel,
    bound: Seq<Seq<char>>,
    known: Seq<Seq<char>>,
) -> Result<VariableModel, DiagnosticModel> {
    match resolve_type(s, p) {
        Err(d) => Err(d),
        Ok(data_type) => match stage_fault(s, p, known, 0) {
            Some(d) => Err(d),
            None => {
                let name = slice_text(s, p.name.0, p.name.1);
                if !bound.contains(name) && !p.nullable {
                    Err(unbound_variable_diagnostic(name, suggestion(name, bound), p.name))
                } else {
                    Ok(
                        VariableModel {
                            name,
                            nullable: p.nullable,
                            typed: p.typed,
                            data_type,
                            location: p.span,
                            functions: stages_of(s, p),
                            name_span: p.name,
                            pair_str: slice_text(s, p.span.0, p.span.1),
                        },
                    )
                }
            },
        },
    }
}

/// The variables `vars` with `v` stored under its name: in place of the one
/// that had the name, or as the last.
pub open spec fn store(vars: Seq<VariableModel>, v: VariableModel) -> Seq<VariableModel> {
    if names_of(vars).contains(v.name) {
        vars.update(choose|i: int| 0 <= i < vars.len() && vars[i].name == v.name, v)
    } else {
        vars.push(v)
    }
}

/// The variables of the placeholders `ps` from the `i`-th on, stored after
/// those in `vars`, or the first fault.
pub open spec fn resolve_from(
    s: Seq<u8>,
    ps: Seq<PlaceholderModel>,
    bound: Seq<Seq<char>>,
    known: Seq<Seq<char>>,
    i: int,
    vars: Seq<VariableModel>,
) -> Result<Seq<VariableModel>, DiagnosticModel>
    decreases ps.len() - i,
{
    if i < 0 || i >= ps.len() {
        Ok(vars)
    } else {
        match resolve(s, ps[i], bound, known) {
            Err(d) => Err(d),
            Ok(v) => resolve_from(s, ps, bound, known, i + 1, store(vars, v)),
        }
    }
}

/// What parsing the template `s` gives: its variables, one for each name in
/// the order in which the names first occur, or the first fault. A fault of
/// the grammar anywhere comes before every other.
pub open spec fn parse_outcome(s: Seq<u8>, bound: Seq<Seq<char>>, known: Seq<Seq<char>>) -> Result<
    Seq<VariableModel>,
    DiagnosticModel,
> {
    match placeholders(s) {
        Err((fault, at)) => Err(syntax_diagnostic(fault, at, s.len() as int)),
        Ok(ps) => resolve_from(s, ps, bound, known, 0, Seq::empty()),
    }
}

impl VariableModel {
    /// The ranges of the variable lie inside a template of `len` bytes, the
    /// name and the type inside the placeholder; the variable is typed
    /// exactly if it has a type, and has a pipeline only if it is typed.
    pub open spec fn sound(&self, len: int) -> bool {
        &&& 0 <= self.location.0 <= self.name_span.0 < self.name_span.1 <= self.location.1 <= len
        &&& self.name.len() == self.name_span.1 - self.name_span.0
        &&& self.pair_str.len() == self.location.1 - self.location.0
        &&& self.typed <==> self.data_type is Some
        &&& self.functions.len() > 0 ==> self.typed
        &&& match self.data_type {
            Some((_, at)) => self.name_span.1 <= at.0 < at.1 <= self.location.1,
            None => true,
        }
        &&& forall|j: int|
            0 <= j < self.functions.len() ==> self.name_span.1 <= (#[trigger] self.functions[j]).1.0
                < self.functions[j].1.1 <= self.location.1
    }
}

impl VariableModel {
    /// The text of the placeholder and the name are written in the template
    /// at their places, byte for byte.
    pub open spec fn verbatim(&self, s: Seq<u8>) -> bool {
        &&& encode_utf8(self.pair_str) == s.subrange(self.location.0, self.location.1)
        &&& encode_utf8(self.name) == s.subrange(self.name_span.0, self.name_span.1)
    }
}

/// A diagnostic points into a template of `len` bytes.
pub open spec fn points_into(d: DiagnosticModel, len: int) -> bool {
    0 <= d.span.0 <= d.span.1 <= len
}

/// A pipeline without a fault from the `i`-th stage on names known functions
/// only, and belongs to a placeholder with a type if it has a stage there;
/// a fault points into the template.
pub proof fn lemma_stage_fault(s: Seq<u8>, p: PlaceholderModel, known: Seq<Seq<char>>, i: int)
    requires
        p.fits(s.len() as int),
        0 <= i <= p.functions.len(),
    ensures
        match stage_fault(s, p, known, i) {
            None => (i < p.functions.len() ==> p.data_type is Some) && forall|j: int|
                i <= j < p.functions.len() ==> known.contains(#[trigger] stages_of(s, p)[j].0),
            Some(d) => points_into(d, s.len() as int),
        },
    decreases p.functions.len() - i,
{
    if i < p.functions.len() && p.data_type is Some {
        let f = p.functions[i];
        let name = slice_text(s, f.0, f.1);
        if known.contains(name) {
            lemma_stage_fault(s, p, known, i + 1);
        }
    }
}

/// A variable that a placeholder resolves to is sound, is bound unless it is
/// nullable, and names known functions only; a fault points into the
/// template.
pub proof fn lemma_resolve(
    s: Seq<u8>,
    p: PlaceholderModel,
    bound: Seq<Seq<char>>,
    known: Seq<Seq<char>>,
)
    requires
        p.fits(s.len() as int),
        p.written_in_ascii(s),
    ensures
        match resolve(s, p, bound, known) {
            Ok(v) => {
                &&& v.sound(s.len() as int)
                &&& v.verbatim(s)
                &&& v.nullable || bound.contains(v.name)
                &&& forall|j: int|
                    0 <= j < v.functions.len() ==> known.contains((#[trigger] v.functions[j]).0)
            },
            Err(d) => points_into(d, s.len() as int),
        },
{
    lemma_stage_fault(s, p, known, 0);
    lemma_slice_text_encodes(s, p.span.0, p.span.1);
    lemma_slice_text_encodes(s, p.name.0, p.name.1);
}

/// Storing a variable keeps the names distinct, and every variable that was
/// stored or is stored now is among the result.
pub proof fn lemma_store(vars: Seq<VariableModel>, v: VariableModel)
    requires
        distinct(names_of(vars)),
    ensures
        distinct(names_of(store(vars, v))),
        forall|i: int|
            0 <= i < store(vars, v).len() ==> #[trigger] store(vars, v)[i] == v || vars.contains(
                store(vars, v)[i],
            ),
        names_of(store(vars, v)).contains(v.name),
{
    let names = names_of(vars);
    let after = store(vars, v);
    if names.contains(v.name) {
        let c = choose|c: int| 0 <= c < vars.len() && vars[c].name == v.name;
        let any = choose|c: int| 0 <= c < names.len() && names[c] == v.name;
        assert(vars[any].name == v.name);
        assert(names_of(after) =~= names);
        assert forall|i: int| 0 <= i < after.len() implies #[trigger] after[i] == v || vars.contains(
            after[i],
        ) by {
            if i != c {
                assert(vars[i] == after[i]);
            }
        }
        assert(names_of(after)[c] == v.name);
    } else {
        assert(names_of(after) =~= names.push(v.name));
        assert forall|i: int, j: int| 0 <= i < j < names_of(after).len() implies names_of(after)[i]
            != names_of(after)[j] by {
            if j == names.len() {
                assert(names.contains(names[i]));
            }
        }
        assert forall|i: int| 0 <= i < after.len() implies #[trigger] after[i] == v || vars.contains(
            after[i],
        ) by {
            if i < vars.len() {
                assert(vars[i] == after[i]);
            }
        }
        assert(names_of(after)[vars.len() as int] == v.name);
    }
}

/// The variables resolved from the `i`-th placeholder on, after sound ones
/// with distinct names, are sound and have distinct names; a fault points
/// into the template.
pub proof fn lemma_resolve_from(
    s: Seq<u8>,
    ps: Seq<PlaceholderModel>,
    bound: Seq<Seq<char>>,
    known: Seq<Seq<char>>,
    i: int,
    vars: Seq<VariableModel>,
)
    requires
        0 <= i <= ps.len(),
        forall|k: int| 0 <= k < ps.len() ==> (#[trigger] ps[k]).fits(s.len() as int),
        forall|k: int| 0 <= k < ps.len() ==> (#[trigger] ps[k]).written_in_ascii(s),
        distinct(names_of(vars)),
        forall|k: int| 0 <= k < vars.len() ==> (#[trigger] vars[k]).sound(s.len() as int),
        forall|k: int| 0 <= k < vars.len() ==> (#[trigger] vars[k]).verbatim(s),
        forall|k: int| 0 <= k < vars.len() ==> (#[trigger] vars[k]).nullable || bound.contains(vars[k].name),
    ensures
        match resolve_from(s, ps, bound, known, i, vars) {
            Ok(all) => {
                &&& distinct(names_of(all))
                &&& forall|k: int| 0 <= k < all.len() ==> (#[trigger] all[k]).sound(s.len() as int)
                &&& forall|k: int| 0 <= k < all.len() ==> (#[trigger] all[k]).verbatim(s)
                &&& forall|k: int|
                    0 <= k < all.len() ==> (#[trigger] all[k]).nullable || bound.contains(all[k].name)
            },
            Err(d) => points_into(d, s.len() as int),
        },
    decreases ps.len() - i,
{
    if i < ps.len() {
        lemma_resolve(s, ps[i], bound, known);
        match resolve(s, ps[i], bound, known) {
            Ok(v) => {
                lemma_store(vars, v);
                let next = store(vars, v);
                assert forall|k: int| 0 <= k < next.len() implies (#[trigger] next[k]).sound(
                    s.len() as int,
                ) && next[k].verbatim(s) && (next[k].nullable || bound.contains(next[k].name)) by {
                    if next[k] != v {
                        let c = choose|c: int| 0 <= c < vars.len() && vars[c] == next[k];
                        assert(vars[c].sound(s.len() as int));
                    }
                }
                lemma_resolve_from(s, ps, bound, known, i + 1, next);
            },
            Err(_) => {},
        }
    }
}

/// The variables of a parsed template have distinct names, are sound, stand
/// in the template byte for byte, and each is bound or nullable; a fault
/// points into the template.
pub proof fn lemma_parse_outcome(s: Seq<u8>, bound: Seq<Seq<char>>, known: Seq<Seq<char>>)
    ensures
        match parse_outcome(s, bound, known) {
            Ok(vars) => {
                &&& distinct(names_of(vars))
                &&& forall|k: int| 0 <= k < vars.len() ==> (#[trigger] vars[k]).sound(s.len() as int)
                &&& forall|k: int| 0 <= k < vars.len() ==> (#[trigger] vars[k]).verbatim(s)
                &&& forall|k: int|
                    0 <= k < vars.len() ==> (#[trigger] vars[k]).nullable || bound.contains(vars[k].name)
            },
            Err(d) => points_into(d, s.len() as int),
        },
{
    lemma_placeholders(s);
    match placeholders(s) {
        Ok(ps) => {
            lemma_resolve_from(s, ps, bound, known, 0, Seq::empty());
        },
        Err(_) => {},
    }
}

/// A template in which no `{{` stands parses to no variable, whatever is
/// bound or registered.
pub proof fn lemma_plain_text_has_no_variables(
    s: Seq<u8>,
    bound: Seq<Seq<char>>,
    known: Seq<Seq<char>>,
)
    requires
        forall|i: int| 0 <= i < s.len() ==> !opens_at(s, i),
    ensures
        parse_outcome(s, bound, known) == Ok::<Seq<VariableModel>, DiagnosticModel>(Seq::empty()),
{
    lemma_plain_text(s);
}

} // verus!
