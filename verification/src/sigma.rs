//! The engine: a template with its bindings and functions, parsed into
//! variables and compiled into the final text.

use vstd::prelude::*;
use vstd::string::*;
use crate::data_type::{data_type_named, DataType};
use crate::diagnostic::{
    text_of_option, type_mismatch_diagnostic, unbound_variable_diagnostic,
    unknown_type_diagnostic, Diagnostic, DiagnosticModel,
};
use crate::grammar::{
    lemma_plain_text, opens_at, placeholder_views, placeholders, recognize, Fault, Placeholder,
    PlaceholderModel,
};
use crate::literal::{is_literal, is_literal_of};
use crate::registry::Registry;
use crate::span::Span;
use crate::suggest::{did_you_mean, suggestion, texts};
use crate::text::{lemma_ascii_prefix_boundary, slice_text, text_of};
use crate::transform::{
    is_pure, lemma_pipeline_order, lemma_pipeline_push, run_pipeline, uppercase_of, Function,
    Transform,
};
use crate::variable::{
    laid_out, lemma_occurrences_laid_out, lemma_plain_text_has_no_variables, names_of,
    occurrence_views, occurrences_of, parse_outcome, resolve, resolve_from, stage_fault,
    stage_views, stages_of, store, type_names, variable_views, Occurrence, OccurrenceModel,
    Variable, VariableModel,
};
use vstd::utf8::{
    decode_utf8, encode_utf8, encode_utf8_decode_utf8, encode_utf8_valid_utf8,
    is_char_boundary_iff_not_is_continuation_byte, valid_utf8,
};

verus! {

/// A template with its bindings, its functions and, once parsed, its
/// variables.
#[derive(Debug)]
pub struct Sigma<F> {
    vars: Registry<Variable>,
    occurrences: Vec<Occurrence>,
    registry: Registry<String>,
    input: String,
    is_parsed: bool,
    functions: Registry<Function<F>>,
}

/// The value that the pairs write for the name `key`, the later pair before
/// the earlier, among the first `n` of them; `before` if none does.
pub open spec fn merged_value(
    pairs: Seq<(String, String)>,
    n: int,
    key: Seq<char>,
    before: Option<Seq<char>>,
) -> Option<Seq<char>>
    decreases n,
{
    if n <= 0 || n > pairs.len() {
        before
    } else if pairs[n - 1].0@ == key {
        Some(pairs[n - 1].1@)
    } else {
        merged_value(pairs, n - 1, key, before)
    }
}

/// The names `names` followed by those of the first `n` pairs that are new,
/// in the order in which they first come.
pub open spec fn merged_names(names: Seq<Seq<char>>, pairs: Seq<(String, String)>, n: int) -> Seq<
    Seq<char>,
>
    decreases n,
{
    if n <= 0 || n > pairs.len() {
        names
    } else {
        let head = merged_names(names, pairs, n - 1);
        if head.contains(pairs[n - 1].0@) {
            head
        } else {
            head.push(pairs[n - 1].0@)
        }
    }
}

/// Writes each pair into the table, in order.
pub fn write_all(table: &mut Registry<String>, pairs: &Vec<(String, String)>)
    requires
        old(table).wf(),
    ensures
        final(table).wf(),
        final(table).keys() == merged_names(old(table).keys(), pairs@, pairs@.len() as int),
        forall|k: Seq<char>|
            text_of_option(#[trigger] final(table).lookup(k)) == merged_value(
                pairs@,
                pairs@.len() as int,
                k,
                text_of_option(old(table).lookup(k)),
            ),
{
    let ghost before = *table;
    let mut i: usize = 0;
    while i < pairs.len()
        invariant
            i <= pairs@.len(),
            table.wf(),
            table.keys() == merged_names(before.keys(), pairs@, i as int),
            forall|k: Seq<char>|
                text_of_option(#[trigger] table.lookup(k)) == merged_value(
                    pairs@,
                    i as int,
                    k,
                    text_of_option(before.lookup(k)),
                ),
        decreases pairs@.len() - i,
    {
        let key = pairs[i].0.clone();
        let value = pairs[i].1.clone();
        table.insert(key, value);
        i += 1;
    }
}

/// The names of the types, in the order in which they are tried for a
/// suggestion.
pub fn known_type_names() -> (r: Vec<String>)
    ensures
        texts(r@) == type_names(),
{
    let mut r: Vec<String> = Vec::new();
    r.push(String::from_str("u8"));
    r.push(String::from_str("u16"));
    r.push(String::from_str("u32"));
    r.push(String::from_str("u64"));
    r.push(String::from_str("i8"));
    r.push(String::from_str("i16"));
    r.push(String::from_str("i32"));
    r.push(String::from_str("i64"));
    r.push(String::from_str("f32"));
    r.push(String::from_str("f64"));
    r.push(String::from_str("str"));
    r.push(String::from_str("bool"));
    assert(texts(r@) =~= type_names());
    r
}

impl<F: Fn(String) -> String> Sigma<F> {
    /// The text of the template.
    pub closed spec fn template(&self) -> Seq<char> {
        self.input@
    }

    /// The bindings.
    pub closed spec fn bindings(&self) -> Registry<String> {
        self.registry
    }

    /// The registered functions.
    pub closed spec fn function_table(&self) -> Registry<Function<F>> {
        self.functions
    }

    /// The variables, in the order in which their names first occur.
    pub closed spec fn variables(&self) -> Seq<VariableModel> {
        variable_views(self.vars.values())
    }

    /// The placeholders of the parsed template, left to right: where each
    /// stands and which variable it names.
    pub closed spec fn occurrences(&self) -> Seq<OccurrenceModel> {
        occurrence_views(self.occurrences@)
    }

    /// The template has been parsed.
    pub closed spec fn parsed(&self) -> bool {
        self.is_parsed
    }

    /// The names that have a binding, in the order in which they first came.
    pub open spec fn bound_names(&self) -> Seq<Seq<char>> {
        self.bindings().keys()
    }

    /// The value bound to `name`.
    pub open spec fn bound_value(&self, name: Seq<char>) -> Option<Seq<char>> {
        text_of_option(self.bindings().lookup(name))
    }

    /// The names of the registered functions, in the order in which they
    /// first came.
    pub open spec fn function_names(&self) -> Seq<Seq<char>> {
        self.function_table().keys()
    }

    /// The transform registered under `name`.
    pub open spec fn transform_named(&self, name: Seq<char>) -> Option<Transform<F>> {
        match self.function_table().lookup(name) {
            Some(f) => Some(f.call),
            None => None,
        }
    }

    /// The tables hold no name twice, every function is pure, every variable
    /// stands under its name and names registered functions only; the
    /// occurrences are laid out in the template, and each names a variable.
    pub closed spec fn wf(&self) -> bool {
        &&& laid_out(self.occurrences(), self.template_bytes())
        &&& forall|j: int|
            0 <= j < self.occurrences().len() ==> names_of(self.variables()).contains(
                (#[trigger] self.occurrences()[j]).name,
            )
        &&& self.vars.wf()
        &&& self.registry.wf()
        &&& self.functions.wf()
        &&& forall|i: int|
            0 <= i < self.functions.values().len() ==> (#[trigger] self.functions.values()[i]).call.pure()
        &&& self.vars.keys() == names_of(self.variables())
        &&& forall|i: int|
            0 <= i < self.variables().len() ==> self.names_known(#[trigger] self.variables()[i])
    }

    /// The variable names registered functions only.
    pub open spec fn names_known(&self, v: VariableModel) -> bool {
        forall|j: int|
            0 <= j < v.functions.len() ==> self.function_names().contains(
                (#[trigger] v.functions[j]).0,
            )
    }

    /// A registered function is pure.
    pub proof fn lemma_registered_is_pure(&self, name: Seq<char>)
        requires
            self.wf(),
            self.function_names().contains(name),
        ensures
            self.transform_named(name) is Some,
            self.transform_named(name)->0.pure(),
    {
        let i = choose|i: int|
            0 <= i < self.functions.keys().len() && self.functions.keys()[i] == name;
        self.functions.lemma_index_of(i);
    }

    /// Creates the engine for a template, with the two functions that are
    /// built in: `UPPERCASE` and `LOWERCASE`.
    pub fn new(input: &str) -> (r: Self)
        ensures
            r.wf(),
            r.template() == input@,
            !r.parsed(),
            r.variables() == Seq::<VariableModel>::empty(),
            r.occurrences() == Seq::<OccurrenceModel>::empty(),
            r.bound_names() == Seq::<Seq<char>>::empty(),
            r.function_names() == seq!["UPPERCASE"@, "LOWERCASE"@],
            r.function_table().lookup("UPPERCASE"@) matches Some(f) && f.call
                == Transform::<F>::Uppercase && f.name@ == uppercase_of("UPPERCASE"@),
            r.function_table().lookup("LOWERCASE"@) matches Some(f) && f.call
                == Transform::<F>::Lowercase && f.name@ == uppercase_of("LOWERCASE"@),
    {
        proof {
            reveal_strlit("UPPERCASE");
            reveal_strlit("LOWERCASE");
            assert("UPPERCASE"@[0] != "LOWERCASE"@[0]);
        }
        let mut functions: Registry<Function<F>> = Registry::new();
        functions.insert(
            String::from_str("UPPERCASE"),
            Function { name: "UPPERCASE".to_uppercase(), call: Transform::Uppercase },
        );
        functions.insert(
            String::from_str("LOWERCASE"),
            Function { name: "LOWERCASE".to_uppercase(), call: Transform::Lowercase },
        );
        let r = Sigma {
            input: String::from_str(input),
            vars: Registry::new(),
            occurrences: Vec::new(),
            functions,
            is_parsed: false,
            registry: Registry::new(),
        };
        proof {
            assert(r.functions.keys() =~= seq!["UPPERCASE"@, "LOWERCASE"@]);
            assert(r.variables() =~= Seq::<VariableModel>::empty());
            assert(r.occurrences() =~= Seq::<OccurrenceModel>::empty());
            assert(r.vars.keys() =~= names_of(r.variables()));
            assert(!Seq::<Seq<char>>::empty().contains("UPPERCASE"@));
        }
        r
    }

    /// Binds the name `key` to `value`: a value that the name had is
    /// replaced.
    pub fn bind(self, key: &str, value: &str) -> (r: Self)
        requires
            self.wf(),
        ensures
            r.wf(),
            r.bound_value(key@) == Some(value@),
            forall|k: Seq<char>| k != key@ ==> r.bound_value(k) == self.bound_value(k),
            r.bound_names() == if self.bound_names().contains(key@) {
                self.bound_names()
            } else {
                self.bound_names().push(key@)
            },
            r.template() == self.template(),
            r.variables() == self.variables(),
            r.occurrences() == self.occurrences(),
            r.parsed() == self.parsed(),
            r.function_table() == self.function_table(),
    {
        let mut r = self;
        r.registry.insert(String::from_str(key), String::from_str(value));
        r
    }

    /// Binds each name of `map` to its value, in order: of two values for one
    /// name the later one stays.
    pub fn bind_map(self, map: Vec<(String, String)>) -> (r: Self)
        requires
            self.wf(),
        ensures
            r.wf(),
            forall|k: Seq<char>|
                #[trigger] r.bound_value(k) == merged_value(
                    map@,
                    map@.len() as int,
                    k,
                    self.bound_value(k),
                ),
            r.bound_names() == merged_names(self.bound_names(), map@, map@.len() as int),
            r.template() == self.template(),
            r.variables() == self.variables(),
            r.occurrences() == self.occurrences(),
            r.parsed() == self.parsed(),
            r.function_table() == self.function_table(),
    {
        let mut r = self;
        write_all(&mut r.registry, &map);
        r
    }

    /// Drops every binding and binds each name of `map` to its value.
    pub fn override_bind(self, map: Vec<(String, String)>) -> (r: Self)
        requires
            self.wf(),
        ensures
            r.wf(),
            forall|k: Seq<char>|
                #[trigger] r.bound_value(k) == merged_value(map@, map@.len() as int, k, None),
            r.bound_names() == merged_names(Seq::empty(), map@, map@.len() as int),
            r.template() == self.template(),
            r.variables() == self.variables(),
            r.occurrences() == self.occurrences(),
            r.parsed() == self.parsed(),
            r.function_table() == self.function_table(),
    {
        let mut r = self;
        let mut table: Registry<String> = Registry::new();
        proof {
            assert forall|k: Seq<char>| table.lookup(k) is None by {
                assert(!table.keys().contains(k));
            }
        }
        write_all(&mut table, &map);
        r.registry = table;
        r
    }

    /// Registers the pure function `func` under the name `func_name`: a
    /// function that the name had is replaced.
    pub fn register_fn(self, func_name: &str, func: F) -> (r: Self)
        requires
            self.wf(),
            is_pure(func),
        ensures
            r.wf(),
            r.function_table().lookup(func_name@) matches Some(f) && f.call == Transform::Custom(
                func,
            ) && f.name@ == uppercase_of(func_name@),
            r.transform_named(func_name@) == Some(Transform::Custom(func)),
            forall|k: Seq<char>|
                k != func_name@ ==> r.function_table().lookup(k) == self.function_table().lookup(k),
            r.function_names() == if self.function_names().contains(func_name@) {
                self.function_names()
            } else {
                self.function_names().push(func_name@)
            },
            r.template() == self.template(),
            r.variables() == self.variables(),
            r.occurrences() == self.occurrences(),
            r.parsed() == self.parsed(),
            r.bindings() == self.bindings(),
    {
        let mut r = self;
        let ghost before = r.functions;
        r.functions.insert(
            String::from_str(func_name),
            Function { name: func_name.to_uppercase(), call: Transform::Custom(func) },
        );
        proof {
            assert forall|i: int| 0 <= i < r.variables().len() implies r.names_known(
                #[trigger] r.variables()[i],
            ) by {
                let v = r.variables()[i];
                assert(self.names_known(self.variables()[i]));
                assert forall|j: int| 0 <= j < v.functions.len() implies r.function_names().contains(
                    (#[trigger] v.functions[j]).0,
                ) by {
                    let name = v.functions[j].0;
                    assert(before.keys().contains(name));
                    let c = choose|c: int| 0 <= c < before.keys().len() && before.keys()[c] == name;
                    assert(r.functions.keys()[c] == name);
                }
            }
        }
        r
    }

    /// Resolves the type identifier written at `span` of the template `s`:
    /// an unknown one is a fault there, with the most similar type name as a
    /// suggestion.
    pub fn parse_data_type(&self, s: &[u8], span: Span) -> (r: Result<DataType, Diagnostic>)
        requires
            span.start <= span.end <= s@.len(),
        ensures
            match r {
                Ok(dt) => data_type_named(slice_text(s@, span.start as int, span.end as int))
                    == Some(dt),
                Err(d) => data_type_named(slice_text(s@, span.start as int, span.end as int))
                    is None && d@ == unknown_type_diagnostic(
                    slice_text(s@, span.start as int, span.end as int),
                    suggestion(slice_text(s@, span.start as int, span.end as int), type_names()),
                    span@,
                ),
            },
    {
        let val = text_of(s, span.start, span.end);
        match DataType::named(val.as_str()) {
            Some(dt) => Ok(dt),
            None => {
                let p_vals = known_type_names();
                let matches = did_you_mean(val.as_str(), &p_vals);
                Err(Diagnostic::unknown_type(val.as_str(), &matches, span))
            },
        }
    }

    /// Checks the pipeline of the placeholder `p` of the template `s`, stage
    /// by stage: a stage of a placeholder without a type is a fault at the
    /// name of the variable, a function that is not registered a fault at its
    /// own name, with the most similar registered name as a suggestion.
    pub fn parse_function(&self, s: &[u8], p: &Placeholder) -> (r: Result<
        Vec<(String, Span)>,
        Diagnostic,
    >)
        requires
            self.wf(),
            p@.fits(s@.len() as int),
        ensures
            match r {
                Ok(stages) => stage_fault(s@, p@, self.function_names(), 0) is None && stage_views(
                    stages@,
                ) == stages_of(s@, p@) && forall|j: int|
                    0 <= j < stages@.len() ==> self.function_names().contains(
                        (#[trigger] stages@[j]).0@,
                    ),
                Err(d) => stage_fault(s@, p@, self.function_names(), 0) == Some(d@),
            },
    {
        let mut stages: Vec<(String, Span)> = Vec::new();
        let mut i: usize = 0;
        while i < p.functions.len()
            invariant
                self.wf(),
                p@.fits(s@.len() as int),
                i <= p.functions@.len(),
                stages@.len() == i,
                stage_fault(s@, p@, self.function_names(), 0) == stage_fault(
                    s@,
                    p@,
                    self.function_names(),
                    i as int,
                ),
                forall|j: int|
                    0 <= j < i ==> (#[trigger] stages@[j]).0@ == stages_of(s@, p@)[j].0
                        && stages@[j].1@ == stages_of(s@, p@)[j].1,
                forall|j: int|
                    0 <= j < i ==> self.function_names().contains((#[trigger] stages@[j]).0@),
            decreases p.functions@.len() - i,
        {
            if p.data_type.is_none() {
                return Err(Diagnostic::missing_type(p.name));
            }
            let at = p.functions[i];
            assert(p@.functions[i as int] == at@);
            let function_name = text_of(s, at.start, at.end);
            if !self.functions.contains_key(function_name.as_str()) {
                let names = self.functions.names();
                let matches = did_you_mean(function_name.as_str(), &names);
                return Err(Diagnostic::unknown_function(function_name.as_str(), &matches, at));
            }
            stages.push((function_name, at));
            i += 1;
        }
        assert(stage_views(stages@) =~= stages_of(s@, p@));
        Ok(stages)
    }

    /// Checks the value `data`, which the pipeline of `var` has made, against
    /// the declared type of `var`: a value that is no literal of the type is
    /// a fault at the place where the type is written.
    pub fn validate_data_type(&self, var: &Variable, data: &str) -> (r: Result<(), Diagnostic>)
        ensures
            match var.data_type {
                Some((dt, span)) => if is_literal_of(dt, data@) {
                    r is Ok
                } else {
                    r is Err && r->Err_0@ == type_mismatch_diagnostic(data@, dt, var.name@, span@)
                },
                None => r is Ok,
            },
    {
        match var.data_type {
            Some((dt, span)) => {
                if is_literal(dt, data) {
                    Ok(())
                } else {
                    Err(Diagnostic::type_mismatch(data, dt, var.name.as_str(), span))
                }
            },
            None => Ok(()),
        }
    }

    /// Resolves the placeholder `p` of the template `s` into a variable:
    /// first its type, then its pipeline, then its binding. A `:` without a
    /// type is a fault at the name, and so is a name that is not bound
    /// unless the variable is nullable.
    pub fn parse_var_pair(&self, s: &[u8], p: &Placeholder) -> (r: Result<Variable, Diagnostic>)
        requires
            self.wf(),
            p@.fits(s@.len() as int),
        ensures
            match r {
                Ok(v) => resolve(s@, p@, self.bound_names(), self.function_names()) == Ok::<
                    VariableModel,
                    DiagnosticModel,
                >(v@) && self.names_known(v@),
                Err(d) => resolve(s@, p@, self.bound_names(), self.function_names()) == Err::<
                    VariableModel,
                    DiagnosticModel,
                >(d@),
            },
    {
        let data_type = match p.data_type {
            Some(at) => match self.parse_data_type(s, at) {
                Ok(dt) => Some((dt, at)),
                Err(d) => {
                    return Err(d);
                },
            },
            None => {
                if p.typed {
                    return Err(Diagnostic::missing_type(p.name));
                }
                None
            },
        };
        let functions = match self.parse_function(s, p) {
            Ok(stages) => stages,
            Err(d) => {
                return Err(d);
            },
        };
        let name = text_of(s, p.name.start, p.name.end);
        if !self.registry.contains_key(name.as_str()) && !p.nullable {
            let keys = self.registry.names();
            let matches = did_you_mean(name.as_str(), &keys);
            return Err(Diagnostic::unbound_variable(name.as_str(), &matches, p.name));
        }
        let pair_str = text_of(s, p.span.start, p.span.end);
        Ok(
            Variable {
                name,
                nullable: p.nullable,
                typed: p.typed,
                data_type,
                location: (p.span.start, p.span.end),
                functions,
                name_span: p.name,
                pair_str,
            },
        )
    }

    /// The bytes of the template.
    pub open spec fn template_bytes(&self) -> Seq<u8> {
        encode_utf8(self.template())
    }

    /// Parses the template: finds its placeholders and resolves each against
    /// the bindings and the functions. Gives the engine with its variables
    /// and the occurrences of its placeholders, or the first fault.
    pub fn parse(self) -> (r: Result<Self, Diagnostic>)
        requires
            self.wf(),
        ensures
            match r {
                Ok(parsed) => {
                    &&& parse_outcome(
                        self.template_bytes(),
                        self.bound_names(),
                        self.function_names(),
                    ) == Ok::<Seq<VariableModel>, DiagnosticModel>(parsed.variables())
                    &&& placeholders(self.template_bytes()) is Ok
                    &&& parsed.occurrences() == occurrences_of(
                        self.template_bytes(),
                        placeholders(self.template_bytes())->Ok_0,
                    )
                    &&& parsed.wf()
                    &&& parsed.parsed()
                    &&& parsed.template() == self.template()
                    &&& parsed.bindings() == self.bindings()
                    &&& parsed.function_table() == self.function_table()
                },
                Err(d) => parse_outcome(
                    self.template_bytes(),
                    self.bound_names(),
                    self.function_names(),
                ) == Err::<Seq<VariableModel>, DiagnosticModel>(d@),
            },
    {
        let mut r = self;
        let found = recognize(r.input.as_str().as_bytes());
        let ps = match found {
            Ok(ps) => ps,
            Err(e) => {
                return Err(Diagnostic::syntax(e, r.input.as_str().as_bytes().len()));
            },
        };
        let ghost s = self.template_bytes();
        let ghost views = placeholder_views(ps@);
        let ghost bound = self.bound_names();
        let ghost known = self.function_names();
        let mut vars: Registry<Variable> = Registry::new();
        let mut occurrences: Vec<Occurrence> = Vec::new();
        let mut i: usize = 0;
        assert(variable_views(vars.values()) =~= Seq::<VariableModel>::empty());
        assert(vars.keys() =~= names_of(variable_views(vars.values())));
        while i < ps.len()
            invariant
                r == self,
                self.wf(),
                s == self.template_bytes(),
                views == placeholder_views(ps@),
                placeholders(s) == Ok::<Seq<PlaceholderModel>, (Fault, int)>(views),
                bound == self.bound_names(),
                known == self.function_names(),
                i <= ps@.len(),
                forall|k: int| 0 <= k < ps@.len() ==> (#[trigger] ps@[k])@.fits(s.len() as int),
                vars.wf(),
                vars.keys() == names_of(variable_views(vars.values())),
                forall|k: int|
                    0 <= k < vars.values().len() ==> self.names_known(
                        (#[trigger] vars.values()[k])@,
                    ),
                resolve_from(s, views, bound, known, 0, Seq::empty()) == resolve_from(
                    s,
                    views,
                    bound,
                    known,
                    i as int,
                    variable_views(vars.values()),
                ),
                occurrences@.len() == i,
                forall|k: int|
                    0 <= k < i ==> (#[trigger] occurrences@[k])@ == occurrences_of(s, views)[k],
                forall|k: int| 0 <= k < i ==> vars.keys().contains((#[trigger] occurrences@[k]).name@),
            decreases ps@.len() - i,
        {
            let bytes = r.input.as_str().as_bytes();
            assert(views[i as int] == ps@[i as int]@);
            match r.parse_var_pair(bytes, &ps[i]) {
                Ok(v) => {
                    let ghost before = vars;
                    let ghost model = v@;
                    let occurrence = Occurrence { span: ps[i].span, name: v.name.clone() };
                    vars.insert(v.name.clone(), v);
                    proof {
                        let old_models = variable_views(before.values());
                        let new_models = variable_views(vars.values());
                        if before.keys().contains(model.name) {
                            let idx = before.index_of(model.name)->0;
                            let c = choose|c: int|
                                0 <= c < old_models.len() && old_models[c].name == model.name;
                            assert(before.keys()[idx] == model.name);
                            assert(old_models[idx].name == model.name);
                            assert(before.keys()[c] == old_models[c].name);
                            if c != idx {
                                assert(before.keys()[c] != before.keys()[idx]);
                            }
                            assert(new_models =~= old_models.update(idx, model));
                        } else {
                            assert(new_models =~= old_models.push(model));
                        }
                        assert(new_models == store(old_models, model));
                        assert(vars.keys() =~= names_of(new_models));
                        assert forall|k: int| 0 <= k < i implies vars.keys().contains(
                            (#[trigger] occurrences@[k]).name@,
                        ) by {
                            let name = occurrences@[k].name@;
                            let c = choose|c: int|
                                0 <= c < before.keys().len() && before.keys()[c] == name;
                            assert(vars.keys()[c] == name);
                        }
                        assert(vars.lookup(model.name) is Some);
                        assert(vars.keys().contains(model.name));
                    }
                    occurrences.push(occurrence);
                },
                Err(d) => {
                    return Err(d);
                },
            }
            i += 1;
        }
        proof {
            lemma_occurrences_laid_out(s);
            assert(occurrence_views(occurrences@) =~= occurrences_of(s, views));
        }
        r.vars = vars;
        r.occurrences = occurrences;
        r.is_parsed = true;
        Ok(r)
    }

    /// The transforms of the pipeline of `v`, in the order in which the
    /// placeholder names them.
    pub open spec fn pipeline_of(&self, v: VariableModel) -> Seq<Transform<F>> {
        Seq::new(v.functions.len(), |j: int| self.transform_named(v.functions[j].0)->0)
    }

    /// The text that takes the place of the placeholders of the variable
    /// `v`. With a binding it is what the pipeline makes of the bound value,
    /// and must be a literal of the declared type. Without one it is empty
    /// for a nullable variable, and a fault at the name for any other.
    pub open spec fn value_of(&self, v: VariableModel) -> Result<Seq<char>, DiagnosticModel> {
        match self.bound_value(v.name) {
            Some(value) => {
                let made = run_pipeline(self.pipeline_of(v), value);
                match v.data_type {
                    Some((dt, at)) => if is_literal_of(dt, made) {
                        Ok(made)
                    } else {
                        Err(type_mismatch_diagnostic(made, dt, v.name, at))
                    },
                    None => Ok(made),
                }
            },
            None => if v.nullable {
                Ok(Seq::empty())
            } else {
                Err(
                    unbound_variable_diagnostic(
                        v.name,
                        suggestion(v.name, self.bound_names()),
                        v.name_span,
                    ),
                )
            },
        }
    }

    /// The fault of the first variable from the `i`-th on that has one.
    pub open spec fn first_fault(&self, i: int) -> Option<DiagnosticModel>
        decreases self.variables().len() - i,
    {
        if i < 0 || i >= self.variables().len() {
            None
        } else {
            match self.value_of(self.variables()[i]) {
                Err(d) => Some(d),
                Ok(_) => self.first_fault(i + 1),
            }
        }
    }

    /// The variable of the name `name`.
    pub open spec fn variable_named(&self, name: Seq<char>) -> VariableModel {
        self.variables()[choose|i: int|
            0 <= i < self.variables().len() && self.variables()[i].name == name]
    }

    /// The text that takes the place of a placeholder that names `name`.
    pub open spec fn text_for(&self, name: Seq<char>) -> Seq<char> {
        match self.value_of(self.variable_named(name)) {
            Ok(text) => text,
            Err(_) => Seq::empty(),
        }
    }

    /// The template from the byte offset `pos` on, with each occurrence from
    /// the `i`-th on replaced by the text for its name: what stands between
    /// the occurrences, and behind the last, is the text that the bytes there
    /// encode.
    pub open spec fn assembled(&self, i: int, pos: int) -> Seq<char>
        decreases self.occurrences().len() - i,
    {
        let s = self.template_bytes();
        if i < 0 || i >= self.occurrences().len() {
            decode_utf8(s.subrange(pos, s.len() as int))
        } else {
            let o = self.occurrences()[i];
            decode_utf8(s.subrange(pos, o.span.0)) + self.text_for(o.name) + self.assembled(
                i + 1,
                o.span.1,
            )
        }
    }

    /// The final text: the template with every occurrence of a placeholder
    /// replaced, in place, by the text for its name; or the first fault of a
    /// variable.
    pub open spec fn compiled(&self) -> Result<Seq<char>, DiagnosticModel> {
        match self.first_fault(0) {
            Some(d) => Err(d),
            None => Ok(self.assembled(0, 0)),
        }
    }

    /// Runs the pipeline of `var` on `value`.
    pub fn run_stages(&self, var: &Variable, value: &String) -> (r: String)
        requires
            self.wf(),
            self.names_known(var@),
        ensures
            r@ == run_pipeline(self.pipeline_of(var@), value@),
    {
        let ghost stages = self.pipeline_of(var@);
        let mut current_data = value.clone();
        let mut j: usize = 0;
        assert(stages.take(0) =~= Seq::<Transform<F>>::empty());
        while j < var.functions.len()
            invariant
                self.wf(),
                self.names_known(var@),
                stages == self.pipeline_of(var@),
                j <= var.functions@.len(),
                current_data@ == run_pipeline(stages.take(j as int), value@),
            decreases var.functions@.len() - j,
        {
            let ghost name = var.functions@[j as int].0@;
            proof {
                assert(var@.functions[j as int].0 == name);
                self.lemma_registered_is_pure(name);
            }
            match self.functions.get(var.functions[j].0.as_str()) {
                Some(f) => {
                    proof {
                        lemma_pipeline_push(stages.take(j as int), f.call, value@);
                        assert(stages.take(j as int).push(f.call) =~= stages.take(j + 1));
                    }
                    current_data = f.call.apply(current_data);
                },
                None => {
                    proof {
                        assert(false);
                    }
                },
            }
            j += 1;
        }
        assert(stages.take(j as int) =~= stages);
        current_data
    }

    /// Works out the text for the variable `var`: runs its pipeline on the
    /// bound value and checks the result against the declared type.
    pub fn evaluate(&self, var: &Variable) -> (r: Result<String, Diagnostic>)
        requires
            self.wf(),
            self.names_known(var@),
        ensures
            match r {
                Ok(text) => self.value_of(var@) == Ok::<Seq<char>, DiagnosticModel>(text@),
                Err(d) => self.value_of(var@) == Err::<Seq<char>, DiagnosticModel>(d@),
            },
    {
        match self.registry.get(var.name.as_str()) {
            Some(value) => {
                let current_data = self.run_stages(var, value);
                match self.validate_data_type(var, current_data.as_str()) {
                    Ok(_) => Ok(current_data),
                    Err(d) => Err(d),
                }
            },
            None => {
                if var.nullable {
                    Ok(String::new())
                } else {
                    let keys = self.registry.names();
                    let matches = did_you_mean(var.name.as_str(), &keys);
                    Err(Diagnostic::unbound_variable(var.name.as_str(), &matches, var.name_span))
                }
            },
        }
    }

    /// Works out the text for every variable, in order, up to the first
    /// fault.
    pub fn evaluate_all(&self) -> (r: Result<Vec<String>, Diagnostic>)
        requires
            self.wf(),
        ensures
            match r {
                Ok(texts) => self.first_fault(0) is None && texts@.len()
                    == self.variables().len() && forall|k: int|
                    0 <= k < texts@.len() ==> self.value_of(self.variables()[k]) == Ok::<
                        Seq<char>,
                        DiagnosticModel,
                    >((#[trigger] texts@[k])@),
                Err(d) => self.first_fault(0) == Some(d@),
            },
    {
        let mut values: Vec<String> = Vec::new();
        let mut i: usize = 0;
        while i < self.vars.len()
            invariant
                self.wf(),
                i <= self.variables().len(),
                self.variables().len() == self.vars.values().len(),
                values@.len() == i,
                self.first_fault(0) == self.first_fault(i as int),
                forall|k: int|
                    0 <= k < i ==> self.value_of(self.variables()[k]) == Ok::<
                        Seq<char>,
                        DiagnosticModel,
                    >((#[trigger] values@[k])@),
            decreases self.variables().len() - i,
        {
            let var = self.vars.value_at(i);
            assert(self.variables()[i as int] == var@);
            assert(self.names_known(self.variables()[i as int]));
            match self.evaluate(var) {
                Ok(text) => {
                    values.push(text);
                },
                Err(d) => {
                    return Err(d);
                },
            }
            i += 1;
        }
        Ok(values)
    }

    /// Compiles the parsed template: works out the text for every variable,
    /// then copies the template in one pass, with the text for its variable
    /// in the place of each placeholder. A text put in is not read again.
    pub fn compile(self) -> (r: Result<String, Diagnostic>)
        requires
            self.wf(),
            self.parsed(),
        ensures
            match r {
                Ok(out) => self.compiled() == Ok::<Seq<char>, DiagnosticModel>(out@),
                Err(d) => self.compiled() == Err::<Seq<char>, DiagnosticModel>(d@),
            },
    {
        let values = match self.evaluate_all() {
            Ok(values) => values,
            Err(d) => {
                return Err(d);
            },
        };
        let ghost s = self.template_bytes();
        let mut output = String::new();
        let mut rest: &str = self.input.as_str();
        let mut pos: usize = 0;
        let mut j: usize = 0;
        proof {
            encode_utf8_valid_utf8(self.template());
            assert(s.subrange(0, s.len() as int) =~= s);
        }
        while j < self.occurrences.len()
            invariant
                self.wf(),
                s == self.template_bytes(),
                valid_utf8(s),
                j <= self.occurrences@.len(),
                self.occurrences().len() == self.occurrences@.len(),
                pos <= s.len(),
                forall|k: int|
                    j <= k < self.occurrences().len() ==> pos <= (
                    #[trigger] self.occurrences()[k]).span.0,
                rest.spec_bytes() == s.subrange(pos as int, s.len() as int),
                values@.len() == self.variables().len(),
                forall|k: int|
                    0 <= k < values@.len() ==> self.value_of(self.variables()[k]) == Ok::<
                        Seq<char>,
                        DiagnosticModel,
                    >((#[trigger] values@[k])@),
                output@ + self.assembled(j as int, pos as int) == self.assembled(0, 0),
            decreases self.occurrences@.len() - j,
        {
            let occurrence = &self.occurrences[j];
            let ghost o = self.occurrences()[j as int];
            assert(o == occurrence@);
            let start = occurrence.span.start;
            let end = occurrence.span.end;
            proof {
                let r0 = rest.spec_bytes();
                encode_utf8_valid_utf8(rest@);
                assert(r0[start - pos] == s[start as int]);
                is_char_boundary_iff_not_is_continuation_byte(r0, start - pos);
            }
            let (literal, tail) = rest.split_at(start - pos);
            proof {
                let t0 = tail.spec_bytes();
                encode_utf8_valid_utf8(tail@);
                assert(t0 =~= s.subrange(start as int, s.len() as int));
                assert forall|k: int| 0 <= k < end - start implies #[trigger] t0[k] < 128 by {
                    assert(s[start + k] < 128);
                }
                lemma_ascii_prefix_boundary(t0, end - start);
            }
            let (_, after) = tail.split_at(end - start);
            let found = self.vars.find(occurrence.name.as_str());
            proof {
                assert(literal.spec_bytes() =~= s.subrange(pos as int, start as int));
                encode_utf8_decode_utf8(literal@);
                assert(after.spec_bytes() =~= s.subrange(end as int, s.len() as int));
                assert(names_of(self.variables()).contains(o.name));
            }
            output.append(literal);
            match found {
                Some(at) => {
                    proof {
                        self.lemma_variable_named(at as int);
                    }
                    output.append(values[at].as_str());
                },
                None => {
                    proof {
                        assert(false);
                    }
                },
            }
            proof {
                assert(self.assembled(j as int, pos as int) == literal@ + self.text_for(o.name)
                    + self.assembled(j + 1, end as int));
                assert forall|k: int| j + 1 <= k < self.occurrences().len() implies (end as int)
                    <= (#[trigger] self.occurrences()[k]).span.0 by {
                    assert(self.occurrences()[j as int].span.1 <= self.occurrences()[k].span.0);
                }
            }
            rest = after;
            pos = end;
            j += 1;
        }
        proof {
            encode_utf8_decode_utf8(rest@);
        }
        output.append(rest);
        Ok(output)
    }

    /// In an engine that is well formed, the variable at a place is the one
    /// that its name stands for.
    pub proof fn lemma_variable_named(&self, i: int)
        requires
            self.wf(),
            0 <= i < self.variables().len(),
        ensures
            self.variable_named(self.variables()[i].name) == self.variables()[i],
    {
        let name = self.variables()[i].name;
        let c = choose|c: int| 0 <= c < self.variables().len() && self.variables()[c].name == name;
        assert(self.vars.keys()[i] == name);
        assert(self.vars.keys()[c] == name);
        if c < i {
            assert(self.vars.keys()[c] != self.vars.keys()[i]);
        } else if i < c {
            assert(self.vars.keys()[i] != self.vars.keys()[c]);
        }
    }

    /// A template in which no `{{` stands compiles to itself: parsing it
    /// finds no placeholder, and compiling it then gives the text as it is.
    pub proof fn lemma_literal_text(&self, parsed: Self)
        requires
            forall|i: int| 0 <= i < self.template_bytes().len() ==> !opens_at(self.template_bytes(), i),
            parsed.template() == self.template(),
            parse_outcome(self.template_bytes(), self.bound_names(), self.function_names()) == Ok::<
                Seq<VariableModel>,
                DiagnosticModel,
            >(parsed.variables()),
            parsed.occurrences() == occurrences_of(
                self.template_bytes(),
                placeholders(self.template_bytes())->Ok_0,
            ),
        ensures
            parsed.variables().len() == 0,
            parsed.occurrences().len() == 0,
            parsed.compiled() == Ok::<Seq<char>, DiagnosticModel>(self.template()),
    {
        let s = self.template_bytes();
        lemma_plain_text_has_no_variables(s, self.bound_names(), self.function_names());
        lemma_plain_text(s);
        assert(s.subrange(0, s.len() as int) =~= s);
        encode_utf8_decode_utf8(self.template());
    }

    /// A variable whose pipeline names two functions takes the text that the
    /// second makes of what the first made of the bound value, if that text
    /// is a literal of the declared type.
    pub proof fn lemma_two_stages(
        &self,
        v: VariableModel,
        value: Seq<char>,
        first: Transform<F>,
        second: Transform<F>,
    )
        requires
            v.functions.len() == 2,
            self.bound_value(v.name) == Some(value),
            self.transform_named(v.functions[0].0) == Some(first),
            self.transform_named(v.functions[1].0) == Some(second),
            v.data_type matches Some((dt, _)) ==> is_literal_of(
                dt,
                second.image(first.image(value)),
            ),
        ensures
            self.value_of(v) == Ok::<Seq<char>, DiagnosticModel>(
                second.image(first.image(value)),
            ),
    {
        assert(self.pipeline_of(v) =~= seq![first, second]);
        lemma_pipeline_order(first, second, value);
    }

    /// A nullable variable without a binding leaves nothing in the place of
    /// its placeholders, whatever its type and its pipeline.
    pub proof fn lemma_nullable_unbound(&self, v: VariableModel)
        requires
            v.nullable,
            self.bound_value(v.name) is None,
        ensures
            self.value_of(v) == Ok::<Seq<char>, DiagnosticModel>(Seq::empty()),
    {
    }
}

} // verus!
