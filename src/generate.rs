//! The generator: validation of every referenced name against the variable
//! source, then substitution of the tokens in order.

use crate::error_handling::{res_err, res_ok, Warning};
use crate::template::{
    lemma_next_index, literal_end, parse_template, strings_model, template_model,
    tokens_model, ParseError, Template, TemplateModel, TemplateTrait, Token, TokenModel, SYMBOL,
};
use crate::variables::{resolve, DefnError, VariableMap, VariableTrait};
use vstd::prelude::*;
use vstd::utf8::{decode_utf8, valid_utf8};

verus! {

/// A variable token whose text could not be substituted.
#[derive(Debug, Clone, Copy, PartialEq, Eq, Structural)]
pub enum SubstitutionError {
    /// The token refers past the end of the symbol table.
    IndexOutOfBounds(usize),
    /// The symbol at this index does not resolve to text.
    Unresolved(usize, DefnError),
}

/// Why a generation failed.
#[derive(Debug, Clone, PartialEq, Eq)]
pub enum TemplateError {
    /// The template is malformed.
    Parse(ParseError),
    /// These referenced names have no definition, each named once.
    MissingDefinitions(Vec<String>),
    /// Some tokens could not be substituted: the output without them, and
    /// one failure per such token.
    Substitution(String, Vec<SubstitutionError>),
}

/// What a generation failure stands for.
pub enum ErrorModel {
    Parse(ParseError),
    MissingDefinitions(Seq<Seq<char>>),
    Substitution(Seq<char>, Seq<SubstitutionError>),
}

pub open spec fn error_model(e: TemplateError) -> ErrorModel {
    match e {
        TemplateError::Parse(p) => ErrorModel::Parse(p),
        TemplateError::MissingDefinitions(v) => ErrorModel::MissingDefinitions(strings_model(v@)),
        TemplateError::Substitution(s, v) => ErrorModel::Substitution(s@, v@),
    }
}

pub open spec fn outcome_model(r: Result<String, TemplateError>) -> Result<Seq<char>, ErrorModel> {
    match r {
        Ok(s) => Ok(s@),
        Err(e) => Err(error_model(e)),
    }
}

/// The referenced names that `vars` does not define, in order of first
/// reference, each once.
pub open spec fn undefined_names(
    symbols: Seq<Seq<char>>,
    vars: Map<Seq<char>, Option<Seq<char>>>,
) -> Seq<Seq<char>>
    decreases symbols.len(),
{
    if symbols.len() == 0 {
        seq![]
    } else {
        let prev = undefined_names(symbols.drop_last(), vars);
        let s = symbols.last();
        if !vars.contains_key(s) && !prev.contains(s) {
            prev.push(s)
        } else {
            prev
        }
    }
}

/// The output of substituting `tokens` in order, and the failures met: a
/// literal is copied, a variable is replaced by its text, and a variable
/// without text adds nothing to the output and one failure to the list.
pub open spec fn apply_model(
    tokens: Seq<TokenModel>,
    symbols: Seq<Seq<char>>,
    vars: Map<Seq<char>, Option<Seq<char>>>,
) -> (Seq<char>, Seq<SubstitutionError>)
    decreases tokens.len(),
{
    if tokens.len() == 0 {
        (seq![], seq![])
    } else {
        let (out, errs) = apply_model(tokens.drop_last(), symbols, vars);
        match tokens.last() {
            TokenModel::Str(s) => (out + s, errs),
            TokenModel::Var(k) => if k >= symbols.len() {
                (out, errs.push(SubstitutionError::IndexOutOfBounds(k as usize)))
            } else {
                match resolve(vars, symbols[k as int]) {
                    Ok(t) => (out + t, errs),
                    Err(e) => (out, errs.push(SubstitutionError::Unresolved(k as usize, e))),
                }
            },
        }
    }
}

/// The outcome of generating from template `t` with variables `vars`:
/// missing definitions first, then substitution failures, else the output.
pub open spec fn generation_model(
    t: TemplateModel,
    vars: Map<Seq<char>, Option<Seq<char>>>,
) -> Result<Seq<char>, ErrorModel> {
    let missing = undefined_names(t.symbols, vars);
    let (out, errs) = apply_model(t.tokens, t.symbols, vars);
    if missing.len() > 0 {
        Err(ErrorModel::MissingDefinitions(missing))
    } else if errs.len() > 0 {
        Err(ErrorModel::Substitution(out, errs))
    } else {
        Ok(out)
    }
}

/// The missing names are exactly the referenced names without a
/// definition, and none is named twice.
pub proof fn lemma_undefined_names_complete(
    symbols: Seq<Seq<char>>,
    vars: Map<Seq<char>, Option<Seq<char>>>,
)
    ensures
        forall|n: Seq<char>|
            #[trigger] undefined_names(symbols, vars).contains(n) <==> (symbols.contains(n)
                && !vars.contains_key(n)),
        undefined_names(symbols, vars).no_duplicates(),
    decreases symbols.len(),
{
    if symbols.len() > 0 {
        let init = symbols.drop_last();
        lemma_undefined_names_complete(init, vars);
        let prev = undefined_names(init, vars);
        let last = symbols.last();
        assert(symbols =~= init.push(last));
        assert forall|n: Seq<char>| #[trigger]
            undefined_names(symbols, vars).contains(n) <==> (symbols.contains(n)
                && !vars.contains_key(n)) by {
            if symbols.contains(n) {
                let j = choose|j: int| 0 <= j < symbols.len() && symbols[j] == n;
                if j < init.len() {
                    assert(init[j] == n);
                }
            }
            if init.contains(n) {
                let j = choose|j: int| 0 <= j < init.len() && init[j] == n;
                assert(symbols[j] == n);
            }
            if !vars.contains_key(last) && !prev.contains(last) {
                if prev.push(last).contains(n) && n != last {
                    let j = choose|j: int| 0 <= j < prev.len() + 1 && prev.push(last)[j] == n;
                    assert(prev[j] == n);
                }
                if prev.contains(n) {
                    let j = choose|j: int| 0 <= j < prev.len() && prev[j] == n;
                    assert(prev.push(last)[j] == n);
                }
                assert(prev.push(last)[prev.len() as int] == last);
            }
            assert(symbols[symbols.len() - 1] == last);
        }
    }
}

/// Where every referenced name is defined, no name is missing.
proof fn lemma_all_defined(symbols: Seq<Seq<char>>, vars: Map<Seq<char>, Option<Seq<char>>>)
    requires
        forall|i: int| 0 <= i < symbols.len() ==> vars.contains_key(#[trigger] symbols[i]),
    ensures
        undefined_names(symbols, vars) == Seq::<Seq<char>>::empty(),
    decreases symbols.len(),
{
    if symbols.len() > 0 {
        let init = symbols.drop_last();
        assert forall|i: int| 0 <= i < init.len() implies vars.contains_key(#[trigger] init[i]) by {
            assert(init[i] == symbols[i]);
        }
        lemma_all_defined(init, vars);
        assert(vars.contains_key(symbols[symbols.len() - 1]));
    }
}

/// Substitution reads `vars` only at referenced names.
proof fn lemma_apply_extra_defs(
    tokens: Seq<TokenModel>,
    symbols: Seq<Seq<char>>,
    vars: Map<Seq<char>, Option<Seq<char>>>,
    more: Map<Seq<char>, Option<Seq<char>>>,
)
    requires
        forall|i: int| 0 <= i < symbols.len() ==> vars.contains_key(#[trigger] symbols[i]),
        forall|k: Seq<char>| #[trigger]
            vars.contains_key(k) ==> more.contains_key(k) && more[k] == vars[k],
    ensures
        apply_model(tokens, symbols, vars) == apply_model(tokens, symbols, more),
    decreases tokens.len(),
{
    if tokens.len() > 0 {
        lemma_apply_extra_defs(tokens.drop_last(), symbols, vars, more);
        if let TokenModel::Var(k) = tokens.last() {
            if k < symbols.len() {
                assert(vars.contains_key(symbols[k as int]));
            }
        }
    }
}

/// Definitions that a template does not reference do not change what is
/// generated from it: when every name that `t` references is defined in
/// `vars`, and `more` defines everything that `vars` defines the same way,
/// generating with either gives the same outcome.
pub proof fn lemma_over_definition(
    t: TemplateModel,
    vars: Map<Seq<char>, Option<Seq<char>>>,
    more: Map<Seq<char>, Option<Seq<char>>>,
)
    requires
        forall|i: int| 0 <= i < t.symbols.len() ==> vars.contains_key(#[trigger] t.symbols[i]),
        forall|k: Seq<char>| #[trigger]
            vars.contains_key(k) ==> more.contains_key(k) && more[k] == vars[k],
    ensures
        generation_model(t, vars) == generation_model(t, more),
{
    lemma_all_defined(t.symbols, vars);
    assert forall|i: int| 0 <= i < t.symbols.len() implies more.contains_key(
        #[trigger] t.symbols[i],
    ) by {
        assert(vars.contains_key(t.symbols[i]));
    }
    lemma_all_defined(t.symbols, more);
    lemma_apply_extra_defs(t.tokens, t.symbols, vars, more);
}

/// Text without a symbol byte comes back unchanged: it parses to at most one
/// literal token, and generating it with any variables gives its text.
pub proof fn lemma_no_placeholder_round_trip(
    text: Seq<u8>,
    vars: Map<Seq<char>, Option<Seq<char>>>,
)
    requires
        valid_utf8(text),
        forall|i: int| 0 <= i < text.len() ==> text[i] != SYMBOL,
    ensures
        template_generation(text, vars) == Ok::<Seq<char>, ErrorModel>(decode_utf8(text)),
{
    if text.len() == 0 {
        assert(decode_utf8(text) =~= Seq::<char>::empty());
        let m = template_model(text)->Ok_0;
        assert(apply_model(m.tokens, m.symbols, vars).0 == decode_utf8(text));
    } else {
        lemma_next_index(text, 0, SYMBOL);
        assert(Seq::<u8>::empty() + text.subrange(0, text.len() as int) =~= text);
        assert(template_model(text) == literal_end(text));
        let m = template_model(text)->Ok_0;
        assert(m.tokens.drop_last() =~= Seq::<TokenModel>::empty());
        assert(apply_model(m.tokens.drop_last(), m.symbols, vars).0 =~= Seq::<char>::empty());
        assert(Seq::<char>::empty() + decode_utf8(text) =~= decode_utf8(text));
        assert(undefined_names(m.symbols, vars).len() == 0);
    }
}

/// Whether `names` holds `name`.
fn names_contain(names: &Vec<String>, name: &String) -> (r: bool)
    ensures
        r == strings_model(names@).contains(name@),
{
    let mut i: usize = 0;
    while i < names.len()
        invariant
            i <= names@.len(),
            forall|j: int| 0 <= j < i ==> names@[j]@ != name@,
        decreases names@.len() - i,
    {
        if names[i] == *name {
            proof {
                assert(strings_model(names@)[i as int] == name@);
            }
            return true;
        }
        i = i + 1;
    }
    proof {
        if strings_model(names@).contains(name@) {
            let j = choose|j: int| 0 <= j < names@.len() && strings_model(names@)[j] == name@;
            assert(names@[j]@ == name@);
        }
    }
    false
}

/// The names of `symbols` that `vars` does not define, each once, in order of
/// first reference.
pub fn get_undefined_vars(symbols: &Vec<String>, vars: &VariableMap) -> (r: Vec<String>)
    ensures
        strings_model(r@) == undefined_names(strings_model(symbols@), vars@),
{
    let mut missing: Vec<String> = Vec::new();
    let mut i: usize = 0;
    while i < symbols.len()
        invariant
            i <= symbols@.len(),
            strings_model(missing@) == undefined_names(
                strings_model(symbols@).take(i as int),
                vars@,
            ),
        decreases symbols@.len() - i,
    {
        let s = &symbols[i];
        let ghost prev = strings_model(missing@);
        proof {
            let t = strings_model(symbols@).take(i + 1);
            assert(t.drop_last() =~= strings_model(symbols@).take(i as int));
            assert(t.last() == s@);
        }
        if !vars.defines(s.as_str()) && !names_contain(&missing, s) {
            missing.push(s.clone());
            proof {
                assert(strings_model(missing@) =~= prev.push(s@));
            }
        }
        i = i + 1;
    }
    proof {
        assert(strings_model(symbols@).take(symbols@.len() as int) =~= strings_model(symbols@));
    }
    missing
}

/// The model of a substitution result.
pub open spec fn warning_model(r: Warning<String, Vec<SubstitutionError>>) -> (
    Seq<char>,
    Seq<SubstitutionError>,
) {
    match r {
        Warning::Complete(s) => (s@, seq![]),
        Warning::Partial(s, e) => (s@, e@),
    }
}

/// Substitutes the tokens of `template` in order. A variable token that does
/// not resolve to text is left out and its failure recorded; the result is
/// `Partial` exactly when there is a failure.
pub fn apply<T: TemplateTrait>(template: &T, vars: &VariableMap) -> (r: Warning<
    String,
    Vec<SubstitutionError>,
>)
    ensures
        warning_model(r) == apply_model(template@.tokens, template@.symbols, vars@),
        r is Partial <==> apply_model(template@.tokens, template@.symbols, vars@).1.len() > 0,
{
    let tokens = template.tokens();
    let symbols = template.symbols();
    let ghost tm = tokens_model(tokens@);
    let ghost sm = strings_model(symbols@);
    let mut out = String::new();
    let mut errs: Vec<SubstitutionError> = Vec::new();
    let mut i: usize = 0;
    while i < tokens.len()
        invariant
            i <= tokens@.len(),
            tm == tokens_model(tokens@),
            sm == strings_model(symbols@),
            tm == template@.tokens,
            sm == template@.symbols,
            (out@, errs@) == apply_model(tm.take(i as int), sm, vars@),
        decreases tokens@.len() - i,
    {
        proof {
            assert(tm.take(i + 1).drop_last() =~= tm.take(i as int));
            assert(tm.take(i + 1).last() == tokens@[i as int]@);
        }
        match &tokens[i] {
            Token::Str(s) => {
                out.append(s.as_str());
            },
            Token::Var(idx) => {
                let k = *idx;
                if k >= symbols.len() {
                    errs.push(SubstitutionError::IndexOutOfBounds(k));
                } else {
                    proof {
                        assert(sm[k as int] == symbols@[k as int]@);
                    }
                    let d = vars.get_defn(symbols[k].as_str());
                    match d {
                        Ok(t) => {
                            out.append(t);
                        },
                        Err(e) => {
                            errs.push(SubstitutionError::Unresolved(k, e));
                        },
                    }
                }
            },
        }
        i = i + 1;
    }
    proof {
        assert(tm.take(tokens@.len() as int) =~= tm);
    }
    let failures = if errs.len() == 0 {
        proof {
            assert(errs@ =~= seq![]);
        }
        None
    } else {
        Some(errs)
    };
    Warning::from(out, failures)
}

/// A template together with the variables to generate it with.
pub struct GenerateTemplate<'a> {
    pub template: &'a Template,
    pub variables: &'a VariableMap,
}

impl<'a> GenerateTemplate<'a> {
    /// The referenced names without a definition.
    pub fn undefined_vars(&self) -> (r: Vec<String>)
        ensures
            strings_model(r@) == undefined_names(self.template@.symbols, self.variables@),
    {
        get_undefined_vars(self.template.symbols(), self.variables)
    }

    /// Fails, naming every referenced name without a definition, when there
    /// is one.
    pub fn validate_ref(&self) -> (r: Result<&Self, TemplateError>)
        ensures
            r is Ok <==> undefined_names(self.template@.symbols, self.variables@).len() == 0,
            r matches Ok(g) ==> g == self,
            r matches Err(e) ==> error_model(e) == ErrorModel::MissingDefinitions(
                undefined_names(self.template@.symbols, self.variables@),
            ),
    {
        let undefined = self.undefined_vars();
        if undefined.len() > 0 {
            res_err(TemplateError::MissingDefinitions(undefined))
        } else {
            res_ok(self)
        }
    }

    /// Substitutes the tokens in order, recording the tokens that fail.
    pub fn apply(&self) -> (r: Warning<String, Vec<SubstitutionError>>)
        ensures
            warning_model(r) == apply_model(
                self.template@.tokens,
                self.template@.symbols,
                self.variables@,
            ),
            r is Partial <==> apply_model(
                self.template@.tokens,
                self.template@.symbols,
                self.variables@,
            ).1.len() > 0,
    {
        apply(self.template, self.variables)
    }

    /// Validates, then substitutes: the two phases, with the partial output
    /// and its failures handed back as a warning.
    pub fn dispatch(&self) -> (r: Result<Warning<String, Vec<SubstitutionError>>, TemplateError>)
        ensures
            r is Ok <==> undefined_names(self.template@.symbols, self.variables@).len() == 0,
            r matches Err(e) ==> error_model(e) == ErrorModel::MissingDefinitions(
                undefined_names(self.template@.symbols, self.variables@),
            ),
            r matches Ok(w) ==> warning_model(w) == apply_model(
                self.template@.tokens,
                self.template@.symbols,
                self.variables@,
            ) && (w is Partial <==> apply_model(
                self.template@.tokens,
                self.template@.symbols,
                self.variables@,
            ).1.len() > 0),
    {
        match self.validate_ref() {
            Ok(g) => res_ok(g.apply()),
            Err(e) => res_err(e),
        }
    }

    /// The output text; a substitution failure fails the whole generation.
    pub fn generate(&self) -> (r: Result<String, TemplateError>)
        ensures
            outcome_model(r) == generation_model(self.template@, self.variables@),
    {
        match self.dispatch() {
            Ok(Warning::Complete(s)) => Ok(s),
            Ok(Warning::Partial(s, errs)) => Err(TemplateError::Substitution(s, errs)),
            Err(e) => Err(e),
        }
    }
}

/// The outcome of parsing `template` and generating it with `vars`.
pub open spec fn template_generation(
    template: Seq<u8>,
    vars: Map<Seq<char>, Option<Seq<char>>>,
) -> Result<Seq<char>, ErrorModel> {
    match template_model(template) {
        Ok(t) => generation_model(t, vars),
        Err(e) => Err(ErrorModel::Parse(e)),
    }
}

/// Parses `template` and generates it with `variables`.
pub fn generate_template(template: &[u8], variables: &VariableMap) -> (r: Result<
    String,
    TemplateError,
>)
    ensures
        outcome_model(r) == template_generation(template@, variables@),
{
    match parse_template(template) {
        Ok(t) => {
            let template = Template::ConcreteTemplate(t);
            GenerateTemplate { template: &template, variables }.generate()
        },
        Err(e) => Err(TemplateError::Parse(e)),
    }
}

} // verus!
