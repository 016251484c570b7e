//! The template parser: one left-to-right pass over the template bytes that
//! yields literal and variable tokens and the table of referenced names.

use crate::text::bytes_to_string;
use vstd::prelude::*;
use vstd::utf8::{decode_utf8, valid_utf8};

verus! {

/// The byte that introduces a variable reference.
pub const SYMBOL: u8 = 0x24;

/// The byte that, just before the symbol byte, makes it literal text.
pub const ESCAPE: u8 = 0x5c;

/// The byte that must follow the symbol byte.
pub const OPEN: u8 = 0x7b;

/// The byte that ends a variable name.
pub const CLOSE: u8 = 0x7d;

/// Why a template is malformed.
#[derive(Debug, Clone, Copy, PartialEq, Eq, Structural)]
pub enum ParseError {
    /// The symbol byte is followed by something other than the opening brace.
    Unencapsulated,
    /// A reference is not closed before the end of the input.
    Unterminated,
    /// A literal run or a variable name is not well-formed UTF-8.
    InvalidText,
}

/// A piece of a parsed template.
#[derive(Debug, Clone, PartialEq, Eq)]
pub enum Token {
    /// Text copied to the output as it stands.
    Str(String),
    /// A reference to the symbol at this index.
    Var(usize),
}

/// What a token stands for.
pub enum TokenModel {
    Str(Seq<char>),
    Var(nat),
}

impl View for Token {
    type V = TokenModel;

    open spec fn view(&self) -> TokenModel {
        match self {
            Token::Str(s) => TokenModel::Str(s@),
            Token::Var(i) => TokenModel::Var(*i as nat),
        }
    }
}

/// A parsed template: its tokens in order, and the names that its variable
/// tokens refer to by index.
pub struct TemplateModel {
    pub tokens: Seq<TokenModel>,
    pub symbols: Seq<Seq<char>>,
}

pub open spec fn tokens_model(t: Seq<Token>) -> Seq<TokenModel> {
    t.map_values(|x: Token| x@)
}

pub open spec fn strings_model(s: Seq<String>) -> Seq<Seq<char>> {
    s.map_values(|x: String| x@)
}

/// Every variable token refers to an entry of the symbol table.
pub open spec fn refs_valid(m: TemplateModel) -> bool {
    forall|i: int|
        0 <= i < m.tokens.len() ==> (#[trigger] m.tokens[i] matches TokenModel::Var(k) ==> k
            < m.symbols.len())
}

/// The first position at or after `from` that holds `b`, or the length of
/// `s` when there is none.
pub open spec fn next_index(s: Seq<u8>, from: nat, b: u8) -> nat
    decreases s.len() - from,
{
    if from >= s.len() {
        s.len()
    } else if s[from as int] == b {
        from
    } else {
        next_index(s, from + 1, b)
    }
}

pub proof fn lemma_next_index(s: Seq<u8>, from: nat, b: u8)
    requires
        from <= s.len(),
    ensures
        from <= next_index(s, from, b) <= s.len(),
        next_index(s, from, b) < s.len() ==> s[next_index(s, from, b) as int] == b,
        forall|j: int| from <= j < next_index(s, from, b) ==> s[j] != b,
    decreases s.len() - from,
{
    if from < s.len() && s[from as int] != b {
        lemma_next_index(s, from + 1, b);
    }
}

/// The template that ends with the literal run `chunk`.
pub open spec fn literal_end(chunk: Seq<u8>) -> Result<TemplateModel, ParseError> {
    if valid_utf8(chunk) {
        Ok(TemplateModel { tokens: seq![TokenModel::Str(decode_utf8(chunk))], symbols: seq![] })
    } else {
        Err(ParseError::InvalidText)
    }
}

/// The rest of the parse from position `pos`, where `lit` is the literal text
/// gathered since the last token and `n` is the number of symbols so far.
pub open spec fn scan(s: Seq<u8>, pos: nat, lit: Seq<u8>, n: nat, sym: u8, esc: u8) -> Result<
    TemplateModel,
    ParseError,
>
    decreases s.len() - pos,
{
    if pos >= s.len() {
        literal_end(lit)
    } else {
        let k = next_index(s, pos, sym);
        let chunk = lit + s.subrange(pos as int, k as int);
        if k >= s.len() {
            literal_end(chunk)
        } else if chunk.len() > 0 && chunk.last() == esc {
            proof {
                lemma_next_index(s, pos, sym);
            }
            scan(s, k + 1, chunk.drop_last().push(sym), n, sym, esc)
        } else if !valid_utf8(chunk) {
            Err(ParseError::InvalidText)
        } else {
            match name_model(s, k) {
                Err(err) => Err(err),
                Ok((name, next)) => {
                    proof {
                        lemma_next_index(s, pos, sym);
                        lemma_name_model(s, k);
                    }
                    match scan(s, next, seq![], n + 1, sym, esc) {
                        Ok(rest) => Ok(
                            TemplateModel {
                                tokens: seq![
                                    TokenModel::Str(decode_utf8(chunk)),
                                    TokenModel::Var(n),
                                ] + rest.tokens,
                                symbols: seq![name] + rest.symbols,
                            },
                        ),
                        Err(err) => Err(err),
                    }
                },
            }
        }
    }
}

/// The variable name whose symbol byte is at `k`: `{`, then the name up to
/// the first `}`. The name's text and the position after the `}`.
pub open spec fn name_model(s: Seq<u8>, k: nat) -> Result<(Seq<char>, nat), ParseError> {
    let e = next_index(s, k + 2, CLOSE);
    let name = s.subrange(k + 2 as int, e as int);
    if k + 1 >= s.len() {
        Err(ParseError::Unterminated)
    } else if s[k + 1 as int] != OPEN {
        Err(ParseError::Unencapsulated)
    } else if e >= s.len() {
        Err(ParseError::Unterminated)
    } else if !valid_utf8(name) {
        Err(ParseError::InvalidText)
    } else {
        Ok((decode_utf8(name), e + 1))
    }
}

pub proof fn lemma_name_model(s: Seq<u8>, k: nat)
    ensures
        name_model(s, k) matches Ok((_, next)) ==> k + 2 < next <= s.len(),
{
    if k + 2 <= s.len() {
        lemma_next_index(s, k + 2, CLOSE);
    }
}

/// The template that `s` denotes, with `sym` as the symbol byte and `esc` as
/// the escape byte.
pub open spec fn parse_model(s: Seq<u8>, sym: u8, esc: u8) -> Result<TemplateModel, ParseError> {
    if s.len() == 0 {
        Ok(TemplateModel { tokens: seq![], symbols: seq![] })
    } else {
        scan(s, 0, seq![], 0, sym, esc)
    }
}

/// The template that `s` denotes with the default symbol and escape bytes.
pub open spec fn template_model(s: Seq<u8>) -> Result<TemplateModel, ParseError> {
    parse_model(s, SYMBOL, ESCAPE)
}

/// `r` once tokens and symbols that come before it are put in front.
spec fn prepend(
    tokens: Seq<TokenModel>,
    symbols: Seq<Seq<char>>,
    r: Result<TemplateModel, ParseError>,
) -> Result<TemplateModel, ParseError> {
    match r {
        Ok(m) => Ok(TemplateModel { tokens: tokens + m.tokens, symbols: symbols + m.symbols }),
        Err(e) => Err(e),
    }
}

impl Token {
    /// A literal token holding the UTF-8 text of `bytes`.
    pub fn from_bytes(bytes: &[u8]) -> (r: Result<Token, ParseError>)
        ensures
            r is Ok <==> valid_utf8(bytes@),
            r matches Ok(t) ==> t@ == TokenModel::Str(decode_utf8(bytes@)),
            r matches Err(e) ==> e == ParseError::InvalidText,
    {
        match bytes_to_string(bytes) {
            Ok(s) => Ok(Token::Str(s)),
            Err(_) => Err(ParseError::InvalidText),
        }
    }
}

/// The names that a template refers to, in order of reference.
pub struct Symbols(Vec<String>);

impl View for Symbols {
    type V = Seq<Seq<char>>;

    closed spec fn view(&self) -> Seq<Seq<char>> {
        strings_model(self.0@)
    }
}

impl Symbols {
    pub fn names(&self) -> (r: &Vec<String>)
        ensures
            strings_model(r@) == self@,
    {
        &self.0
    }
}

/// A parsed template.
pub struct ConcreteTemplate {
    tokens: Vec<Token>,
    symbols: Symbols,
}

impl View for ConcreteTemplate {
    type V = TemplateModel;

    closed spec fn view(&self) -> TemplateModel {
        TemplateModel { tokens: tokens_model(self.tokens@), symbols: self.symbols@ }
    }
}

/// Read access to the parts of a parsed template.
pub trait TemplateTrait: View<V = TemplateModel> {
    fn tokens(&self) -> (r: &Vec<Token>)
        ensures
            tokens_model(r@) == self@.tokens,
    ;

    fn symbols(&self) -> (r: &Vec<String>)
        ensures
            strings_model(r@) == self@.symbols,
    ;
}

impl TemplateTrait for ConcreteTemplate {
    fn tokens(&self) -> (r: &Vec<Token>) {
        &self.tokens
    }

    fn symbols(&self) -> (r: &Vec<String>) {
        self.symbols.names()
    }
}

/// A template parsed from a byte stream.
pub struct BufReadTemplate(ConcreteTemplate);

impl View for BufReadTemplate {
    type V = TemplateModel;

    closed spec fn view(&self) -> TemplateModel {
        self.0@
    }
}

impl BufReadTemplate {
    /// Parses `read` with the default symbol and escape bytes.
    pub fn new(read: &[u8]) -> (r: Result<Self, ParseError>)
        ensures
            match r {
                Ok(t) => template_model(read@) == Ok::<TemplateModel, ParseError>(t@),
                Err(e) => template_model(read@) == Err::<TemplateModel, ParseError>(e),
            },
    {
        match parse_template(read) {
            Ok(t) => Ok(BufReadTemplate(t)),
            Err(e) => Err(e),
        }
    }
}

impl TemplateTrait for BufReadTemplate {
    fn tokens(&self) -> (r: &Vec<Token>) {
        self.0.tokens()
    }

    fn symbols(&self) -> (r: &Vec<String>) {
        self.0.symbols()
    }
}

/// A parsed template, whichever way it was obtained.
pub enum Template {
    ConcreteTemplate(ConcreteTemplate),
    BufReadTemplate(BufReadTemplate),
}

impl View for Template {
    type V = TemplateModel;

    open spec fn view(&self) -> TemplateModel {
        match self {
            Template::ConcreteTemplate(t) => t@,
            Template::BufReadTemplate(t) => t@,
        }
    }
}

impl TemplateTrait for Template {
    fn tokens(&self) -> (r: &Vec<Token>) {
        match self {
            Template::ConcreteTemplate(t) => t.tokens(),
            Template::BufReadTemplate(t) => t.tokens(),
        }
    }

    fn symbols(&self) -> (r: &Vec<String>) {
        match self {
            Template::ConcreteTemplate(t) => t.symbols(),
            Template::BufReadTemplate(t) => t.symbols(),
        }
    }
}

/// The model of a parse result.
pub open spec fn result_model(r: Result<ConcreteTemplate, ParseError>) -> Result<
    TemplateModel,
    ParseError,
> {
    match r {
        Ok(t) => Ok(t@),
        Err(e) => Err(e),
    }
}

/// Appends to `buf` the bytes of `s` from `from` up to the first `b` (not
/// included) or the end, and returns where it stopped.
fn read_until(s: &[u8], from: usize, b: u8, buf: &mut Vec<u8>) -> (r: usize)
    requires
        from <= s@.len(),
    ensures
        r == next_index(s@, from as nat, b),
        final(buf)@ == old(buf)@ + s@.subrange(from as int, r as int),
{
    let n = s.len();
    let mut pos = from;
    while pos < n && s[pos] != b
        invariant
            n == s@.len(),
            from <= pos <= n,
            buf@ == old(buf)@ + s@.subrange(from as int, pos as int),
            next_index(s@, from as nat, b) == next_index(s@, pos as nat, b),
        decreases n - pos,
    {
        buf.push(s[pos]);
        pos = pos + 1;
        proof {
            assert(buf@ =~= old(buf)@ + s@.subrange(from as int, pos as int));
        }
    }
    pos
}

/// Reads the variable name whose symbol byte is at `at`.
fn var_name(s: &[u8], at: usize) -> (r: Result<(String, usize), ParseError>)
    requires
        at < s@.len(),
    ensures
        match r {
            Ok((name, next)) => name_model(s@, at as nat) == Ok::<(Seq<char>, nat), ParseError>(
                (name@, next as nat),
            ),
            Err(e) => name_model(s@, at as nat) == Err::<(Seq<char>, nat), ParseError>(e),
        },
{
    let n = s.len();
    if at + 1 >= n {
        return Err(ParseError::Unterminated);
    }
    if s[at + 1] != OPEN {
        return Err(ParseError::Unencapsulated);
    }
    let mut name_bytes: Vec<u8> = Vec::new();
    let e = read_until(s, at + 2, CLOSE, &mut name_bytes);
    if e >= n {
        return Err(ParseError::Unterminated);
    }
    proof {
        assert(name_bytes@ =~= s@.subrange(at + 2, e as int));
    }
    match bytes_to_string(name_bytes.as_slice()) {
        Ok(name) => Ok((name, e + 1)),
        Err(_) => Err(ParseError::InvalidText),
    }
}

/// A parser over a template's bytes, with its symbol and escape bytes.
pub struct TemplateParser<'a> {
    template: &'a [u8],
    sym: u8,
    escape: u8,
}

impl<'a> TemplateParser<'a> {
    pub closed spec fn input(&self) -> Seq<u8> {
        self.template@
    }

    pub closed spec fn symbol(&self) -> u8 {
        self.sym
    }

    pub closed spec fn escape_byte(&self) -> u8 {
        self.escape
    }

    /// A parser of `template`; the symbol and escape bytes default to `$`
    /// and `\`.
    pub fn new(template: &'a [u8], sym: Option<u8>, escape: Option<u8>) -> (r: Self)
        ensures
            r.input() == template@,
            r.symbol() == sym.unwrap_or(SYMBOL),
            r.escape_byte() == escape.unwrap_or(ESCAPE),
    {
        TemplateParser { template, sym: sym.unwrap_or(SYMBOL), escape: escape.unwrap_or(ESCAPE) }
    }

    /// Runs the parse.
    pub fn call(self) -> (r: Result<ConcreteTemplate, ParseError>)
        ensures
            result_model(r) == parse_model(self.input(), self.symbol(), self.escape_byte()),
            r matches Ok(t) ==> refs_valid(t@),
    {
        let s = self.template;
        let sym = self.sym;
        let esc = self.escape;
        let n = s.len();
        let mut tokens: Vec<Token> = Vec::new();
        let mut names: Vec<String> = Vec::new();
        if n == 0 {
            let t = ConcreteTemplate { tokens, symbols: Symbols(names) };
            proof {
                assert(t@.tokens =~= seq![]);
                assert(t@.symbols =~= seq![]);
            }
            return Ok(t);
        }
        let mut pos: usize = 0;
        let mut buf: Vec<u8> = Vec::new();
        proof {
            assert(tokens_model(tokens@) =~= seq![]);
            assert(strings_model(names@) =~= seq![]);
            match scan(s@, 0, seq![], 0, sym, esc) {
                Ok(m) => {
                    assert(seq![] + m.tokens =~= m.tokens);
                    assert(Seq::<Seq<char>>::empty() + m.symbols =~= m.symbols);
                },
                Err(_) => {},
            }
        }
        loop
            invariant
                n == s@.len(),
                n > 0,
                pos <= n,
                s@ == self.input(),
                sym == self.symbol(),
                esc == self.escape_byte(),
                parse_model(s@, sym, esc) == prepend(
                    tokens_model(tokens@),
                    strings_model(names@),
                    scan(s@, pos as nat, buf@, names@.len(), sym, esc),
                ),
                refs_valid(
                    TemplateModel { tokens: tokens_model(tokens@), symbols: strings_model(names@) },
                ),
            decreases n - pos,
        {
            let ghost pos0 = pos as nat;
            let ghost buf0 = buf@;
            pos = read_until(s, pos, sym, &mut buf);
            let ghost k = pos as nat;
            proof {
                if pos0 < n {
                    lemma_next_index(s@, pos0, sym);
                } else {
                    assert(buf@ =~= buf0);
                }
            }
            if pos == n {
                let t = match Token::from_bytes(buf.as_slice()) {
                    Ok(t) => t,
                    Err(e) => return Err(e),
                };
                let ghost tm = tokens_model(tokens@);
                tokens.push(t);
                let r = ConcreteTemplate { tokens, symbols: Symbols(names) };
                proof {
                    assert(tokens_model(tokens@) =~= tm + seq![t@]);
                    assert(strings_model(names@) + seq![] =~= strings_model(names@));
                }
                return Ok(r);
            }
            if buf.len() > 0 && buf[buf.len() - 1] == esc {
                // the symbol byte is escaped: it stays as literal text
                buf.pop();
                buf.push(sym);
                pos = pos + 1;
                proof {
                    let chunk = buf0 + s@.subrange(pos0 as int, k as int);
                    assert(buf@ =~= chunk.drop_last().push(sym));
                }
            } else {
                let lit = match Token::from_bytes(buf.as_slice()) {
                    Ok(t) => t,
                    Err(e) => return Err(e),
                };
                let (name, next) = match var_name(s, pos) {
                    Ok(x) => x,
                    Err(e) => return Err(e),
                };
                let ghost tm = tokens_model(tokens@);
                let ghost sm = strings_model(names@);
                let idx = names.len();
                tokens.push(lit);
                tokens.push(Token::Var(idx));
                names.push(name);
                buf = Vec::new();
                proof {
                    lemma_name_model(s@, k);
                    let chunk = buf0 + s@.subrange(pos0 as int, k as int);
                    let head_t = seq![
                        TokenModel::Str(decode_utf8(chunk)),
                        TokenModel::Var(idx as nat),
                    ];
                    let head_s = seq![name@];
                    assert(tokens_model(tokens@) =~= tm + head_t);
                    assert(strings_model(names@) =~= sm + head_s);
                    match scan(s@, next as nat, seq![], idx as nat + 1, sym, esc) {
                        Ok(rest) => {
                            assert(tm + (head_t + rest.tokens) =~= (tm + head_t) + rest.tokens);
                            assert(sm + (head_s + rest.symbols) =~= (sm + head_s) + rest.symbols);
                        },
                        Err(_) => {},
                    }
                    assert(buf@ =~= seq![]);
                    assert forall|i: int| 0 <= i < tokens_model(tokens@).len() implies (
                    #[trigger] tokens_model(tokens@)[i] matches TokenModel::Var(x) ==> x
                        < strings_model(names@).len()) by {
                        if i < tm.len() {
                            assert(tokens_model(tokens@)[i] == tm[i]);
                        }
                    }
                }
                pos = next;
            }
        }
    }
}

/// Parses `template` with the default symbol and escape bytes.
pub fn parse_template(template: &[u8]) -> (r: Result<ConcreteTemplate, ParseError>)
    ensures
        result_model(r) == template_model(template@),
        r matches Ok(t) ==> refs_valid(t@),
{
    TemplateParser::new(template, None, None).call()
}

} // verus!
