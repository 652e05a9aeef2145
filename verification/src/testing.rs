//! Expansion of annotated test functions into asynchronous tests that run in a temporary
//! application context.

use crate::tokens;
use crate::tokens::{
    push_bracketed, push_mark, push_number_literal, push_operator, push_path, push_stream,
    push_string_literal, push_word, Bracketing, Token,
};
use proc_macro2::TokenStream;
use quote::ToTokens;
use syn::parse::Parser;
use syn::punctuated::Punctuated;
use vstd::prelude::*;
use vstd::string::*;

verus! {

/// The parse error of `syn`.
#[verifier::external_type_specification]
#[verifier::external_body]
pub struct ExSynError(syn::Error);

/// A test function: the tokens of its name, of each of its parameters, and of its body.
#[derive(Debug)]
pub struct TestItem {
    pub name: TokenStream,
    pub inputs: Vec<TokenStream>,
    pub body: TokenStream,
}

/// The tokens of a test function's parts.
pub struct TestItemView {
    pub name: Seq<Token>,
    pub inputs: Seq<Seq<Token>>,
    pub body: Seq<Token>,
}

/// The tokens of a list of streams.
pub open spec fn all_tokens(streams: Seq<TokenStream>) -> Seq<Seq<Token>> {
    Seq::new(streams.len(), |i: int| tokens::stream_tokens(streams[i]))
}

impl View for TestItem {
    type V = TestItemView;

    open spec fn view(&self) -> TestItemView {
        TestItemView {
            name: tokens::stream_tokens(self.name),
            inputs: all_tokens(self.inputs@),
            body: tokens::stream_tokens(self.body),
        }
    }
}

/// An element of an attribute's argument list.
#[derive(Debug)]
pub enum TestMeta {
    /// `name = value`. The name is missing where the path in its place is not a single
    /// identifier, the literal where the value is not one.
    NameValue {
        tokens: TokenStream,
        name: Option<String>,
        value: TokenStream,
        literal: Option<TokenStream>,
    },
    /// Anything else.
    Other { tokens: TokenStream },
}

/// The texts and tokens of an attribute's element.
pub enum TestMetaView {
    NameValue {
        tokens: Seq<Token>,
        name: Option<Seq<char>>,
        value: Seq<Token>,
        literal: Option<Seq<Token>>,
    },
    Other { tokens: Seq<Token> },
}

/// The text of a name, if there is one.
pub open spec fn name_view(name: Option<String>) -> Option<Seq<char>> {
    match name {
        Some(name) => Some(name@),
        None => None,
    }
}

impl View for TestMeta {
    type V = TestMetaView;

    open spec fn view(&self) -> TestMetaView {
        match *self {
            TestMeta::NameValue { tokens, name, value, literal } => TestMetaView::NameValue {
                tokens: tokens::stream_tokens(tokens),
                name: name_view(name),
                value: tokens::stream_tokens(value),
                literal: match literal {
                    Some(literal) => Some(tokens::stream_tokens(literal)),
                    None => None,
                },
            },
            TestMeta::Other { tokens } => TestMetaView::Other {
                tokens: tokens::stream_tokens(tokens),
            },
        }
    }
}

/// The views of a list of elements.
pub open spec fn meta_views(metas: Seq<TestMeta>) -> Seq<TestMetaView> {
    Seq::new(metas.len(), |i: int| metas[i]@)
}

/// The function that the tokens of an item define, if they define one.
pub uninterp spec fn parsed_function(item: Seq<Token>) -> Option<TestItemView>;

/// The elements of the comma-separated argument list that the tokens of an attribute form, if
/// they form one.
pub uninterp spec fn parsed_attribute(attr: Seq<Token>) -> Option<Seq<TestMetaView>>;

/// The lower case of a text.
pub uninterp spec fn lower_case(s: Seq<char>) -> Seq<char>;

/// The lower case of an ASCII character.
pub open spec fn ascii_lower_case(c: char) -> char {
    if 'A' <= c && c <= 'Z' {
        (c as u8 + 32) as char
    } else {
        c
    }
}

/// Parses a function item by `syn::parse2::<syn::ItemFn>` and takes the tokens of its parts.
/// Whether it succeeds, and with which parts, is a function of the tokens.
#[verifier::external_body]
fn parse_function(item: TokenStream) -> (r: Result<TestItem, syn::Error>)
    ensures
        match r {
            Ok(function) => parsed_function(tokens::stream_tokens(item)) == Some(function@),
            Err(_) => parsed_function(tokens::stream_tokens(item)) is None,
        },
{
    let function = syn::parse2::<syn::ItemFn>(item)?;
    Ok(TestItem {
        name: function.sig.ident.into_token_stream(),
        inputs: function.sig.inputs.iter().map(|input| input.to_token_stream()).collect(),
        body: function.block.into_token_stream(),
    })
}

/// Parses the arguments of an attribute by `Punctuated::<syn::Meta, Comma>::parse_terminated`.
/// Whether it succeeds, and with which elements, is a function of the tokens.
#[verifier::external_body]
fn parse_attribute(attr: TokenStream) -> (r: Result<Vec<TestMeta>, syn::Error>)
    ensures
        match r {
            Ok(metas) => parsed_attribute(tokens::stream_tokens(attr)) == Some(meta_views(metas@)),
            Err(_) => parsed_attribute(tokens::stream_tokens(attr)) is None,
        },
{
    let list = Punctuated::<syn::Meta, syn::token::Comma>::parse_terminated.parse2(attr)?;
    Ok(list.into_iter().map(|meta| match meta {
        syn::Meta::NameValue(pair) => TestMeta::NameValue {
            tokens: pair.to_token_stream(),
            name: pair.path.get_ident().map(|name| name.to_string()),
            value: pair.value.to_token_stream(),
            literal: match pair.value {
                syn::Expr::Lit(value) => Some(value.lit.into_token_stream()),
                _ => None,
            },
        },
        other => TestMeta::Other { tokens: other.into_token_stream() },
    }).collect())
}

/// `str::to_lowercase`. Its result is a function of the text; of an ASCII text it lowers the
/// letters one by one.
#[verifier::external_body]
fn to_lower_case(s: &str) -> (r: String)
    ensures
        r@ == lower_case(s@),
        (forall|i: int| 0 <= i < s@.len() ==> tokens::is_ascii_char(#[trigger] s@[i])) ==> r@
            == Seq::new(s@.len(), |i: int| ascii_lower_case(s@[i])),
{
    s.to_lowercase()
}

/// What is wrong with an argument of the attribute, and the tokens that are to blame.
pub enum ArgumentProblem {
    /// The argument is not of the form `name = value`.
    NotNameValue(Seq<Token>),
    /// The name in the argument is not a single identifier.
    MissingName(Seq<Token>),
    /// The value is not a literal.
    NotALiteral(Seq<Token>),
    /// There is no setting of the name in the argument.
    UnknownName(Seq<Token>),
    /// The literal does not name a function.
    RejectedLiteral,
}

/// Why a test cannot be expanded.
#[derive(Debug)]
pub enum TestMacroError {
    /// The item is not a function, or the attribute has no argument list.
    Syntax(syn::Error),
    /// The literal does not name a function.
    RejectedLiteral(syn::Error),
    /// The argument is not of the form `name = value`.
    NotNameValue(TokenStream),
    /// The name in the argument is not a single identifier.
    MissingName(TokenStream),
    /// The value is not a literal.
    NotALiteral(TokenStream),
    /// There is no setting of the name in the argument.
    UnknownName(TokenStream),
}

impl TestMacroError {
    /// The problem with an argument that the error reports, if it reports one.
    pub open spec fn problem(self) -> Option<ArgumentProblem> {
        match self {
            TestMacroError::Syntax(_) => None,
            TestMacroError::RejectedLiteral(_) => Some(ArgumentProblem::RejectedLiteral),
            TestMacroError::NotNameValue(argument) => Some(
                ArgumentProblem::NotNameValue(tokens::stream_tokens(argument)),
            ),
            TestMacroError::MissingName(argument) => Some(
                ArgumentProblem::MissingName(tokens::stream_tokens(argument)),
            ),
            TestMacroError::NotALiteral(value) => Some(
                ArgumentProblem::NotALiteral(tokens::stream_tokens(value)),
            ),
            TestMacroError::UnknownName(argument) => Some(
                ArgumentProblem::UnknownName(tokens::stream_tokens(argument)),
            ),
        }
    }

    /// The message of an error that does not stem from a parser.
    pub fn message(&self) -> (r: Option<&'static str>)
        ensures
            match r {
                Some(text) => match self.problem() {
                    Some(ArgumentProblem::NotNameValue(_)) => text@ == "expected name-value pair"@,
                    Some(ArgumentProblem::MissingName(_)) => text@ == "Must have specified ident"@,
                    Some(ArgumentProblem::NotALiteral(_)) => text@ == "Must be a literal"@,
                    Some(ArgumentProblem::UnknownName(_)) => text@ == "Unknown name-value pair"@,
                    _ => false,
                },
                None => self is Syntax || self is RejectedLiteral,
            },
    {
        match self {
            Self::Syntax(_) | Self::RejectedLiteral(_) => None,
            Self::NotNameValue(_) => Some("expected name-value pair"),
            Self::MissingName(_) => Some("Must have specified ident"),
            Self::NotALiteral(_) => Some("Must be a literal"),
            Self::UnknownName(_) => Some("Unknown name-value pair"),
        }
    }
}

/// An argument of the attribute, with its literal turned into the call that it stands for.
#[derive(Debug)]
pub enum TestArgument {
    NameValue {
        tokens: TokenStream,
        name: Option<String>,
        value: TokenStream,
        call: Option<Result<TokenStream, syn::Error>>,
    },
    Other { tokens: TokenStream },
}

/// The texts and tokens of an argument. The call is missing where the literal was rejected.
pub enum TestArgumentView {
    NameValue {
        tokens: Seq<Token>,
        name: Option<Seq<char>>,
        value: Seq<Token>,
        call: Option<Option<Seq<Token>>>,
    },
    Other { tokens: Seq<Token> },
}

/// The tokens of a call, if the literal was accepted.
pub open spec fn call_view(value: Result<TokenStream, syn::Error>) -> Option<Seq<Token>> {
    match value {
        Ok(call) => Some(tokens::stream_tokens(call)),
        Err(_) => None,
    }
}

impl View for TestArgument {
    type V = TestArgumentView;

    open spec fn view(&self) -> TestArgumentView {
        match *self {
            TestArgument::NameValue { tokens, name, value, call } => TestArgumentView::NameValue {
                tokens: tokens::stream_tokens(tokens),
                name: name_view(name),
                value: tokens::stream_tokens(value),
                call: match call {
                    Some(call) => Some(call_view(call)),
                    None => None,
                },
            },
            TestArgument::Other { tokens } => TestArgumentView::Other {
                tokens: tokens::stream_tokens(tokens),
            },
        }
    }
}

/// The views of a list of arguments.
pub open spec fn argument_views(arguments: Seq<TestArgument>) -> Seq<TestArgumentView> {
    Seq::new(arguments.len(), |i: int| arguments[i]@)
}

/// The expressions that configure a test.
#[derive(Debug)]
pub struct TestConfig {
    tiling_spec: TokenStream,
    query_ctx_chunk_size: TokenStream,
    quota_config: TokenStream,
}

/// The tokens of the configuring expressions.
pub struct TestConfigView {
    pub tiling_spec: Seq<Token>,
    pub query_ctx_chunk_size: Seq<Token>,
    pub quota_config: Seq<Token>,
}

impl View for TestConfig {
    type V = TestConfigView;

    closed spec fn view(&self) -> TestConfigView {
        TestConfigView {
            tiling_spec: tokens::stream_tokens(self.tiling_spec),
            query_ctx_chunk_size: tokens::stream_tokens(self.query_ctx_chunk_size),
            quota_config: tokens::stream_tokens(self.quota_config),
        }
    }
}

/// The words in expanded tests are identifiers or keywords.
proof fn lemma_test_words()
    ensures
        tokens::is_plain_identifier("geoengine_datatypes"@),
        tokens::is_plain_identifier("util"@),
        tokens::is_plain_identifier("test"@),
        tokens::is_plain_identifier("TestDefault"@),
        tokens::is_plain_identifier("test_default"@),
        tokens::is_plain_identifier("crate"@),
        tokens::is_plain_identifier("config"@),
        tokens::is_plain_identifier("get_config_element"@),
        tokens::is_plain_identifier("pro"@),
        tokens::is_plain_identifier("Quota"@),
        tokens::is_plain_identifier("unwrap"@),
        tokens::is_plain_identifier("tokio"@),
        tokens::is_plain_identifier("flavor"@),
        tokens::is_plain_identifier("worker_threads"@),
        tokens::is_plain_identifier("async"@),
        tokens::is_plain_identifier("fn"@),
        tokens::is_plain_identifier("let"@),
        tokens::is_plain_identifier("move"@),
        tokens::is_plain_identifier("tests"@),
        tokens::is_plain_identifier("with_pro_temp_context_from_spec"@),
        tokens::is_plain_identifier("tiling_spec"@),
        tokens::is_plain_identifier("query_ctx_chunk_size"@),
        tokens::is_plain_identifier("quota_config"@),
        tokens::is_plain_identifier("await"@),
        tokens::is_plain_identifier("_"@),
{
    reveal_strlit("geoengine_datatypes");
    reveal_strlit("util");
    reveal_strlit("test");
    reveal_strlit("TestDefault");
    reveal_strlit("test_default");
    reveal_strlit("crate");
    reveal_strlit("config");
    reveal_strlit("get_config_element");
    reveal_strlit("pro");
    reveal_strlit("Quota");
    reveal_strlit("unwrap");
    reveal_strlit("tokio");
    reveal_strlit("flavor");
    reveal_strlit("worker_threads");
    reveal_strlit("async");
    reveal_strlit("fn");
    reveal_strlit("let");
    reveal_strlit("move");
    reveal_strlit("tests");
    reveal_strlit("with_pro_temp_context_from_spec");
    reveal_strlit("tiling_spec");
    reveal_strlit("query_ctx_chunk_size");
    reveal_strlit("quota_config");
    reveal_strlit("await");
    reveal_strlit("_");
}

/// The settings have different names.
proof fn lemma_setting_names()
    ensures
        "tiling_spec"@ != "query_ctx_chunk_size"@,
        "tiling_spec"@ != "quota_config"@,
        "query_ctx_chunk_size"@ != "quota_config"@,
{
    reveal_strlit("tiling_spec");
    reveal_strlit("query_ctx_chunk_size");
    reveal_strlit("quota_config");
    assert("tiling_spec"@.len() == 11);
    assert("query_ctx_chunk_size"@.len() == 20);
    assert("quota_config"@.len() == 12);
}

/// `geoengine_datatypes::util::test::TestDefault::test_default()`
pub open spec fn test_default_tokens() -> Seq<Token> {
    tokens::path(
        seq!["geoengine_datatypes"@, "util"@, "test"@, "TestDefault"@, "test_default"@],
    ) + tokens::group(Bracketing::Parenthesis, Seq::empty())
}

/// `crate::util::config::get_config_element::<crate::pro::util::config::Quota,>().unwrap()`
pub open spec fn quota_tokens() -> Seq<Token> {
    tokens::path(seq!["crate"@, "util"@, "config"@, "get_config_element"@]) + tokens::operator(
        ':',
        ':',
    ) + tokens::punct('<') + tokens::path(seq!["crate"@, "pro"@, "util"@, "config"@, "Quota"@])
        + tokens::punct(',') + tokens::punct('>') + tokens::group(
        Bracketing::Parenthesis,
        Seq::empty(),
    ) + tokens::punct('.') + tokens::ident("unwrap"@) + tokens::group(
        Bracketing::Parenthesis,
        Seq::empty(),
    )
}

/// The configuration of a test without arguments.
pub open spec fn default_config() -> TestConfigView {
    TestConfigView {
        tiling_spec: test_default_tokens(),
        query_ctx_chunk_size: test_default_tokens(),
        quota_config: quota_tokens(),
    }
}

fn test_default_call() -> (r: TokenStream)
    ensures
        tokens::stream_tokens(r) == test_default_tokens(),
{
    proof {
        lemma_test_words();
    }
    let mut r = TokenStream::new();
    let path = vec!["geoengine_datatypes", "util", "test", "TestDefault", "test_default"];
    assert(tokens::segment_texts(path@) =~= seq![
        "geoengine_datatypes"@,
        "util"@,
        "test"@,
        "TestDefault"@,
        "test_default"@,
    ]);
    push_path(&mut r, path.as_slice());
    push_bracketed(&mut r, Bracketing::Parenthesis, TokenStream::new());
    assert(tokens::stream_tokens(r) =~= test_default_tokens());
    r
}

fn quota_call() -> (r: TokenStream)
    ensures
        tokens::stream_tokens(r) == quota_tokens(),
{
    proof {
        lemma_test_words();
    }
    let mut r = TokenStream::new();
    let getter = vec!["crate", "util", "config", "get_config_element"];
    assert(tokens::segment_texts(getter@) =~= seq![
        "crate"@,
        "util"@,
        "config"@,
        "get_config_element"@,
    ]);
    push_path(&mut r, getter.as_slice());
    push_operator(&mut r, ':', ':');
    push_mark(&mut r, '<');
    let element = vec!["crate", "pro", "util", "config", "Quota"];
    assert(tokens::segment_texts(element@) =~= seq![
        "crate"@,
        "pro"@,
        "util"@,
        "config"@,
        "Quota"@,
    ]);
    push_path(&mut r, element.as_slice());
    push_mark(&mut r, ',');
    push_mark(&mut r, '>');
    push_bracketed(&mut r, Bracketing::Parenthesis, TokenStream::new());
    push_mark(&mut r, '.');
    push_word(&mut r, "unwrap");
    push_bracketed(&mut r, Bracketing::Parenthesis, TokenStream::new());
    assert(tokens::stream_tokens(r) =~= quota_tokens());
    r
}

/// The configuration after one more argument, or what is wrong with the argument.
pub open spec fn with_argument(
    config: TestConfigView,
    argument: TestArgumentView,
) -> Result<TestConfigView, ArgumentProblem> {
    match argument {
        TestArgumentView::Other { tokens } => Err(ArgumentProblem::NotNameValue(tokens)),
        TestArgumentView::NameValue { tokens, name: None, value, call } => Err(
            ArgumentProblem::MissingName(tokens),
        ),
        TestArgumentView::NameValue { tokens, name: Some(name), value, call: None } => Err(
            ArgumentProblem::NotALiteral(value),
        ),
        TestArgumentView::NameValue { tokens, name: Some(name), value, call: Some(call) } => {
            let key = lower_case(name);
            if key != "tiling_spec"@ && key != "query_ctx_chunk_size"@ && key != "quota_config"@ {
                Err(ArgumentProblem::UnknownName(tokens))
            } else {
                match call {
                    None => Err(ArgumentProblem::RejectedLiteral),
                    Some(call) => Ok(
                        TestConfigView {
                            tiling_spec: if key == "tiling_spec"@ {
                                call
                            } else {
                                config.tiling_spec
                            },
                            query_ctx_chunk_size: if key == "query_ctx_chunk_size"@ {
                                call
                            } else {
                                config.query_ctx_chunk_size
                            },
                            quota_config: if key == "quota_config"@ {
                                call
                            } else {
                                config.quota_config
                            },
                        },
                    ),
                }
            }
        },
    }
}

/// The configuration after the first `n` arguments, up to the first one with a problem, and that
/// problem.
pub open spec fn with_arguments(
    config: TestConfigView,
    arguments: Seq<TestArgumentView>,
    n: nat,
) -> (TestConfigView, Option<ArgumentProblem>)
    decreases n,
{
    if n == 0 || n > arguments.len() {
        (config, None)
    } else {
        let (reached, problem) = with_arguments(config, arguments, (n - 1) as nat);
        if problem is Some {
            (reached, problem)
        } else {
            match with_argument(reached, arguments[n - 1]) {
                Ok(next) => (next, None),
                Err(problem) => (reached, Some(problem)),
            }
        }
    }
}

/// Whether an error is the one that an argument gives: it carries the argument's own tokens, or
/// the error that its literal was rejected with.
pub open spec fn stems_from(e: TestMacroError, argument: TestArgument) -> bool {
    match e {
        TestMacroError::Syntax(_) => false,
        TestMacroError::RejectedLiteral(error) => argument matches TestArgument::NameValue {
            call,
            ..
        } && call == Some(Err::<TokenStream, syn::Error>(error)),
        TestMacroError::NotNameValue(stream) => argument == (TestArgument::Other {
            tokens: stream,
        }),
        TestMacroError::MissingName(stream) => argument matches TestArgument::NameValue {
            tokens,
            ..
        } && tokens == stream,
        TestMacroError::NotALiteral(stream) => argument matches TestArgument::NameValue {
            value,
            ..
        } && value == stream,
        TestMacroError::UnknownName(stream) => argument matches TestArgument::NameValue {
            tokens,
            ..
        } && tokens == stream,
    }
}

/// Whether an error stems from the first argument with a problem.
pub open spec fn stems_from_first(
    e: TestMacroError,
    config: TestConfigView,
    arguments: Seq<TestArgument>,
) -> bool {
    exists|i: int|
        {
            &&& 0 <= i < arguments.len()
            &&& stems_from(e, #[trigger] arguments[i])
            &&& with_arguments(config, argument_views(arguments), i as nat).1 is None
            &&& with_arguments(config, argument_views(arguments), (i + 1) as nat).1 is Some
        }
}

/// Once an argument has a problem, the ones behind it change nothing.
proof fn lemma_problem_stays(
    config: TestConfigView,
    arguments: Seq<TestArgumentView>,
    m: nat,
    n: nat,
)
    requires
        m <= n <= arguments.len(),
        with_arguments(config, arguments, m).1 is Some,
    ensures
        with_arguments(config, arguments, n) == with_arguments(config, arguments, m),
    decreases n,
{
    if m < n {
        lemma_problem_stays(config, arguments, m, (n - 1) as nat);
    }
}

impl TestConfig {
    /// The configuration of a test without arguments.
    pub fn new() -> (r: Self)
        ensures
            r@ == default_config(),
    {
        Self {
            tiling_spec: test_default_call(),
            query_ctx_chunk_size: test_default_call(),
            quota_config: quota_call(),
        }
    }

    /// Sets what one argument configures.
    fn parse_arg(&mut self, input: TestArgument) -> (r: Result<(), TestMacroError>)
        ensures
            match r {
                Ok(_) => with_argument(old(self)@, input@) == Ok::<_, ArgumentProblem>(
                    final(self)@,
                ),
                Err(e) => final(self)@ == old(self)@ && e.problem() is Some && with_argument(
                    old(self)@,
                    input@,
                ) == Err::<TestConfigView, _>(e.problem()->0) && stems_from(e, input),
            },
    {
        proof {
            lemma_setting_names();
        }
        match input {
            TestArgument::Other { tokens } => Err(TestMacroError::NotNameValue(tokens)),
            TestArgument::NameValue { tokens, name, value, call } => {
                let ident = match name {
                    Some(name) => to_lower_case(name.as_str()),
                    None => return Err(TestMacroError::MissingName(tokens)),
                };
                let lit = match call {
                    Some(call) => call,
                    None => return Err(TestMacroError::NotALiteral(value)),
                };
                if ident == "tiling_spec".to_string() {
                    match lit {
                        Ok(call) => {
                            self.tiling_spec = call;
                        },
                        Err(e) => return Err(TestMacroError::RejectedLiteral(e)),
                    }
                } else if ident == "query_ctx_chunk_size".to_string() {
                    match lit {
                        Ok(call) => {
                            self.query_ctx_chunk_size = call;
                        },
                        Err(e) => return Err(TestMacroError::RejectedLiteral(e)),
                    }
                } else if ident == "quota_config".to_string() {
                    match lit {
                        Ok(call) => {
                            self.quota_config = call;
                        },
                        Err(e) => return Err(TestMacroError::RejectedLiteral(e)),
                    }
                } else {
                    return Err(TestMacroError::UnknownName(tokens));
                }
                Ok(())
            },
        }
    }

    /// Sets what the arguments configure, one after the other, up to the first one with a
    /// problem.
    pub fn parse_args(&mut self, inputs: Vec<TestArgument>) -> (r: Result<(), TestMacroError>)
        ensures
            ({
                let (reached, problem) = with_arguments(
                    old(self)@,
                    argument_views(inputs@),
                    inputs@.len(),
                );
                &&& final(self)@ == reached
                &&& match r {
                    Ok(_) => problem is None,
                    Err(e) => problem is Some && e.problem() == problem && stems_from_first(
                        e,
                        old(self)@,
                        inputs@,
                    ),
                }
            }),
    {
        let ghost views = argument_views(inputs@);
        for input in it: inputs
            invariant
                it.seq() == inputs@,
                views == argument_views(inputs@),
                with_arguments(old(self)@, views, it.index() as nat) == (
                    self@,
                    None::<ArgumentProblem>,
                ),
        {
            let ghost n = it.index();
            assert(views[n as int] == input@);
            match self.parse_arg(input) {
                Ok(_) => {},
                Err(e) => {
                    proof {
                        assert(inputs@[n as int] == input);
                        lemma_problem_stays(
                            old(self)@,
                            views,
                            (n + 1) as nat,
                            inputs@.len(),
                        );
                    }
                    return Err(e);
                },
            }
        }
        Ok(())
    }
}

/// A local variable: `let name = value;`.
pub open spec fn local_tokens(name: Seq<Token>, value: Seq<Token>) -> Seq<Token> {
    tokens::ident("let"@) + name + tokens::punct('=') + value + tokens::punct(';')
}

/// The attribute `#[tokio::test(flavor = "multi_thread", worker_threads = 1)]`.
pub open spec fn tokio_attribute() -> Seq<Token> {
    tokens::punct('#') + tokens::group(
        Bracketing::Bracket,
        tokens::path(seq!["tokio"@, "test"@]) + tokens::group(
            Bracketing::Parenthesis,
            tokens::ident("flavor"@) + tokens::punct('=') + seq![
                Token::Literal("\""@ + "multi_thread"@ + "\""@),
            ] + tokens::punct(',') + tokens::ident("worker_threads"@) + tokens::punct('=') + seq![
                Token::Literal(crate::text::decimal(1)),
            ],
        ),
    )
}

/// The parameter at position `n` of the test function, or `_` where it has none.
pub open spec fn closure_parameter(function: TestItemView, n: int) -> Seq<Token> {
    if n < function.inputs.len() {
        function.inputs[n]
    } else {
        tokens::ident("_"@)
    }
}

/// The body of the test function as a closure over the context and its configuration.
pub open spec fn closure_tokens(function: TestItemView) -> Seq<Token> {
    tokens::punct('|') + closure_parameter(function, 0) + tokens::punct(',') + closure_parameter(
        function,
        1,
    ) + tokens::punct('|') + tokens::ident("async"@) + tokens::ident("move"@) + tokens::group(
        Bracketing::Brace,
        function.body,
    )
}

/// The call that runs the closure in a temporary context.
pub open spec fn run_tokens(function: TestItemView) -> Seq<Token> {
    tokens::path(seq!["crate"@, "pro"@, "util"@, "tests"@, "with_pro_temp_context_from_spec"@])
        + tokens::group(
        Bracketing::Parenthesis,
        tokens::ident("tiling_spec"@) + tokens::punct(',') + tokens::ident(
            "query_ctx_chunk_size"@,
        ) + tokens::punct(',') + tokens::ident("quota_config"@) + tokens::punct(',')
            + function.name + tokens::punct(','),
    ) + tokens::punct('.') + tokens::ident("await"@) + tokens::punct(';')
}

/// The body of the expanded test.
pub open spec fn expanded_body(config: TestConfigView, function: TestItemView) -> Seq<Token> {
    local_tokens(tokens::ident("tiling_spec"@), config.tiling_spec) + local_tokens(
        tokens::ident("query_ctx_chunk_size"@),
        config.query_ctx_chunk_size,
    ) + local_tokens(tokens::ident("quota_config"@), config.quota_config) + local_tokens(
        function.name,
        closure_tokens(function),
    ) + run_tokens(function)
}

/// The expanded test.
pub open spec fn expanded_test(config: TestConfigView, function: TestItemView) -> Seq<Token> {
    tokio_attribute() + tokens::ident("async"@) + tokens::ident("fn"@) + function.name
        + tokens::group(Bracketing::Parenthesis, Seq::empty()) + tokens::group(
        Bracketing::Brace,
        expanded_body(config, function),
    )
}

fn push_local(stream: &mut TokenStream, name: &TokenStream, value: &TokenStream)
    ensures
        tokens::appends(
            *old(stream),
            *final(stream),
            local_tokens(tokens::stream_tokens(*name), tokens::stream_tokens(*value)),
        ),
{
    proof {
        lemma_test_words();
    }
    push_word(stream, "let");
    push_stream(stream, name);
    push_mark(stream, '=');
    push_stream(stream, value);
    push_mark(stream, ';');
    assert(tokens::stream_tokens(*stream) =~= tokens::stream_tokens(*old(stream)) + local_tokens(
        tokens::stream_tokens(*name),
        tokens::stream_tokens(*value),
    ));
}

fn word(text: &str) -> (r: TokenStream)
    requires
        tokens::is_plain_identifier(text@),
    ensures
        tokens::stream_tokens(r) == tokens::ident(text@),
{
    let mut r = TokenStream::new();
    push_word(&mut r, text);
    assert(tokens::stream_tokens(r) =~= tokens::ident(text@));
    r
}

fn push_tokio_attribute(stream: &mut TokenStream)
    ensures
        tokens::appends(*old(stream), *final(stream), tokio_attribute()),
{
    proof {
        lemma_test_words();
        reveal_strlit("multi_thread");
    }
    let mut options = TokenStream::new();
    push_word(&mut options, "flavor");
    push_mark(&mut options, '=');
    push_string_literal(&mut options, "multi_thread");
    push_mark(&mut options, ',');
    push_word(&mut options, "worker_threads");
    push_mark(&mut options, '=');
    push_number_literal(&mut options, 1);
    let mut attribute = TokenStream::new();
    let path = vec!["tokio", "test"];
    assert(tokens::segment_texts(path@) =~= seq!["tokio"@, "test"@]);
    push_path(&mut attribute, path.as_slice());
    assert(tokens::stream_tokens(options) =~= tokens::ident("flavor"@) + tokens::punct('=') + seq![
        Token::Literal("\""@ + "multi_thread"@ + "\""@),
    ] + tokens::punct(',') + tokens::ident("worker_threads"@) + tokens::punct('=') + seq![
        Token::Literal(crate::text::decimal(1)),
    ]);
    push_bracketed(&mut attribute, Bracketing::Parenthesis, options);
    push_mark(stream, '#');
    assert(tokens::stream_tokens(attribute) =~= tokens::path(seq!["tokio"@, "test"@])
        + tokens::group(Bracketing::Parenthesis, tokens::stream_tokens(options)));
    push_bracketed(stream, Bracketing::Bracket, attribute);
    assert(tokens::stream_tokens(*stream) =~= tokens::stream_tokens(*old(stream))
        + tokio_attribute());
}

fn closure(function: &TestItem) -> (r: TokenStream)
    ensures
        tokens::stream_tokens(r) == closure_tokens(function@),
{
    proof {
        lemma_test_words();
    }
    let blank = word("_");
    let mut r = TokenStream::new();
    push_mark(&mut r, '|');
    if function.inputs.len() >= 1 {
        assert(function@.inputs[0] == tokens::stream_tokens(function.inputs@[0]));
        push_stream(&mut r, &function.inputs[0]);
    } else {
        push_stream(&mut r, &blank);
    }
    push_mark(&mut r, ',');
    if function.inputs.len() >= 2 {
        assert(function@.inputs[1] == tokens::stream_tokens(function.inputs@[1]));
        push_stream(&mut r, &function.inputs[1]);
    } else {
        push_stream(&mut r, &blank);
    }
    push_mark(&mut r, '|');
    push_word(&mut r, "async");
    push_word(&mut r, "move");
    push_bracketed(&mut r, Bracketing::Brace, function.body.clone());
    assert(tokens::stream_tokens(r) =~= closure_tokens(function@));
    r
}

fn push_run(stream: &mut TokenStream, function: &TestItem)
    ensures
        tokens::appends(*old(stream), *final(stream), run_tokens(function@)),
{
    proof {
        lemma_test_words();
    }
    let path = vec!["crate", "pro", "util", "tests", "with_pro_temp_context_from_spec"];
    assert(tokens::segment_texts(path@) =~= seq![
        "crate"@,
        "pro"@,
        "util"@,
        "tests"@,
        "with_pro_temp_context_from_spec"@,
    ]);
    push_path(stream, path.as_slice());
    let mut arguments = TokenStream::new();
    push_word(&mut arguments, "tiling_spec");
    push_mark(&mut arguments, ',');
    push_word(&mut arguments, "query_ctx_chunk_size");
    push_mark(&mut arguments, ',');
    push_word(&mut arguments, "quota_config");
    push_mark(&mut arguments, ',');
    push_stream(&mut arguments, &function.name);
    push_mark(&mut arguments, ',');
    assert(tokens::stream_tokens(arguments) =~= tokens::ident("tiling_spec"@) + tokens::punct(',')
        + tokens::ident("query_ctx_chunk_size"@) + tokens::punct(',') + tokens::ident(
        "quota_config"@,
    ) + tokens::punct(',') + function@.name + tokens::punct(','));
    push_bracketed(stream, Bracketing::Parenthesis, arguments);
    push_mark(stream, '.');
    push_word(stream, "await");
    push_mark(stream, ';');
    assert(tokens::stream_tokens(*stream) =~= tokens::stream_tokens(*old(stream)) + run_tokens(
        function@,
    ));
}

/// Expands a test function under a configuration.
pub fn expand_test(config: &TestConfig, function: &TestItem) -> (r: TokenStream)
    ensures
        tokens::stream_tokens(r) == expanded_test(config@, function@),
{
    proof {
        lemma_test_words();
    }
    let mut body = TokenStream::new();
    push_local(&mut body, &word("tiling_spec"), &config.tiling_spec);
    push_local(&mut body, &word("query_ctx_chunk_size"), &config.query_ctx_chunk_size);
    push_local(&mut body, &word("quota_config"), &config.quota_config);
    push_local(&mut body, &function.name, &closure(function));
    push_run(&mut body, function);
    assert(tokens::stream_tokens(body) =~= expanded_body(config@, function@));
    let mut r = TokenStream::new();
    push_tokio_attribute(&mut r);
    push_word(&mut r, "async");
    push_word(&mut r, "fn");
    push_stream(&mut r, &function.name);
    push_bracketed(&mut r, Bracketing::Parenthesis, TokenStream::new());
    push_bracketed(&mut r, Bracketing::Brace, body);
    assert(tokens::stream_tokens(r) =~= expanded_test(config@, function@));
    r
}

/// Whether `argument` is the element `meta` with its literal converted by `literal_to_fn`.
pub open spec fn converted<F: Fn(&TokenStream) -> Result<TokenStream, syn::Error>>(
    literal_to_fn: F,
    meta: TestMetaView,
    argument: TestArgument,
) -> bool {
    match meta {
        TestMetaView::Other { tokens } => argument@ == (TestArgumentView::Other { tokens }),
        TestMetaView::NameValue { tokens, name, value, literal: None } => argument@
            == (TestArgumentView::NameValue { tokens, name, value, call: None }),
        TestMetaView::NameValue { tokens, name, value, literal: Some(literal) } => exists|
            stream: TokenStream,
            call: Result<TokenStream, syn::Error>,
        |
            {
                &&& tokens::stream_tokens(stream) == literal
                &&& #[trigger] call_ensures(literal_to_fn, (&stream,), call)
                &&& argument->call == Some(call)
                &&& argument@ == (TestArgumentView::NameValue {
                    tokens,
                    name,
                    value,
                    call: Some(call_view(call)),
                })
            },
    }
}

/// Whether `arguments` are the elements `metas` with their literals converted.
pub open spec fn all_converted<F: Fn(&TokenStream) -> Result<TokenStream, syn::Error>>(
    literal_to_fn: F,
    metas: Seq<TestMetaView>,
    arguments: Seq<TestArgument>,
) -> bool {
    &&& arguments.len() == metas.len()
    &&& forall|i: int|
        0 <= i < metas.len() ==> converted(literal_to_fn, #[trigger] metas[i], arguments[i])
}

fn convert_meta<F: Fn(&TokenStream) -> Result<TokenStream, syn::Error>>(
    meta: TestMeta,
    literal_to_fn: &F,
) -> (r: TestArgument)
    requires
        forall|literal: &TokenStream| #[trigger] call_requires(*literal_to_fn, (literal,)),
    ensures
        converted(*literal_to_fn, meta@, r),
{
    match meta {
        TestMeta::Other { tokens } => TestArgument::Other { tokens },
        TestMeta::NameValue { tokens, name, value, literal } => match literal {
            None => TestArgument::NameValue { tokens, name, value, call: None },
            Some(literal) => {
                let call = literal_to_fn(&literal);
                TestArgument::NameValue { tokens, name, value, call: Some(call) }
            },
        },
    }
}

/// Whether `r` is what a test function with the given arguments expands to.
pub open spec fn expansion(
    function: TestItemView,
    arguments: Seq<TestArgument>,
    r: Result<TokenStream, TestMacroError>,
) -> bool {
    let (config, problem) = with_arguments(
        default_config(),
        argument_views(arguments),
        arguments.len(),
    );
    match r {
        Ok(output) => problem is None && tokens::stream_tokens(output) == expanded_test(
            config,
            function,
        ),
        Err(e) => problem is Some && e.problem() == problem && stems_from_first(
            e,
            default_config(),
            arguments,
        ),
    }
}

/// Whether an error is one that the parser of items reports for an item.
pub closed spec fn item_error(item: TokenStream, e: syn::Error) -> bool {
    call_ensures(parse_function, (item,), Err::<TestItem, syn::Error>(e))
}

/// Whether an error is one that the parser of attributes reports for an attribute.
pub closed spec fn attribute_error(attr: TokenStream, e: syn::Error) -> bool {
    call_ensures(parse_attribute, (attr,), Err::<Vec<TestMeta>, syn::Error>(e))
}

/// Hands a stream to a parser.
fn parse_with<T, F: Fn(TokenStream) -> Result<T, syn::Error>>(parser: F, stream: TokenStream) -> (r:
    Result<T, syn::Error>)
    requires
        call_requires(parser, (stream,)),
    ensures
        call_ensures(parser, (stream,), r),
{
    parser(stream)
}

/// Whether `r` is what a test function expands to under an attribute, with the literals converted
/// by `literal_to_fn`.
pub open spec fn expands<F: Fn(&TokenStream) -> Result<TokenStream, syn::Error>>(
    literal_to_fn: F,
    metas: Seq<TestMetaView>,
    function: TestItemView,
    r: Result<TokenStream, TestMacroError>,
) -> bool {
    exists|arguments: Seq<TestArgument>| #[trigger]
        all_converted(literal_to_fn, metas, arguments) && expansion(function, arguments, r)
}

/// Expands an annotated test function. `literal_to_fn` turns the literal of an argument into the
/// call that it stands for.
pub fn test<F: Fn(&TokenStream) -> Result<TokenStream, syn::Error>>(
    attr: TokenStream,
    item: TokenStream,
    literal_to_fn: F,
) -> (r: Result<TokenStream, TestMacroError>)
    requires
        forall|literal: &TokenStream| #[trigger] call_requires(literal_to_fn, (literal,)),
    ensures
        parsed_function(tokens::stream_tokens(item)) is None ==> (r matches Err(
            TestMacroError::Syntax(e),
        ) && item_error(item, e)),
        parsed_function(tokens::stream_tokens(item)) is Some && parsed_attribute(
            tokens::stream_tokens(attr),
        ) is None ==> (r matches Err(TestMacroError::Syntax(e)) && attribute_error(attr, e)),
        parsed_function(tokens::stream_tokens(item)) is Some && parsed_attribute(
            tokens::stream_tokens(attr),
        ) is Some ==> expands(
            literal_to_fn,
            parsed_attribute(tokens::stream_tokens(attr))->0,
            parsed_function(tokens::stream_tokens(item))->0,
            r,
        ),
{
    let function = match parse_with(parse_function, item) {
        Ok(function) => function,
        Err(e) => return Err(TestMacroError::Syntax(e)),
    };
    let metas = match parse_with(parse_attribute, attr) {
        Ok(metas) => metas,
        Err(e) => return Err(TestMacroError::Syntax(e)),
    };
    let ghost views = meta_views(metas@);
    let mut arguments: Vec<TestArgument> = Vec::new();
    for meta in it: metas
        invariant
            it.seq() == metas@,
            views == meta_views(metas@),
            arguments@.len() == it.index(),
            forall|literal: &TokenStream| #[trigger] call_requires(literal_to_fn, (literal,)),
            forall|i: int|
                0 <= i < arguments@.len() ==> converted(
                    literal_to_fn,
                    #[trigger] views[i],
                    arguments@[i],
                ),
    {
        assert(views[it.index() as int] == meta@);
        let argument = convert_meta(meta, &literal_to_fn);
        arguments.push(argument);
    }
    let ghost all = arguments@;
    let mut test_config = TestConfig::new();
    let parsed = test_config.parse_args(arguments);
    assert(all_converted(literal_to_fn, views, all));
    let r = match parsed {
        Ok(_) => Ok(expand_test(&test_config, &function)),
        Err(e) => Err(e),
    };
    assert(expands(literal_to_fn, views, function@, r));
    r
}

/// The first `n` arguments decide what the configuration is after them.
proof fn lemma_arguments_prefix(
    config: TestConfigView,
    a: Seq<TestArgumentView>,
    b: Seq<TestArgumentView>,
    n: nat,
)
    requires
        n <= a.len(),
        n <= b.len(),
        a.take(n as int) == b.take(n as int),
    ensures
        with_arguments(config, a, n) == with_arguments(config, b, n),
    decreases n,
{
    if n > 0 {
        assert(a[n - 1] == a.take(n as int)[n - 1]);
        assert(b[n - 1] == b.take(n as int)[n - 1]);
        assert(a.take(n - 1) =~= a.take(n as int).take(n - 1));
        assert(b.take(n - 1) =~= b.take(n as int).take(n - 1));
        lemma_arguments_prefix(config, a, b, (n - 1) as nat);
    }
}

/// The last argument for a setting decides its value: an accepted argument overwrites what the
/// ones before it configured, and leaves the other settings alone.
pub proof fn law_last_argument_wins(
    config: TestConfigView,
    arguments: Seq<TestArgumentView>,
    tokens: Seq<Token>,
    name: Seq<char>,
    value: Seq<Token>,
    call: Seq<Token>,
)
    requires
        with_arguments(config, arguments, arguments.len()).1 is None,
        lower_case(name) == "tiling_spec"@ || lower_case(name) == "query_ctx_chunk_size"@
            || lower_case(name) == "quota_config"@,
    ensures
        ({
            let before = with_arguments(config, arguments, arguments.len()).0;
            let longer = arguments.push(
                TestArgumentView::NameValue {
                    tokens,
                    name: Some(name),
                    value,
                    call: Some(Some(call)),
                },
            );
            let (after, problem) = with_arguments(config, longer, longer.len());
            &&& problem is None
            &&& lower_case(name) == "tiling_spec"@ ==> after == (TestConfigView {
                tiling_spec: call,
                ..before
            })
            &&& lower_case(name) == "query_ctx_chunk_size"@ ==> after == (TestConfigView {
                query_ctx_chunk_size: call,
                ..before
            })
            &&& lower_case(name) == "quota_config"@ ==> after == (TestConfigView {
                quota_config: call,
                ..before
            })
        }),
{
    lemma_setting_names();
    let longer = arguments.push(
        TestArgumentView::NameValue {
                    tokens,
                    name: Some(name),
                    value,
                    call: Some(Some(call)),
                },
    );
    assert(longer.take(arguments.len() as int) =~= arguments.take(arguments.len() as int));
    lemma_arguments_prefix(config, longer, arguments, arguments.len());
}

/// Whether code holds, from position `p` on, the statement that gives a name to a value.
pub open spec fn names_at(code: Seq<Token>, p: int, name: Seq<Token>, value: Seq<Token>) -> bool {
    let middle = p + 1 + name.len();
    let end = middle + 1 + value.len();
    &&& 0 <= p <= end < code.len()
    &&& code[p] == Token::Ident("let"@)
    &&& code.subrange(p + 1, middle) == name
    &&& code[middle] == Token::Punct('=', false)
    &&& code.subrange(middle + 1, end) == value
    &&& code[end] == Token::Punct(';', false)
}

/// Whether code holds a statement that gives a name to a value.
pub open spec fn names(code: Seq<Token>, name: Seq<Token>, value: Seq<Token>) -> bool {
    exists|p: int| #[trigger] names_at(code, p, name, value)
}

/// Whether code is a closure of two parameters, which moves what it uses into an asynchronous block
/// with the given content.
pub open spec fn is_async_closure(
    code: Seq<Token>,
    first: Seq<Token>,
    second: Seq<Token>,
    content: Seq<Token>,
) -> bool {
    let a = 1 + first.len() as int;
    let b = a + 1 + second.len();
    &&& code.len() == b + 4
    &&& code[0] == Token::Punct('|', false)
    &&& code.subrange(1, a) == first
    &&& code[a] == Token::Punct(',', false)
    &&& code.subrange(a + 1, b) == second
    &&& code[b] == Token::Punct('|', false)
    &&& code[b + 1] == Token::Ident("async"@)
    &&& code[b + 2] == Token::Ident("move"@)
    &&& code[b + 3] == Token::Group(Bracketing::Brace, content)
}

/// A local variable stands in the code that it was put into.
proof fn lemma_names(
    front: Seq<Token>,
    name: Seq<Token>,
    value: Seq<Token>,
    back: Seq<Token>,
    code: Seq<Token>,
)
    requires
        code == front + local_tokens(name, value) + back,
    ensures
        names(code, name, value),
{
    let p = front.len() as int;
    let middle = p + 1 + name.len();
    let end = middle + 1 + value.len();
    assert(code.subrange(p + 1, middle) =~= name);
    assert(code.subrange(middle + 1, end) =~= value);
    assert(names_at(code, p, name, value));
}

proof fn lemma_settings_named(config: TestConfigView, function: TestItemView)
    ensures
        ({
            let body = expanded_body(config, function);
            &&& names(body, tokens::ident("tiling_spec"@), config.tiling_spec)
            &&& names(body, tokens::ident("query_ctx_chunk_size"@), config.query_ctx_chunk_size)
            &&& names(body, tokens::ident("quota_config"@), config.quota_config)
            &&& names(body, function.name, closure_tokens(function))
        }),
{
    let body = expanded_body(config, function);
    let closure = closure_tokens(function);
    let one = local_tokens(tokens::ident("tiling_spec"@), config.tiling_spec);
    let two = local_tokens(tokens::ident("query_ctx_chunk_size"@), config.query_ctx_chunk_size);
    let three = local_tokens(tokens::ident("quota_config"@), config.quota_config);
    let four = local_tokens(function.name, closure);
    lemma_four_parts(one, two, three, four, run_tokens(function), body);
    lemma_names(
        Seq::empty(),
        tokens::ident("tiling_spec"@),
        config.tiling_spec,
        two + three + four + run_tokens(function),
        body,
    );
    lemma_names(
        one,
        tokens::ident("query_ctx_chunk_size"@),
        config.query_ctx_chunk_size,
        three + four + run_tokens(function),
        body,
    );
    lemma_names(
        one + two,
        tokens::ident("quota_config"@),
        config.quota_config,
        four + run_tokens(function),
        body,
    );
    lemma_names(one + two + three, function.name, closure, run_tokens(function), body);
}

/// Concatenation can be bracketed around each of the parts.
proof fn lemma_four_parts(
    one: Seq<Token>,
    two: Seq<Token>,
    three: Seq<Token>,
    four: Seq<Token>,
    rest: Seq<Token>,
    whole: Seq<Token>,
)
    requires
        whole == one + two + three + four + rest,
    ensures
        whole == Seq::empty() + one + (two + three + four + rest),
        whole == one + two + (three + four + rest),
        whole == (one + two) + three + (four + rest),
        whole == (one + two + three) + four + rest,
{
    assert(whole =~= Seq::empty() + one + (two + three + four + rest));
    assert(whole =~= one + two + (three + four + rest));
    assert(whole =~= (one + two) + three + (four + rest));
}

proof fn lemma_closure(function: TestItemView)
    ensures
        is_async_closure(
            closure_tokens(function),
            closure_parameter(function, 0),
            closure_parameter(function, 1),
            function.body,
        ),
{
    let closure = closure_tokens(function);
    let first = closure_parameter(function, 0);
    let second = closure_parameter(function, 1);
    let a = 1 + first.len() as int;
    let b = a + 1 + second.len();
    assert(closure.subrange(1, a) =~= first);
    assert(closure.subrange(a + 1, b) =~= second);
}

/// Whether code ends with a call that runs the closure of the given name with the settings.
pub open spec fn ends_with_run(code: Seq<Token>, name: Seq<Token>) -> bool {
    let end = code.len();
    &&& end >= 5
    &&& code[end - 5] == Token::Ident("with_pro_temp_context_from_spec"@)
    &&& code[end - 4] matches Token::Group(Bracketing::Parenthesis, arguments)
    &&& arguments.len() == name.len() + 7
    &&& arguments[0] == Token::Ident("tiling_spec"@)
    &&& arguments[2] == Token::Ident("query_ctx_chunk_size"@)
    &&& arguments[4] == Token::Ident("quota_config"@)
    &&& arguments.subrange(6, 6 + name.len() as int) == name
    &&& code[end - 3] == Token::Punct('.', false)
    &&& code[end - 2] == Token::Ident("await"@)
    &&& code[end - 1] == Token::Punct(';', false)
}

proof fn lemma_run(function: TestItemView)
    ensures
        ends_with_run(run_tokens(function), function.name),
{
    let name = function.name;
    let run = run_tokens(function);
    let arguments = tokens::ident("tiling_spec"@) + tokens::punct(',') + tokens::ident(
        "query_ctx_chunk_size"@,
    ) + tokens::punct(',') + tokens::ident("quota_config"@) + tokens::punct(',') + name
        + tokens::punct(',');
    assert(arguments.subrange(6, 6 + name.len() as int) =~= name);
    let path = seq!["crate"@, "pro"@, "util"@, "tests"@, "with_pro_temp_context_from_spec"@];
    assert(tokens::path(path).last() == Token::Ident("with_pro_temp_context_from_spec"@));
    let front = tokens::path(path).len() as int;
    assert(run.len() == front + 4);
    assert(run[front - 1] == tokens::path(path)[front - 1]);
}

/// The expanded test bears the name of the function, and hands three settings, each under its own
/// name and with the value that was configured for it, together with the body of the function to
/// what runs it. The body sees the first two parameters of the function; what is missing of them
/// has no name.
pub proof fn law_expansion_runs_body(config: TestConfigView, function: TestItemView)
    ensures
        ({
            let code = expanded_test(config, function);
            let n = function.name.len() as int;
            &&& code.len() == n + 6
            &&& code[2] == Token::Ident("async"@)
            &&& code[3] == Token::Ident("fn"@)
            &&& code.subrange(4, 4 + n) == function.name
            &&& code[4 + n] == Token::Group(Bracketing::Parenthesis, Seq::empty())
            &&& code[5 + n] matches Token::Group(Bracketing::Brace, body)
            &&& names(body, tokens::ident("tiling_spec"@), config.tiling_spec)
            &&& names(body, tokens::ident("query_ctx_chunk_size"@), config.query_ctx_chunk_size)
            &&& names(body, tokens::ident("quota_config"@), config.quota_config)
            &&& exists|closure: Seq<Token>| #[trigger]
                names(body, function.name, closure) && is_async_closure(
                    closure,
                    if function.inputs.len() > 0 {
                        function.inputs[0]
                    } else {
                        tokens::ident("_"@)
                    },
                    if function.inputs.len() > 1 {
                        function.inputs[1]
                    } else {
                        tokens::ident("_"@)
                    },
                    function.body,
                )
            &&& ends_with_run(body, function.name)
        }),
{
    let code = expanded_test(config, function);
    let body = expanded_body(config, function);
    let n = function.name.len() as int;
    assert(code.subrange(4, 4 + n) =~= function.name);
    lemma_settings_named(config, function);
    lemma_closure(function);
    lemma_run(function);
    let run = run_tokens(function);
    let before = body.len() - run.len();
    assert(body[before + (run.len() - 5)] == run[run.len() - 5]);
    assert(body[before + (run.len() - 4)] == run[run.len() - 4]);
    assert(body[before + (run.len() - 3)] == run[run.len() - 3]);
    assert(body[before + (run.len() - 2)] == run[run.len() - 2]);
    assert(body[before + (run.len() - 1)] == run[run.len() - 1]);
    assert(ends_with_run(body, function.name));
}

/// Without arguments that change them, the settings have their defaults: two are made by the same
/// call, and the third is looked up in the configuration.
pub proof fn law_defaults_stay(arguments: Seq<TestArgumentView>)
    requires
        arguments.len() == 0,
    ensures
        with_arguments(default_config(), arguments, arguments.len()).1 is None,
        ({
            let config = with_arguments(default_config(), arguments, arguments.len()).0;
            &&& config.tiling_spec == config.query_ctx_chunk_size
            &&& config.tiling_spec.len() > 1
            &&& config.tiling_spec[config.tiling_spec.len() - 2] == Token::Ident("test_default"@)
            &&& config.quota_config.len() > 1
            &&& config.quota_config[config.quota_config.len() - 2] == Token::Ident("unwrap"@)
        }),
{
    reveal_with_fuel(tokens::path, 6);
}

/// The first argument with a problem ends the work: it is reported whatever comes behind it, and
/// an argument is a problem if it is no pair, has no single name, has no literal, has a name that
/// is no setting, or has a literal that was rejected, in this order.
pub proof fn law_first_problem_is_reported(
    config: TestConfigView,
    front: Seq<TestArgumentView>,
    argument: TestArgumentView,
    back: Seq<TestArgumentView>,
)
    requires
        with_arguments(config, front, front.len()).1 is None,
    ensures
        ({
            let all = front.push(argument) + back;
            let problem = with_arguments(config, all, all.len()).1;
            match argument {
                TestArgumentView::Other { tokens } => problem == Some(
                    ArgumentProblem::NotNameValue(tokens),
                ),
                TestArgumentView::NameValue { tokens, name, value, call } => if name is None {
                    problem == Some(ArgumentProblem::MissingName(tokens))
                } else if call is None {
                    problem == Some(ArgumentProblem::NotALiteral(value))
                } else if lower_case(name->0) != "tiling_spec"@ && lower_case(name->0)
                    != "query_ctx_chunk_size"@ && lower_case(name->0) != "quota_config"@ {
                    problem == Some(ArgumentProblem::UnknownName(tokens))
                } else {
                    call->0 is None ==> problem == Some(ArgumentProblem::RejectedLiteral)
                },
            }
        }),
{
    let all = front.push(argument) + back;
    let n = front.len();
    assert(all.take(n as int) =~= front.take(n as int));
    lemma_arguments_prefix(config, all, front, n);
    assert(all[n as int] == argument);
    if with_arguments(config, all, n + 1).1 is Some {
        lemma_problem_stays(config, all, n + 1, all.len());
    }
}

} // verus!
