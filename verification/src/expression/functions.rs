//! The mathematical functions that an expression can call.

use crate::expression::codegen::Identifier;
use crate::tokens;
use crate::tokens::{
    check_identifier, push_bracketed, push_mark, push_operator, push_path, push_word,
    Bracketing, Token,
};
use proc_macro2::TokenStream;
use vstd::prelude::*;
use vstd::string::*;

verus! {

/// A mathematical function.
#[derive(Debug, Clone, Copy, PartialEq, Eq, Structural)]
pub enum MathFunction {
    Min,
    Max,
    Abs,
    Pow,
    Sqrt,
    Cos,
    Sin,
    Tan,
    Acos,
    Asin,
    Atan,
    Log10,
    Ln,
    Pi,
}

/// How many arguments a function takes: at least `min` and at most `max`.
#[derive(Debug, Clone, Copy, PartialEq, Eq, Structural)]
pub struct ArgumentCount {
    pub min: usize,
    pub max: usize,
}

/// The words in the definitions are identifiers or keywords.
proof fn lemma_function_words()
    ensures
        tokens::is_plain_identifier("PI"@),
        tokens::is_plain_identifier("a"@),
        tokens::is_plain_identifier("abs"@),
        tokens::is_plain_identifier("acos"@),
        tokens::is_plain_identifier("asin"@),
        tokens::is_plain_identifier("atan"@),
        tokens::is_plain_identifier("b"@),
        tokens::is_plain_identifier("consts"@),
        tokens::is_plain_identifier("cos"@),
        tokens::is_plain_identifier("f64"@),
        tokens::is_plain_identifier("fn"@),
        tokens::is_plain_identifier("ln"@),
        tokens::is_plain_identifier("log10"@),
        tokens::is_plain_identifier("max"@),
        tokens::is_plain_identifier("min"@),
        tokens::is_plain_identifier("powf"@),
        tokens::is_plain_identifier("sin"@),
        tokens::is_plain_identifier("sqrt"@),
        tokens::is_plain_identifier("std"@),
        tokens::is_plain_identifier("tan"@),
{
    reveal_strlit("PI");
    reveal_strlit("a");
    reveal_strlit("abs");
    reveal_strlit("acos");
    reveal_strlit("asin");
    reveal_strlit("atan");
    reveal_strlit("b");
    reveal_strlit("consts");
    reveal_strlit("cos");
    reveal_strlit("f64");
    reveal_strlit("fn");
    reveal_strlit("ln");
    reveal_strlit("log10");
    reveal_strlit("max");
    reveal_strlit("min");
    reveal_strlit("powf");
    reveal_strlit("sin");
    reveal_strlit("sqrt");
    reveal_strlit("std");
    reveal_strlit("tan");
}

/// The type of a parameter: `name: f64`.
pub open spec fn number_parameter(name: Seq<char>) -> Seq<Token> {
    tokens::ident(name) + tokens::punct(':') + tokens::ident("f64"@)
}

/// The declared parameters of a definition with the given number of arguments.
pub open spec fn parameter_list(count: nat) -> Seq<Token> {
    if count == 0 {
        Seq::empty()
    } else if count == 1 {
        number_parameter("a"@)
    } else {
        number_parameter("a"@) + tokens::punct(',') + number_parameter("b"@)
    }
}

/// The arguments that a definition hands on.
pub open spec fn argument_list(count: nat) -> Seq<Token> {
    if count == 1 {
        tokens::ident("a"@)
    } else {
        tokens::ident("a"@) + tokens::punct(',') + tokens::ident("b"@)
    }
}

impl MathFunction {
    /// The name by which an expression calls the function.
    pub open spec fn key(self) -> Seq<char> {
        match self {
            MathFunction::Min => "min"@,
            MathFunction::Max => "max"@,
            MathFunction::Abs => "abs"@,
            MathFunction::Pow => "pow"@,
            MathFunction::Sqrt => "sqrt"@,
            MathFunction::Cos => "cos"@,
            MathFunction::Sin => "sin"@,
            MathFunction::Tan => "tan"@,
            MathFunction::Acos => "acos"@,
            MathFunction::Asin => "asin"@,
            MathFunction::Atan => "atan"@,
            MathFunction::Log10 => "log10"@,
            MathFunction::Ln => "ln"@,
            MathFunction::Pi => "pi"@,
        }
    }

    /// The method or constant of `f64` that computes the function.
    pub open spec fn method(self) -> Seq<char> {
        match self {
            MathFunction::Min => "min"@,
            MathFunction::Max => "max"@,
            MathFunction::Abs => "abs"@,
            MathFunction::Pow => "powf"@,
            MathFunction::Sqrt => "sqrt"@,
            MathFunction::Cos => "cos"@,
            MathFunction::Sin => "sin"@,
            MathFunction::Tan => "tan"@,
            MathFunction::Acos => "acos"@,
            MathFunction::Asin => "asin"@,
            MathFunction::Atan => "atan"@,
            MathFunction::Log10 => "log10"@,
            MathFunction::Ln => "ln"@,
            MathFunction::Pi => "PI"@,
        }
    }

    /// The number of arguments.
    pub open spec fn arity(self) -> nat {
        match self {
            MathFunction::Min | MathFunction::Max | MathFunction::Pow => 2,
            MathFunction::Pi => 0,
            _ => 1,
        }
    }

    /// The value of the function: `f64::method(arguments)`, or the constant.
    pub open spec fn body_tokens(self) -> Seq<Token> {
        if self == MathFunction::Pi {
            tokens::path(seq!["std"@, "f64"@, "consts"@, "PI"@])
        } else {
            tokens::path(seq!["f64"@, self.method()]) + tokens::group(
                Bracketing::Parenthesis,
                argument_list(self.arity()),
            )
        }
    }

    /// The definition of the function under the name `fn_name`.
    pub open spec fn tokens(self, fn_name: Seq<char>) -> Seq<Token> {
        tokens::ident("fn"@) + tokens::ident(fn_name) + tokens::group(
            Bracketing::Parenthesis,
            parameter_list(self.arity()),
        ) + tokens::operator('-', '>') + tokens::ident("f64"@) + tokens::group(
            Bracketing::Brace,
            self.body_tokens(),
        )
    }

    /// The name by which an expression calls the function.
    pub fn name(self) -> (r: &'static str)
        ensures
            r@ == self.key(),
    {
        match self {
            Self::Min => "min",
            Self::Max => "max",
            Self::Abs => "abs",
            Self::Pow => "pow",
            Self::Sqrt => "sqrt",
            Self::Cos => "cos",
            Self::Sin => "sin",
            Self::Tan => "tan",
            Self::Acos => "acos",
            Self::Asin => "asin",
            Self::Atan => "atan",
            Self::Log10 => "log10",
            Self::Ln => "ln",
            Self::Pi => "pi",
        }
    }

    /// Finds the function that an expression calls by `name`.
    pub fn lookup(name: &str) -> (r: Option<MathFunction>)
        ensures
            match r {
                Some(f) => name@ == f.key(),
                None => forall|f: MathFunction| name@ != #[trigger] f.key(),
            },
    {
        let name = name.to_string();
        if name == "min".to_string() {
            Some(Self::Min)
        } else if name == "max".to_string() {
            Some(Self::Max)
        } else if name == "abs".to_string() {
            Some(Self::Abs)
        } else if name == "pow".to_string() {
            Some(Self::Pow)
        } else if name == "sqrt".to_string() {
            Some(Self::Sqrt)
        } else if name == "cos".to_string() {
            Some(Self::Cos)
        } else if name == "sin".to_string() {
            Some(Self::Sin)
        } else if name == "tan".to_string() {
            Some(Self::Tan)
        } else if name == "acos".to_string() {
            Some(Self::Acos)
        } else if name == "asin".to_string() {
            Some(Self::Asin)
        } else if name == "atan".to_string() {
            Some(Self::Atan)
        } else if name == "log10".to_string() {
            Some(Self::Log10)
        } else if name == "ln".to_string() {
            Some(Self::Ln)
        } else if name == "pi".to_string() {
            Some(Self::Pi)
        } else {
            None
        }
    }

    /// How many arguments the function takes.
    pub fn num_args(self) -> (r: ArgumentCount)
        ensures
            r.min == self.arity(),
            r.max == self.arity(),
    {
        let n: usize = match self {
            Self::Min | Self::Max | Self::Pow => 2,
            Self::Pi => 0,
            _ => 1,
        };
        ArgumentCount { min: n, max: n }
    }

    fn method_name(self) -> (r: &'static str)
        ensures
            r@ == self.method(),
            tokens::is_plain_identifier(r@),
    {
        proof {
            lemma_function_words();
        }
        match self {
            Self::Min => "min",
            Self::Max => "max",
            Self::Abs => "abs",
            Self::Pow => "powf",
            Self::Sqrt => "sqrt",
            Self::Cos => "cos",
            Self::Sin => "sin",
            Self::Tan => "tan",
            Self::Acos => "acos",
            Self::Asin => "asin",
            Self::Atan => "atan",
            Self::Log10 => "log10",
            Self::Ln => "ln",
            Self::Pi => "PI",
        }
    }

    /// The definition of the function under the name `fn_name`. The number of arguments of the
    /// call does not change it.
    pub fn token_fn(self, _num_args: usize, fn_name: &Identifier) -> (r: TokenStream)
        requires
            tokens::is_identifier(fn_name@),
        ensures
            tokens::stream_tokens(r) == self.tokens(fn_name@),
    {
        proof {
            lemma_function_words();
        }
        let mut parameters = TokenStream::new();
        let mut arguments = TokenStream::new();
        let count: usize = self.num_args().max;
        if count > 0 {
            push_word(&mut parameters, "a");
            push_mark(&mut parameters, ':');
            push_word(&mut parameters, "f64");
            push_word(&mut arguments, "a");
        }
        if count > 1 {
            push_mark(&mut parameters, ',');
            push_word(&mut parameters, "b");
            push_mark(&mut parameters, ':');
            push_word(&mut parameters, "f64");
            push_mark(&mut arguments, ',');
            push_word(&mut arguments, "b");
        }
        assert(tokens::stream_tokens(parameters) =~= parameter_list(self.arity()));
        assert(count > 0 ==> tokens::stream_tokens(arguments) =~= argument_list(self.arity()));
        let mut body = TokenStream::new();
        if count == 0 {
            let constant = vec!["std", "f64", "consts", "PI"];
            assert(tokens::segment_texts(constant@) =~= seq!["std"@, "f64"@, "consts"@, "PI"@]);
            push_path(&mut body, constant.as_slice());
        } else {
            let method = vec!["f64", self.method_name()];
            assert(tokens::segment_texts(method@) =~= seq!["f64"@, self.method()]);
            push_path(&mut body, method.as_slice());
            push_bracketed(&mut body, Bracketing::Parenthesis, arguments);
        }
        assert(tokens::stream_tokens(body) =~= self.body_tokens());
        let mut r = TokenStream::new();
        push_word(&mut r, "fn");
        fn_name.to_tokens(&mut r);
        push_bracketed(&mut r, Bracketing::Parenthesis, parameters);
        push_operator(&mut r, '-', '>');
        push_word(&mut r, "f64");
        push_bracketed(&mut r, Bracketing::Brace, body);
        assert(tokens::stream_tokens(r) =~= self.tokens(fn_name@));
        r
    }

    /// The definition of the function, if `fn_name` is an identifier of the language.
    pub fn try_token_fn(self, num_args: usize, fn_name: &Identifier) -> (r: Option<TokenStream>)
        ensures
            r is Some <==> tokens::is_identifier(fn_name@),
            r matches Some(stream) ==> tokens::stream_tokens(stream) == self.tokens(fn_name@),
    {
        if check_identifier(fn_name.as_ref()) {
            Some(self.token_fn(num_args, fn_name))
        } else {
            None
        }
    }
}

/// No two functions are called by the same name.
pub proof fn law_names_unique(f: MathFunction, g: MathFunction)
    ensures
        f.key() == g.key() <==> f == g,
{
    reveal_strlit("min");
    reveal_strlit("max");
    reveal_strlit("abs");
    reveal_strlit("pow");
    reveal_strlit("sqrt");
    reveal_strlit("cos");
    reveal_strlit("sin");
    reveal_strlit("tan");
    reveal_strlit("acos");
    reveal_strlit("asin");
    reveal_strlit("atan");
    reveal_strlit("log10");
    reveal_strlit("ln");
    reveal_strlit("pi");
    if f.key() == g.key() {
        let a = f.key();
        let b = g.key();
        assert(a.len() == b.len());
        assert(a[0] == b[0]);
        assert(a[1] == b[1]);
        assert(a[2] == b[2]);
    }
}

/// Whether parameters, each a name with the type `f64`, are declared for arguments that are handed
/// on: there is one for each of them, of the same name and at the same place, and no name occurs
/// twice.
pub open spec fn hands_on(parameters: Seq<Token>, arguments: Seq<Token>) -> bool {
    let count = (parameters.len() + 1) / 4;
    &&& parameters.len() == 4 * count - 1
    &&& arguments.len() == 2 * count - 1
    &&& forall|i: int|
        0 <= i < count ==> {
            &&& (#[trigger] arguments[2 * i]) is Ident
            &&& parameters[4 * i] == arguments[2 * i]
            &&& parameters[4 * i + 1] == Token::Punct(':', false)
            &&& parameters[4 * i + 2] == Token::Ident("f64"@)
        }
    &&& forall|i: int|
        0 <= i < count - 1 ==> {
            &&& (#[trigger] arguments[2 * i + 1]) == Token::Punct(',', false)
            &&& parameters[4 * i + 3] == Token::Punct(',', false)
        }
    &&& forall|i: int, j: int|
        0 <= i < j < count ==> #[trigger] arguments[2 * i] != #[trigger] arguments[2 * j]
}

/// The definition of a function is called as asked for, and calls the method of `f64` by whose name
/// an expression calls the function; only `pow` calls `powf`, and `pi` is a constant. The arguments
/// are handed on as they come, as many as the function takes.
#[verifier::spinoff_prover]
#[verifier::rlimit(60)]
pub proof fn law_definition_calls_namesake(f: MathFunction, name: Seq<char>, fn_name: Seq<char>)
    requires
        name == f.key(),
    ensures
        ({
            let code = f.tokens(fn_name);
            &&& code.len() == 7
            &&& code[0] == Token::Ident("fn"@)
            &&& code[1] == Token::Ident(fn_name)
            &&& code[5] == Token::Ident("f64"@)
            &&& code[2] matches Token::Group(Bracketing::Parenthesis, parameters)
            &&& code[6] matches Token::Group(Bracketing::Brace, body)
            &&& if name == "pi"@ {
                &&& parameters.len() == 0
                &&& body.len() == 10
                &&& body[0] == Token::Ident("std"@)
                &&& body[3] == Token::Ident("f64"@)
                &&& body[6] == Token::Ident("consts"@)
                &&& body[9] == Token::Ident("PI"@)
            } else {
                &&& parameters.len() + 1 == 4 * f.arity()
                &&& body.len() == 5
                &&& body[0] == Token::Ident("f64"@)
                &&& body[1] == Token::Punct(':', true)
                &&& body[2] == Token::Punct(':', false)
                &&& body[3] == Token::Ident(
                    if name == "pow"@ {
                        "powf"@
                    } else {
                        name
                    },
                )
                &&& body[4] matches Token::Group(Bracketing::Parenthesis, arguments)
                &&& hands_on(parameters, arguments)
            }
        }),
{
    reveal_strlit("a");
    reveal_strlit("b");
    reveal_with_fuel(tokens::path, 5);
    law_names_unique(f, MathFunction::Pi);
    law_names_unique(f, MathFunction::Pow);
    assert("a"@[0] != "b"@[0]);
    let code = f.tokens(fn_name);
    let body = f.body_tokens();
    let segments = seq!["f64"@, f.method()];
    assert(segments.drop_last() =~= seq!["f64"@]);
    let constant = seq!["std"@, "f64"@, "consts"@, "PI"@];
    assert(constant.drop_last() =~= seq!["std"@, "f64"@, "consts"@]);
    assert(constant.drop_last().drop_last() =~= seq!["std"@, "f64"@]);
    assert(constant.drop_last().drop_last().drop_last() =~= seq!["std"@]);
    if f != MathFunction::Pi {
        let parameters = parameter_list(f.arity());
        let arguments = argument_list(f.arity());
        assert forall|i: int, j: int| 0 <= i < j < f.arity() implies #[trigger] arguments[2 * i]
            != #[trigger] arguments[2 * j] by {
            assert(i == 0 && j == 1);
            assert(arguments[0] == Token::Ident("a"@));
            assert(arguments[2] == Token::Ident("b"@));
        }
    }
}

/// Whether a function combines two numbers, rather than being one of a single number.
pub open spec fn combines(name: Seq<char>) -> bool {
    name == "min"@ || name == "max"@ || name == "pow"@
}

/// Functions that combine two numbers take two, a constant takes none, and all others one.
pub proof fn law_argument_count(f: MathFunction, name: Seq<char>)
    requires
        name == f.key(),
    ensures
        f.arity() == 2 <==> combines(name),
        f.arity() == 0 <==> name == "pi"@,
        f.arity() <= 2,
{
    law_names_unique(f, MathFunction::Min);
    law_names_unique(f, MathFunction::Max);
    law_names_unique(f, MathFunction::Pow);
    law_names_unique(f, MathFunction::Pi);
}

} // verus!
