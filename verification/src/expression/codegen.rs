//! Expressions as abstract syntax trees, and the Rust code that they stand for.

use crate::text::text_precedes;
use crate::{text, tokens};
use crate::tokens::{
    check_identifier, push_bracketed, push_ident, push_mark, push_operator, push_path, push_stream,
    push_string_literal, push_word, stream_text, Bracketing, Token,
};
use proc_macro2::TokenStream;
use vstd::prelude::*;
use vstd::std_specs::convert::FromSpecImpl;
use vstd::string::*;

verus! {

/// Why an expression cannot be built.
#[derive(Debug, Clone, Copy, PartialEq, Eq, Structural)]
pub enum ExpressionParserError {
    /// The name of the expression is empty.
    EmptyExpressionName,
}

/// A name in an expression.
#[derive(Debug, PartialEq, Eq, PartialOrd, Ord, Hash)]
pub struct Identifier(String);

impl Clone for Identifier {
    fn clone(&self) -> (r: Self)
        ensures
            r == *self,
    {
        Self(self.0.clone())
    }
}

impl View for Identifier {
    type V = Seq<char>;

    closed spec fn view(&self) -> Seq<char> {
        self.0@
    }
}

impl FromSpecImpl<String> for Identifier {
    open spec fn obeys_from_spec() -> bool {
        true
    }

    closed spec fn from_spec(s: String) -> Identifier {
        Identifier(s)
    }
}

impl From<String> for Identifier {
    fn from(s: String) -> (r: Self)
        ensures
            r@ == s@,
    {
        Self(s)
    }
}

impl FromSpecImpl<&str> for Identifier {
    open spec fn obeys_from_spec() -> bool {
        false
    }

    open spec fn from_spec(s: &str) -> Identifier {
        choose|i: Identifier| i@ == s@
    }
}

impl From<&str> for Identifier {
    fn from(s: &str) -> (r: Self)
        ensures
            r@ == s@,
    {
        Self(s.to_string())
    }
}

impl FromSpecImpl<&String> for Identifier {
    open spec fn obeys_from_spec() -> bool {
        true
    }

    closed spec fn from_spec(s: &String) -> Identifier {
        Identifier(*s)
    }
}

impl From<&String> for Identifier {
    fn from(s: &String) -> (r: Self)
        ensures
            r@ == s@,
    {
        Self(s.clone())
    }
}

impl AsRef<str> for Identifier {
    fn as_ref(&self) -> (r: &str)
        ensures
            r@ == self@,
    {
        self.0.as_str()
    }
}

impl Identifier {
    /// The name as a text.
    pub fn to_string(&self) -> (r: String)
        ensures
            r@ == self@,
    {
        self.0.clone()
    }

    /// Appends the identifier token of this name.
    pub fn to_tokens(&self, tokens: &mut TokenStream)
        requires
            tokens::is_identifier(self@),
        ensures
            tokens::appends(*old(tokens), *final(tokens), tokens::ident(self@)),
    {
        push_ident(tokens, self.0.as_str());
    }
}

/// The type of a value in an expression.
#[derive(Debug, Clone, Copy, PartialEq, Eq, PartialOrd, Ord, Hash, Structural)]
pub enum DataType {
    Number,
    MultiPoint,
    MultiLineString,
    MultiPolygon,
}

/// The words that emitted code consists of are identifiers or keywords.
pub(crate) proof fn lemma_code_words()
    ensures
        tokens::is_plain_identifier("f64"@),
        tokens::is_plain_identifier("geo"@),
        tokens::is_plain_identifier("geometry"@),
        tokens::is_plain_identifier("MultiPoint"@),
        tokens::is_plain_identifier("Point"@),
        tokens::is_plain_identifier("MultiLineString"@),
        tokens::is_plain_identifier("LineString"@),
        tokens::is_plain_identifier("MultiPolygon"@),
        tokens::is_plain_identifier("Polygon"@),
        tokens::is_plain_identifier("Some"@),
        tokens::is_plain_identifier("None"@),
        tokens::is_plain_identifier("Option"@),
        tokens::is_plain_identifier("true"@),
        tokens::is_plain_identifier("false"@),
        tokens::is_plain_identifier("if"@),
        tokens::is_plain_identifier("else"@),
        tokens::is_plain_identifier("let"@),
        tokens::is_plain_identifier("fn"@),
        tokens::is_plain_identifier("pub"@),
        tokens::is_plain_identifier("extern"@),
        tokens::is_plain_identifier("no_mangle"@),
        tokens::is_plain_identifier("inline"@),
{
    reveal_strlit("f64");
    reveal_strlit("geo");
    reveal_strlit("geometry");
    reveal_strlit("MultiPoint");
    reveal_strlit("Point");
    reveal_strlit("MultiLineString");
    reveal_strlit("LineString");
    reveal_strlit("MultiPolygon");
    reveal_strlit("Polygon");
    reveal_strlit("Some");
    reveal_strlit("None");
    reveal_strlit("Option");
    reveal_strlit("true");
    reveal_strlit("false");
    reveal_strlit("if");
    reveal_strlit("else");
    reveal_strlit("let");
    reveal_strlit("fn");
    reveal_strlit("pub");
    reveal_strlit("extern");
    reveal_strlit("no_mangle");
    reveal_strlit("inline");
}

/// The type of a geometry collection: `geo::geometry::outer<geo::inner<f64>>`.
pub open spec fn geometry_tokens(outer: Seq<char>, inner: Seq<char>) -> Seq<Token> {
    tokens::path(seq!["geo"@, "geometry"@, outer]) + tokens::punct('<')
        + tokens::path(seq!["geo"@, inner]) + tokens::punct('<')
        + tokens::ident("f64"@) + tokens::operator('>', '>')
}

fn geometry_to_tokens(outer: &str, inner: &str, tokens: &mut TokenStream)
    requires
        tokens::is_plain_identifier(outer@),
        tokens::is_plain_identifier(inner@),
    ensures
        tokens::appends(*old(tokens), *final(tokens), geometry_tokens(outer@, inner@)),
{
    proof {
        lemma_code_words();
    }
    let first = vec!["geo", "geometry", outer];
    assert(tokens::segment_texts(first@) =~= seq!["geo"@, "geometry"@, outer@]);
    push_path(tokens, first.as_slice());
    push_mark(tokens, '<');
    let second = vec!["geo", inner];
    assert(tokens::segment_texts(second@) =~= seq!["geo"@, inner@]);
    push_path(tokens, second.as_slice());
    push_mark(tokens, '<');
    push_word(tokens, "f64");
    push_operator(tokens, '>', '>');
    assert(tokens::stream_tokens(*tokens) =~= tokens::stream_tokens(*old(tokens))
        + geometry_tokens(outer@, inner@));
}

impl DataType {
    /// The Rust type of a value.
    pub open spec fn tokens(self) -> Seq<Token> {
        match self {
            DataType::Number => tokens::ident("f64"@),
            DataType::MultiPoint => geometry_tokens("MultiPoint"@, "Point"@),
            DataType::MultiLineString => geometry_tokens("MultiLineString"@, "LineString"@),
            DataType::MultiPolygon => geometry_tokens("MultiPolygon"@, "Polygon"@),
        }
    }

    /// The full name of the type.
    pub open spec fn display(self) -> Seq<char> {
        match self {
            DataType::Number => "number"@,
            DataType::MultiPoint => "geometry (multipoint)"@,
            DataType::MultiLineString => "geometry (multilinestring)"@,
            DataType::MultiPolygon => "geometry (multipolygon)"@,
        }
    }

    /// The letter of the type.
    pub open spec fn suffix(self) -> char {
        match self {
            DataType::Number => 'n',
            DataType::MultiPoint => 'p',
            DataType::MultiLineString => 'l',
            DataType::MultiPolygon => 'q',
        }
    }

    /// The full name of the type.
    pub fn to_string(&self) -> (r: String)
        ensures
            r@ == self.display(),
    {
        let s = match self {
            Self::Number => "number",
            Self::MultiPoint => "geometry (multipoint)",
            Self::MultiLineString => "geometry (multilinestring)",
            Self::MultiPolygon => "geometry (multipolygon)",
        };
        s.to_string()
    }

    /// Appends the Rust type.
    pub fn to_tokens(&self, tokens: &mut TokenStream)
        ensures
            tokens::appends(*old(tokens), *final(tokens), self.tokens()),
    {
        proof {
            lemma_code_words();
        }
        match self {
            Self::Number => push_word(tokens, "f64"),
            Self::MultiPoint => geometry_to_tokens("MultiPoint", "Point", tokens),
            Self::MultiLineString => geometry_to_tokens("MultiLineString", "LineString", tokens),
            Self::MultiPolygon => geometry_to_tokens("MultiPolygon", "Polygon", tokens),
        }
    }

    /// The kind of value: a number or a geometry.
    pub fn group_name(&self) -> (r: &str)
        ensures
            r@ == if *self == DataType::Number {
                "number"@
            } else {
                "geometry"@
            },
    {
        match self {
            Self::Number => "number",
            Self::MultiPoint | Self::MultiLineString | Self::MultiPolygon => "geometry",
        }
    }

    /// A unique short name without spaces, etc.
    pub fn call_name_suffix(self) -> (r: char)
        ensures
            r == self.suffix(),
    {
        match self {
            Self::Number => 'n',
            Self::MultiPoint => 'p',
            Self::MultiLineString => 'l',
            Self::MultiPolygon => 'q',
        }
    }
}

/// No two data types share a short name.
pub proof fn law_call_name_suffix_unique(a: DataType, b: DataType)
    ensures
        a.suffix() == b.suffix() <==> a == b,
{
}

/// A parameter of an expression.
#[derive(Debug)]
pub enum Parameter {
    Number(Identifier),
    MultiPoint(Identifier),
    MultiLineString(Identifier),
    MultiPolygon(Identifier),
}

impl Clone for Parameter {
    fn clone(&self) -> (r: Self)
        ensures
            r == *self,
    {
        match self {
            Self::Number(identifier) => Self::Number(identifier.clone()),
            Self::MultiPoint(identifier) => Self::MultiPoint(identifier.clone()),
            Self::MultiLineString(identifier) => Self::MultiLineString(identifier.clone()),
            Self::MultiPolygon(identifier) => Self::MultiPolygon(identifier.clone()),
        }
    }
}

impl Parameter {
    /// The name of the parameter.
    pub open spec fn name(self) -> Identifier {
        match self {
            Parameter::Number(identifier) => identifier,
            Parameter::MultiPoint(identifier) => identifier,
            Parameter::MultiLineString(identifier) => identifier,
            Parameter::MultiPolygon(identifier) => identifier,
        }
    }

    /// The type of the parameter.
    pub open spec fn value_type(self) -> DataType {
        match self {
            Parameter::Number(_) => DataType::Number,
            Parameter::MultiPoint(_) => DataType::MultiPoint,
            Parameter::MultiLineString(_) => DataType::MultiLineString,
            Parameter::MultiPolygon(_) => DataType::MultiPolygon,
        }
    }

    /// The declaration of the parameter: `name: Option<type>`.
    pub open spec fn tokens(self) -> Seq<Token> {
        tokens::ident(self.name()@) + tokens::punct(':') + tokens::ident("Option"@)
            + tokens::punct('<') + self.value_type().tokens() + tokens::punct('>')
    }

    /// The name of the parameter.
    pub fn identifier(&self) -> (r: &Identifier)
        ensures
            *r == self.name(),
    {
        match self {
            Self::Number(identifier) | Self::MultiPoint(identifier) | Self::MultiLineString(
                identifier,
            ) | Self::MultiPolygon(identifier) => identifier,
        }
    }

    /// The type of the parameter.
    pub fn data_type(&self) -> (r: DataType)
        ensures
            r == self.value_type(),
    {
        match self {
            Self::Number(_) => DataType::Number,
            Self::MultiPoint(_) => DataType::MultiPoint,
            Self::MultiLineString(_) => DataType::MultiLineString,
            Self::MultiPolygon(_) => DataType::MultiPolygon,
        }
    }

    /// Appends the declaration of the parameter.
    pub fn to_tokens(&self, tokens: &mut TokenStream)
        requires
            tokens::is_identifier(self.name()@),
        ensures
            tokens::appends(*old(tokens), *final(tokens), self.tokens()),
    {
        proof {
            lemma_code_words();
        }
        self.identifier().to_tokens(tokens);
        push_mark(tokens, ':');
        push_word(tokens, "Option");
        push_mark(tokens, '<');
        self.data_type().to_tokens(tokens);
        push_mark(tokens, '>');
        assert(tokens::stream_tokens(*tokens) =~= tokens::stream_tokens(*old(tokens))
            + self.tokens());
    }
}

impl AsRef<str> for Parameter {
    fn as_ref(&self) -> (r: &str)
        ensures
            r@ == self.name()@,
    {
        self.identifier().as_ref()
    }
}

/// A comparison of two values.
#[derive(Debug, Clone, Copy, PartialEq, Eq, Structural)]
pub enum BooleanComparator {
    Equal,
    NotEqual,
    LessThan,
    LessThanOrEqual,
    GreaterThan,
    GreaterThanOrEqual,
}

impl BooleanComparator {
    /// The operator of the comparison.
    pub open spec fn tokens(self) -> Seq<Token> {
        match self {
            BooleanComparator::Equal => tokens::operator('=', '='),
            BooleanComparator::NotEqual => tokens::operator('!', '='),
            BooleanComparator::LessThan => tokens::punct('<'),
            BooleanComparator::LessThanOrEqual => tokens::operator('<', '='),
            BooleanComparator::GreaterThan => tokens::punct('>'),
            BooleanComparator::GreaterThanOrEqual => tokens::operator('>', '='),
        }
    }

    /// Appends the operator.
    pub fn to_tokens(&self, tokens: &mut TokenStream)
        ensures
            tokens::appends(*old(tokens), *final(tokens), self.tokens()),
    {
        match self {
            Self::Equal => push_operator(tokens, '=', '='),
            Self::NotEqual => push_operator(tokens, '!', '='),
            Self::LessThan => push_mark(tokens, '<'),
            Self::LessThanOrEqual => push_operator(tokens, '<', '='),
            Self::GreaterThan => push_mark(tokens, '>'),
            Self::GreaterThanOrEqual => push_operator(tokens, '>', '='),
        }
    }
}

/// A connection of two conditions.
#[derive(Debug, Clone, Copy, PartialEq, Eq, Structural)]
pub enum BooleanOperator {
    And,
    Or,
}

impl BooleanOperator {
    /// The operator of the connection.
    pub open spec fn tokens(self) -> Seq<Token> {
        match self {
            BooleanOperator::And => tokens::operator('&', '&'),
            BooleanOperator::Or => tokens::operator('|', '|'),
        }
    }

    /// Appends the operator.
    pub fn to_tokens(&self, tokens: &mut TokenStream)
        ensures
            tokens::appends(*old(tokens), *final(tokens), self.tokens()),
    {
        match self {
            Self::And => push_operator(tokens, '&', '&'),
            Self::Or => push_operator(tokens, '|', '|'),
        }
    }
}

/// A function that an expression can call: its name, the type of its result, and the code that
/// defines it.
#[derive(Debug)]
pub struct Function {
    name: Identifier,
    output_type: DataType,
    definition: TokenStream,
}

/// Whether two functions have the same name, result and definition.
pub open spec fn same_function(a: Function, b: Function) -> bool {
    a.name_view() == b.name_view() && a.result_type() == b.result_type() && a.tokens()
        == b.tokens()
}

impl Clone for Function {
    fn clone(&self) -> (r: Self)
        ensures
            same_function(*self, r),
    {
        Self {
            name: self.name.clone(),
            output_type: self.output_type,
            definition: self.definition.clone(),
        }
    }
}

impl Function {
    /// The name of the function.
    pub closed spec fn name_view(self) -> Seq<char> {
        self.name@
    }

    /// The type of the result.
    pub closed spec fn result_type(self) -> DataType {
        self.output_type
    }

    /// The code that defines the function.
    pub closed spec fn tokens(self) -> Seq<Token> {
        tokens::stream_tokens(self.definition)
    }

    /// A function with the given name and result that `definition` defines.
    pub fn new(name: Identifier, output_type: DataType, definition: TokenStream) -> (r: Self)
        ensures
            r.name_view() == name@,
            r.result_type() == output_type,
            r.tokens() == tokens::stream_tokens(definition),
    {
        Self { name, output_type, definition }
    }

    /// The name of the function.
    pub fn name(&self) -> (r: &Identifier)
        ensures
            r@ == self.name_view(),
    {
        &self.name
    }

    /// The type of the result.
    pub fn output_type(&self) -> (r: DataType)
        ensures
            r == self.result_type(),
    {
        self.output_type
    }

    /// Appends the code that defines the function.
    pub fn to_tokens(&self, tokens: &mut TokenStream)
        ensures
            tokens::appends(*old(tokens), *final(tokens), self.tokens()),
    {
        push_stream(tokens, &self.definition);
    }
}

/// A function that an expression uses.
#[derive(Debug)]
pub struct AstFunction {
    pub function: Function,
}

impl Clone for AstFunction {
    fn clone(&self) -> (r: Self)
        ensures
            same_function(self.function, r.function),
    {
        Self { function: self.function.clone() }
    }
}

/// An attribute: `#[name]`.
pub open spec fn attribute_tokens(name: Seq<char>) -> Seq<Token> {
    tokens::punct('#') + tokens::group(Bracketing::Bracket, tokens::ident(name))
}

fn attribute_to_tokens(name: &str, tokens: &mut TokenStream)
    requires
        tokens::is_plain_identifier(name@),
    ensures
        tokens::appends(*old(tokens), *final(tokens), attribute_tokens(name@)),
{
    push_mark(tokens, '#');
    let mut content = TokenStream::new();
    push_word(&mut content, name);
    assert(tokens::stream_tokens(content) =~= tokens::ident(name@));
    push_bracketed(tokens, Bracketing::Bracket, content);
    assert(tokens::stream_tokens(*tokens) =~= tokens::stream_tokens(*old(tokens))
        + attribute_tokens(name@));
}

impl AstFunction {
    /// The definition of the function, to be inlined.
    pub open spec fn tokens(self) -> Seq<Token> {
        attribute_tokens("inline"@) + self.function.tokens()
    }

    /// Appends the definition of the function.
    pub fn to_tokens(&self, tokens: &mut TokenStream)
        ensures
            tokens::appends(*old(tokens), *final(tokens), self.tokens()),
    {
        proof {
            lemma_code_words();
        }
        attribute_to_tokens("inline", tokens);
        self.function.to_tokens(tokens);
        assert(tokens::stream_tokens(*tokens) =~= tokens::stream_tokens(*old(tokens))
            + self.tokens());
    }
}

/// A set of functions, ordered by their names.
#[derive(Debug)]
pub struct FunctionSet {
    items: Vec<AstFunction>,
}

/// Whether two lists hold the same functions.
pub open spec fn same_functions(a: Seq<AstFunction>, b: Seq<AstFunction>) -> bool {
    &&& a.len() == b.len()
    &&& forall|i: int|
        #![trigger a[i]]
        #![trigger b[i]]
        0 <= i < a.len() ==> same_function(a[i].function, b[i].function)
}

impl Clone for FunctionSet {
    fn clone(&self) -> (r: Self)
        ensures
            same_functions(self@, r@),
    {
        let mut items: Vec<AstFunction> = Vec::new();
        for i in 0..self.items.len()
            invariant
                same_functions(self.items@.take(i as int), items@),
        {
            let ghost before = items@;
            items.push(self.items[i].clone());
            assert forall|j: int|
                #![trigger self.items@.take(i + 1)[j]]
                #![trigger items@[j]]
                0 <= j <= i implies same_function(
                self.items@.take(i + 1)[j].function,
                items@[j].function,
            ) by {
                if j < i {
                    assert(self.items@.take(i + 1)[j] == self.items@.take(i as int)[j]);
                    assert(items@[j] == before[j]);
                }
            }
        }
        assert(self.items@.take(self.items@.len() as int) =~= self.items@);
        Self { items }
    }
}

/// Whether the functions stand in strictly ascending order of their names.
pub open spec fn ascending(functions: Seq<AstFunction>) -> bool {
    forall|i: int, j: int|
        0 <= i < j < functions.len() ==> text::precedes(
            #[trigger] functions[i].function.name_view(),
            #[trigger] functions[j].function.name_view(),
        )
}

/// Whether one of the functions has the given name.
pub open spec fn has_function(functions: Seq<AstFunction>, name: Seq<char>) -> bool {
    exists|i: int|
        0 <= i < functions.len() && #[trigger] functions[i].function.name_view() == name
}

impl View for FunctionSet {
    type V = Seq<AstFunction>;

    closed spec fn view(&self) -> Seq<AstFunction> {
        self.items@
    }
}

impl FunctionSet {
    /// The functions stand in order and none of them occurs twice.
    pub open spec fn wf(self) -> bool {
        ascending(self@)
    }

    /// The empty set.
    pub fn new() -> (r: Self)
        ensures
            r@ == Seq::<AstFunction>::empty(),
            r.wf(),
    {
        Self { items: Vec::new() }
    }

    /// Adds a function at its place in the order, unless the set has one of its name.
    pub fn insert(&mut self, function: AstFunction) -> (r: bool)
        requires
            old(self).wf(),
        ensures
            final(self).wf(),
            r == !has_function(old(self)@, function.function.name_view()),
            !r ==> final(self)@ == old(self)@,
            r ==> exists|k: int|
                0 <= k <= old(self)@.len() && final(self)@ == #[trigger] old(self)@.insert(
                    k,
                    function,
                ),
    {
        let name = function.function.name();
        let ghost key = name@;
        let ghost before = self.items@;
        let mut k: usize = 0;
        while k < self.items.len() && text_precedes(
            self.items[k].function.name().as_ref(),
            name.as_ref(),
        )
            invariant
                k <= self.items.len(),
                self.items@ == before,
                key == name@,
                forall|i: int|
                    0 <= i < k ==> text::precedes(
                        #[trigger] before[i].function.name_view(),
                        key,
                    ),
            ensures
                k <= self.items.len(),
                self.items@ == before,
                forall|i: int|
                    0 <= i < k ==> text::precedes(
                        #[trigger] before[i].function.name_view(),
                        key,
                    ),
                k < self.items.len() ==> !text::precedes(before[k as int].function.name_view(), key),
            decreases self.items.len() - k,
        {
            k = k + 1;
        }
        proof {
            text::lemma_precedes_irreflexive(key);
        }
        if k < self.items.len() && !text_precedes(
            name.as_ref(),
            self.items[k].function.name().as_ref(),
        ) {
            proof {
                text::lemma_precedes_total(before[k as int].function.name_view(), key);
            }
            return false;
        }
        proof {
            assert forall|j: int| k <= j < before.len() implies text::precedes(
                key,
                #[trigger] before[j].function.name_view(),
            ) by {
                if j > k {
                    text::lemma_precedes_transitive(
                        key,
                        before[k as int].function.name_view(),
                        before[j].function.name_view(),
                    );
                }
            }
            assert(!has_function(before, key));
        }
        self.items.insert(k, function);
        proof {
            let after = self.items@;
            assert(after =~= before.insert(k as int, function));
            assert forall|i: int, j: int| 0 <= i < j < after.len() implies text::precedes(
                #[trigger] after[i].function.name_view(),
                #[trigger] after[j].function.name_view(),
            ) by {
                if i == k {
                    assert(after[j] == before[j - 1]);
                } else if j == k {
                    assert(after[i] == before[i]);
                } else {
                    let p = if i < k {
                        i
                    } else {
                        i - 1
                    };
                    let q = if j < k {
                        j
                    } else {
                        j - 1
                    };
                    assert(after[i] == before[p] && after[j] == before[q]);
                }
            }
        }
        true
    }
}

/// A node of an expression.
#[derive(Debug)]
pub enum AstNode {
    /// A number, as the tokens of its literal.
    Constant(TokenStream),
    NoData,
    Variable { name: Identifier, data_type: DataType },
    Function { function: Function, args: Vec<AstNode> },
    Branch { condition_branches: Vec<Branch>, else_branch: Box<AstNode> },
    AssignmentsAndExpression { assignments: Vec<Assignment>, expression: Box<AstNode> },
}

/// A condition with the value that holds under it.
#[derive(Debug)]
pub struct Branch {
    pub condition: BooleanExpression,
    pub body: AstNode,
}

/// A condition.
#[derive(Debug)]
#[allow(inconsistent_fields)]
pub enum BooleanExpression {
    Constant(bool),
    Comparison { left: Box<AstNode>, op: BooleanComparator, right: Box<AstNode> },
    Operation { left: Box<BooleanExpression>, op: BooleanOperator, right: Box<BooleanExpression> },
}

/// A local variable with its value.
#[derive(Debug)]
pub struct Assignment {
    pub identifier: Identifier,
    pub expression: AstNode,
}

/// The type of a node's value.
pub open spec fn node_type(node: AstNode) -> DataType
    decreases node,
{
    match node {
        AstNode::Constant(_) => DataType::Number,
        AstNode::NoData => DataType::Number,
        AstNode::Variable { name, data_type } => data_type,
        AstNode::Function { function, args } => function.result_type(),
        AstNode::Branch { condition_branches, else_branch } => node_type(*else_branch),
        AstNode::AssignmentsAndExpression { assignments, expression } => node_type(*expression),
    }
}

/// The code of a node.
pub open spec fn node_tokens(node: AstNode) -> Seq<Token>
    decreases node, 0nat,
{
    match node {
        AstNode::Constant(literal) => tokens::ident("Some"@) + tokens::group(
            Bracketing::Parenthesis,
            tokens::stream_tokens(literal),
        ),
        AstNode::NoData => tokens::ident("None"@),
        AstNode::Variable { name, data_type } => tokens::ident(name@),
        AstNode::Function { function, args } => tokens::ident(function.name_view())
            + tokens::group(Bracketing::Parenthesis, argument_tokens(args@, args@.len())),
        AstNode::Branch { condition_branches, else_branch } => branch_tokens(
            condition_branches@,
            condition_branches@.len(),
        ) + tokens::ident("else"@) + tokens::group(Bracketing::Brace, node_tokens(*else_branch)),
        AstNode::AssignmentsAndExpression { assignments, expression } => assignment_tokens(
            assignments@,
            assignments@.len(),
        ) + node_tokens(*expression),
    }
}

/// The code of the first `n` arguments, separated by commas.
pub open spec fn argument_tokens(args: Seq<AstNode>, n: nat) -> Seq<Token>
    decreases args, n,
{
    if n == 0 || n > args.len() {
        Seq::empty()
    } else if n == 1 {
        node_tokens(args[0])
    } else {
        argument_tokens(args, (n - 1) as nat) + tokens::punct(',') + node_tokens(args[n - 1])
    }
}

/// The code of the first `n` branches: `if` for the first one, `else if` for the others.
pub open spec fn branch_tokens(branches: Seq<Branch>, n: nat) -> Seq<Token>
    decreases branches, n,
{
    if n == 0 || n > branches.len() {
        Seq::empty()
    } else {
        branch_tokens(branches, (n - 1) as nat) + if n == 1 {
            Seq::empty()
        } else {
            tokens::ident("else"@)
        } + guarded_tokens(branches[n - 1])
    }
}

/// The code of a single branch: `if condition { body }`.
pub open spec fn guarded_tokens(branch: Branch) -> Seq<Token>
    decreases branch, 0nat,
{
    tokens::ident("if"@) + condition_tokens(branch.condition) + tokens::group(
        Bracketing::Brace,
        node_tokens(branch.body),
    )
}

/// The code of a condition. Every operand and every operation is parenthesized.
pub open spec fn condition_tokens(condition: BooleanExpression) -> Seq<Token>
    decreases condition, 0nat,
{
    match condition {
        BooleanExpression::Constant(b) => tokens::ident(
            if b {
                "true"@
            } else {
                "false"@
            },
        ),
        BooleanExpression::Comparison { left, op, right } => tokens::group(
            Bracketing::Parenthesis,
            tokens::group(Bracketing::Parenthesis, node_tokens(*left)) + op.tokens()
                + tokens::group(Bracketing::Parenthesis, node_tokens(*right)),
        ),
        BooleanExpression::Operation { left, op, right } => tokens::group(
            Bracketing::Parenthesis,
            tokens::group(Bracketing::Parenthesis, condition_tokens(*left)) + op.tokens()
                + tokens::group(Bracketing::Parenthesis, condition_tokens(*right)),
        ),
    }
}

/// The code of the first `n` assignments.
pub open spec fn assignment_tokens(assignments: Seq<Assignment>, n: nat) -> Seq<Token>
    decreases assignments, n,
{
    if n == 0 || n > assignments.len() {
        Seq::empty()
    } else {
        assignment_tokens(assignments, (n - 1) as nat) + let_tokens(assignments[n - 1])
    }
}

/// The code of a single assignment: `let identifier = expression;`.
pub open spec fn let_tokens(assignment: Assignment) -> Seq<Token>
    decreases assignment, 0nat,
{
    tokens::ident("let"@) + tokens::ident(assignment.identifier@) + tokens::punct('=')
        + node_tokens(assignment.expression) + tokens::punct(';')
}

/// Whether every name in the code of a node is an identifier of the language.
pub open spec fn node_named(node: AstNode) -> bool
    decreases node,
{
    match node {
        AstNode::Constant(_) => true,
        AstNode::NoData => true,
        AstNode::Variable { name, data_type } => tokens::is_identifier(name@),
        AstNode::Function { function, args } => {
            &&& tokens::is_identifier(function.name_view())
            &&& forall|i: int| 0 <= i < args@.len() ==> node_named(#[trigger] args@[i])
        },
        AstNode::Branch { condition_branches, else_branch } => {
            &&& forall|i: int|
                0 <= i < condition_branches@.len() ==> branch_named(
                    #[trigger] condition_branches@[i],
                )
            &&& node_named(*else_branch)
        },
        AstNode::AssignmentsAndExpression { assignments, expression } => {
            &&& forall|i: int|
                0 <= i < assignments@.len() ==> assignment_named(#[trigger] assignments@[i])
            &&& node_named(*expression)
        },
    }
}

/// Whether every name in the code of a branch is an identifier of the language.
pub open spec fn branch_named(branch: Branch) -> bool
    decreases branch,
{
    condition_named(branch.condition) && node_named(branch.body)
}

/// Whether every name in the code of a condition is an identifier of the language.
pub open spec fn condition_named(condition: BooleanExpression) -> bool
    decreases condition,
{
    match condition {
        BooleanExpression::Constant(_) => true,
        BooleanExpression::Comparison { left, op, right } => node_named(*left) && node_named(
            *right,
        ),
        BooleanExpression::Operation { left, op, right } => condition_named(*left)
            && condition_named(*right),
    }
}

/// Whether every name in the code of an assignment is an identifier of the language.
pub open spec fn assignment_named(assignment: Assignment) -> bool
    decreases assignment,
{
    tokens::is_identifier(assignment.identifier@) && node_named(assignment.expression)
}

/// Whether two nodes are the same tree: of the same kind, with equal names, types and operators,
/// with literals and definitions of the same tokens, and with the same nodes below them.
pub open spec fn same_node(a: AstNode, b: AstNode) -> bool
    decreases a,
{
    match (a, b) {
        (AstNode::Constant(x), AstNode::Constant(y)) => tokens::stream_tokens(x)
            == tokens::stream_tokens(y),
        (AstNode::NoData, AstNode::NoData) => true,
        (
            AstNode::Variable { name, data_type },
            AstNode::Variable { name: other_name, data_type: other_type },
        ) => name == other_name && data_type == other_type,
        (
            AstNode::Function { function, args },
            AstNode::Function { function: other_function, args: other_args },
        ) => {
            &&& same_function(function, other_function)
            &&& args@.len() == other_args@.len()
            &&& forall|i: int|
                0 <= i < args@.len() ==> same_node(#[trigger] args@[i], other_args@[i])
        },
        (
            AstNode::Branch { condition_branches, else_branch },
            AstNode::Branch { condition_branches: other_branches, else_branch: other_else },
        ) => {
            &&& condition_branches@.len() == other_branches@.len()
            &&& forall|i: int|
                0 <= i < condition_branches@.len() ==> same_branch(
                    #[trigger] condition_branches@[i],
                    other_branches@[i],
                )
            &&& same_node(*else_branch, *other_else)
        },
        (
            AstNode::AssignmentsAndExpression { assignments, expression },
            AstNode::AssignmentsAndExpression {
                assignments: other_assignments,
                expression: other_expression,
            },
        ) => {
            &&& assignments@.len() == other_assignments@.len()
            &&& forall|i: int|
                0 <= i < assignments@.len() ==> same_assignment(
                    #[trigger] assignments@[i],
                    other_assignments@[i],
                )
            &&& same_node(*expression, *other_expression)
        },
        _ => false,
    }
}

/// Whether two conditions are the same tree.
pub open spec fn same_condition(a: BooleanExpression, b: BooleanExpression) -> bool
    decreases a,
{
    match (a, b) {
        (BooleanExpression::Constant(x), BooleanExpression::Constant(y)) => x == y,
        (
            BooleanExpression::Comparison { left, op, right },
            BooleanExpression::Comparison { left: other_left, op: other_op, right: other_right },
        ) => op == other_op && same_node(*left, *other_left) && same_node(*right, *other_right),
        (
            BooleanExpression::Operation { left, op, right },
            BooleanExpression::Operation { left: other_left, op: other_op, right: other_right },
        ) => op == other_op && same_condition(*left, *other_left) && same_condition(
            *right,
            *other_right,
        ),
        _ => false,
    }
}

/// Whether two branches are the same tree.
pub open spec fn same_branch(a: Branch, b: Branch) -> bool
    decreases a,
{
    same_condition(a.condition, b.condition) && same_node(a.body, b.body)
}

/// Whether two assignments are the same tree.
pub open spec fn same_assignment(a: Assignment, b: Assignment) -> bool
    decreases a,
{
    a.identifier == b.identifier && same_node(a.expression, b.expression)
}

/// The same tree has the same type and the same code, and names that are valid alike.
pub proof fn law_same_node_same_code(a: AstNode, b: AstNode)
    requires
        same_node(a, b),
    ensures
        node_type(a) == node_type(b),
        node_tokens(a) == node_tokens(b),
        node_named(a) == node_named(b),
    decreases a, 0nat,
{
    match (a, b) {
        (
            AstNode::Function { function, args },
            AstNode::Function { function: other_function, args: other_args },
        ) => {
            lemma_same_arguments(args@, other_args@, args@.len());
        },
        (
            AstNode::Branch { condition_branches, else_branch },
            AstNode::Branch { condition_branches: other_branches, else_branch: other_else },
        ) => {
            lemma_same_branches(condition_branches@, other_branches@, condition_branches@.len());
            law_same_node_same_code(*else_branch, *other_else);
        },
        (
            AstNode::AssignmentsAndExpression { assignments, expression },
            AstNode::AssignmentsAndExpression {
                assignments: other_assignments,
                expression: other_expression,
            },
        ) => {
            lemma_same_assignments(assignments@, other_assignments@, assignments@.len());
            law_same_node_same_code(*expression, *other_expression);
        },
        _ => {},
    }
    assert(node_tokens(a) =~= node_tokens(b));
}

proof fn lemma_same_condition(a: BooleanExpression, b: BooleanExpression)
    requires
        same_condition(a, b),
    ensures
        condition_tokens(a) == condition_tokens(b),
        condition_named(a) == condition_named(b),
    decreases a, 0nat,
{
    match (a, b) {
        (
            BooleanExpression::Comparison { left, op, right },
            BooleanExpression::Comparison { left: other_left, op: other_op, right: other_right },
        ) => {
            law_same_node_same_code(*left, *other_left);
            law_same_node_same_code(*right, *other_right);
        },
        (
            BooleanExpression::Operation { left, op, right },
            BooleanExpression::Operation { left: other_left, op: other_op, right: other_right },
        ) => {
            lemma_same_condition(*left, *other_left);
            lemma_same_condition(*right, *other_right);
        },
        _ => {},
    }
}

proof fn lemma_same_branch(a: Branch, b: Branch)
    requires
        same_branch(a, b),
    ensures
        guarded_tokens(a) == guarded_tokens(b),
        branch_named(a) == branch_named(b),
    decreases a, 0nat,
{
    lemma_same_condition(a.condition, b.condition);
    law_same_node_same_code(a.body, b.body);
}

proof fn lemma_same_assignment(a: Assignment, b: Assignment)
    requires
        same_assignment(a, b),
    ensures
        let_tokens(a) == let_tokens(b),
        assignment_named(a) == assignment_named(b),
    decreases a, 0nat,
{
    law_same_node_same_code(a.expression, b.expression);
}

proof fn lemma_same_arguments(a: Seq<AstNode>, b: Seq<AstNode>, n: nat)
    requires
        a.len() == b.len(),
        n <= a.len(),
        forall|i: int| 0 <= i < a.len() ==> same_node(#[trigger] a[i], b[i]),
    ensures
        argument_tokens(a, n) == argument_tokens(b, n),
        forall|i: int|
            #![trigger a[i]]
            #![trigger b[i]]
            0 <= i < n ==> node_named(a[i]) == node_named(b[i]),
    decreases a, n,
{
    if n > 0 {
        law_same_node_same_code(a[n - 1], b[n - 1]);
        lemma_same_arguments(a, b, (n - 1) as nat);
    }
}

proof fn lemma_same_branches(a: Seq<Branch>, b: Seq<Branch>, n: nat)
    requires
        a.len() == b.len(),
        n <= a.len(),
        forall|i: int| 0 <= i < a.len() ==> same_branch(#[trigger] a[i], b[i]),
    ensures
        branch_tokens(a, n) == branch_tokens(b, n),
        forall|i: int|
            #![trigger a[i]]
            #![trigger b[i]]
            0 <= i < n ==> branch_named(a[i]) == branch_named(b[i]),
    decreases a, n,
{
    if n > 0 {
        lemma_same_branch(a[n - 1], b[n - 1]);
        lemma_same_branches(a, b, (n - 1) as nat);
    }
}

proof fn lemma_same_assignments(a: Seq<Assignment>, b: Seq<Assignment>, n: nat)
    requires
        a.len() == b.len(),
        n <= a.len(),
        forall|i: int| 0 <= i < a.len() ==> same_assignment(#[trigger] a[i], b[i]),
    ensures
        assignment_tokens(a, n) == assignment_tokens(b, n),
        forall|i: int|
            #![trigger a[i]]
            #![trigger b[i]]
            0 <= i < n ==> assignment_named(a[i]) == assignment_named(b[i]),
    decreases a, n,
{
    if n > 0 {
        lemma_same_assignment(a[n - 1], b[n - 1]);
        lemma_same_assignments(a, b, (n - 1) as nat);
    }
}

fn copy_arguments(args: &Vec<AstNode>) -> (r: Vec<AstNode>)
    ensures
        r@.len() == args@.len(),
        forall|i: int| 0 <= i < args@.len() ==> same_node(#[trigger] args@[i], r@[i]),
    decreases args,
{
    let mut r: Vec<AstNode> = Vec::new();
    for i in 0..args.len()
        invariant
            r@.len() == i,
            forall|j: int| 0 <= j < i ==> same_node(#[trigger] args@[j], r@[j]),
    {
        r.push(args[i].copy());
    }
    r
}

fn copy_branches(branches: &Vec<Branch>) -> (r: Vec<Branch>)
    ensures
        r@.len() == branches@.len(),
        forall|i: int| 0 <= i < branches@.len() ==> same_branch(#[trigger] branches@[i], r@[i]),
    decreases branches,
{
    let mut r: Vec<Branch> = Vec::new();
    for i in 0..branches.len()
        invariant
            r@.len() == i,
            forall|j: int| 0 <= j < i ==> same_branch(#[trigger] branches@[j], r@[j]),
    {
        r.push(branches[i].copy());
    }
    r
}

fn copy_assignments(assignments: &Vec<Assignment>) -> (r: Vec<Assignment>)
    ensures
        r@.len() == assignments@.len(),
        forall|i: int|
            0 <= i < assignments@.len() ==> same_assignment(#[trigger] assignments@[i], r@[i]),
    decreases assignments,
{
    let mut r: Vec<Assignment> = Vec::new();
    for i in 0..assignments.len()
        invariant
            r@.len() == i,
            forall|j: int| 0 <= j < i ==> same_assignment(#[trigger] assignments@[j], r@[j]),
    {
        r.push(assignments[i].copy());
    }
    r
}

impl AstNode {
    fn copy(&self) -> (r: Self)
        ensures
            same_node(*self, r),
        decreases self,
    {
        match self {
            Self::Constant(literal) => Self::Constant(literal.clone()),
            Self::NoData => Self::NoData,
            Self::Variable { name, data_type } => Self::Variable {
                name: name.clone(),
                data_type: *data_type,
            },
            Self::Function { function, args } => Self::Function {
                function: function.clone(),
                args: copy_arguments(args),
            },
            Self::Branch { condition_branches, else_branch } => Self::Branch {
                condition_branches: copy_branches(condition_branches),
                else_branch: Box::new(else_branch.copy()),
            },
            Self::AssignmentsAndExpression { assignments, expression } => {
                Self::AssignmentsAndExpression {
                    assignments: copy_assignments(assignments),
                    expression: Box::new(expression.copy()),
                }
            },
        }
    }
}

impl Clone for AstNode {
    fn clone(&self) -> (r: Self)
        ensures
            same_node(*self, r),
    {
        self.copy()
    }
}

impl Branch {
    fn copy(&self) -> (r: Self)
        ensures
            same_branch(*self, r),
        decreases self,
    {
        Self { condition: self.condition.copy(), body: self.body.copy() }
    }
}

impl Clone for Branch {
    fn clone(&self) -> (r: Self)
        ensures
            same_branch(*self, r),
    {
        self.copy()
    }
}

impl BooleanExpression {
    fn copy(&self) -> (r: Self)
        ensures
            same_condition(*self, r),
        decreases self,
    {
        match self {
            Self::Constant(b) => Self::Constant(*b),
            Self::Comparison { left, op, right } => Self::Comparison {
                left: Box::new(left.copy()),
                op: *op,
                right: Box::new(right.copy()),
            },
            Self::Operation { left, op, right } => Self::Operation {
                left: Box::new(left.copy()),
                op: *op,
                right: Box::new(right.copy()),
            },
        }
    }
}

impl Clone for BooleanExpression {
    fn clone(&self) -> (r: Self)
        ensures
            same_condition(*self, r),
    {
        self.copy()
    }
}

impl Assignment {
    fn copy(&self) -> (r: Self)
        ensures
            same_assignment(*self, r),
        decreases self,
    {
        Self { identifier: self.identifier.clone(), expression: self.expression.copy() }
    }
}

impl Clone for Assignment {
    fn clone(&self) -> (r: Self)
        ensures
            same_assignment(*self, r),
    {
        self.copy()
    }
}

impl AstNode {
    /// The type of the node's value.
    pub fn data_type(&self) -> (r: DataType)
        ensures
            r == node_type(*self),
        decreases self,
    {
        match self {
            // - only support number constants
            // - no data is a number for now
            Self::Constant(_) | Self::NoData => DataType::Number,
            Self::Variable { data_type, .. } => *data_type,
            Self::Function { function, .. } => function.output_type(),
            // we have to check beforehand that all branches have the same type
            Self::Branch { else_branch, .. } => else_branch.data_type(),
            Self::AssignmentsAndExpression { expression, .. } => expression.data_type(),
        }
    }

    /// Appends the code of the node.
    pub fn to_tokens(&self, tokens: &mut TokenStream)
        requires
            node_named(*self),
        ensures
            tokens::appends(*old(tokens), *final(tokens), node_tokens(*self)),
        decreases self,
    {
        proof {
            lemma_code_words();
        }
        match self {
            Self::Constant(literal) => {
                push_word(tokens, "Some");
                push_bracketed(tokens, Bracketing::Parenthesis, literal.clone());
            },
            Self::NoData => push_word(tokens, "None"),
            Self::Variable { name, .. } => name.to_tokens(tokens),
            Self::Function { function, args } => {
                function.name().to_tokens(tokens);
                let mut content = TokenStream::new();
                arguments_to_tokens(args, &mut content);
                assert(tokens::stream_tokens(content) =~= argument_tokens(args@, args@.len()));
                push_bracketed(tokens, Bracketing::Parenthesis, content);
            },
            Self::Branch { condition_branches, else_branch } => {
                branches_to_tokens(condition_branches, tokens);
                push_word(tokens, "else");
                let mut content = TokenStream::new();
                else_branch.to_tokens(&mut content);
                assert(tokens::stream_tokens(content) =~= node_tokens(**else_branch));
                push_bracketed(tokens, Bracketing::Brace, content);
            },
            Self::AssignmentsAndExpression { assignments, expression } => {
                assignments_to_tokens(assignments, tokens);
                expression.to_tokens(tokens);
            },
        }
        assert(tokens::stream_tokens(*tokens) =~= tokens::stream_tokens(*old(tokens))
            + node_tokens(*self));
    }

    /// Tells whether every name in the code of the node is an identifier of the language.
    pub fn names_valid(&self) -> (r: bool)
        ensures
            r == node_named(*self),
        decreases self,
    {
        match self {
            Self::Constant(_) | Self::NoData => true,
            Self::Variable { name, .. } => check_identifier(name.as_ref()),
            Self::Function { function, args } => check_identifier(function.name().as_ref())
                && argument_names_valid(args),
            Self::Branch { condition_branches, else_branch } => branch_names_valid(
                condition_branches,
            ) && else_branch.names_valid(),
            Self::AssignmentsAndExpression { assignments, expression } => assignment_names_valid(
                assignments,
            ) && expression.names_valid(),
        }
    }
}

fn argument_names_valid(args: &Vec<AstNode>) -> (r: bool)
    ensures
        r == (forall|i: int| 0 <= i < args@.len() ==> node_named(#[trigger] args@[i])),
    decreases args,
{
    for i in 0..args.len()
        invariant
            forall|j: int| 0 <= j < i ==> node_named(#[trigger] args@[j]),
    {
        if !args[i].names_valid() {
            return false;
        }
    }
    true
}

fn branch_names_valid(branches: &Vec<Branch>) -> (r: bool)
    ensures
        r == (forall|i: int| 0 <= i < branches@.len() ==> branch_named(#[trigger] branches@[i])),
    decreases branches,
{
    for i in 0..branches.len()
        invariant
            forall|j: int| 0 <= j < i ==> branch_named(#[trigger] branches@[j]),
    {
        if !branches[i].names_valid() {
            return false;
        }
    }
    true
}

fn assignment_names_valid(assignments: &Vec<Assignment>) -> (r: bool)
    ensures
        r == (forall|i: int|
            0 <= i < assignments@.len() ==> assignment_named(#[trigger] assignments@[i])),
    decreases assignments,
{
    for i in 0..assignments.len()
        invariant
            forall|j: int| 0 <= j < i ==> assignment_named(#[trigger] assignments@[j]),
    {
        if !assignments[i].names_valid() {
            return false;
        }
    }
    true
}

fn arguments_to_tokens(args: &Vec<AstNode>, tokens: &mut TokenStream)
    requires
        forall|i: int| 0 <= i < args@.len() ==> node_named(#[trigger] args@[i]),
    ensures
        tokens::appends(*old(tokens), *final(tokens), argument_tokens(args@, args@.len())),
    decreases args,
{
    for i in 0..args.len()
        invariant
            forall|j: int| 0 <= j < args@.len() ==> node_named(#[trigger] args@[j]),
            tokens::appends(*old(tokens), *tokens, argument_tokens(args@, i as nat)),
    {
        if i > 0 {
            push_mark(tokens, ',');
        }
        args[i].to_tokens(tokens);
        assert(tokens::stream_tokens(*tokens) =~= tokens::stream_tokens(*old(tokens))
            + argument_tokens(args@, (i + 1) as nat));
    }
}

fn branches_to_tokens(branches: &Vec<Branch>, tokens: &mut TokenStream)
    requires
        forall|i: int| 0 <= i < branches@.len() ==> branch_named(#[trigger] branches@[i]),
    ensures
        tokens::appends(*old(tokens), *final(tokens), branch_tokens(branches@, branches@.len())),
    decreases branches,
{
    for i in 0..branches.len()
        invariant
            forall|j: int| 0 <= j < branches@.len() ==> branch_named(#[trigger] branches@[j]),
            tokens::appends(*old(tokens), *tokens, branch_tokens(branches@, i as nat)),
    {
        proof {
            lemma_code_words();
        }
        if i > 0 {
            push_word(tokens, "else");
        }
        branches[i].to_tokens(tokens);
        assert(tokens::stream_tokens(*tokens) =~= tokens::stream_tokens(*old(tokens))
            + branch_tokens(branches@, (i + 1) as nat));
    }
}

fn assignments_to_tokens(assignments: &Vec<Assignment>, tokens: &mut TokenStream)
    requires
        forall|i: int| 0 <= i < assignments@.len() ==> assignment_named(#[trigger] assignments@[i]),
    ensures
        tokens::appends(
            *old(tokens),
            *final(tokens),
            assignment_tokens(assignments@, assignments@.len()),
        ),
    decreases assignments,
{
    for i in 0..assignments.len()
        invariant
            forall|j: int|
                0 <= j < assignments@.len() ==> assignment_named(#[trigger] assignments@[j]),
            tokens::appends(*old(tokens), *tokens, assignment_tokens(assignments@, i as nat)),
    {
        assignments[i].to_tokens(tokens);
        assert(tokens::stream_tokens(*tokens) =~= tokens::stream_tokens(*old(tokens))
            + assignment_tokens(assignments@, (i + 1) as nat));
    }
}

impl Branch {
    /// Appends `if condition { body }`.
    pub fn to_tokens(&self, tokens: &mut TokenStream)
        requires
            branch_named(*self),
        ensures
            tokens::appends(*old(tokens), *final(tokens), guarded_tokens(*self)),
        decreases self,
    {
        proof {
            lemma_code_words();
        }
        push_word(tokens, "if");
        self.condition.to_tokens(tokens);
        let mut content = TokenStream::new();
        self.body.to_tokens(&mut content);
        assert(tokens::stream_tokens(content) =~= node_tokens(self.body));
        push_bracketed(tokens, Bracketing::Brace, content);
        assert(tokens::stream_tokens(*tokens) =~= tokens::stream_tokens(*old(tokens))
            + guarded_tokens(*self));
    }

    fn names_valid(&self) -> (r: bool)
        ensures
            r == branch_named(*self),
        decreases self,
    {
        self.condition.names_valid() && self.body.names_valid()
    }
}

impl Assignment {
    /// Appends `let identifier = expression;`.
    pub fn to_tokens(&self, tokens: &mut TokenStream)
        requires
            assignment_named(*self),
        ensures
            tokens::appends(*old(tokens), *final(tokens), let_tokens(*self)),
        decreases self,
    {
        proof {
            lemma_code_words();
        }
        push_word(tokens, "let");
        self.identifier.to_tokens(tokens);
        push_mark(tokens, '=');
        self.expression.to_tokens(tokens);
        push_mark(tokens, ';');
        assert(tokens::stream_tokens(*tokens) =~= tokens::stream_tokens(*old(tokens))
            + let_tokens(*self));
    }

    fn names_valid(&self) -> (r: bool)
        ensures
            r == assignment_named(*self),
        decreases self,
    {
        check_identifier(self.identifier.as_ref()) && self.expression.names_valid()
    }
}

impl BooleanExpression {
    /// Appends the code of the condition.
    pub fn to_tokens(&self, tokens: &mut TokenStream)
        requires
            condition_named(*self),
        ensures
            tokens::appends(*old(tokens), *final(tokens), condition_tokens(*self)),
        decreases self,
    {
        proof {
            lemma_code_words();
        }
        let mut first = TokenStream::new();
        let mut second = TokenStream::new();
        let mut content = TokenStream::new();
        match self {
            Self::Constant(b) => {
                push_word(
                    tokens,
                    if *b {
                        "true"
                    } else {
                        "false"
                    },
                );
            },
            Self::Comparison { left, op, right } => {
                left.to_tokens(&mut first);
                assert(tokens::stream_tokens(first) =~= node_tokens(**left));
                push_bracketed(&mut content, Bracketing::Parenthesis, first);
                op.to_tokens(&mut content);
                right.to_tokens(&mut second);
                assert(tokens::stream_tokens(second) =~= node_tokens(**right));
                push_bracketed(&mut content, Bracketing::Parenthesis, second);
                assert(tokens::stream_tokens(content) =~= tokens::group(
                    Bracketing::Parenthesis,
                    node_tokens(**left),
                ) + op.tokens() + tokens::group(Bracketing::Parenthesis, node_tokens(**right)));
                push_bracketed(tokens, Bracketing::Parenthesis, content);
            },
            Self::Operation { left, op, right } => {
                left.to_tokens(&mut first);
                assert(tokens::stream_tokens(first) =~= condition_tokens(**left));
                push_bracketed(&mut content, Bracketing::Parenthesis, first);
                op.to_tokens(&mut content);
                right.to_tokens(&mut second);
                assert(tokens::stream_tokens(second) =~= condition_tokens(**right));
                push_bracketed(&mut content, Bracketing::Parenthesis, second);
                assert(tokens::stream_tokens(content) =~= tokens::group(
                    Bracketing::Parenthesis,
                    condition_tokens(**left),
                ) + op.tokens() + tokens::group(
                    Bracketing::Parenthesis,
                    condition_tokens(**right),
                ));
                push_bracketed(tokens, Bracketing::Parenthesis, content);
            },
        }
        assert(tokens::stream_tokens(*tokens) =~= tokens::stream_tokens(*old(tokens))
            + condition_tokens(*self));
    }

    fn names_valid(&self) -> (r: bool)
        ensures
            r == condition_named(*self),
        decreases self,
    {
        match self {
            Self::Constant(_) => true,
            Self::Comparison { left, right, .. } => left.names_valid() && right.names_valid(),
            Self::Operation { left, right, .. } => left.names_valid() && right.names_valid(),
        }
    }
}

/// An expression as an abstract syntax tree.
/// Allows generating Rust code.
#[derive(Debug)]
pub struct ExpressionAst {
    /// This name is the generated function name after generating code.
    name: Identifier,
    root: AstNode,
    parameters: Vec<Parameter>,
    out_type: DataType,
    functions: FunctionSet,
}

/// The definitions of the first `n` functions.
pub open spec fn function_tokens(functions: Seq<AstFunction>, n: nat) -> Seq<Token>
    decreases n,
{
    if n == 0 || n > functions.len() {
        Seq::empty()
    } else {
        function_tokens(functions, (n - 1) as nat) + functions[n - 1].tokens()
    }
}

/// The declarations of the first `n` parameters, separated by commas.
pub open spec fn parameter_tokens(parameters: Seq<Parameter>, n: nat) -> Seq<Token>
    decreases n,
{
    if n == 0 || n > parameters.len() {
        Seq::empty()
    } else if n == 1 {
        parameters[0].tokens()
    } else {
        parameter_tokens(parameters, (n - 1) as nat) + tokens::punct(',')
            + parameters[n - 1].tokens()
    }
}

/// The head of the generated function:
/// `#[no_mangle] pub extern "Rust" fn name(parameters) -> Option<out_type>`.
pub open spec fn signature_tokens(
    name: Seq<char>,
    parameters: Seq<Parameter>,
    out_type: DataType,
) -> Seq<Token> {
    attribute_tokens("no_mangle"@) + tokens::ident("pub"@) + tokens::ident("extern"@)
        + seq![Token::Literal("\""@ + "Rust"@ + "\""@)] + tokens::ident("fn"@) + tokens::ident(name)
        + tokens::group(
        Bracketing::Parenthesis,
        parameter_tokens(parameters, parameters.len()),
    ) + tokens::operator('-', '>') + tokens::ident("Option"@) + tokens::punct('<')
        + out_type.tokens() + tokens::punct('>')
}

/// Appends the head of the generated function.
fn signature_to_tokens(
    name: &Identifier,
    parameters: &Vec<Parameter>,
    out_type: DataType,
    tokens: &mut TokenStream,
)
    requires
        tokens::is_identifier(name@),
        forall|i: int|
            0 <= i < parameters@.len() ==> tokens::is_identifier(
                (#[trigger] parameters@[i]).name()@,
            ),
    ensures
        tokens::appends(
            *old(tokens),
            *final(tokens),
            signature_tokens(name@, parameters@, out_type),
        ),
{
    proof {
        lemma_code_words();
        reveal_strlit("Rust");
    }
    attribute_to_tokens("no_mangle", tokens);
    push_word(tokens, "pub");
    push_word(tokens, "extern");
    push_string_literal(tokens, "Rust");
    push_word(tokens, "fn");
    name.to_tokens(tokens);
    let mut content = TokenStream::new();
    for i in 0..parameters.len()
        invariant
            forall|j: int|
                0 <= j < parameters@.len() ==> tokens::is_identifier(
                    (#[trigger] parameters@[j]).name()@,
                ),
            tokens::stream_tokens(content) == parameter_tokens(parameters@, i as nat),
    {
        if i > 0 {
            push_mark(&mut content, ',');
        }
        parameters[i].to_tokens(&mut content);
        assert(tokens::stream_tokens(content) =~= parameter_tokens(parameters@, (i + 1) as nat));
    }
    push_bracketed(tokens, Bracketing::Parenthesis, content);
    push_operator(tokens, '-', '>');
    push_word(tokens, "Option");
    push_mark(tokens, '<');
    out_type.to_tokens(tokens);
    push_mark(tokens, '>');
    assert(tokens::stream_tokens(*tokens) =~= tokens::stream_tokens(*old(tokens))
        + signature_tokens(name@, parameters@, out_type));
}

impl ExpressionAst {
    /// The name of the expression.
    pub closed spec fn name_view(self) -> Seq<char> {
        self.name@
    }

    /// The node at the root.
    pub closed spec fn root_view(self) -> AstNode {
        self.root
    }

    /// The parameters.
    pub closed spec fn parameters_view(self) -> Seq<Parameter> {
        self.parameters@
    }

    /// The type of the result.
    pub closed spec fn out_type_view(self) -> DataType {
        self.out_type
    }

    /// The functions that the expression uses.
    pub closed spec fn functions_view(self) -> Seq<AstFunction> {
        self.functions@
    }

    /// The name is not empty, and the functions are ordered without repetition.
    pub open spec fn wf(self) -> bool {
        self.name_view().len() > 0 && ascending(self.functions_view())
    }

    /// Whether every name in the generated code is an identifier of the language.
    pub open spec fn named(self) -> bool {
        &&& tokens::is_identifier(self.name_view())
        &&& forall|i: int|
            0 <= i < self.parameters_view().len() ==> tokens::is_identifier(
                (#[trigger] self.parameters_view()[i]).name()@,
            )
        &&& node_named(self.root_view())
    }

    /// The generated code: the definitions of the functions, then the expression as a function.
    pub open spec fn tokens(self) -> Seq<Token> {
        function_tokens(self.functions_view(), self.functions_view().len()) + signature_tokens(
            self.name_view(),
            self.parameters_view(),
            self.out_type_view(),
        ) + tokens::group(Bracketing::Brace, node_tokens(self.root_view()))
    }

    /// Builds an expression. Its name must not be empty.
    pub fn new(
        name: Identifier,
        parameters: Vec<Parameter>,
        out_type: DataType,
        functions: FunctionSet,
        root: AstNode,
    ) -> (r: Result<ExpressionAst, ExpressionParserError>)
        requires
            functions.wf(),
        ensures
            r is Err <==> name@.len() == 0,
            r matches Err(e) ==> e == ExpressionParserError::EmptyExpressionName,
            r matches Ok(ast) ==> {
                &&& ast.wf()
                &&& ast.name_view() == name@
                &&& ast.parameters_view() == parameters@
                &&& ast.out_type_view() == out_type
                &&& ast.functions_view() == functions@
                &&& ast.root_view() == root
            },
    {
        if name.0.as_str().is_empty() {
            return Err(ExpressionParserError::EmptyExpressionName);
        }
        Ok(Self { name, root, parameters, out_type, functions })
    }

    /// Appends the generated code.
    pub fn to_tokens(&self, tokens: &mut TokenStream)
        requires
            self.named(),
        ensures
            tokens::appends(*old(tokens), *final(tokens), self.tokens()),
    {
        let functions = &self.functions.items;
        for i in 0..functions.len()
            invariant
                tokens::appends(*old(tokens), *tokens, function_tokens(functions@, i as nat)),
        {
            functions[i].to_tokens(tokens);
            assert(tokens::stream_tokens(*tokens) =~= tokens::stream_tokens(*old(tokens))
                + function_tokens(functions@, (i + 1) as nat));
        }
        assert(self.parameters_view() == self.parameters@);
        signature_to_tokens(&self.name, &self.parameters, self.out_type, tokens);
        let mut content = TokenStream::new();
        self.root.to_tokens(&mut content);
        assert(tokens::stream_tokens(content) =~= node_tokens(self.root));
        push_bracketed(tokens, Bracketing::Brace, content);
        assert(tokens::stream_tokens(*tokens) =~= tokens::stream_tokens(*old(tokens))
            + self.tokens());
    }

    /// The generated code as a text.
    pub fn code(&self) -> (r: String)
        requires
            self.named(),
        ensures
            r@ == tokens::token_text(self.tokens()),
    {
        let mut tokens = TokenStream::new();
        self.to_tokens(&mut tokens);
        assert(tokens::stream_tokens(tokens) =~= self.tokens());
        stream_text(&tokens)
    }

    /// Tells whether every name in the generated code is an identifier of the language.
    pub fn names_valid(&self) -> (r: bool)
        ensures
            r == self.named(),
    {
        if !check_identifier(self.name.as_ref()) {
            return false;
        }
        for i in 0..self.parameters.len()
            invariant
                forall|j: int|
                    0 <= j < i ==> tokens::is_identifier(
                        (#[trigger] self.parameters_view()[j]).name()@,
                    ),
        {
            if !check_identifier(self.parameters[i].as_ref()) {
                assert(!tokens::is_identifier(self.parameters_view()[i as int].name()@));
                return false;
            }
        }
        self.root.names_valid()
    }

    /// The generated code as a text, if every name in it is an identifier of the language.
    pub fn try_code(&self) -> (r: Option<String>)
        ensures
            r is Some <==> self.named(),
            r matches Some(code) ==> code@ == tokens::token_text(self.tokens()),
    {
        if self.names_valid() {
            Some(self.code())
        } else {
            None
        }
    }

    /// The name of the expression.
    pub fn name(&self) -> (r: &str)
        ensures
            r@ == self.name_view(),
    {
        self.name.as_ref()
    }
}

proof fn lemma_same_functions(a: Seq<AstFunction>, b: Seq<AstFunction>, n: nat)
    requires
        same_functions(a, b),
    ensures
        function_tokens(a, n) == function_tokens(b, n),
        ascending(a) ==> ascending(b),
    decreases n,
{
    if 0 < n <= a.len() {
        assert(a[n - 1].tokens() == b[n - 1].tokens());
        lemma_same_functions(a, b, (n - 1) as nat);
    }
    if ascending(a) {
        assert forall|i: int, j: int| 0 <= i < j < b.len() implies text::precedes(
            #[trigger] b[i].function.name_view(),
            #[trigger] b[j].function.name_view(),
        ) by {
            assert(text::precedes(a[i].function.name_view(), a[j].function.name_view()));
        }
    }
}

impl Clone for ExpressionAst {
    fn clone(&self) -> (r: Self)
        ensures
            r.name_view() == self.name_view(),
            r.parameters_view() == self.parameters_view(),
            r.out_type_view() == self.out_type_view(),
            same_functions(self.functions_view(), r.functions_view()),
            same_node(self.root_view(), r.root_view()),
            self.wf() ==> r.wf(),
            r.named() == self.named(),
            r.tokens() == self.tokens(),
    {
        let parameters = self.parameters.clone();
        assert(parameters@ =~= self.parameters@);
        let r = Self {
            name: self.name.clone(),
            root: self.root.clone(),
            parameters,
            out_type: self.out_type,
            functions: self.functions.clone(),
        };
        proof {
            law_same_node_same_code(self.root_view(), r.root_view());
            lemma_same_functions(
                self.functions_view(),
                r.functions_view(),
                self.functions_view().len(),
            );
        }
        r
    }
}

/// A set of functions has one order only: two sets that hold the same functions emit the same
/// definitions, in whatever order the functions were inserted.
pub proof fn law_function_order_canonical(a: Seq<AstFunction>, b: Seq<AstFunction>)
    requires
        ascending(a),
        ascending(b),
        forall|f: AstFunction| a.contains(f) <==> b.contains(f),
    ensures
        a == b,
        function_tokens(a, a.len()) == function_tokens(b, b.len()),
    decreases a.len(),
{
    if a.len() == 0 {
        if b.len() > 0 {
            assert(b.contains(b[0]));
        }
        assert(a =~= b);
    } else {
        assert(a.contains(a[0]));
        let q = choose|q: int| 0 <= q < b.len() && b[q] == a[0];
        assert(b.contains(b[0]));
        let p = choose|p: int| 0 <= p < a.len() && a[p] == b[0];
        if p > 0 && q > 0 {
            assert(text::precedes(
                a[0].function.name_view(),
                a[p].function.name_view(),
            ));
            assert(text::precedes(
                b[0].function.name_view(),
                b[q].function.name_view(),
            ));
            text::lemma_precedes_transitive(
                a[0].function.name_view(),
                b[0].function.name_view(),
                a[0].function.name_view(),
            );
            text::lemma_precedes_irreflexive(a[0].function.name_view());
        }
        assert(a[0] == b[0]);
        let c = a.skip(1);
        let d = b.skip(1);
        assert forall|f: AstFunction| c.contains(f) <==> d.contains(f) by {
            lemma_tail_contains(a, f);
            lemma_tail_contains(b, f);
        }
        assert(ascending(c)) by {
            assert forall|i: int, j: int| 0 <= i < j < c.len() implies text::precedes(
                #[trigger] c[i].function.name_view(),
                #[trigger] c[j].function.name_view(),
            ) by {
                assert(c[i] == a[i + 1] && c[j] == a[j + 1]);
            }
        }
        assert(ascending(d)) by {
            assert forall|i: int, j: int| 0 <= i < j < d.len() implies text::precedes(
                #[trigger] d[i].function.name_view(),
                #[trigger] d[j].function.name_view(),
            ) by {
                assert(d[i] == b[i + 1] && d[j] == b[j + 1]);
            }
        }
        law_function_order_canonical(c, d);
        assert(a =~= seq![a[0]] + c);
        assert(b =~= seq![b[0]] + d);
    }
}

/// The functions behind the first one are those that differ from it.
proof fn lemma_tail_contains(s: Seq<AstFunction>, f: AstFunction)
    requires
        s.len() > 0,
        ascending(s),
    ensures
        s.skip(1).contains(f) <==> s.contains(f) && f != s[0],
{
    let tail = s.skip(1);
    if tail.contains(f) {
        let i = choose|i: int| 0 <= i < tail.len() && tail[i] == f;
        assert(s[i + 1] == f);
        assert(text::precedes(s[0].function.name_view(), s[i + 1].function.name_view()));
        text::lemma_precedes_irreflexive(f.function.name_view());
    }
    if s.contains(f) && f != s[0] {
        let i = choose|i: int| 0 <= i < s.len() && s[i] == f;
        assert(tail[i - 1] == f);
    }
}

} // verus!
