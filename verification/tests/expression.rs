use geoengine_kernel::expression::codegen::{
    Assignment, AstFunction, AstNode, BooleanComparator, BooleanExpression, BooleanOperator,
    Branch, DataType, ExpressionAst, ExpressionParserError, Function, FunctionSet, Identifier,
    Parameter,
};
use geoengine_kernel::expression::functions::{ArgumentCount, MathFunction};
use geoengine_kernel::tokens::{check_identifier, check_plain_identifier};
use proc_macro2::{Literal, TokenStream, TokenTree};

fn code(source: &str) -> String {
    source.parse::<TokenStream>().unwrap().to_string()
}

fn number(value: f64) -> AstNode {
    AstNode::Constant(TokenStream::from(TokenTree::from(Literal::f64_suffixed(value))))
}

fn variable(name: &str) -> AstNode {
    AstNode::Variable { name: Identifier::from(name), data_type: DataType::Number }
}

fn math(function: MathFunction, name: &str) -> Function {
    let identifier = Identifier::from(name);
    let definition = function.try_token_fn(function.num_args().min, &identifier).unwrap();
    Function::new(identifier, DataType::Number, definition)
}

fn expression(parameters: Vec<Parameter>, functions: FunctionSet, root: AstNode) -> ExpressionAst {
    ExpressionAst::new(
        Identifier::from("expression"),
        parameters,
        DataType::Number,
        functions,
        root,
    )
    .unwrap()
}

#[test]
fn data_types_have_names() {
    let all = [
        (DataType::Number, "number", "number", 'n'),
        (DataType::MultiPoint, "geometry (multipoint)", "geometry", 'p'),
        (DataType::MultiLineString, "geometry (multilinestring)", "geometry", 'l'),
        (DataType::MultiPolygon, "geometry (multipolygon)", "geometry", 'q'),
    ];
    for (data_type, text, group, suffix) in all {
        assert_eq!(data_type.to_string(), text);
        assert_eq!(data_type.group_name(), group);
        assert_eq!(data_type.call_name_suffix(), suffix);
    }
}

#[test]
fn data_types_are_rust_types() {
    let all = [
        (DataType::Number, "f64"),
        (DataType::MultiPoint, "geo::geometry::MultiPoint<geo::Point<f64>>"),
        (DataType::MultiLineString, "geo::geometry::MultiLineString<geo::LineString<f64>>"),
        (DataType::MultiPolygon, "geo::geometry::MultiPolygon<geo::Polygon<f64>>"),
    ];
    for (data_type, text) in all {
        let mut tokens = TokenStream::new();
        data_type.to_tokens(&mut tokens);
        assert_eq!(tokens.to_string(), code(text));
    }
}

#[test]
fn parameters_have_a_name_and_a_type() {
    let all = [
        (Parameter::Number(Identifier::from("a")), DataType::Number),
        (Parameter::MultiPoint(Identifier::from("a".to_string())), DataType::MultiPoint),
        (Parameter::MultiLineString(Identifier::from(&"a".to_string())), DataType::MultiLineString),
        (Parameter::MultiPolygon(Identifier::from("a")), DataType::MultiPolygon),
    ];
    for (parameter, data_type) in all {
        assert_eq!(parameter.identifier(), &Identifier::from("a"));
        assert_eq!(parameter.identifier().to_string(), "a");
        let text: &str = parameter.as_ref();
        assert_eq!(text, "a");
        assert_eq!(parameter.data_type(), data_type);
    }
}

#[test]
fn operators_are_emitted() {
    let comparators = [
        (BooleanComparator::Equal, "=="),
        (BooleanComparator::NotEqual, "!="),
        (BooleanComparator::LessThan, "<"),
        (BooleanComparator::LessThanOrEqual, "<="),
        (BooleanComparator::GreaterThan, ">"),
        (BooleanComparator::GreaterThanOrEqual, ">="),
    ];
    for (comparator, text) in comparators {
        let mut tokens = TokenStream::new();
        comparator.to_tokens(&mut tokens);
        assert_eq!(tokens.to_string(), code(text));
    }
    for (operator, text) in [(BooleanOperator::And, "&&"), (BooleanOperator::Or, "||")] {
        let mut tokens = TokenStream::new();
        operator.to_tokens(&mut tokens);
        assert_eq!(tokens.to_string(), code(text));
    }
}

#[test]
fn an_expression_needs_a_name() {
    let result = ExpressionAst::new(
        Identifier::from(""),
        vec![],
        DataType::Number,
        FunctionSet::new(),
        AstNode::NoData,
    );
    assert_eq!(result.unwrap_err(), ExpressionParserError::EmptyExpressionName);
}

#[test]
fn a_constant_is_emitted() {
    let ast = expression(vec![], FunctionSet::new(), number(1.0));
    assert_eq!(ast.name(), "expression");
    assert_eq!(
        ast.try_code().unwrap(),
        code("#[no_mangle] pub extern \"Rust\" fn expression() -> Option<f64> { Some(1f64) }"),
    );
    assert_eq!(ast.try_code().unwrap(), ast.code());
    assert_eq!(
        ast.code(),
        "# [no_mangle] pub extern \"Rust\" fn expression () -> Option < f64 > { Some (1f64) }",
    );
}

#[test]
fn no_data_is_emitted() {
    let ast = expression(
        vec![
            Parameter::Number(Identifier::from("a")),
            Parameter::MultiPoint(Identifier::from("b")),
        ],
        FunctionSet::new(),
        AstNode::NoData,
    );
    assert_eq!(
        ast.try_code().unwrap(),
        code(
            "#[no_mangle] pub extern \"Rust\" fn expression(
                a: Option<f64> ,
                b: Option<geo::geometry::MultiPoint<geo::Point<f64>> >
            ) -> Option<f64> { None }"
        ),
    );
}

#[test]
fn branches_are_emitted() {
    let root = AstNode::Branch {
        condition_branches: vec![
            Branch {
                condition: BooleanExpression::Comparison {
                    left: Box::new(variable("a")),
                    op: BooleanComparator::LessThanOrEqual,
                    right: Box::new(number(5.0)),
                },
                body: variable("a"),
            },
            Branch {
                condition: BooleanExpression::Operation {
                    left: Box::new(BooleanExpression::Constant(true)),
                    op: BooleanOperator::Or,
                    right: Box::new(BooleanExpression::Constant(false)),
                },
                body: AstNode::NoData,
            },
        ],
        else_branch: Box::new(number(0.5)),
    };
    let ast = expression(
        vec![Parameter::Number(Identifier::from("a"))],
        FunctionSet::new(),
        root,
    );
    assert_eq!(
        ast.try_code().unwrap(),
        code(
            "#[no_mangle] pub extern \"Rust\" fn expression(a: Option<f64>) -> Option<f64> {
                if ((a) <= (Some(5f64))) { a }
                else if ((true) || (false)) { None }
                else { Some(0.5f64) }
            }"
        ),
    );
}

#[test]
fn assignments_are_emitted() {
    let root = AstNode::AssignmentsAndExpression {
        assignments: vec![
            Assignment { identifier: Identifier::from("b"), expression: variable("a") },
            Assignment { identifier: Identifier::from("c"), expression: number(2.0) },
        ],
        expression: Box::new(variable("c")),
    };
    let ast = expression(
        vec![Parameter::Number(Identifier::from("a"))],
        FunctionSet::new(),
        root,
    );
    assert_eq!(
        ast.try_code().unwrap(),
        code(
            "#[no_mangle] pub extern \"Rust\" fn expression(a: Option<f64>) -> Option<f64> {
                let b = a;
                let c = Some(2f64);
                c
            }"
        ),
    );
}

#[test]
fn functions_are_emitted_in_the_order_of_their_names() {
    let call = || AstNode::Function {
        function: math(MathFunction::Min, "add_min"),
        args: vec![variable("a"), variable("b")],
    };
    let definitions = code(
        "#[inline] fn add_min(a: f64, b: f64) -> f64 { f64::min(a, b) }
        #[inline] fn pi() -> f64 { std::f64::consts::PI }
        #[no_mangle] pub extern \"Rust\" fn expression(a: Option<f64> , b: Option<f64>)
            -> Option<f64> { add_min(a, b) }",
    );
    for reverse in [false, true] {
        let mut names = vec![(MathFunction::Min, "add_min"), (MathFunction::Pi, "pi")];
        if reverse {
            names.reverse();
        }
        let mut functions = FunctionSet::new();
        for (function, name) in names {
            assert!(functions.insert(AstFunction { function: math(function, name) }));
        }
        assert!(!functions.insert(AstFunction { function: math(MathFunction::Max, "pi") }));
        let ast = expression(
            vec![
                Parameter::Number(Identifier::from("a")),
                Parameter::Number(Identifier::from("b")),
            ],
            functions,
            call(),
        );
        assert_eq!(ast.try_code().unwrap(), definitions);
    }
}

#[test]
fn nodes_have_a_type() {
    let point = || AstNode::Variable {
        name: Identifier::from("p"),
        data_type: DataType::MultiPoint,
    };
    assert_eq!(number(1.0).data_type(), DataType::Number);
    assert_eq!(AstNode::NoData.data_type(), DataType::Number);
    assert_eq!(point().data_type(), DataType::MultiPoint);
    let call = AstNode::Function {
        function: Function::new(
            Identifier::from("f"),
            DataType::MultiPolygon,
            TokenStream::new(),
        ),
        args: vec![number(1.0)],
    };
    assert_eq!(call.data_type(), DataType::MultiPolygon);
    let branch = AstNode::Branch { condition_branches: vec![], else_branch: Box::new(point()) };
    assert_eq!(branch.data_type(), DataType::MultiPoint);
    let block = AstNode::AssignmentsAndExpression {
        assignments: vec![],
        expression: Box::new(point()),
    };
    assert_eq!(block.data_type(), DataType::MultiPoint);
}

#[test]
fn a_clone_has_the_same_code() {
    let mut functions = FunctionSet::new();
    assert!(functions.insert(AstFunction { function: math(MathFunction::Abs, "abs") }));
    let root = AstNode::AssignmentsAndExpression {
        assignments: vec![Assignment {
            identifier: Identifier::from("b"),
            expression: AstNode::Function {
                function: math(MathFunction::Abs, "abs"),
                args: vec![variable("a")],
            },
        }],
        expression: Box::new(AstNode::Branch {
            condition_branches: vec![Branch {
                condition: BooleanExpression::Comparison {
                    left: Box::new(variable("b")),
                    op: BooleanComparator::GreaterThan,
                    right: Box::new(number(2.0)),
                },
                body: AstNode::NoData,
            }],
            else_branch: Box::new(number(3.0)),
        }),
    };
    let ast = expression(vec![Parameter::Number(Identifier::from("a"))], functions, root);
    assert_eq!(ast.clone().try_code(), ast.try_code());
    assert!(ast.try_code().unwrap().contains("abs"));
}

#[test]
fn code_needs_identifiers() {
    let bad_parameter = expression(
        vec![Parameter::Number(Identifier::from("a b"))],
        FunctionSet::new(),
        AstNode::NoData,
    );
    assert!(bad_parameter.try_code().is_none());
    let bad_variable = expression(vec![], FunctionSet::new(), variable("1a"));
    assert!(bad_variable.try_code().is_none());
    let good = expression(
        vec![Parameter::Number(Identifier::from("r#fn"))],
        FunctionSet::new(),
        variable("r#fn"),
    );
    assert_eq!(
        good.try_code().unwrap(),
        code(
            "#[no_mangle] pub extern \"Rust\" fn expression(r#fn: Option<f64>) -> Option<f64> {
                r#fn
            }"
        ),
    );
}

#[test]
fn identifiers_are_recognized() {
    for name in ["a", "_", "_a", "A1", "ä", "größe", "r#fn"] {
        assert!(check_identifier(name), "{}", name);
    }
    for name in ["", "1", "1a", "a b", "a-b", "r#", "r#_", "r#self", "r#crate", "€"] {
        assert!(!check_identifier(name), "{}", name);
    }
    assert!(check_plain_identifier("fn"));
    assert!(!check_plain_identifier("r#fn"));
}

#[test]
fn math_functions_are_looked_up() {
    let all = [
        ("min", MathFunction::Min, 2),
        ("max", MathFunction::Max, 2),
        ("abs", MathFunction::Abs, 1),
        ("pow", MathFunction::Pow, 2),
        ("sqrt", MathFunction::Sqrt, 1),
        ("cos", MathFunction::Cos, 1),
        ("sin", MathFunction::Sin, 1),
        ("tan", MathFunction::Tan, 1),
        ("acos", MathFunction::Acos, 1),
        ("asin", MathFunction::Asin, 1),
        ("atan", MathFunction::Atan, 1),
        ("log10", MathFunction::Log10, 1),
        ("ln", MathFunction::Ln, 1),
        ("pi", MathFunction::Pi, 0),
    ];
    for (name, function, count) in all {
        assert_eq!(MathFunction::lookup(name), Some(function));
        assert_eq!(function.name(), name);
        assert_eq!(function.num_args(), ArgumentCount { min: count, max: count });
    }
    assert_eq!(MathFunction::lookup("powf"), None);
    assert_eq!(MathFunction::lookup(""), None);
}

#[test]
fn math_functions_are_defined() {
    let all = [
        (MathFunction::Pow, "fn f(a: f64, b: f64) -> f64 { f64::powf(a, b) }"),
        (MathFunction::Ln, "fn f(a: f64) -> f64 { f64::ln(a) }"),
        (MathFunction::Pi, "fn f() -> f64 { std::f64::consts::PI }"),
    ];
    for (function, text) in all {
        let tokens = function.try_token_fn(7, &Identifier::from("f")).unwrap();
        assert_eq!(tokens.to_string(), code(text));
    }
    assert!(MathFunction::Sin.try_token_fn(1, &Identifier::from("f()")).is_none());
}
