use geoengine_kernel::testing::TestMacroError;
use proc_macro2::TokenStream;

fn code(source: &str) -> String {
    source.parse::<TokenStream>().unwrap().to_string()
}

fn to_call(literal: &TokenStream) -> Result<TokenStream, syn::Error> {
    let name: syn::LitStr = syn::parse2(literal.clone())?;
    let path: syn::Path = name.parse()?;
    let mut call = TokenStream::new();
    quote::ToTokens::to_tokens(&path, &mut call);
    call.extend("()".parse::<TokenStream>().unwrap());
    Ok(call)
}

fn expand(attr: &str, item: &str) -> Result<String, TestMacroError> {
    geoengine_kernel::testing::test(attr.parse().unwrap(), item.parse().unwrap(), to_call).map(|tokens| tokens.to_string())
}

fn expanded(
    tiling_spec: &str,
    query_ctx_chunk_size: &str,
    quota_config: &str,
    closure: &str,
) -> String {
    code(&format!(
        "#[tokio::test(flavor = \"multi_thread\", worker_threads = 1)]
        async fn it_works() {{
            let tiling_spec = {tiling_spec};
            let query_ctx_chunk_size = {query_ctx_chunk_size};
            let quota_config = {quota_config};
            let it_works = {closure};
            crate::pro::util::tests::with_pro_temp_context_from_spec(
                tiling_spec,
                query_ctx_chunk_size,
                quota_config,
                it_works,
            ).await;
        }}"
    ))
}

const DEFAULT: &str = "geoengine_datatypes::util::test::TestDefault::test_default()";
const QUOTA: &str =
    "crate::util::config::get_config_element:: <crate::pro::util::config::Quota, >().unwrap()";

#[test]
fn a_test_without_arguments() {
    assert_eq!(
        expand("", "fn it_works() { assert!(true); }").unwrap(),
        expanded(DEFAULT, DEFAULT, QUOTA, "|_, _| async move { { assert!(true); } }"),
    );
}

#[test]
fn a_test_with_a_context() {
    assert_eq!(
        expand("", "async fn it_works(ctx: Context) {}").unwrap(),
        expanded(DEFAULT, DEFAULT, QUOTA, "|ctx: Context, _| async move { {} }"),
    );
    assert_eq!(
        expand("", "async fn it_works(ctx: Context, config: Config, more: u8) {}").unwrap(),
        expanded(DEFAULT, DEFAULT, QUOTA, "|ctx: Context, config: Config| async move { {} }"),
    );
}

#[test]
fn settings_are_replaced() {
    assert_eq!(
        expand(
            "tiling_spec = \"spec\", QUERY_CTX_CHUNK_SIZE = \"a::size\", quota_config = \"quota\",",
            "fn it_works() {}",
        )
        .unwrap(),
        expanded("spec()", "a::size()", "quota()", "|_, _| async move { {} }"),
    );
}

#[test]
fn the_last_setting_counts() {
    assert_eq!(
        expand("tiling_spec = \"first\", tiling_spec = \"second\"", "fn it_works() {}").unwrap(),
        expanded("second()", DEFAULT, QUOTA, "|_, _| async move { {} }"),
    );
}

#[test]
fn an_item_must_be_a_function() {
    let error = expand("", "struct NotAFunction;").unwrap_err();
    assert!(matches!(error, TestMacroError::Syntax(_)));
    assert_eq!(error.message(), None);
}

#[test]
fn an_attribute_must_be_a_list() {
    let error = expand("= =", "fn it_works() {}").unwrap_err();
    assert!(matches!(error, TestMacroError::Syntax(_)));
}

#[test]
fn the_item_is_read_before_the_attribute() {
    let item = "struct NotAFunction;";
    let error = syn::parse2::<syn::ItemFn>(item.parse().unwrap()).err().unwrap();
    match expand("= =", item).unwrap_err() {
        TestMacroError::Syntax(e) => assert_eq!(e.to_string(), error.to_string()),
        other => panic!("{:?}", other),
    }
    let other = expand("= =", "fn it_works() {}").unwrap_err();
    assert!(matches!(other, TestMacroError::Syntax(e) if e.to_string() != error.to_string()));
}

#[test]
fn the_first_rejected_literal_is_reported() {
    let attr = "tiling_spec = \"spec\", quota_config = 5, query_ctx_chunk_size = \"1\"";
    let first = to_call(&"5".parse().unwrap()).unwrap_err().to_string();
    let second = to_call(&"\"1\"".parse().unwrap()).unwrap_err().to_string();
    assert_ne!(first, second);
    match expand(attr, "fn it_works() {}").unwrap_err() {
        TestMacroError::RejectedLiteral(e) => assert_eq!(e.to_string(), first),
        other => panic!("{:?}", other),
    }
}

#[test]
fn arguments_must_be_pairs() {
    for attr in ["tiling_spec", "tiling_spec(1)"] {
        let error = expand(attr, "fn it_works() {}").unwrap_err();
        assert!(matches!(&error, TestMacroError::NotNameValue(a) if a.to_string() == code(attr)));
        assert_eq!(error.message(), Some("expected name-value pair"));
    }
}

#[test]
fn names_must_be_identifiers() {
    let error = expand("a::tiling_spec = \"spec\"", "fn it_works() {}").unwrap_err();
    assert!(matches!(
        &error,
        TestMacroError::MissingName(a) if a.to_string() == code("a::tiling_spec = \"spec\"")
    ));
    assert_eq!(error.message(), Some("Must have specified ident"));
}

#[test]
fn values_must_be_literals() {
    let error = expand("tiling_spec = spec()", "fn it_works() {}").unwrap_err();
    assert!(matches!(&error, TestMacroError::NotALiteral(v) if v.to_string() == code("spec()")));
    assert_eq!(error.message(), Some("Must be a literal"));
}

#[test]
fn settings_must_be_known() {
    let error = expand("tiling = \"spec\"", "fn it_works() {}").unwrap_err();
    assert!(matches!(
        &error,
        TestMacroError::UnknownName(a) if a.to_string() == code("tiling = \"spec\"")
    ));
    assert_eq!(error.message(), Some("Unknown name-value pair"));
}

#[test]
fn literals_must_name_functions() {
    let error = expand("tiling_spec = 5", "fn it_works() {}").unwrap_err();
    assert!(matches!(error, TestMacroError::RejectedLiteral(_)));
    assert_eq!(error.message(), None);
}

#[test]
fn the_first_problem_counts() {
    let error = expand("tiling = \"a\", tiling_spec = b", "fn it_works() {}").unwrap_err();
    assert!(matches!(error, TestMacroError::UnknownName(_)));
}
