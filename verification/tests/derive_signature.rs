use proc_macro2::TokenStream;
use std::str::FromStr;
use zbus::derive::signature::{
    expand_signature_macro, signature_to_tokens, signature_to_tokens_with_crate,
};
use zbus::wire::error::Error;
use zbus::wire::signature::Signature;

fn as_tokens(text: &str) -> String {
    TokenStream::from_str(text).unwrap().to_string()
}

#[test]
fn signature_to_tokens_with_crate_uses_custom_path() {
    let custom_path = "::zbus::zvariant";
    let sig = Signature::Str;

    let tokens = as_tokens(&signature_to_tokens_with_crate(&sig, custom_path));

    assert!(tokens.contains("zbus"), "Expected custom path in output: {}", tokens);
}

#[test]
fn signature_to_tokens_with_crate_uses_custom_path_for_complex_types() {
    let custom_path = "::zbus::zvariant";

    // Dict signature - has multiple path references
    let dict_sig = Signature::from_str("a{sv}").unwrap();
    let tokens = as_tokens(&signature_to_tokens_with_crate(&dict_sig, custom_path));

    // All occurrences should use the custom path
    assert!(
        !tokens.contains(":: zvariant ::") || tokens.contains(":: zbus :: zvariant ::"),
        "Found bare ::zvariant without ::zbus prefix: {}",
        tokens
    );
    assert!(
        tokens.contains(":: zbus :: zvariant ::"),
        "Expected custom path in struct output: {}",
        tokens
    );

    // Structure signature - has multiple path references
    let struct_sig = Signature::from_str("(su)").unwrap();
    let tokens = as_tokens(&signature_to_tokens_with_crate(&struct_sig, custom_path));

    // All occurrences should use the custom path
    assert!(tokens.contains("zbus"), "Expected custom path in struct output: {}", tokens);
}

#[test]
fn leaf_is_a_path() {
    assert_eq!(signature_to_tokens(&Signature::U8), "::zvariant::Signature::U8");
    assert_eq!(signature_to_tokens(&Signature::Unit), "::zvariant::Signature::Unit");
    assert_eq!(signature_to_tokens(&Signature::ObjectPath), "::zvariant::Signature::ObjectPath");
    assert_eq!(signature_to_tokens(&Signature::Fd), "::zvariant::Signature::Fd");
    assert_eq!(signature_to_tokens_with_crate(&Signature::Bool, "zv"), "zv::Signature::Bool");
}

#[test]
fn array_names_its_child() {
    let text = signature_to_tokens(&Signature::from_str("ay").unwrap());
    assert_eq!(
        text,
        "::zvariant::Signature::Array(::zvariant::signature::Child::Static { child: &::zvariant::Signature::U8, })"
    );
    let text = signature_to_tokens(&Signature::from_str("mx").unwrap());
    assert_eq!(
        text,
        "::zvariant::Signature::Maybe(::zvariant::signature::Child::Static { child: &::zvariant::Signature::I64, })"
    );
}

#[test]
fn dict_names_key_and_value() {
    let text = signature_to_tokens_with_crate(&Signature::from_str("a{sv}").unwrap(), "Z");
    assert_eq!(
        text,
        "Z::Signature::Dict { key: Z::signature::Child::Static { child: &Z::Signature::Str, }, value: Z::signature::Child::Static { child: &Z::Signature::Variant, }, }"
    );
}

#[test]
fn structure_lists_its_fields() {
    let text = signature_to_tokens_with_crate(&Signature::from_str("(su)").unwrap(), "Z");
    assert_eq!(
        text,
        "Z::Signature::Structure(Z::signature::Fields::Static { fields: &[&Z::Signature::Str, &Z::Signature::U32], })"
    );
    let text = signature_to_tokens_with_crate(&Signature::from_str("(y)").unwrap(), "Z");
    assert_eq!(
        text,
        "Z::Signature::Structure(Z::signature::Fields::Static { fields: &[&Z::Signature::U8], })"
    );
}

#[test]
fn every_output_is_a_row_of_tokens() {
    for text in ["", "y", "as", "a{sv}", "(su)", "a(ya{oa(ii)}m(s))", "((((y))))"] {
        let signature = Signature::from_str(text).unwrap();
        let source = signature_to_tokens(&signature);
        assert!(TokenStream::from_str(&source).is_ok(), "{}", source);
    }
}

#[test]
fn macro_literal_expands() {
    assert_eq!(expand_signature_macro("\"u\"").unwrap(), "::zvariant::Signature::U32");
    assert_eq!(expand_signature_macro("u").unwrap(), "::zvariant::Signature::U32");
    assert_eq!(expand_signature_macro("\"\"").unwrap(), "::zvariant::Signature::Unit");
    assert_eq!(
        expand_signature_macro("\"dict\"").unwrap(),
        signature_to_tokens(&Signature::from_str("a{sv}").unwrap())
    );
    assert_eq!(
        expand_signature_macro("\"(su)\"").unwrap(),
        signature_to_tokens(&Signature::Structure(vec![Signature::Str, Signature::U32]))
    );
}

#[test]
fn macro_literal_that_is_no_signature() {
    match expand_signature_macro("\"a{\"") {
        Err(Error::InvalidSignature(text)) => assert_eq!(text, "a{"),
        other => panic!("unexpected: {:?}", other),
    }
    match expand_signature_macro("\"dic\"") {
        Err(Error::InvalidSignature(text)) => assert_eq!(text, "dic"),
        other => panic!("unexpected: {:?}", other),
    }
}
