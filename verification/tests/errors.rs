use httpkv::chain::{operation_a, operation_b, operation_c, operation_root, ErrorChain};
use httpkv::location::{bottom, fmt_u32, middle, top};
use httpkv::other::{bottom_level, custom_bottom, custom_top, top_level, CustomError};

fn messages(chain: &ErrorChain) -> Vec<String> {
    let mut out = Vec::new();
    for i in 0..chain.depth() {
        out.push(chain.message_at(i).clone());
    }
    out
}

#[test]
fn test_operation_chain() {
    let err = operation_root().unwrap_err();
    assert_eq!(
        messages(&err),
        vec![
            "failed to call operation a",
            "error calling operation_b",
            "Error A occurred: Error in A",
            "some more info on b",
            "Error B occurred: Error in B",
            "Error C occurred: Something went wrong in C",
        ]
    );
    assert_eq!(messages(&operation_a().unwrap_err()).len(), 5);
    assert_eq!(messages(&operation_b().unwrap_err()).len(), 3);
    assert_eq!(
        messages(&operation_c().unwrap_err()),
        vec!["Error C occurred: Something went wrong in C"]
    );
}

#[test]
fn test_top_level_chain() {
    let err = top_level().unwrap_err();
    assert_eq!(
        messages(&err),
        vec!["top level context", "bottom level context", "entity not found"]
    );
    let err = bottom_level().unwrap_err();
    assert_eq!(messages(&err), vec!["bottom level context", "entity not found"]);
}

#[test]
fn test_custom_chain() {
    let err = custom_top().unwrap_err();
    assert_eq!(
        messages(&err),
        vec!["custom top context", "bottom ctx", "my custom other"]
    );
    let err = custom_bottom().unwrap_err();
    assert_eq!(messages(&err), vec!["bottom ctx", "my custom other"]);
}

#[test]
fn test_custom_error_reason() {
    let e = CustomError::CustomOther("iam a hte reson".to_string());
    assert_eq!(e.reason(), "iam a hte reson");
    assert_eq!(e.message(), "my custom other");
}

#[test]
fn test_location_chain() {
    let err = top().unwrap_err();
    assert_eq!(
        messages(&err),
        vec![
            "top()::src/location.rs:214:18",
            "middle()::src/location.rs:192:18",
            "bottom()::src/location.rs:179:12",
            "Custom error",
        ]
    );
    assert_eq!(messages(&middle().unwrap_err()).len(), 3);
    assert_eq!(messages(&bottom().unwrap_err()).len(), 2);
}

#[test]
fn test_fmt_u32() {
    assert_eq!(fmt_u32(0), "0");
    assert_eq!(fmt_u32(7), "7");
    assert_eq!(fmt_u32(10), "10");
    assert_eq!(fmt_u32(409), "409");
    assert_eq!(fmt_u32(u32::MAX), "4294967295");
}

#[test]
fn test_chain_building() {
    let chain = ErrorChain::root("inner").context("outer");
    assert_eq!(messages(&chain), vec!["outer", "inner"]);
    assert_eq!(chain.depth(), 2);
}
