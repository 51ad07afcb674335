use cargo_ohrs::codegen::{callback_name, js_name};

#[test]
fn registration_names_are_built_from_the_constant() {
    assert_eq!(js_name("LIMIT"), "LIMIT\0");
    assert_eq!(js_name(""), "\0");
    assert_eq!(callback_name("__napi_register__LIMIT_0"), "__register__const____napi_register__LIMIT_0_callback__");
    assert_eq!(callback_name(""), "__register__const___callback__");
}
