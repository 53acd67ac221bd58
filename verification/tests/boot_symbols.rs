use jampgame_proxy::{DLL_ENTRY_SYMBOL, VM_MAIN_SYMBOL};

#[test]
fn cstr_symbol_names_are_ascii() {
    assert_eq!(c"dllEntry".to_bytes(), DLL_ENTRY_SYMBOL.as_bytes());
    assert_eq!(c"vmMain".to_bytes(), VM_MAIN_SYMBOL.as_bytes());
    assert!(DLL_ENTRY_SYMBOL.is_ascii() && VM_MAIN_SYMBOL.is_ascii());
}
