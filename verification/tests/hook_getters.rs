use jampgame_proxy::hooks::original_call;

fn pristine_answer() -> i32 {
    42
}

#[test]
fn original_call_returns_what_the_getter_gives() {
    assert_eq!(original_call(pristine_answer), 42);
    let addr = 0x0805_6b14usize;
    assert_eq!(original_call(|| addr), addr);
}
