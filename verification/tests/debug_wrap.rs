use substruct_genesis::Companion;
use substruct_genesis::CompanionField;
use substruct_genesis::FieldState;
use substruct_genesis::Value;

#[test]
fn debug_wrap_test_debug_wrap() {
    // An unwrapped field holds its value directly
    let _update = Companion::new(vec![CompanionField {
        name: "unwrapped".to_string(),
        state: FieldState::Unwrapped(Value::IntV(42)),
    }]);
    println!("DebugStructSubstruct compiled successfully!");
}
