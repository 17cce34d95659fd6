use surfer::translation::pytranslator::PyTranslationResult;
use surfer::translation::{binary_string, pad_with_zeros, value_string, SignalValue};

#[test]
fn result_of_a_script_holds_the_text_and_no_fields() {
    let result = PyTranslationResult::new("0x2a");
    assert_eq!(result.0.val, "0x2a");
    assert!(result.0.subfields.is_empty());
    let empty = PyTranslationResult::new("");
    assert_eq!(empty.0.val, "");
}

#[test]
fn numbers_are_written_in_binary() {
    assert_eq!(binary_string(&vec![]), "0");
    assert_eq!(binary_string(&vec![0]), "0");
    assert_eq!(binary_string(&vec![0, 0]), "0");
    assert_eq!(binary_string(&vec![1]), "1");
    assert_eq!(binary_string(&vec![5]), "101");
    assert_eq!(binary_string(&vec![42, 0]), "101010");
    assert_eq!(binary_string(&vec![u32::MAX]), "1".repeat(32));
    assert_eq!(binary_string(&vec![0, 1]), format!("1{}", "0".repeat(32)));
    assert_eq!(
        binary_string(&vec![3, 2]),
        format!("10{}11", "0".repeat(30))
    );
    assert_eq!(
        binary_string(&vec![0x8000_0001, 0, 6]),
        format!("110{}1{}1", "0".repeat(32), "0".repeat(30))
    );
}

#[test]
fn binary_agrees_with_the_machine_for_two_digits() {
    for value in [0u64, 1, 2, 255, 4_294_967_295, 4_294_967_296, 81_985_529_216_486_895, u64::MAX] {
        let digits = vec![value as u32, (value >> 32) as u32];
        assert_eq!(binary_string(&digits), format!("{:b}", value));
    }
}

#[test]
fn text_is_padded_with_zeros_on_the_left() {
    assert_eq!(pad_with_zeros("101".to_string(), 8), "00000101");
    assert_eq!(pad_with_zeros("101".to_string(), 3), "101");
    assert_eq!(pad_with_zeros("101".to_string(), 2), "101");
    assert_eq!(pad_with_zeros("101".to_string(), 0), "101");
    assert_eq!(pad_with_zeros(String::new(), 2), "00");
}

#[test]
fn value_is_written_for_the_width_of_its_signal() {
    assert_eq!(value_string(&SignalValue::BigUint(vec![5]), Some(8)), "00000101");
    assert_eq!(value_string(&SignalValue::BigUint(vec![5]), Some(1)), "101");
    assert_eq!(value_string(&SignalValue::BigUint(vec![5]), None), "101");
    assert_eq!(value_string(&SignalValue::BigUint(vec![]), Some(4)), "0000");
    assert_eq!(value_string(&SignalValue::BigUint(vec![]), None), "0");
    assert_eq!(
        value_string(&SignalValue::String("x1z0".to_string()), Some(8)),
        "x1z0"
    );
}
