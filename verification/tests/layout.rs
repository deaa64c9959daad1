use bums::layout::{calculate_size_of, calculate_size_of_array};

#[test]
fn primitive_sizes_by_name() {
    assert_eq!(calculate_size_of("i8".to_string()), 1);
    assert_eq!(calculate_size_of("u16".to_string()), 2);
    assert_eq!(calculate_size_of("i32".to_string()), 4);
    assert_eq!(calculate_size_of("u64".to_string()), 8);
    assert_eq!(calculate_size_of("u128".to_string()), 16);
}

#[test]
fn array_sizes_by_element_and_length() {
    assert_eq!(calculate_size_of_array("u32".to_string(), "60"), 240);
    assert_eq!(calculate_size_of_array("u8".to_string(), "16"), 16);
    assert_eq!(calculate_size_of_array("u128".to_string(), "0"), 0);
}
