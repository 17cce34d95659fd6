use surfer::util::{alpha_idx_to_uint_idx, uint_idx_to_alpha_idx};

#[test]
fn encodes_single_position() {
    assert_eq!(uint_idx_to_alpha_idx(0, 1), "a");
}

#[test]
fn encodes_with_one_letter_up_to_sixteen_positions() {
    assert_eq!(uint_idx_to_alpha_idx(0, 16), "a");
    assert_eq!(uint_idx_to_alpha_idx(9, 16), "j");
    assert_eq!(uint_idx_to_alpha_idx(15, 16), "p");
}

#[test]
fn encodes_with_two_letters_from_seventeen_positions() {
    assert_eq!(uint_idx_to_alpha_idx(0, 17), "aa");
    assert_eq!(uint_idx_to_alpha_idx(1, 17), "ab");
    assert_eq!(uint_idx_to_alpha_idx(16, 17), "ba");
    assert_eq!(uint_idx_to_alpha_idx(255, 256), "pp");
    assert_eq!(uint_idx_to_alpha_idx(255, 257), "app");
    assert_eq!(uint_idx_to_alpha_idx(256, 257), "baa");
}

#[test]
fn decodes_labels() {
    assert_eq!(alpha_idx_to_uint_idx("a".to_string()), Some(0));
    assert_eq!(alpha_idx_to_uint_idx("p".to_string()), Some(15));
    assert_eq!(alpha_idx_to_uint_idx("ba".to_string()), Some(16));
    assert_eq!(alpha_idx_to_uint_idx("aab".to_string()), Some(1));
    assert_eq!(alpha_idx_to_uint_idx("baa".to_string()), Some(256));
}

#[test]
fn rejects_what_is_no_label() {
    assert_eq!(alpha_idx_to_uint_idx(String::new()), None);
    assert_eq!(alpha_idx_to_uint_idx("q".to_string()), None);
    assert_eq!(alpha_idx_to_uint_idx("A".to_string()), None);
    assert_eq!(alpha_idx_to_uint_idx("a_".to_string()), None);
    assert_eq!(alpha_idx_to_uint_idx("a1".to_string()), None);
    assert_eq!(alpha_idx_to_uint_idx("é".to_string()), None);
}

#[test]
fn rejects_a_label_beyond_the_machine_word() {
    let mut label = String::new();
    for _ in 0..200 {
        label.push('p');
    }
    assert_eq!(alpha_idx_to_uint_idx(label), None);
    let mut widest = String::new();
    for _ in 0..(usize::BITS / 4) {
        widest.push('p');
    }
    assert_eq!(alpha_idx_to_uint_idx(widest.clone()), Some(usize::MAX));
    widest.insert(0, 'a');
    assert_eq!(alpha_idx_to_uint_idx(widest.clone()), Some(usize::MAX));
    widest.insert(0, 'b');
    assert_eq!(alpha_idx_to_uint_idx(widest), None);
}

#[test]
fn round_trips_every_position() {
    for n in 1..300usize {
        for p in 0..n {
            assert_eq!(alpha_idx_to_uint_idx(uint_idx_to_alpha_idx(p, n)), Some(p));
        }
    }
}

#[test]
fn width_grows_with_the_list_and_is_least() {
    let mut last = 0;
    for n in 1..5000usize {
        let width = uint_idx_to_alpha_idx(0, n).chars().count();
        assert!(width >= last);
        assert!(width >= 1);
        assert!(16usize.pow(width as u32) >= n);
        if width > 1 {
            assert!(16usize.pow(width as u32 - 1) < n);
        }
        last = width;
    }
}

#[test]
fn labels_of_one_list_are_distinct_and_of_one_width() {
    let n = 40;
    let mut seen: Vec<String> = Vec::new();
    for p in 0..n {
        let label = uint_idx_to_alpha_idx(p, n);
        assert_eq!(label.chars().count(), 2);
        assert!(!seen.contains(&label));
        seen.push(label);
    }
}
