use garden_sea::names::{
    fresh_generation_name, fresh_suffix, generation_name, has_generation_tag, name_lt, same_name,
    SUFFIX_LENGTH, TIMESTAMP_WIDTH,
};

#[test]
fn generation_name_has_timestamp_suffix_and_tag() {
    assert_eq!(generation_name(1700000000, "abcDEF7"), "1700000000-abcDEF7.r");
}

#[test]
fn generation_name_pads_short_timestamps() {
    assert_eq!(generation_name(42, "0000000"), "0000000042-0000000.r");
    assert_eq!(generation_name(0, "zzzzzzz"), "0000000000-zzzzzzz.r");
    assert_eq!(generation_name(999_999_999, "aaaaaaa"), "0999999999-aaaaaaa.r");
}

#[test]
fn generation_name_keeps_long_timestamps() {
    assert_eq!(generation_name(9_999_999_999, "aaaaaaa"), "9999999999-aaaaaaa.r");
    assert_eq!(generation_name(10_000_000_000, "aaaaaaa"), "10000000000-aaaaaaa.r");
    assert_eq!(generation_name(u64::MAX, "aaaaaaa"), "18446744073709551615-aaaaaaa.r");
}

#[test]
fn generation_name_takes_any_suffix() {
    assert_eq!(generation_name(1, ""), "0000000001-.r");
}

#[test]
fn widths_are_fixed() {
    assert_eq!(SUFFIX_LENGTH, 7);
    assert_eq!(TIMESTAMP_WIDTH, 10);
}

#[test]
fn tag_needs_a_stem() {
    assert!(has_generation_tag("a.r"));
    assert!(has_generation_tag("..r"));
    assert!(has_generation_tag("1700000000-abcdefg.r"));
    assert!(!has_generation_tag(".r"));
    assert!(!has_generation_tag("r"));
    assert!(!has_generation_tag(""));
    assert!(!has_generation_tag("a.rs"));
    assert!(!has_generation_tag("a.R"));
    assert!(!has_generation_tag("a.r "));
    assert!(!has_generation_tag("ar"));
}

#[test]
fn tag_is_found_behind_characters_of_several_bytes() {
    assert!(has_generation_tag("\u{e9}.r"));
    assert!(!has_generation_tag("\u{e9}r"));
}

#[test]
fn names_sort_by_character() {
    assert!(name_lt("a", "b"));
    assert!(name_lt("a", "ab"));
    assert!(!name_lt("ab", "a"));
    assert!(!name_lt("a", "a"));
    assert!(name_lt("", "a"));
    assert!(!name_lt("", ""));
    assert!(name_lt("B", "a"));
    assert!(name_lt("z", "\u{e9}"));
    assert!(!name_lt("b", "a"));
}

#[test]
fn names_sort_as_strings_do() {
    let names = ["", "a", "ab", "b", "1700000000-a.r", "0999999999-z.r", "\u{e9}", "z", "Z"];
    for a in names {
        for b in names {
            assert_eq!(name_lt(a, b), a < b);
            assert_eq!(same_name(a, b), a == b);
        }
    }
}

#[test]
fn earlier_generations_sort_first() {
    let earlier = generation_name(999_999_999, "zzzzzzz");
    let later = generation_name(1_000_000_000, "0000000");
    assert!(name_lt(&earlier, &later));
    assert!(!name_lt(&later, &earlier));
    let first = generation_name(5, "zzzzzzz");
    let second = generation_name(40, "AAAAAAA");
    assert!(name_lt(&first, &second));
}

#[test]
fn fresh_suffix_is_seven_letters_or_digits() {
    for _ in 0..200 {
        let suffix = fresh_suffix();
        assert_eq!(suffix.len(), 7);
        assert!(suffix.chars().all(|c| c.is_ascii_alphanumeric()));
    }
}

#[test]
fn fresh_suffixes_differ() {
    let mut seen = Vec::new();
    for _ in 0..50 {
        seen.push(fresh_suffix());
    }
    seen.sort();
    seen.dedup();
    assert!(seen.len() > 1);
}

#[test]
fn fresh_generation_name_is_well_formed() {
    let name = fresh_generation_name(1700000000);
    assert_eq!(name.len(), 10 + 1 + 7 + 2);
    assert!(name.starts_with("1700000000-"));
    assert!(name.ends_with(".r"));
    assert!(name[11..18].chars().all(|c| c.is_ascii_alphanumeric()));
    assert!(has_generation_tag(&name));
}
