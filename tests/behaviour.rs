use wa::{camel_case, ends_with, kebab_case, replace_extended_ascii, template, template_vec};

#[test]
fn empty_inputs() {
    assert_eq!(camel_case(String::new()), "");
    assert_eq!(kebab_case(String::new()), "");
    assert_eq!(replace_extended_ascii(String::new()), "");
    assert!(ends_with(String::new(), String::new(), None));
    assert_eq!(template(String::new()).render(&[("a", "b")]), "");
    assert_eq!(template_vec(String::new()).render(&["a"]), "");
}

#[test]
fn only_special_characters() {
    assert_eq!(camel_case("-- __ ,!".to_string()), "");
    assert_eq!(kebab_case("-- __ ,!".to_string()), "");
}

#[test]
fn camel_case_twice_on_text_without_specials() {
    let once = camel_case("RioDeJaneiro2".to_string());
    assert_eq!(once, "riodejaneiro2");
    assert_eq!(camel_case(once.clone()), once);
}

#[test]
fn camel_case_uses_unicode_case_mappings() {
    assert_eq!(camel_case("ÁGUA viva".to_string()), "águaViva");
    assert_eq!(camel_case("rio éden".to_string()), "rioÉden");
    assert_eq!(camel_case("a ßb".to_string()), "aSSb");
}

#[test]
fn camel_case_digit_then_boundary() {
    assert_eq!(camel_case("route 66 north".to_string()), "route66North");
}

#[test]
fn kebab_case_lower_to_upper_transition() {
    assert_eq!(kebab_case("fooBar".to_string()), "foo-bar");
    assert_eq!(kebab_case("FOO".to_string()), "foo");
    assert_eq!(kebab_case("ÁGUA Viva".to_string()), "água-viva");
    assert_eq!(kebab_case("a1B".to_string()), "a1b");
}

#[test]
fn replace_extended_ascii_whole_table() {
    let input = "ÀÁÂÃÄÅÇÈÉÊËÌÍÎÏÑÒÓÔÕÖØÙÚÛÜÝàáâãäåçèéêëìíîïñòóôõöøùúûüýÿ";
    let expected = "AAAAAACEEEEIIIINOOOOOOUUUUYaaaaaaceeeeiiiinoooooouuuuyy";
    assert_eq!(replace_extended_ascii(input.to_string()), expected);
}

#[test]
fn replace_extended_ascii_keeps_length_and_others() {
    let input = "ßŒ€ 1-2 Żółw";
    let out = replace_extended_ascii(input.to_string());
    assert_eq!(out.chars().count(), input.chars().count());
    assert_eq!(out, "ßŒ€ 1-2 Żołw");
}

#[test]
fn ends_with_examples() {
    assert!(ends_with("abc".to_string(), "c".to_string(), None));
    assert!(ends_with("abc".to_string(), "ab".to_string(), Some(2)));
    assert!(!ends_with("abc".to_string(), "bc".to_string(), Some(2)));
}

#[test]
fn ends_with_clamps_and_bounds() {
    assert!(ends_with("abc".to_string(), "bc".to_string(), Some(10)));
    assert!(ends_with("abc".to_string(), String::new(), Some(0)));
    assert!(!ends_with("abc".to_string(), "a".to_string(), Some(0)));
    assert!(!ends_with("ab".to_string(), "abc".to_string(), None));
    assert!(ends_with("são".to_string(), "ã".to_string(), Some(2)));
}

#[test]
fn template_missing_and_repeated_keys() {
    let t = template("{ a }/{ b }/{ a }/{a}".to_string());
    assert_eq!(t.render(&[("a", "x")]), "x/{ b }/x/{a}");
    assert_eq!(t.render(&[]), "{ a }/{ b }/{ a }/{a}");
    assert_eq!(t.pattern(), "{ a }/{ b }/{ a }/{a}");
}

#[test]
fn template_result_ignores_pair_order() {
    let t = template("{ a }".to_string());
    assert_eq!(t.render(&[("a", "{ b }"), ("b", "x")]), "{ b }");
    assert_eq!(t.render(&[("b", "x"), ("a", "{ b }")]), "{ b }");
    let u = template("{ a }-{ b }".to_string());
    assert_eq!(u.render(&[("a", "1"), ("b", "2")]), "1-2");
    assert_eq!(u.render(&[("b", "2"), ("a", "1")]), "1-2");
}

#[test]
fn template_first_pair_of_a_key_wins() {
    let t = template("{ k }".to_string());
    assert_eq!(t.render(&[("k", "first"), ("k", "second")]), "first");
}

#[test]
fn template_placeholder_shapes() {
    let t = template("{ { k } }{k}{ k}{  }".to_string());
    assert_eq!(t.render(&[("k", "v"), ("", "e")]), "{ v }{k}{ k}e");
}

#[test]
fn template_vec_index_past_end_and_multi_digit() {
    let t = template_vec("{1}-{3}-{10}-{12}".to_string());
    assert_eq!(t.render(&["a", "b"]), "a-{3}-{10}-{12}");
    let ten = ["1", "2", "3", "4", "5", "6", "7", "8", "9", "ten"];
    assert_eq!(t.render(&ten), "1-3-ten-{12}");
    assert_eq!(t.pattern(), "{1}-{3}-{10}-{12}");
}

#[test]
fn kebab_case_keeps_accented_letters() {
    let input = "Água_DE--côco Éden";
    let out = kebab_case(input.to_string());
    assert_eq!(out, "água-de-côco-éden");
    let letters: String = input
        .chars()
        .filter(|c| c.is_alphanumeric())
        .flat_map(|c| c.to_lowercase())
        .collect();
    assert_eq!(out.chars().filter(|c| *c != '-').collect::<String>(), letters);
}
