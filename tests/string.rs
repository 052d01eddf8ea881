use wa::{camel_case, kebab_case, replace_extended_ascii, template, template_vec};

#[test]
fn test_replace_extended_ascii() {
    assert_eq!(replace_extended_ascii("São Paulo".to_string()), "Sao Paulo");
    assert_eq!(replace_extended_ascii("Água".to_string()), "Agua");
    assert_eq!(replace_extended_ascii("Pão".to_string()), "Pao");
    assert_eq!(replace_extended_ascii("Åke".to_string()), "Ake");
    assert_eq!(replace_extended_ascii("Södermalm".to_string()), "Sodermalm");
    assert_eq!(
        replace_extended_ascii("Rio de Janeiro".to_string()),
        "Rio de Janeiro"
    );
}

#[test]
fn test_template() {
    let url_template = template("https://api.com/{ user_id }/products/{ product_id }".to_string());

    let url: String = url_template.render(&[("user_id", "85"), ("product_id", "23")]);
    let url_2: String = url_template.render(&[("user_id", "23"), ("product_id", "85")]);

    assert_eq!(url, "https://api.com/85/products/23");
    assert_eq!(url_2, "https://api.com/23/products/85");
}

#[test]
fn test_template_vec() {
    let url_template = template_vec("https://api.com/{1}/products/{2}?by={1}".to_string());

    let url: String = url_template.render(&vec!["85", "23"]);
    let url_2: String = url_template.render(&vec!["23", "85"]);

    assert_eq!(url, "https://api.com/85/products/23?by=85");
    assert_eq!(url_2, "https://api.com/23/products/85?by=23");
}

#[test]
fn test_camel_case() {
    assert_eq!(camel_case("São Paulo".to_string()), "sãoPaulo");
    assert_eq!(camel_case("Rio de Janeiro".to_string()), "rioDeJaneiro");
    assert_eq!(camel_case("rio, de Janeiro".to_string()), "rioDeJaneiro");
    assert_eq!(camel_case("rio".to_string()), "rio");
    assert_eq!(camel_case("--stock-----holm--".to_string()), "stockHolm");
    assert_eq!(
        camel_case("____Rio____de___JANEIRO".to_string()),
        "rioDeJaneiro"
    );
    assert_eq!(camel_case("Rio2DE2janeiro".to_string()), "rio2de2janeiro");
}

#[test]
fn test_kebab_case() {
    assert_eq!(kebab_case("São Paulo".to_string()), "são-paulo");
    assert_eq!(kebab_case("Rio de Janeiro".to_string()), "rio-de-janeiro");
    assert_eq!(
        kebab_case("--rio--1--2-de-3janeiro".to_string()),
        "rio-1-2-de-3janeiro"
    );
    assert_eq!(
        kebab_case("__rIO_-de-Jan_eiro_".to_string()),
        "r-io-de-jan-eiro"
    );
}
