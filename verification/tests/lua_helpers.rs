use fila_core::lua::helpers::{rate_limit_keys, resolve_pattern};

fn headers(pairs: &[(&str, &str)]) -> Vec<(String, String)> {
    pairs.iter().map(|(k, v)| (k.to_string(), v.to_string())).collect()
}

fn patterns(ps: &[&str]) -> Vec<String> {
    ps.iter().map(|p| p.to_string()).collect()
}

#[test]
fn rate_limit_keys_valid_patterns() {
    let h = headers(&[("provider", "aws"), ("region", "us-east-1")]);
    let result = rate_limit_keys(Some(&h), &patterns(&["provider:{provider}", "region:{region}"]));
    assert_eq!(result, vec!["provider:aws", "region:us-east-1"]);
}

#[test]
fn rate_limit_keys_missing_header_omitted() {
    let h = headers(&[("provider", "aws")]);
    let result = rate_limit_keys(Some(&h), &patterns(&["provider:{provider}", "region:{region}"]));
    assert_eq!(result, vec!["provider:aws"]);
}

#[test]
fn rate_limit_keys_empty_patterns() {
    let h = headers(&[("provider", "aws")]);
    let result = rate_limit_keys(Some(&h), &patterns(&[]));
    assert!(result.is_empty());
}

#[test]
fn rate_limit_keys_nil_headers() {
    let result = rate_limit_keys(None, &patterns(&["provider:{provider}"]));
    assert!(result.is_empty());
}

#[test]
fn rate_limit_keys_no_placeholders() {
    let h = headers(&[]);
    let result = rate_limit_keys(Some(&h), &patterns(&["static-key"]));
    assert_eq!(result, vec!["static-key"]);
}

#[test]
fn substituted_values_are_not_searched_again() {
    let h = headers(&[("a", "{b}"), ("b", "x")]);
    assert_eq!(resolve_pattern("{a}-{b}", &h), Some("{b}-x".to_string()));
}

#[test]
fn unclosed_brace_stops_replacing() {
    let h = headers(&[("a", "1")]);
    assert_eq!(resolve_pattern("{a}:{open", &h), Some("1:{open".to_string()));
}

#[test]
fn multibyte_values_and_patterns() {
    let h = headers(&[("région", "éu"), ("k", "ß")]);
    assert_eq!(resolve_pattern("→{région}/{k}", &h), Some("→éu/ß".to_string()));
}
