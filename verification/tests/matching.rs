use extension_parser::{parse_one, Extension, ExtensionShape, IntoExtensionShape};

struct Tag(&'static str);

impl IntoExtensionShape for Tag {
    fn into_shape(&self) -> ExtensionShape {
        ExtensionShape::Tag(String::from(self.0))
    }

    fn generate(&self) -> Vec<Extension> {
        vec![Extension(String::from(self.0))]
    }
}

struct Prefix(&'static str);

impl IntoExtensionShape for Prefix {
    fn into_shape(&self) -> ExtensionShape {
        ExtensionShape::Prefix(String::from(self.0))
    }

    fn generate(&self) -> Vec<Extension> {
        vec![Extension(String::from(self.0))]
    }
}

struct Multi(&'static str, &'static [&'static str]);

impl IntoExtensionShape for Multi {
    fn into_shape(&self) -> ExtensionShape {
        ExtensionShape::Multi(String::from(self.0))
    }

    fn generate(&self) -> Vec<Extension> {
        self.1.iter().map(|t| Extension(String::from(*t))).collect()
    }
}

fn texts(tokens: &[Extension]) -> Vec<&str> {
    tokens.iter().map(|t| t.0.as_str()).collect()
}

#[test]
fn identifier_is_the_literal_of_every_shape() {
    assert_eq!(ExtensionShape::Tag(String::from("I")).identifier(), "I");
    assert_eq!(ExtensionShape::Prefix(String::from("Xy")).identifier(), "Xy");
    assert_eq!(ExtensionShape::Multi(String::from("G")).identifier(), "G");
    assert_eq!(ExtensionShape::Tag(String::new()).identifier(), "");
}

#[test]
fn tag_consumes_exactly_its_literal() {
    let (rest, tokens) = parse_one("IXfoo", &Tag("I")).unwrap();
    assert_eq!(rest, "Xfoo");
    assert_eq!(texts(&tokens), vec!["I"]);
}

#[test]
fn tag_matches_the_whole_input() {
    let (rest, tokens) = parse_one("I", &Tag("I")).unwrap();
    assert_eq!(rest, "");
    assert_eq!(texts(&tokens), vec!["I"]);
}

#[test]
fn tag_with_a_long_literal() {
    let (rest, tokens) = parse_one("Zicsr_Zifencei", &Tag("Zicsr")).unwrap();
    assert_eq!(rest, "_Zifencei");
    assert_eq!(texts(&tokens), vec!["Zicsr"]);
}

#[test]
fn tag_fails_where_the_literal_is_absent() {
    let err = parse_one("blah", &Tag("I")).unwrap_err();
    assert_eq!(err.rest, "blah");
}

#[test]
fn tag_is_case_sensitive() {
    let err = parse_one("i", &Tag("I")).unwrap_err();
    assert_eq!(err.rest, "i");
}

#[test]
fn tag_fails_on_a_truncated_literal() {
    let err = parse_one("Zi", &Tag("Zicsr")).unwrap_err();
    assert_eq!(err.rest, "Zi");
}

#[test]
fn tag_fails_on_empty_input() {
    let err = parse_one("", &Tag("I")).unwrap_err();
    assert_eq!(err.rest, "");
}

#[test]
fn tag_does_not_match_inside_the_input() {
    let err = parse_one("AI", &Tag("I")).unwrap_err();
    assert_eq!(err.rest, "AI");
}

#[test]
fn prefix_captures_to_the_end_of_input() {
    let (rest, tokens) = parse_one("Xabcd", &Prefix("X")).unwrap();
    assert_eq!(rest, "");
    assert_eq!(texts(&tokens), vec!["Xabcd"]);
}

#[test]
fn prefix_stops_before_the_delimiter() {
    let (rest, tokens) = parse_one("Xab_cd", &Prefix("X")).unwrap();
    assert_eq!(rest, "_cd");
    assert_eq!(texts(&tokens), vec!["Xab"]);
}

#[test]
fn prefix_captures_a_single_character() {
    let (rest, tokens) = parse_one("Xa_", &Prefix("X")).unwrap();
    assert_eq!(rest, "_");
    assert_eq!(texts(&tokens), vec!["Xa"]);
}

#[test]
fn prefix_fails_where_the_delimiter_follows_the_literal() {
    let err = parse_one("X_abc", &Prefix("X")).unwrap_err();
    assert_eq!(err.rest, "_abc");
}

#[test]
fn prefix_fails_where_input_ends_after_the_literal() {
    let err = parse_one("X", &Prefix("X")).unwrap_err();
    assert_eq!(err.rest, "");
}

#[test]
fn prefix_fails_where_the_literal_is_absent() {
    let err = parse_one("Yabc", &Prefix("X")).unwrap_err();
    assert_eq!(err.rest, "Yabc");
}

#[test]
fn prefix_fails_on_a_truncated_literal() {
    let err = parse_one("S", &Prefix("Sv")).unwrap_err();
    assert_eq!(err.rest, "S");
}

#[test]
fn prefix_fails_on_empty_input() {
    let err = parse_one("", &Prefix("X")).unwrap_err();
    assert_eq!(err.rest, "");
}

#[test]
fn prefix_ignores_what_generate_would_give() {
    let (_, tokens) = parse_one("Xq", &Prefix("X")).unwrap();
    assert_eq!(texts(&tokens), vec!["Xq"]);
}

#[test]
fn prefix_handles_characters_of_several_bytes() {
    let (rest, tokens) = parse_one("é日本_x", &Prefix("é")).unwrap();
    assert_eq!(rest, "_x");
    assert_eq!(texts(&tokens), vec!["é日本"]);
}

#[test]
fn tag_handles_characters_of_several_bytes() {
    let (rest, tokens) = parse_one("日本語", &Tag("日本")).unwrap();
    assert_eq!(rest, "語");
    assert_eq!(texts(&tokens), vec!["日本"]);
}

#[test]
fn multi_yields_its_own_tokens() {
    let g = Multi("G", &["i", "m", "a", "c"]);
    let (rest, tokens) = parse_one("G", &g).unwrap();
    assert_eq!(rest, "");
    assert_eq!(texts(&tokens), vec!["i", "m", "a", "c"]);
}

#[test]
fn multi_tokens_do_not_depend_on_what_follows() {
    let g = Multi("G", &["i", "m", "a", "c"]);
    let (rest_a, tokens_a) = parse_one("G", &g).unwrap();
    let (rest_b, tokens_b) = parse_one("Gxyz_123", &g).unwrap();
    assert_eq!(rest_a, "");
    assert_eq!(rest_b, "xyz_123");
    assert_eq!(texts(&tokens_a), texts(&tokens_b));
}

#[test]
fn multi_may_yield_no_token() {
    let (rest, tokens) = parse_one("Nrest", &Multi("N", &[])).unwrap();
    assert_eq!(rest, "rest");
    assert!(tokens.is_empty());
}

#[test]
fn multi_fails_where_the_literal_is_absent() {
    let err = parse_one("H", &Multi("G", &["i"])).unwrap_err();
    assert_eq!(err.rest, "H");
}

#[test]
fn empty_literal_matches_and_consumes_nothing() {
    let (rest, tokens) = parse_one("abc", &Tag("")).unwrap();
    assert_eq!(rest, "abc");
    assert_eq!(texts(&tokens), vec![""]);
}

#[test]
fn a_capability_can_be_matched_through_a_trait_object() {
    let tag = Tag("I");
    let ext: &dyn IntoExtensionShape = &tag;
    let (rest, tokens) = parse_one("IA", ext).unwrap();
    assert_eq!(rest, "A");
    assert_eq!(texts(&tokens), vec!["I"]);
}

#[test]
fn matching_twice_gives_the_same_result() {
    let x = Prefix("X");
    let (rest_a, tokens_a) = parse_one("Xfoo_bar", &x).unwrap();
    let (rest_b, tokens_b) = parse_one("Xfoo_bar", &x).unwrap();
    assert_eq!(rest_a, rest_b);
    assert_eq!(texts(&tokens_a), texts(&tokens_b));
}
