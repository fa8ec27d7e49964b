use tfpin::hcl_nav::{
    attr, attr_str, child_block, expr_display, expr_matches, expr_to_toml, object_get,
    toml_display, top_blocks,
};
use tfpin::syntax::{parse, Expr};
use tfpin::value::{FloatText, TomlValue};

const SAMPLE: &str = r#"
terraform {
  required_version = "~> 1.15.5"
  required_providers {
    aws = {
      source  = "hashicorp/aws"
      version = "~> 6.24"
    }
    google = {
      source = "hashicorp/google"
    }
  }
  backend "s3" {
    bucket              = "my-bucket"
    use_lockfile        = true
    allowed_account_ids = ["111111111111"]
    key                 = "acme/infra/platform/foo"
  }
}

module "vpc" {
  source  = "terraform-aws-modules/vpc/aws"
  version = "~> 6.2"
}
"#;

fn s(text: &str) -> TomlValue {
    TomlValue::Str(text.to_string())
}

#[test]
fn navigates_nested_blocks_and_objects() {
    let body = parse(SAMPLE).unwrap();

    let tf = top_blocks(&body, "terraform")[0];
    assert_eq!(attr_str(&tf.body, "required_version"), Some("~> 1.15.5"));

    let rp = child_block(tf, "required_providers", None).unwrap();
    let aws = attr(&rp.body, "aws").unwrap();
    assert_eq!(
        object_get(aws, "version").and_then(|v| match v {
            Expr::Str(s) => Some(s.as_str()),
            _ => None,
        }),
        Some("~> 6.24")
    );
    // A provider declared without a version yields None (must be skipped, not flagged).
    let google = attr(&rp.body, "google").unwrap();
    assert!(object_get(google, "version").is_none());

    let backend = child_block(tf, "backend", Some("s3")).unwrap();
    assert_eq!(attr_str(&backend.body, "key"), Some("acme/infra/platform/foo"));
}

#[test]
fn compares_literals_against_toml() {
    let body = parse(SAMPLE).unwrap();
    let backend =
        child_block(top_blocks(&body, "terraform")[0], "backend", Some("s3")).unwrap();

    assert!(expr_matches(attr(&backend.body, "use_lockfile").unwrap(), &TomlValue::Boolean(true)));
    assert!(expr_matches(attr(&backend.body, "bucket").unwrap(), &s("my-bucket")));
    assert!(expr_matches(
        attr(&backend.body, "allowed_account_ids").unwrap(),
        &TomlValue::Array(vec![s("111111111111")])
    ));
    // Mismatch.
    assert!(!expr_matches(attr(&backend.body, "use_lockfile").unwrap(), &TomlValue::Boolean(false)));
}

#[test]
fn top_blocks_keeps_source_order_and_skips_other_kinds() {
    let body = parse("module \"a\" {}\nterraform {}\nmodule \"b\" {}\nx = 1\n").unwrap();
    let mods = top_blocks(&body, "module");
    assert_eq!(mods.len(), 2);
    assert_eq!(mods[0].labels, vec!["a".to_string()]);
    assert_eq!(mods[1].labels, vec!["b".to_string()]);
    assert!(top_blocks(&body, "resource").is_empty());
}

#[test]
fn child_block_takes_the_first_match_and_checks_the_label() {
    let body = parse(
        "terraform {\n  backend \"gcs\" { a = 1 }\n  backend \"s3\" { a = 2 }\n  backend \"s3\" { a = 3 }\n}\n",
    )
    .unwrap();
    let tf = top_blocks(&body, "terraform")[0];
    let first_any = child_block(tf, "backend", None).unwrap();
    assert_eq!(first_any.labels, vec!["gcs".to_string()]);
    let s3 = child_block(tf, "backend", Some("s3")).unwrap();
    assert_eq!(expr_display(attr(&s3.body, "a").unwrap()), "2");
    assert!(child_block(tf, "backend", Some("azurerm")).is_none());
}

#[test]
fn attr_str_is_none_for_a_non_string() {
    let body = parse("a = true\nb = var.x\nc = \"c\"\n").unwrap();
    assert_eq!(attr_str(&body, "a"), None);
    assert_eq!(attr_str(&body, "b"), None);
    assert_eq!(attr_str(&body, "c"), Some("c"));
    assert_eq!(attr_str(&body, "missing"), None);
}

#[test]
fn object_get_takes_identifier_and_string_keys() {
    let body = parse("p = { version = \"1\" }\nq = { \"version\" = \"2\" }\nr = \"x\"\n").unwrap();
    let as_str = |e: Option<&Expr>| match e {
        Some(Expr::Str(s)) => Some(s.clone()),
        _ => None,
    };
    assert_eq!(as_str(object_get(attr(&body, "p").unwrap(), "version")), Some("1".to_string()));
    assert_eq!(as_str(object_get(attr(&body, "q").unwrap(), "version")), Some("2".to_string()));
    assert!(object_get(attr(&body, "r").unwrap(), "version").is_none());
}

#[test]
fn expr_to_toml_converts_literals_only() {
    let body = parse("a = [\"x\", 1, true]\nb = [\"x\", var.y]\nc = 2.5\nd = -7\n").unwrap();
    match expr_to_toml(attr(&body, "a").unwrap()) {
        Some(TomlValue::Array(items)) => {
            assert_eq!(items.len(), 3);
            assert!(matches!(&items[0], TomlValue::Str(s) if s == "x"));
            assert!(matches!(items[1], TomlValue::Integer(1)));
            assert!(matches!(items[2], TomlValue::Boolean(true)));
        }
        other => panic!("unexpected {:?}", other),
    }
    assert!(expr_to_toml(attr(&body, "b").unwrap()).is_none());
    match expr_to_toml(attr(&body, "c").unwrap()) {
        Some(TomlValue::Float(f)) => {
            assert_eq!(f.bits, 2.5f64.to_bits());
            assert_eq!(f.text, "2.5");
        }
        other => panic!("unexpected {:?}", other),
    }
    assert!(matches!(expr_to_toml(attr(&body, "d").unwrap()), Some(TomlValue::Integer(-7))));
}

#[test]
fn numbers_and_floats_compare_by_value() {
    let body = parse("i = 42\nf = 1.5\nz = 0.0\n").unwrap();
    assert!(expr_matches(attr(&body, "i").unwrap(), &TomlValue::Integer(42)));
    assert!(!expr_matches(attr(&body, "i").unwrap(), &TomlValue::Integer(43)));
    let float = |x: f64| TomlValue::Float(FloatText { bits: x.to_bits(), text: x.to_string() });
    assert!(expr_matches(attr(&body, "f").unwrap(), &float(1.5)));
    assert!(!expr_matches(attr(&body, "f").unwrap(), &float(f64::NAN)));
    // `hcl` reads an integral float as an integer.
    assert!(expr_matches(attr(&body, "z").unwrap(), &TomlValue::Integer(0)));
    assert!(!expr_matches(attr(&body, "z").unwrap(), &float(0.0)));
    // An integer never equals a float.
    assert!(!expr_matches(attr(&body, "i").unwrap(), &float(42.0)));
}

#[test]
fn displays_render_literals_and_placeholders() {
    let body =
        parse("a = [\"000000000000\"]\nb = false\nc = null\nd = var.x\ne = [1, [true, \"s\"]]\nf = 12\n")
            .unwrap();
    assert_eq!(expr_display(attr(&body, "a").unwrap()), "[000000000000]");
    assert_eq!(expr_display(attr(&body, "b").unwrap()), "false");
    assert_eq!(expr_display(attr(&body, "c").unwrap()), "null");
    assert_eq!(expr_display(attr(&body, "d").unwrap()), "<expression>");
    assert_eq!(expr_display(attr(&body, "e").unwrap()), "[1, [true, s]]");
    assert_eq!(expr_display(attr(&body, "f").unwrap()), "12");

    let v = TomlValue::Array(vec![
        TomlValue::Integer(-9223372036854775808),
        TomlValue::Array(vec![TomlValue::Boolean(true), s("s")]),
        TomlValue::Other("1979-05-27".to_string()),
    ]);
    assert_eq!(toml_display(&v), "[-9223372036854775808, [true, s], 1979-05-27]");
    assert_eq!(toml_display(&TomlValue::Array(vec![])), "[]");
    assert_eq!(toml_display(&TomlValue::Integer(0)), "0");
}

#[test]
fn found_and_expected_displays_line_up() {
    let body = parse("a = [\"x\", 10, false]\n").unwrap();
    let e = attr(&body, "a").unwrap();
    let v = expr_to_toml(e).unwrap();
    assert_eq!(toml_display(&v), expr_display(e));
}

#[test]
fn parse_reports_malformed_source() {
    let err = parse("terraform {\n  required_version = \n").unwrap_err();
    assert!(!err.is_empty());
}

#[test]
fn parsed_integers_show_as_their_digits() {
    let body = parse("a = 42\nb = 9000000000\nc = [1, 2]\n").unwrap();
    for (key, shown) in [("a", "42"), ("b", "9000000000"), ("c", "[1, 2]")] {
        let e = attr(&body, key).unwrap();
        assert_eq!(expr_display(e), shown);
        assert_eq!(toml_display(&expr_to_toml(e).unwrap()), shown);
    }
}
