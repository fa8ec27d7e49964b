use tfpin::checks::{backend, forbidden_blocks, modules, providers, run_all, terraform_version, Violation};
use tfpin::config::{Backend, BackendS3, Config};
use tfpin::lint::check_file;
use tfpin::syntax::parse;
use tfpin::value::TomlValue;

fn s(text: &str) -> String {
    text.to_string()
}

/// The rules of the README's example configuration.
fn acme_config() -> Config {
    Config {
        terraform_version: Some(s("~> 1.15.5")),
        forbidden_blocks: vec![s("moved"), s("import"), s("removed")],
        providers: vec![(s("aws"), s("~> 6.24")), (s("kubernetes"), s("~> 2.37, >= 2.37.1"))],
        modules: vec![(s("terraform-aws-modules/vpc/aws"), s("~> 6.2"))],
        backend: Backend {
            s3: Some(BackendS3 {
                key_template: Some(s("acme/infra/{dir}")),
                expected: vec![
                    (s("allowed_account_ids"), TomlValue::Array(vec![TomlValue::Str(s("111111111111"))])),
                    (s("bucket"), TomlValue::Str(s("acme-terraform-state"))),
                    (s("region"), TomlValue::Str(s("us-west-1"))),
                    (s("use_lockfile"), TomlValue::Boolean(true)),
                ],
            }),
        },
        ..Config::default()
    }
}

const GOOD: &str = r#"
terraform {
  required_version = "~> 1.15.5"
  required_providers {
    aws = {
      source  = "hashicorp/aws"
      version = "~> 6.24"
    }
    google = {
      source  = "hashicorp/google"
      version = "~> 9.9"
    }
    random = {
      source = "hashicorp/random"
    }
  }
  backend "s3" {
    allowed_account_ids = ["111111111111"]
    bucket              = "acme-terraform-state"
    region              = "us-west-1"
    use_lockfile        = true
    encrypt             = true
    key                 = "acme/infra/platform/foo"
  }
}

module "vpc" {
  source  = "terraform-aws-modules/vpc/aws"
  version = "~> 6.2"
}

module "local" {
  source = "./modules/local"
}
"#;

const BAD: &str = r#"
terraform {
  required_version = "~> 1.14.0"
  required_providers {
    aws = {
      source  = "hashicorp/aws"
      version = "~> 5.0"
    }
    kubernetes = {
      source  = "hashicorp/kubernetes"
      version = "~> 2.30"
    }
  }
  backend "s3" {
    allowed_account_ids = ["000000000000"]
    bucket              = "some-other-bucket"
    region              = "us-east-1"
    use_lockfile        = false
    key                 = "acme/infra/somewhere/else"
  }
}

module "vpc" {
  source  = "terraform-aws-modules/vpc/aws"
  version = "~> 5.0"
}

moved {
  from = a.b
  to   = a.c
}

import {
  to = a.b
  id = "x"
}

removed {
  from = a.d
}
"#;

fn messages(v: &[Violation]) -> Vec<String> {
    v.iter().map(|x| x.message.clone()).collect()
}

#[test]
fn good_file_passes() {
    let body = parse(GOOD).unwrap();
    assert!(run_all("platform/foo", &body, &acme_config()).is_empty());
}

#[test]
fn bad_file_fails_with_expected_violations() {
    let body = parse(BAD).unwrap();
    let got = messages(&run_all("platform/foo", &body, &acme_config()));
    assert_eq!(
        got,
        vec![
            s(r#"wrong terraform required_version: found "~> 1.14.0", expected "~> 1.15.5""#),
            s(r#"wrong aws provider version: found "~> 5.0", expected "~> 6.24""#),
            s(r#"wrong kubernetes provider version: found "~> 2.30", expected "~> 2.37, >= 2.37.1""#),
            s(r#"wrong "vpc" module version: found "~> 5.0", expected "~> 6.2""#),
            s("S3 backend allowed_account_ids is [000000000000] (expected [111111111111])"),
            s("S3 backend bucket is some-other-bucket (expected acme-terraform-state)"),
            s("S3 backend region is us-east-1 (expected us-west-1)"),
            s("S3 backend use_lockfile is false (expected true)"),
            s(r#"S3 backend key "acme/infra/somewhere/else" should match the workspace path: "acme/infra/platform/foo""#),
            s(r#"found refactoring block "moved" leftover (should be removed after use)"#),
            s(r#"found refactoring block "import" leftover (should be removed after use)"#),
            s(r#"found refactoring block "removed" leftover (should be removed after use)"#),
        ]
    );
}

#[test]
fn empty_config_checks_nothing() {
    let body = parse(BAD).unwrap();
    assert!(run_all("platform/foo", &body, &Config::default()).is_empty());
}

#[test]
fn terraform_version_is_only_checked_when_set() {
    let cfg = Config { terraform_version: Some(s("1.0")), ..Config::default() };
    let mut out = Vec::new();
    terraform_version::check(&parse("terraform {}\n").unwrap(), &cfg, &mut out);
    assert!(out.is_empty());
    terraform_version::check(&parse("terraform {\n required_version = var.v\n}\n").unwrap(), &cfg, &mut out);
    assert!(out.is_empty());
    terraform_version::check(&parse("terraform {\n required_version = \"2.0\"\n}\n").unwrap(), &cfg, &mut out);
    assert_eq!(messages(&out), [r#"wrong terraform required_version: found "2.0", expected "1.0""#]);
}

#[test]
fn providers_without_version_or_unlisted_are_left_alone() {
    let cfg = Config { providers: vec![(s("aws"), s("~> 6.24"))], ..Config::default() };
    let body = parse(
        "terraform {\n required_providers {\n  aws = { source = \"hashicorp/aws\" }\n  google = { version = \"1\" }\n  aws = { version = var.v }\n }\n}\n",
    );
    // hcl refuses a key given twice; a body with each key once:
    assert!(body.is_err());
    let body = parse(
        "terraform {\n required_providers {\n  aws = { source = \"hashicorp/aws\" }\n  google = { version = \"1\" }\n }\n}\n",
    )
    .unwrap();
    let mut out = Vec::new();
    providers::check(&body, &cfg, &mut out);
    assert!(out.is_empty());
}

#[test]
fn provider_version_is_read_from_a_quoted_key_too() {
    let cfg = Config { providers: vec![(s("aws"), s("~> 6.24"))], ..Config::default() };
    let body = parse("terraform {\n required_providers {\n  aws = { \"version\" = \"~> 6.0\" }\n }\n}\n").unwrap();
    let mut out = Vec::new();
    providers::check(&body, &cfg, &mut out);
    assert_eq!(messages(&out), [r#"wrong aws provider version: found "~> 6.0", expected "~> 6.24""#]);
}

#[test]
fn modules_not_listed_or_unpinned_are_left_alone() {
    let cfg = Config { modules: vec![(s("a/b/c"), s("1.0"))], ..Config::default() };
    let body = parse(
        "module \"x\" {\n source = \"other\"\n version = \"9\"\n}\nmodule \"y\" {\n source = \"a/b/c\"\n}\nmodule \"z\" {\n source = \"a/b/c\"\n version = \"1.0\"\n}\n",
    )
    .unwrap();
    let mut out = Vec::new();
    modules::check(&body, &cfg, &mut out);
    assert!(out.is_empty());
    let body = parse("module {\n source = \"a/b/c\"\n version = \"2.0\"\n}\n").unwrap();
    modules::check(&body, &cfg, &mut out);
    assert_eq!(messages(&out), [r#"wrong "" module version: found "2.0", expected "1.0""#]);
}

#[test]
fn backend_reports_missing_attributes_and_key() {
    let cfg = acme_config();
    let body = parse("terraform {\n backend \"s3\" {\n  encrypt = true\n }\n}\n").unwrap();
    let mut out = Vec::new();
    backend::check("", &body, &cfg, &mut out);
    assert_eq!(
        messages(&out),
        [
            "S3 backend missing allowed_account_ids (expected [111111111111])",
            "S3 backend missing bucket (expected acme-terraform-state)",
            "S3 backend missing region (expected us-west-1)",
            "S3 backend missing use_lockfile (expected true)",
            r#"S3 backend missing key (expected "acme/infra/")"#,
        ]
    );
}

#[test]
fn backend_without_s3_block_is_skipped() {
    let cfg = acme_config();
    let body = parse("terraform {\n backend \"gcs\" {\n  bucket = \"x\"\n }\n}\n").unwrap();
    let mut out = Vec::new();
    backend::check("a/b", &body, &cfg, &mut out);
    assert!(out.is_empty());
}

#[test]
fn backend_key_mirrors_the_directory() {
    let cfg = Config {
        backend: Backend { s3: Some(BackendS3 { key_template: Some(s("acme/infra/{dir}")), expected: vec![] }) },
        ..Config::default()
    };
    let body = parse("terraform {\n backend \"s3\" {\n  key = \"acme/infra/platform/foo\"\n }\n}\n").unwrap();
    let mut out = Vec::new();
    backend::check("platform/foo", &body, &cfg, &mut out);
    assert!(out.is_empty());
    backend::check("platform/bar", &body, &cfg, &mut out);
    assert_eq!(
        messages(&out),
        [r#"S3 backend key "acme/infra/platform/foo" should match the workspace path: "acme/infra/platform/bar""#]
    );
}

#[test]
fn forbidden_blocks_are_reported_once_per_kind() {
    let cfg = Config { forbidden_blocks: vec![s("moved"), s("import")], ..Config::default() };
    let body = parse("moved {\n from = a\n to = b\n}\nmoved {\n from = c\n to = d\n}\n").unwrap();
    let mut out = Vec::new();
    forbidden_blocks::check(&body, &cfg, &mut out);
    assert_eq!(messages(&out), [r#"found refactoring block "moved" leftover (should be removed after use)"#]);
}

#[test]
fn violation_new_keeps_the_message() {
    assert_eq!(Violation::new(s("m")).message, "m");
}

#[test]
fn check_file_prefixes_messages_with_the_path() {
    let cfg = Config { forbidden_blocks: vec![s("removed")], ..Config::default() };
    let report = check_file("a/main.tf", "a", &Ok(s("removed {\n from = x\n}\n")), &cfg);
    assert_eq!(report.stdout, [r#"a/main.tf: found refactoring block "removed" leftover (should be removed after use)"#]);
    assert!(report.stderr.is_empty());
    assert!(report.failed);

    let report = check_file("a/main.tf", "a", &Ok(s("x = 1\n")), &cfg);
    assert!(report.stdout.is_empty() && report.stderr.is_empty() && !report.failed);
}

#[test]
fn malformed_file_is_reported_not_panicked() {
    let report = check_file("broken.tf", "", &Ok(s("terraform {\n")), &Config::default());
    assert!(report.stdout.is_empty());
    assert_eq!(report.stderr.len(), 1);
    assert!(report.stderr[0].starts_with("tfpin: cannot parse broken.tf: "));
    assert!(report.failed);
}

#[test]
fn unreadable_file_is_reported() {
    let report = check_file("gone.tf", "", &Err(s("No such file or directory (os error 2)")), &Config::default());
    assert_eq!(report.stderr, ["tfpin: cannot read gone.tf: No such file or directory (os error 2)"]);
    assert!(report.stdout.is_empty());
    assert!(report.failed);
}
