use afterglow_manager::settings::{
    check_credentials_present, credential_hint, extract_bucket_name, extract_distribution_id,
    initial_settings, migrate_settings, trim, AppSettings,
};

fn v0_settings(prefix: &str) -> AppSettings {
    let mut s = AppSettings::default();
    s.bucket = "my-bucket".to_string();
    s.region = "us-east-1".to_string();
    s.s3_prefix = prefix.to_string();
    s
}

#[test]
fn test_default_settings() {
    let settings = AppSettings::default();
    assert_eq!(settings.bucket, "");
    assert_eq!(settings.region, "");
    assert_eq!(settings.s3_prefix, "");
    assert_eq!(settings.schema_version, 0);
}

#[test]
fn initial_settings_use_the_default_region() {
    let s = initial_settings();
    assert_eq!(s.region, "ap-southeast-2");
    assert_eq!(s.s3_prefix, "");
    assert_eq!(s.schema_version, 1);
}

#[test]
fn test_migration_v0_galleries_prefix() {
    let mut settings = v0_settings("galleries/");
    assert_eq!(settings.schema_version, 0);
    assert!(migrate_settings(&mut settings));
    assert_eq!(settings.s3_prefix, "");
    assert_eq!(settings.schema_version, 1);
}

#[test]
fn test_migration_v0_subdirectory_galleries_prefix() {
    let mut settings = v0_settings("my-site/galleries/");
    assert_eq!(settings.schema_version, 0);
    assert!(migrate_settings(&mut settings));
    assert_eq!(settings.s3_prefix, "my-site/");
    assert_eq!(settings.schema_version, 1);
}

#[test]
fn test_migration_v0_non_galleries_prefix_unchanged() {
    let mut settings = v0_settings("photos/");
    assert!(migrate_settings(&mut settings));
    assert_eq!(settings.s3_prefix, "photos/");
    assert_eq!(settings.schema_version, 1);
}

#[test]
fn test_migration_v1_not_re_migrated() {
    let mut settings = v0_settings("");
    settings.schema_version = 1;
    assert_eq!(settings.schema_version, 1);
    assert_eq!(settings.s3_prefix, "");
    let would_migrate = migrate_settings(&mut settings);
    assert!(!would_migrate);
    assert_eq!(settings.schema_version, 1);
}

#[test]
fn test_extract_bucket_name_plain() {
    assert_eq!(extract_bucket_name("my-bucket"), "my-bucket");
    assert_eq!(extract_bucket_name("  my-bucket  "), "my-bucket");
}

#[test]
fn test_extract_bucket_name_from_arn() {
    assert_eq!(extract_bucket_name("arn:aws:s3:::my-bucket"), "my-bucket");
    assert_eq!(
        extract_bucket_name("arn:aws:s3:::thirdhalfphotosinfrastack-websitebucket75c24d94-8nxyz"),
        "thirdhalfphotosinfrastack-websitebucket75c24d94-8nxyz"
    );
}

#[test]
fn test_extract_bucket_name_from_arn_with_key_prefix() {
    assert_eq!(extract_bucket_name("arn:aws:s3:::my-bucket/some/prefix"), "my-bucket");
}

#[test]
fn test_extract_bucket_name_govcloud_arn() {
    assert_eq!(extract_bucket_name("arn:aws-us-gov:s3:::gov-bucket"), "gov-bucket");
}

#[test]
fn extract_bucket_name_keeps_an_arn_without_a_bucket() {
    assert_eq!(extract_bucket_name(" arn:aws:s3::: "), "arn:aws:s3:::");
    assert_eq!(extract_bucket_name("arn:a:b"), "b");
}

#[test]
fn test_extract_distribution_id_plain() {
    assert_eq!(extract_distribution_id("E1ABC2DEF3GH"), "E1ABC2DEF3GH");
    assert_eq!(extract_distribution_id("  E1ABC2DEF3GH  "), "E1ABC2DEF3GH");
}

#[test]
fn test_extract_distribution_id_from_arn() {
    assert_eq!(
        extract_distribution_id("arn:aws:cloudfront::123456789012:distribution/E1ABC2DEF3GH"),
        "E1ABC2DEF3GH"
    );
}

#[test]
fn test_extract_distribution_id_from_arn_with_extra_path() {
    assert_eq!(
        extract_distribution_id("arn:aws:cloudfront::123456789012:distribution/E1ABC2DEF3GH/extra"),
        "extra"
    );
}

#[test]
fn extract_distribution_id_keeps_an_arn_ending_in_a_slash() {
    assert_eq!(extract_distribution_id("arn:aws:cloudfront::1:distribution/"), "arn:aws:cloudfront::1:distribution/");
}

#[test]
fn credential_hint_shows_the_last_four_characters() {
    assert_eq!(credential_hint("AKIAABCDEFGH"), "EFGH");
    assert_eq!(credential_hint("abc"), "abc");
}

#[test]
fn credentials_must_both_be_present() {
    assert!(check_credentials_present("id", "secret").is_ok());
    assert_eq!(
        check_credentials_present("", "secret"),
        Err("AWS Access Key ID and Secret Access Key are required.".to_string())
    );
    assert!(check_credentials_present("id", "").is_err());
}

#[test]
fn trim_removes_unicode_white_space_at_both_ends() {
    assert_eq!(trim("\u{3000}\t my-bucket \u{a0}\n"), "my-bucket");
    assert_eq!(trim("a b"), "a b");
    assert_eq!(trim(" \u{2003} "), "");
    assert_eq!(extract_bucket_name("\u{2009}arn:aws:s3:::b\u{85}"), "b");
}
