//! Application settings, their schema migration, and the parsing of the
//! bucket and distribution identifiers the user enters.
use vstd::prelude::*;
use vstd::string::StringExecFns;
use crate::paths::file_name_of;
use crate::text::{
    ends_with, first_index, first_index_of, is_prefix, is_suffix, slice, starts_with,
};

verus! {

/// The schema version that settings are written with.
pub const SETTINGS_SCHEMA_VERSION: u32 = 1;

/// A character of the Unicode White_Space property, which `str::trim` removes.
pub open spec fn is_white_space(c: char) -> bool {
    let u = c as u32;
    (0x9 <= u && u <= 0xD) || u == 0x20 || u == 0x85 || u == 0xA0 || u == 0x1680 || (0x2000 <= u
        && u <= 0x200A) || u == 0x2028 || u == 0x2029 || u == 0x202F || u == 0x205F || u == 0x3000
}

pub open spec fn trim_start_of(s: Seq<char>) -> Seq<char>
    decreases s.len(),
{
    if s.len() > 0 && is_white_space(s[0]) {
        trim_start_of(s.drop_first())
    } else {
        s
    }
}

pub open spec fn trim_end_of(s: Seq<char>) -> Seq<char>
    decreases s.len(),
{
    if s.len() > 0 && is_white_space(s.last()) {
        trim_end_of(s.drop_last())
    } else {
        s
    }
}

/// `s` without its leading and trailing white space.
pub open spec fn trimmed(s: Seq<char>) -> Seq<char> {
    trim_end_of(trim_start_of(s))
}

fn white_space(c: char) -> (r: bool)
    ensures
        r == is_white_space(c),
{
    let u = c as u32;
    (0x9 <= u && u <= 0xD) || u == 0x20 || u == 0x85 || u == 0xA0 || u == 0x1680 || (0x2000 <= u
        && u <= 0x200A) || u == 0x2028 || u == 0x2029 || u == 0x202F || u == 0x205F || u == 0x3000
}

/// `s` without its leading and trailing white space, as `str::trim` gives it.
pub fn trim(s: &str) -> (r: String)
    ensures
        r@ == trimmed(s@),
{
    let n = s.unicode_len();
    let mut a: usize = 0;
    assert(s@.subrange(0, n as int) == s@);
    while a < n && white_space(s.get_char(a))
        invariant
            n == s@.len(),
            a <= n,
            trim_start_of(s@) == trim_start_of(s@.subrange(a as int, n as int)),
        decreases n - a,
    {
        assert(s@.subrange(a as int, n as int).drop_first() == s@.subrange(a + 1, n as int));
        a = a + 1;
    }
    let ghost mid = s@.subrange(a as int, n as int);
    assert(trim_start_of(mid) == mid);
    let mut b: usize = n;
    while b > a && white_space(s.get_char(b - 1))
        invariant
            n == s@.len(),
            a <= b <= n,
            mid == s@.subrange(a as int, n as int),
            trim_end_of(mid) == trim_end_of(s@.subrange(a as int, b as int)),
        decreases b,
    {
        assert(s@.subrange(a as int, b as int).drop_last() == s@.subrange(a as int, b - 1));
        b = b - 1;
    }
    slice(s, a, b)
}

/// The distribution identifier named by `t` (already trimmed): the last
/// '/'-separated segment of an ARN when that is not empty, else `t` itself.
pub open spec fn distribution_id_of(t: Seq<char>) -> Seq<char> {
    if is_prefix("arn:"@, t) && file_name_of(t).len() > 0 {
        file_name_of(t)
    } else {
        t
    }
}

/// What follows the `k`-th ':' of `s`, or what follows its last ':' when
/// there are fewer (the last field of `splitn(k + 1, ':')`).
pub open spec fn after_colons(s: Seq<char>, k: nat) -> Seq<char>
    decreases k,
{
    if k == 0 {
        s
    } else {
        let i = first_index_of(s, ':');
        if i < 0 {
            s
        } else {
            after_colons(s.subrange(i + 1, s.len() as int), (k - 1) as nat)
        }
    }
}

/// What precedes the first '/' of `s` (all of `s` when it holds none).
pub open spec fn before_slash(s: Seq<char>) -> Seq<char> {
    let i = first_index_of(s, '/');
    if i < 0 {
        s
    } else {
        s.subrange(0, i)
    }
}

/// The bucket named by `t` (already trimmed): for an ARN
/// `arn:partition:s3:region:account:bucket[/key]` the bucket part when it is
/// not empty, else `t` itself.
pub open spec fn bucket_name_of(t: Seq<char>) -> Seq<char> {
    if is_prefix("arn:"@, t) {
        let b = before_slash(after_colons(t.subrange(4, t.len() as int), 4));
        if b.len() > 0 {
            b
        } else {
            t
        }
    } else {
        t
    }
}

/// The distribution identifier in a CloudFront ARN, or the trimmed input.
pub fn extract_distribution_id(input: &str) -> (r: String)
    ensures
        r@ == distribution_id_of(trimmed(input@)),
{
    let t = trim(input);
    if starts_with(t.as_str(), "arn:") {
        let last = crate::paths::file_name(t.as_str());
        if last.as_str().unicode_len() > 0 {
            return last;
        }
    }
    t
}

fn after_colons_exec(s: &str, k: usize) -> (r: String)
    ensures
        r@ == after_colons(s@, k as nat),
    decreases k,
{
    if k == 0 {
        return String::from_str(s);
    }
    proof {
        crate::text::lemma_first_index_of_bounds(s@, ':');
    }
    let n = s.unicode_len();
    match first_index(s, ':') {
        Some(i) => {
            let rest = slice(s, i + 1, n);
            after_colons_exec(rest.as_str(), k - 1)
        },
        None => String::from_str(s),
    }
}

fn before_slash_exec(s: &str) -> (r: String)
    ensures
        r@ == before_slash(s@),
{
    proof {
        crate::text::lemma_first_index_of_bounds(s@, '/');
    }
    match first_index(s, '/') {
        Some(i) => slice(s, 0, i),
        None => String::from_str(s),
    }
}

/// The bucket name in an S3 ARN, or the trimmed input.
pub fn extract_bucket_name(input: &str) -> (r: String)
    ensures
        r@ == bucket_name_of(trimmed(input@)),
{
    let t = trim(input);
    if starts_with(t.as_str(), "arn:") {
        proof {
            reveal_strlit("arn:");
        }
        let rest = slice(t.as_str(), 4, t.as_str().unicode_len());
        let resource = after_colons_exec(rest.as_str(), 4);
        let bucket = before_slash_exec(resource.as_str());
        if bucket.as_str().unicode_len() > 0 {
            return bucket;
        }
    }
    t
}

/// Stored application settings.
pub struct AppSettings {
    pub bucket: String,
    pub region: String,
    /// Site root prefix in the bucket ("" for the bucket root, "my-site/" for a
    /// subdirectory); gallery files go under `{s3_prefix}galleries/`.
    pub s3_prefix: String,
    pub last_validated_user: String,
    pub last_validated_account: String,
    pub last_validated_arn: String,
    pub cloud_front_distribution_id: String,
    pub schema_version: u32,
}

impl Default for AppSettings {
    fn default() -> (r: Self)
        ensures
            r.bucket@.len() == 0,
            r.region@.len() == 0,
            r.s3_prefix@.len() == 0,
            r.last_validated_user@.len() == 0,
            r.last_validated_account@.len() == 0,
            r.last_validated_arn@.len() == 0,
            r.cloud_front_distribution_id@.len() == 0,
            r.schema_version == 0,
    {
        AppSettings {
            bucket: String::new(),
            region: String::new(),
            s3_prefix: String::new(),
            last_validated_user: String::new(),
            last_validated_account: String::new(),
            last_validated_arn: String::new(),
            cloud_front_distribution_id: String::new(),
            schema_version: 0,
        }
    }
}

/// The settings used when none have been saved yet.
pub fn initial_settings() -> (r: AppSettings)
    ensures
        r.bucket@.len() == 0,
        r.region@ == "ap-southeast-2"@,
        r.s3_prefix@.len() == 0,
        r.last_validated_user@.len() == 0,
        r.last_validated_account@.len() == 0,
        r.last_validated_arn@.len() == 0,
        r.cloud_front_distribution_id@.len() == 0,
        r.schema_version == SETTINGS_SCHEMA_VERSION,
{
    let mut s = AppSettings::default();
    s.region = String::from_str("ap-southeast-2");
    s.schema_version = SETTINGS_SCHEMA_VERSION;
    s
}

/// The site root that a version-0 prefix stands for: version 0 stored the
/// galleries directory, so a trailing "galleries/" is dropped.
pub open spec fn migrated_prefix(p: Seq<char>) -> Seq<char> {
    if is_suffix("galleries/"@, p) {
        p.subrange(0, p.len() - 10)
    } else {
        p
    }
}

/// Brings settings of schema version 0 to the current version; returns
/// whether anything changed (and so has to be written back).
pub fn migrate_settings(settings: &mut AppSettings) -> (changed: bool)
    ensures
        changed == (old(settings).schema_version == 0),
        changed ==> final(settings).s3_prefix@ == migrated_prefix(old(settings).s3_prefix@)
            && final(settings).schema_version == SETTINGS_SCHEMA_VERSION,
        !changed ==> *final(settings) == *old(settings),
        final(settings).bucket == old(settings).bucket,
        final(settings).region == old(settings).region,
        final(settings).last_validated_user == old(settings).last_validated_user,
        final(settings).last_validated_account == old(settings).last_validated_account,
        final(settings).last_validated_arn == old(settings).last_validated_arn,
        final(settings).cloud_front_distribution_id == old(settings).cloud_front_distribution_id,
{
    if settings.schema_version != 0 {
        return false;
    }
    proof {
        reveal_strlit("galleries/");
    }
    if ends_with(settings.s3_prefix.as_str(), "galleries/") {
        let n = settings.s3_prefix.as_str().unicode_len();
        settings.s3_prefix = slice(settings.s3_prefix.as_str(), 0, n - 10);
    }
    settings.schema_version = SETTINGS_SCHEMA_VERSION;
    true
}

/// The part of an access key id shown to the user: its last four characters,
/// or all of it when it is shorter.
pub fn credential_hint(key_id: &str) -> (r: String)
    ensures
        key_id@.len() >= 4 ==> r@ == key_id@.subrange(key_id@.len() - 4, key_id@.len() as int),
        key_id@.len() < 4 ==> r@ == key_id@,
{
    let n = key_id.unicode_len();
    if n >= 4 {
        slice(key_id, n - 4, n)
    } else {
        String::from_str(key_id)
    }
}

/// Both parts of a credential pair must be present before any call is made.
pub fn check_credentials_present(key_id: &str, secret: &str) -> (r: Result<(), String>)
    ensures
        r.is_ok() == (key_id@.len() > 0 && secret@.len() > 0),
        r matches Err(m) ==> m@ == "AWS Access Key ID and Secret Access Key are required."@,
{
    if key_id.unicode_len() == 0 || secret.unicode_len() == 0 {
        Err(String::from_str("AWS Access Key ID and Secret Access Key are required."))
    } else {
        Ok(())
    }
}

/// The identity that a credential check reported.
pub struct ValidationResult {
    pub user: String,
    pub account: String,
    pub arn: String,
}

} // verus!
