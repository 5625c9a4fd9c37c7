//! The change plan: which local artifacts must be uploaded, which are
//! unchanged, and which remote keys have become orphans to delete.
use vstd::prelude::*;
use vstd::string::{StrSliceExecFns, StringExecFns};
use crate::paths::{content_type_for_extension, content_type_of, lower_extension_of};
use crate::text::{concat, contains_char, is_prefix, slice, starts_with, str_eq};

verus! {

/// One local file that is a candidate for publishing, with its content digest.
pub struct LocalArtifact {
    pub s3_key: String,
    pub local_path: String,
    /// Lower-case hex MD5 digest of the file's bytes.
    pub md5: String,
    pub size_bytes: u64,
}

/// One object of the remote inventory.
pub struct RemoteObject {
    pub key: String,
    /// The provider's content fingerprint, without surrounding quotes.
    pub etag: String,
}

/// One upload unit of a plan.
pub struct SyncFile {
    pub local_path: String,
    pub s3_key: String,
    pub size_bytes: u64,
    pub content_type: String,
}

/// A point-in-time diff between the local artifacts and the remote inventory.
pub struct PublishPlan {
    pub plan_id: String,
    pub to_upload: Vec<SyncFile>,
    pub to_delete: Vec<String>,
    pub unchanged: usize,
    pub total_files: usize,
}

// ----- remote root and managed areas -----

/// The remote root as used in keys: empty, or ending in '/'.
pub open spec fn normalized_root(r: Seq<char>) -> Seq<char> {
    if r.len() == 0 || r.last() == '/' {
        r
    } else {
        r.push('/')
    }
}

/// Brings a remote root prefix to the form keys are built with.
pub fn normalize_root(root: &str) -> (r: String)
    ensures
        r@ == normalized_root(root@),
{
    let n = root.unicode_len();
    if n == 0 || root.get_char(n - 1) == '/' {
        String::from_str(root)
    } else {
        proof {
            reveal_strlit("/");
        }
        let r = concat(root, "/");
        assert(r@ =~= root@.push('/'));
        r
    }
}

/// Whether `key` lies in an area that publishing owns below `root`: the
/// `galleries/` and `afterglow/` trees and the files `index.html`,
/// `favicon.ico` and `favicon.png`.
pub open spec fn is_managed(key: Seq<char>, root: Seq<char>) -> bool {
    is_prefix(root + "galleries/"@, key) || is_prefix(root + "afterglow/"@, key) || key == root
        + "index.html"@ || key == root + "favicon.ico"@ || key == root + "favicon.png"@
}

/// Whether publishing may delete `key` under the remote root `root`.
pub fn is_managed_key(key: &str, root: &str) -> (r: bool)
    ensures
        r == is_managed(key@, root@),
{
    let g = concat(root, "galleries/");
    let a = concat(root, "afterglow/");
    let i = concat(root, "index.html");
    let fi = concat(root, "favicon.ico");
    let fp = concat(root, "favicon.png");
    starts_with(key, g.as_str()) || starts_with(key, a.as_str()) || str_eq(key, i.as_str())
        || str_eq(key, fi.as_str()) || str_eq(key, fp.as_str())
}

// ----- fingerprints -----

/// A fingerprint of an object stored in several parts: it carries a '-'.
pub open spec fn is_composite(etag: Seq<char>) -> bool {
    etag.contains('-')
}

/// A remote fingerprint shows the same content as a local digest only when
/// it is a simple digest and equal to it.
pub open spec fn fingerprint_matches(etag: Seq<char>, md5: Seq<char>) -> bool {
    !is_composite(etag) && etag == md5
}

/// Compares a remote fingerprint with a local digest.
pub fn etag_matches(etag: &str, md5: &str) -> (r: bool)
    ensures
        r == fingerprint_matches(etag@, md5@),
{
    !contains_char(etag, '-') && str_eq(etag, md5)
}

pub open spec fn strip_leading_quotes(s: Seq<char>) -> Seq<char>
    decreases s.len(),
{
    if s.len() > 0 && s[0] == '"' {
        strip_leading_quotes(s.drop_first())
    } else {
        s
    }
}

pub open spec fn strip_trailing_quotes(s: Seq<char>) -> Seq<char>
    decreases s.len(),
{
    if s.len() > 0 && s.last() == '"' {
        strip_trailing_quotes(s.drop_last())
    } else {
        s
    }
}

/// A fingerprint as the provider quotes it, with every leading and trailing '"' removed.
pub open spec fn unquoted(s: Seq<char>) -> Seq<char> {
    strip_trailing_quotes(strip_leading_quotes(s))
}

/// Removes the quotes around a provider fingerprint.
pub fn strip_etag_quotes(raw: &str) -> (r: String)
    ensures
        r@ == unquoted(raw@),
{
    let n = raw.unicode_len();
    let mut a: usize = 0;
    assert(raw@.subrange(0, n as int) == raw@);
    while a < n && raw.get_char(a) == '"'
        invariant
            n == raw@.len(),
            a <= n,
            strip_leading_quotes(raw@) == strip_leading_quotes(raw@.subrange(a as int, n as int)),
        decreases n - a,
    {
        assert(raw@.subrange(a as int, n as int).drop_first() == raw@.subrange(a + 1, n as int));
        a = a + 1;
    }
    let ghost mid = raw@.subrange(a as int, n as int);
    assert(strip_leading_quotes(mid) == mid);
    let mut b: usize = n;
    while b > a && raw.get_char(b - 1) == '"'
        invariant
            n == raw@.len(),
            a <= b <= n,
            mid == raw@.subrange(a as int, n as int),
            strip_trailing_quotes(mid) == strip_trailing_quotes(raw@.subrange(a as int, b as int)),
        decreases b,
    {
        assert(raw@.subrange(a as int, b as int).drop_last() == raw@.subrange(
            a as int,
            b - 1,
        ));
        b = b - 1;
    }
    slice(raw, a, b)
}

// ----- the local artifact set and the remote inventory -----

pub open spec fn local_has_key(s: Seq<LocalArtifact>, k: Seq<char>) -> bool {
    exists|j: int| 0 <= j < s.len() && (#[trigger] s[j]).s3_key@ == k
}

pub open spec fn remote_has_key(s: Seq<RemoteObject>, k: Seq<char>) -> bool {
    exists|j: int| 0 <= j < s.len() && (#[trigger] s[j]).key@ == k
}

pub open spec fn local_keys_unique(s: Seq<LocalArtifact>) -> bool {
    forall|i: int, j: int|
        0 <= i < s.len() && 0 <= j < s.len() && i != j ==> (#[trigger] s[i]).s3_key@ != (
        #[trigger] s[j]).s3_key@
}

pub open spec fn remote_keys_unique(s: Seq<RemoteObject>) -> bool {
    forall|i: int, j: int|
        0 <= i < s.len() && 0 <= j < s.len() && i != j ==> (#[trigger] s[i]).key@ != (
        #[trigger] s[j]).key@
}

/// The fingerprint recorded for `k` (the latest entry wins).
pub open spec fn remote_etag_of(s: Seq<RemoteObject>, k: Seq<char>) -> Option<Seq<char>>
    decreases s.len(),
{
    if s.len() == 0 {
        None
    } else if s.last().key@ == k {
        Some(s.last().etag@)
    } else {
        remote_etag_of(s.drop_last(), k)
    }
}

/// The set of local artifacts to publish, one per remote key; a later
/// artifact for a key replaces the earlier one.
pub struct LocalFiles {
    entries: Vec<LocalArtifact>,
}

impl View for LocalFiles {
    type V = Seq<LocalArtifact>;

    closed spec fn view(&self) -> Seq<LocalArtifact> {
        self.entries@
    }
}

impl LocalFiles {
    pub open spec fn wf(&self) -> bool {
        local_keys_unique(self@)
    }

    pub fn new() -> (r: LocalFiles)
        ensures
            r.wf(),
            r@.len() == 0,
    {
        LocalFiles { entries: Vec::new() }
    }

    pub fn len(&self) -> (r: usize)
        ensures
            r == self@.len(),
    {
        self.entries.len()
    }

    pub fn entries(&self) -> (r: &Vec<LocalArtifact>)
        ensures
            r@ == self@,
    {
        &self.entries
    }

    /// Records `a`, replacing the artifact already recorded for its key.
    pub fn insert(&mut self, a: LocalArtifact)
        requires
            old(self).wf(),
        ensures
            final(self).wf(),
            local_has_key(old(self)@, a.s3_key@) ==> exists|j: int|
                0 <= j < old(self)@.len() && old(self)@[j].s3_key@ == a.s3_key@ && final(self)@
                    == old(self)@.update(j, a),
            !local_has_key(old(self)@, a.s3_key@) ==> final(self)@ == old(self)@.push(a),
    {
        let n = self.entries.len();
        let mut i: usize = 0;
        while i < n
            invariant
                n == self.entries@.len(),
                self.entries@ == old(self)@,
                local_keys_unique(self.entries@),
                i <= n,
                forall|j: int| 0 <= j < i ==> self.entries@[j].s3_key@ != a.s3_key@,
            decreases n - i,
        {
            if str_eq(self.entries[i].s3_key.as_str(), a.s3_key.as_str()) {
                let ghost before = self.entries@;
                self.entries[i] = a;
                assert(self.entries@ == before.update(i as int, a));
                assert(local_keys_unique(self.entries@)) by {
                    assert forall|p: int, q: int|
                        0 <= p < self.entries@.len() && 0 <= q < self.entries@.len() && p != q
                            implies (#[trigger] self.entries@[p]).s3_key@ != (
                        #[trigger] self.entries@[q]).s3_key@ by {
                        if p != i && q != i {
                            assert(before[p] == self.entries@[p]);
                            assert(before[q] == self.entries@[q]);
                        } else if p == i {
                            assert(before[q] == self.entries@[q]);
                            assert(before[p].s3_key@ == a.s3_key@);
                        } else {
                            assert(before[p] == self.entries@[p]);
                            assert(before[q].s3_key@ == a.s3_key@);
                        }
                    }
                }
                return;
            }
            i = i + 1;
        }
        self.entries.push(a);
    }
}

/// The remote inventory: one fingerprint per key.
pub struct RemoteInventory {
    objects: Vec<RemoteObject>,
}

impl View for RemoteInventory {
    type V = Seq<RemoteObject>;

    closed spec fn view(&self) -> Seq<RemoteObject> {
        self.objects@
    }
}

impl RemoteInventory {
    pub open spec fn wf(&self) -> bool {
        remote_keys_unique(self@)
    }

    pub fn new() -> (r: RemoteInventory)
        ensures
            r.wf(),
            r@.len() == 0,
    {
        RemoteInventory { objects: Vec::new() }
    }

    pub fn len(&self) -> (r: usize)
        ensures
            r == self@.len(),
    {
        self.objects.len()
    }

    pub fn objects(&self) -> (r: &Vec<RemoteObject>)
        ensures
            r@ == self@,
    {
        &self.objects
    }

    /// Records one listed object: an empty key is ignored, the fingerprint is
    /// unquoted, and an entry already recorded for the key is replaced.
    pub fn record(&mut self, key: &str, raw_etag: &str)
        requires
            old(self).wf(),
        ensures
            final(self).wf(),
            key@.len() == 0 ==> final(self)@ == old(self)@,
            key@.len() > 0 ==> remote_has_key(final(self)@, key@) && remote_etag_of(
                final(self)@,
                key@,
            ) == Some(unquoted(raw_etag@)),
            key@.len() > 0 ==> forall|k: Seq<char>|
                k != key@ ==> remote_etag_of(#[trigger] final(self)@, k) == remote_etag_of(
                    old(self)@,
                    k,
                ) && (remote_has_key(final(self)@, k) == remote_has_key(old(self)@, k)),
    {
        if key.unicode_len() == 0 {
            return;
        }
        let obj = RemoteObject { key: String::from_str(key), etag: strip_etag_quotes(raw_etag) };
        let n = self.objects.len();
        let mut i: usize = 0;
        while i < n
            invariant
                n == self.objects@.len(),
                self.objects@ == old(self)@,
                remote_keys_unique(self.objects@),
                obj.key@ == key@,
                key@.len() > 0,
                obj.etag@ == unquoted(raw_etag@),
                i <= n,
                forall|j: int| 0 <= j < i ==> self.objects@[j].key@ != key@,
            decreases n - i,
        {
            if str_eq(self.objects[i].key.as_str(), key) {
                let ghost before = self.objects@;
                self.objects[i] = obj;
                proof {
                    lemma_remote_update(before, i as int, obj);
                }
                return;
            }
            i = i + 1;
        }
        let ghost before = self.objects@;
        self.objects.push(obj);
        proof {
            lemma_remote_push(before, obj);
        }
    }
}

proof fn lemma_remote_etag_found(s: Seq<RemoteObject>, i: int)
    requires
        remote_keys_unique(s),
        0 <= i < s.len(),
    ensures
        remote_etag_of(s, s[i].key@) == Some(s[i].etag@),
    decreases s.len(),
{
    if i != s.len() - 1 {
        assert(s.last().key@ != s[i].key@);
        assert(s.drop_last()[i] == s[i]);
        lemma_remote_etag_found(s.drop_last(), i);
    }
}

proof fn lemma_remote_etag_absent(s: Seq<RemoteObject>, k: Seq<char>)
    requires
        !remote_has_key(s, k),
    ensures
        remote_etag_of(s, k).is_none(),
    decreases s.len(),
{
    if s.len() > 0 {
        assert(s.last() == s[s.len() - 1]);
        assert forall|j: int| 0 <= j < s.drop_last().len() implies (
        #[trigger] s.drop_last()[j]).key@ != k by {
            assert(s.drop_last()[j] == s[j]);
        }
        lemma_remote_etag_absent(s.drop_last(), k);
    }
}

/// With unique keys, the recorded fingerprint is the one of the entry holding the key.
proof fn lemma_remote_etag_unique(s: Seq<RemoteObject>, k: Seq<char>)
    requires
        remote_keys_unique(s),
    ensures
        remote_has_key(s, k) ==> exists|j: int|
            0 <= j < s.len() && s[j].key@ == k && remote_etag_of(s, k) == Some(s[j].etag@),
        !remote_has_key(s, k) ==> remote_etag_of(s, k).is_none(),
{
    if remote_has_key(s, k) {
        let j = choose|j: int| 0 <= j < s.len() && (#[trigger] s[j]).key@ == k;
        lemma_remote_etag_found(s, j);
    } else {
        lemma_remote_etag_absent(s, k);
    }
}

proof fn lemma_remote_update(before: Seq<RemoteObject>, i: int, obj: RemoteObject)
    requires
        remote_keys_unique(before),
        0 <= i < before.len(),
        before[i].key@ == obj.key@,
    ensures
        remote_keys_unique(before.update(i, obj)),
        remote_has_key(before.update(i, obj), obj.key@),
        remote_etag_of(before.update(i, obj), obj.key@) == Some(obj.etag@),
        forall|k: Seq<char>|
            k != obj.key@ ==> remote_etag_of(#[trigger] before.update(i, obj), k)
                == remote_etag_of(before, k) && (remote_has_key(before.update(i, obj), k)
                == remote_has_key(before, k)),
{
    let after = before.update(i, obj);
    assert forall|p: int, q: int|
        0 <= p < after.len() && 0 <= q < after.len() && p != q implies (#[trigger] after[p]).key@
        != (#[trigger] after[q]).key@ by {
        if p != i {
            assert(after[p] == before[p]);
        }
        if q != i {
            assert(after[q] == before[q]);
        }
    }
    assert(after[i] == obj);
    lemma_remote_etag_found(after, i);
    assert forall|k: Seq<char>| k != obj.key@ implies #[trigger] remote_etag_of(after, k)
        == remote_etag_of(before, k) && (remote_has_key(after, k) == remote_has_key(before, k)) by {
        lemma_remote_etag_unique(after, k);
        lemma_remote_etag_unique(before, k);
        if remote_has_key(after, k) {
            let j = choose|j: int| 0 <= j < after.len() && (#[trigger] after[j]).key@ == k;
            assert(j != i);
            assert(before[j] == after[j]);
            lemma_remote_etag_found(before, j);
            lemma_remote_etag_found(after, j);
        }
        if remote_has_key(before, k) {
            let j = choose|j: int| 0 <= j < before.len() && (#[trigger] before[j]).key@ == k;
            assert(j != i);
            assert(before[j] == after[j]);
        }
    }
}

proof fn lemma_remote_push(before: Seq<RemoteObject>, obj: RemoteObject)
    requires
        remote_keys_unique(before),
        forall|j: int| 0 <= j < before.len() ==> before[j].key@ != obj.key@,
    ensures
        remote_keys_unique(before.push(obj)),
        remote_has_key(before.push(obj), obj.key@),
        remote_etag_of(before.push(obj), obj.key@) == Some(obj.etag@),
        forall|k: Seq<char>|
            k != obj.key@ ==> remote_etag_of(#[trigger] before.push(obj), k) == remote_etag_of(
                before,
                k,
            ) && (remote_has_key(before.push(obj), k) == remote_has_key(before, k)),
{
    let after = before.push(obj);
    assert(after.drop_last() == before);
    assert(after[before.len() as int] == obj);
    assert forall|p: int, q: int|
        0 <= p < after.len() && 0 <= q < after.len() && p != q implies (#[trigger] after[p]).key@
        != (#[trigger] after[q]).key@ by {
        if p < before.len() {
            assert(after[p] == before[p]);
        }
        if q < before.len() {
            assert(after[q] == before[q]);
        }
    }
    assert forall|k: Seq<char>| k != obj.key@ implies #[trigger] remote_etag_of(after, k)
        == remote_etag_of(before, k) && (remote_has_key(after, k) == remote_has_key(before, k)) by {
        if remote_has_key(after, k) {
            let j = choose|j: int| 0 <= j < after.len() && (#[trigger] after[j]).key@ == k;
            assert(j < before.len());
            assert(before[j] == after[j]);
        }
        if remote_has_key(before, k) {
            let j = choose|j: int| 0 <= j < before.len() && (#[trigger] before[j]).key@ == k;
            assert(before[j] == after[j]);
        }
    }
}

// ----- classification -----

/// An artifact is unchanged when the remote holds a simple fingerprint under
/// its key that equals its digest.
pub open spec fn is_unchanged(a: LocalArtifact, remote: Seq<RemoteObject>) -> bool {
    match remote_etag_of(remote, a.s3_key@) {
        Some(e) => fingerprint_matches(e, a.md5@),
        None => false,
    }
}

/// The artifacts to upload, in the order of `local`.
pub open spec fn uploads_of(local: Seq<LocalArtifact>, remote: Seq<RemoteObject>) -> Seq<
    LocalArtifact,
>
    decreases local.len(),
{
    if local.len() == 0 {
        Seq::empty()
    } else {
        let r = uploads_of(local.drop_last(), remote);
        if is_unchanged(local.last(), remote) {
            r
        } else {
            r.push(local.last())
        }
    }
}

/// How many artifacts of `local` are unchanged.
pub open spec fn unchanged_count(local: Seq<LocalArtifact>, remote: Seq<RemoteObject>) -> nat
    decreases local.len(),
{
    if local.len() == 0 {
        0
    } else {
        let r = unchanged_count(local.drop_last(), remote);
        if is_unchanged(local.last(), remote) {
            r + 1
        } else {
            r
        }
    }
}

/// The remote keys to delete, in the order of `remote`: those with no local
/// artifact that lie in a managed area below `root`.
pub open spec fn deletes_of(
    remote: Seq<RemoteObject>,
    local: Seq<LocalArtifact>,
    root: Seq<char>,
) -> Seq<Seq<char>>
    decreases remote.len(),
{
    if remote.len() == 0 {
        Seq::empty()
    } else {
        let r = deletes_of(remote.drop_last(), local, root);
        let k = remote.last().key@;
        if !local_has_key(local, k) && is_managed(k, root) {
            r.push(k)
        } else {
            r
        }
    }
}

/// The upload unit made from an artifact.
pub open spec fn is_sync_file_for(f: SyncFile, a: LocalArtifact) -> bool {
    f.local_path@ == a.local_path@ && f.s3_key@ == a.s3_key@ && f.size_bytes == a.size_bytes
        && f.content_type@ == content_type_of(lower_extension_of(a.local_path@))
}

pub open spec fn string_views(v: Seq<String>) -> Seq<Seq<char>> {
    v.map_values(|s: String| s@)
}

proof fn lemma_counts(local: Seq<LocalArtifact>, remote: Seq<RemoteObject>)
    ensures
        uploads_of(local, remote).len() + unchanged_count(local, remote) == local.len(),
    decreases local.len(),
{
    if local.len() > 0 {
        lemma_counts(local.drop_last(), remote);
    }
}

proof fn lemma_deletes_len(remote: Seq<RemoteObject>, local: Seq<LocalArtifact>, root: Seq<char>)
    ensures
        deletes_of(remote, local, root).len() <= remote.len(),
    decreases remote.len(),
{
    if remote.len() > 0 {
        lemma_deletes_len(remote.drop_last(), local, root);
    }
}

proof fn lemma_uploads_members(local: Seq<LocalArtifact>, remote: Seq<RemoteObject>)
    ensures
        forall|x: LocalArtifact|
            #[trigger] uploads_of(local, remote).contains(x) <==> (local.contains(x)
                && !is_unchanged(x, remote)),
    decreases local.len(),
{
    if local.len() > 0 {
        let init = local.drop_last();
        lemma_uploads_members(init, remote);
        assert forall|x: LocalArtifact|
            #[trigger] uploads_of(local, remote).contains(x) <==> (local.contains(x)
                && !is_unchanged(x, remote)) by {
            let r = uploads_of(init, remote);
            if local.contains(x) {
                let j = choose|j: int| 0 <= j < local.len() && local[j] == x;
                if j < local.len() - 1 {
                    assert(init[j] == x);
                    assert(init.contains(x));
                }
            }
            if init.contains(x) {
                let j = choose|j: int| 0 <= j < init.len() && init[j] == x;
                assert(local[j] == x);
            }
            if !is_unchanged(local.last(), remote) {
                assert(r.push(local.last())[r.len() as int] == local.last());
                if r.contains(x) {
                    let j = choose|j: int| 0 <= j < r.len() && r[j] == x;
                    assert(r.push(local.last())[j] == x);
                }
                if r.push(local.last()).contains(x) && x != local.last() {
                    let j = choose|j: int|
                        0 <= j < r.push(local.last()).len() && r.push(local.last())[j] == x;
                    assert(r[j] == x);
                }
            }
            assert(local[local.len() - 1] == local.last());
        }
    }
}

proof fn lemma_deletes_members(
    remote: Seq<RemoteObject>,
    local: Seq<LocalArtifact>,
    root: Seq<char>,
)
    ensures
        forall|k: Seq<char>|
            #[trigger] deletes_of(remote, local, root).contains(k) <==> (remote_has_key(remote, k)
                && !local_has_key(local, k) && is_managed(k, root)),
    decreases remote.len(),
{
    if remote.len() > 0 {
        let init = remote.drop_last();
        lemma_deletes_members(init, local, root);
        assert forall|k: Seq<char>|
            #[trigger] deletes_of(remote, local, root).contains(k) <==> (remote_has_key(remote, k)
                && !local_has_key(local, k) && is_managed(k, root)) by {
            let r = deletes_of(init, local, root);
            let last = remote.last().key@;
            assert(remote[remote.len() - 1] == remote.last());
            if remote_has_key(remote, k) {
                let j = choose|j: int| 0 <= j < remote.len() && (#[trigger] remote[j]).key@ == k;
                if j < remote.len() - 1 {
                    assert(init[j] == remote[j]);
                }
            }
            if remote_has_key(init, k) {
                let j = choose|j: int| 0 <= j < init.len() && (#[trigger] init[j]).key@ == k;
                assert(remote[j] == init[j]);
            }
            if !local_has_key(local, last) && is_managed(last, root) {
                assert(r.push(last)[r.len() as int] == last);
                if r.contains(k) {
                    let j = choose|j: int| 0 <= j < r.len() && r[j] == k;
                    assert(r.push(last)[j] == k);
                }
                if r.push(last).contains(k) && k != last {
                    let j = choose|j: int| 0 <= j < r.push(last).len() && r.push(last)[j] == k;
                    assert(r[j] == k);
                }
            }
        }
    }
}

/// An artifact is planned for upload exactly when the remote holds no simple
/// fingerprint under its key equal to its digest; otherwise it counts as unchanged.
pub proof fn law_upload_unless_same_digest(
    local: Seq<LocalArtifact>,
    remote: Seq<RemoteObject>,
    a: LocalArtifact,
)
    requires
        local.contains(a),
    ensures
        uploads_of(local, remote).contains(a) <==> match remote_etag_of(remote, a.s3_key@) {
            Some(etag) => is_composite(etag) || etag != a.md5@,
            None => true,
        },
{
    lemma_uploads_members(local, remote);
}

/// A composite remote fingerprint always leads to an upload, whatever the local digest.
pub proof fn law_composite_fingerprint_uploads(
    local: Seq<LocalArtifact>,
    remote: Seq<RemoteObject>,
    a: LocalArtifact,
    etag: Seq<char>,
)
    requires
        local.contains(a),
        remote_etag_of(remote, a.s3_key@) == Some(etag),
        is_composite(etag),
    ensures
        uploads_of(local, remote).contains(a),
{
    lemma_uploads_members(local, remote);
}

/// The deletion candidates are exactly the remote keys without a local
/// artifact that lie in a managed area; no other key is ever proposed.
pub proof fn law_deletes_are_managed_orphans(
    remote: Seq<RemoteObject>,
    local: Seq<LocalArtifact>,
    root: Seq<char>,
    k: Seq<char>,
)
    ensures
        deletes_of(remote, local, root).contains(k) <==> (remote_has_key(remote, k)
            && !local_has_key(local, k) && is_managed(k, root)),
        !is_managed(k, root) ==> !deletes_of(remote, local, root).contains(k),
        local_has_key(local, k) ==> !deletes_of(remote, local, root).contains(k),
{
    lemma_deletes_members(remote, local, root);
}

/// No key is planned both for upload and for deletion: local presence wins.
pub proof fn law_upload_and_delete_disjoint(
    local: Seq<LocalArtifact>,
    remote: Seq<RemoteObject>,
    root: Seq<char>,
    a: LocalArtifact,
)
    requires
        uploads_of(local, remote).contains(a),
    ensures
        !deletes_of(remote, local, root).contains(a.s3_key@),
{
    lemma_uploads_members(local, remote);
    lemma_deletes_members(remote, local, root);
    let j = choose|j: int| 0 <= j < local.len() && local[j] == a;
    assert(local[j].s3_key@ == a.s3_key@);
}

/// The keys of the artifacts of `local` that count as unchanged.
pub open spec fn unchanged_keys(local: Seq<LocalArtifact>, remote: Seq<RemoteObject>) -> Set<
    Seq<char>,
> {
    Set::new(
        |k: Seq<char>|
            exists|i: int|
                0 <= i < local.len() && (#[trigger] local[i]).s3_key@ == k && is_unchanged(
                    local[i],
                    remote,
                ),
    )
}

/// With one artifact per key, the unchanged count is the number of keys whose
/// remote fingerprint is simple and equal to the local digest.
pub proof fn law_unchanged_count_is_matching_keys(
    local: Seq<LocalArtifact>,
    remote: Seq<RemoteObject>,
)
    requires
        local_keys_unique(local),
    ensures
        unchanged_keys(local, remote).finite(),
        unchanged_count(local, remote) == unchanged_keys(local, remote).len(),
    decreases local.len(),
{
    if local.len() == 0 {
        assert(unchanged_keys(local, remote) =~= Set::empty());
    } else {
        let init = local.drop_last();
        let last = local.last();
        assert(local[local.len() - 1] == last);
        assert forall|i: int, j: int|
            0 <= i < init.len() && 0 <= j < init.len() && i != j implies (#[trigger] init[i]).s3_key@
            != (#[trigger] init[j]).s3_key@ by {
            assert(init[i] == local[i] && init[j] == local[j]);
        }
        law_unchanged_count_is_matching_keys(init, remote);
        let before = unchanged_keys(init, remote);
        assert(!before.contains(last.s3_key@)) by {
            if before.contains(last.s3_key@) {
                let i = choose|i: int|
                    0 <= i < init.len() && (#[trigger] init[i]).s3_key@ == last.s3_key@
                        && is_unchanged(init[i], remote);
                assert(local[i] == init[i]);
            }
        }
        if is_unchanged(last, remote) {
            assert(unchanged_keys(local, remote) =~= before.insert(last.s3_key@)) by {
                assert forall|k: Seq<char>| #[trigger] unchanged_keys(local, remote).contains(k)
                    implies before.insert(last.s3_key@).contains(k) by {
                    let i = choose|i: int|
                        0 <= i < local.len() && (#[trigger] local[i]).s3_key@ == k && is_unchanged(
                            local[i],
                            remote,
                        );
                    if i < init.len() {
                        assert(init[i] == local[i]);
                    }
                }
                assert forall|k: Seq<char>| #[trigger] before.contains(k) implies unchanged_keys(
                    local,
                    remote,
                ).contains(k) by {
                    let i = choose|i: int|
                        0 <= i < init.len() && (#[trigger] init[i]).s3_key@ == k && is_unchanged(
                            init[i],
                            remote,
                        );
                    assert(local[i] == init[i]);
                }
            }
        } else {
            assert(unchanged_keys(local, remote) =~= before) by {
                assert forall|k: Seq<char>| #[trigger] unchanged_keys(local, remote).contains(k)
                    implies before.contains(k) by {
                    let i = choose|i: int|
                        0 <= i < local.len() && (#[trigger] local[i]).s3_key@ == k && is_unchanged(
                            local[i],
                            remote,
                        );
                    assert(i < init.len());
                    assert(init[i] == local[i]);
                }
                assert forall|k: Seq<char>| #[trigger] before.contains(k) implies unchanged_keys(
                    local,
                    remote,
                ).contains(k) by {
                    let i = choose|i: int|
                        0 <= i < init.len() && (#[trigger] init[i]).s3_key@ == k && is_unchanged(
                            init[i],
                            remote,
                        );
                    assert(local[i] == init[i]);
                }
            }
        }
    }
}

fn find_remote(remote: &Vec<RemoteObject>, key: &str) -> (r: Option<usize>)
    ensures
        match r {
            Some(i) => i < remote@.len() && remote_etag_of(remote@, key@) == Some(
                remote@[i as int].etag@,
            ),
            None => remote_etag_of(remote@, key@).is_none(),
        },
{
    let mut i: usize = remote.len();
    assert(remote@.subrange(0, i as int) == remote@);
    while i > 0
        invariant
            i <= remote@.len(),
            remote_etag_of(remote@, key@) == remote_etag_of(remote@.subrange(0, i as int), key@),
        decreases i,
    {
        let ghost pre = remote@.subrange(0, i as int);
        assert(pre.drop_last() == remote@.subrange(0, i - 1));
        assert(pre.last() == remote@[i - 1]);
        if str_eq(remote[i - 1].key.as_str(), key) {
            return Some(i - 1);
        }
        i = i - 1;
    }
    None
}

fn has_local_key(local: &Vec<LocalArtifact>, key: &str) -> (r: bool)
    ensures
        r == local_has_key(local@, key@),
{
    let n = local.len();
    let mut i: usize = 0;
    while i < n
        invariant
            n == local@.len(),
            i <= n,
            forall|j: int| 0 <= j < i ==> local@[j].s3_key@ != key@,
        decreases n - i,
    {
        if str_eq(local[i].s3_key.as_str(), key) {
            return true;
        }
        i = i + 1;
    }
    false
}

fn sync_file_for(a: &LocalArtifact) -> (f: SyncFile)
    ensures
        is_sync_file_for(f, *a),
{
    SyncFile {
        local_path: a.local_path.clone(),
        s3_key: a.s3_key.clone(),
        size_bytes: a.size_bytes,
        content_type: content_type_for_extension(a.local_path.as_str()),
    }
}

/// Compares the local artifacts with the remote inventory below `root`.
pub fn build_plan(plan_id: String, local: &LocalFiles, remote: &RemoteInventory, root: &str) -> (r:
    PublishPlan)
    requires
        local@.len() + remote@.len() <= usize::MAX,
    ensures
        r.plan_id@ == plan_id@,
        r.to_upload@.len() == uploads_of(local@, remote@).len(),
        forall|i: int|
            0 <= i < r.to_upload@.len() ==> is_sync_file_for(
                #[trigger] r.to_upload@[i],
                uploads_of(local@, remote@)[i],
            ),
        string_views(r.to_delete@) == deletes_of(remote@, local@, root@),
        r.unchanged == unchanged_count(local@, remote@),
        r.total_files == r.to_upload@.len() + r.to_delete@.len() + r.unchanged,
{
    let entries = local.entries();
    let objects = remote.objects();
    let mut to_upload: Vec<SyncFile> = Vec::new();
    let mut unchanged: usize = 0;
    let n = entries.len();
    let mut i: usize = 0;
    while i < n
        invariant
            n == entries@.len(),
            entries@ == local@,
            objects@ == remote@,
            i <= n,
            to_upload@.len() == uploads_of(local@.subrange(0, i as int), remote@).len(),
            forall|j: int|
                0 <= j < to_upload@.len() ==> is_sync_file_for(
                    #[trigger] to_upload@[j],
                    uploads_of(local@.subrange(0, i as int), remote@)[j],
                ),
            unchanged == unchanged_count(local@.subrange(0, i as int), remote@),
            unchanged + to_upload@.len() == i,
        decreases n - i,
    {
        let ghost pre = local@.subrange(0, i + 1);
        assert(pre.drop_last() == local@.subrange(0, i as int));
        assert(pre.last() == local@[i as int]);
        proof {
            lemma_counts(local@.subrange(0, i as int), remote@);
        }
        let a = &entries[i];
        let same = match find_remote(objects, a.s3_key.as_str()) {
            Some(k) => etag_matches(objects[k].etag.as_str(), a.md5.as_str()),
            None => false,
        };
        if same {
            unchanged = unchanged + 1;
        } else {
            to_upload.push(sync_file_for(a));
        }
        i = i + 1;
    }
    assert(local@.subrange(0, n as int) == local@);
    let mut to_delete: Vec<String> = Vec::new();
    let m = objects.len();
    let mut j: usize = 0;
    while j < m
        invariant
            m == objects@.len(),
            entries@ == local@,
            objects@ == remote@,
            j <= m,
            string_views(to_delete@) == deletes_of(remote@.subrange(0, j as int), local@, root@),
        decreases m - j,
    {
        let ghost pre = remote@.subrange(0, j + 1);
        assert(pre.drop_last() == remote@.subrange(0, j as int));
        assert(pre.last() == remote@[j as int]);
        let k = &objects[j].key;
        if !has_local_key(entries, k.as_str()) && is_managed_key(k.as_str(), root) {
            let ghost before = to_delete@;
            to_delete.push(k.clone());
            assert(string_views(to_delete@) == string_views(before).push(k@));
        }
        j = j + 1;
    }
    assert(remote@.subrange(0, m as int) == remote@);
    proof {
        lemma_deletes_len(remote@, local@, root@);
    }
    assert(to_delete@.len() == string_views(to_delete@).len());
    let total = to_upload.len() + to_delete.len() + unchanged;
    PublishPlan { plan_id, to_upload, to_delete, unchanged, total_files: total }
}

// ----- digests and plan identifiers -----

/// The lower-case hexadecimal MD5 digest of a byte string.
pub uninterp spec fn md5_hex_of(bytes: Seq<u8>) -> Seq<char>;

/// Relies on `md5::Md5` (the md-5 crate) with `Digest::digest`, printed with
/// `{:x}`: the lower-case hex MD5 digest of the bytes.
#[verifier::external_body]
fn md5_hex(bytes: &Vec<u8>) -> (r: String)
    ensures
        r@ == md5_hex_of(bytes@),
{
    format!("{:x}", <md5::Md5 as md5::Digest>::digest(bytes.as_slice()))
}

/// Relies on `uuid::Uuid::new_v4` and its hyphenated `Display` form: a fresh
/// random identifier of 36 characters.
#[verifier::external_body]
fn new_plan_id() -> (r: String)
    ensures
        r@.len() == 36,
{
    uuid::Uuid::new_v4().to_string()
}

/// The artifact for a local file with the given contents, published at `s3_key`.
pub fn local_artifact(s3_key: String, local_path: String, contents: &Vec<u8>) -> (a: LocalArtifact)
    ensures
        a.s3_key == s3_key,
        a.local_path == local_path,
        a.md5@ == md5_hex_of(contents@),
        a.size_bytes == contents@.len() as u64,
{
    LocalArtifact { s3_key, local_path, md5: md5_hex(contents), size_bytes: contents.len() as u64 }
}

/// [`build_plan`] under a fresh plan identifier.
pub fn preview_plan(local: &LocalFiles, remote: &RemoteInventory, root: &str) -> (r: PublishPlan)
    requires
        local@.len() + remote@.len() <= usize::MAX,
    ensures
        r.plan_id@.len() == 36,
        r.to_upload@.len() == uploads_of(local@, remote@).len(),
        forall|i: int|
            0 <= i < r.to_upload@.len() ==> is_sync_file_for(
                #[trigger] r.to_upload@[i],
                uploads_of(local@, remote@)[i],
            ),
        string_views(r.to_delete@) == deletes_of(remote@, local@, root@),
        r.unchanged == unchanged_count(local@, remote@),
        r.total_files == r.to_upload@.len() + r.to_delete@.len() + r.unchanged,
{
    build_plan(new_plan_id(), local, remote, root)
}

} // verus!
