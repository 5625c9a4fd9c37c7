//! Applying a plan: the executor's state machine, the events it reports, the
//! registry of plans between preview and execute, and the remote keys that
//! publishing writes.
use vstd::prelude::*;
use vstd::string::StringExecFns;
use crate::plan::{is_managed, is_managed_key, PublishPlan};
use crate::text::{concat, concat3, str_eq};

verus! {

/// Progress of one transfer or of the final invalidation.
pub struct PublishProgress {
    pub current: usize,
    pub total: usize,
    pub file: String,
    pub action: String,
}

/// The counts reported when a run ends, completed or cancelled.
pub struct PublishResult {
    pub uploaded: usize,
    pub deleted: usize,
    pub unchanged: usize,
}

/// A failure, with the key it concerns (empty for the invalidation).
pub struct PublishError {
    pub error: String,
    pub file: String,
}

/// Progress of the thumbnail phase.
pub struct ThumbnailProgress {
    /// 1-based index of the thumbnail just processed; 0 when there are none.
    pub current: usize,
    pub total: usize,
    /// Shown name, e.g. "sunset/photo01.webp"; empty when `total` is 0.
    pub filename: String,
}

// ----- remote keys -----

/// The remote key of a workspace file (workspace-relative path `rel`).
pub open spec fn gallery_key_of(root: Seq<char>, rel: Seq<char>) -> Seq<char> {
    root + "galleries/"@ + rel
}

/// The key under which the workspace file `rel` is published.
pub fn gallery_file_key(root: &str, rel: &str) -> (r: String)
    ensures
        r@ == gallery_key_of(root@, rel@),
{
    concat3(root, "galleries/", rel)
}

/// The keys of the site's own files, in this order: the index page, its
/// style sheet and script, and the two icons.
pub open spec fn website_keys_of(root: Seq<char>) -> Seq<Seq<char>> {
    seq![
        root + "index.html"@,
        root + "afterglow/css/styles.css"@,
        root + "afterglow/js/app.js"@,
        root + "favicon.ico"@,
        root + "favicon.png"@,
    ]
}

/// The keys of the site's own files below `root`.
pub fn website_keys(root: &str) -> (r: Vec<String>)
    ensures
        r@.map_values(|s: String| s@) == website_keys_of(root@),
{
    let mut v: Vec<String> = Vec::new();
    v.push(concat(root, "index.html"));
    v.push(concat(root, "afterglow/css/styles.css"));
    v.push(concat(root, "afterglow/js/app.js"));
    v.push(concat(root, "favicon.ico"));
    v.push(concat(root, "favicon.png"));
    assert(v@.map_values(|s: String| s@) =~= website_keys_of(root@));
    v
}

/// The path pattern that invalidates everything below `root`.
pub open spec fn invalidation_path_of(root: Seq<char>) -> Seq<char> {
    "/"@ + root + "*"@
}

pub fn invalidation_path(root: &str) -> (r: String)
    ensures
        r@ == invalidation_path_of(root@),
{
    concat3("/", root, "*")
}

/// Whether listing goes on after a page: only while the provider says the
/// listing is truncated and hands a token to continue from.
pub fn next_listing_token(is_truncated: Option<bool>, token: Option<String>) -> (r: Option<String>)
    ensures
        r == (if is_truncated == Some(true) {
            token
        } else {
            None
        }),
{
    match is_truncated {
        Some(true) => token,
        _ => None,
    }
}

/// The progress event after thumbnail `current` of `total`, for the
/// thumbnail `file` of gallery `slug`.
pub fn thumbnail_progress(current: usize, total: usize, slug: &str, file: &str) -> (r:
    ThumbnailProgress)
    ensures
        r.current == current,
        r.total == total,
        r.filename@ == slug@ + "/"@ + file@,
{
    ThumbnailProgress { current, total, filename: concat3(slug, "/", file) }
}

/// The event sent once when there is no thumbnail to make.
pub fn no_thumbnails_progress() -> (r: ThumbnailProgress)
    ensures
        r.current == 0,
        r.total == 0,
        r.filename@.len() == 0,
{
    ThumbnailProgress { current: 0, total: 0, filename: String::new() }
}

// ----- the plan registry -----

/// One plan identifier's entry: its plan, if one is stored, and whether a
/// cancellation was asked for.
pub struct PlanEntry {
    pub plan_id: String,
    pub plan: Option<PublishPlan>,
    pub cancelled: bool,
}

/// The entry for `id` (the first one).
pub open spec fn entry_of(s: Seq<PlanEntry>, id: Seq<char>) -> Option<PlanEntry>
    decreases s.len(),
{
    if s.len() == 0 {
        None
    } else if s[0].plan_id@ == id {
        Some(s[0])
    } else {
        entry_of(s.drop_first(), id)
    }
}

pub open spec fn plan_of(s: Seq<PlanEntry>, id: Seq<char>) -> Option<PublishPlan> {
    match entry_of(s, id) {
        Some(e) => e.plan,
        None => None,
    }
}

pub open spec fn cancelled_of(s: Seq<PlanEntry>, id: Seq<char>) -> bool {
    match entry_of(s, id) {
        Some(e) => e.cancelled,
        None => false,
    }
}

pub open spec fn ids_unique(s: Seq<PlanEntry>) -> bool {
    forall|i: int, j: int|
        0 <= i < s.len() && 0 <= j < s.len() && i != j ==> (#[trigger] s[i]).plan_id@ != (
        #[trigger] s[j]).plan_id@
}

/// Plans between preview and execute, each with its cancellation flag. The
/// caller shares it between calls behind one lock.
pub struct PublishState {
    entries: Vec<PlanEntry>,
}

impl View for PublishState {
    type V = Seq<PlanEntry>;

    closed spec fn view(&self) -> Seq<PlanEntry> {
        self.entries@
    }
}

proof fn lemma_entry_at(s: Seq<PlanEntry>, i: int)
    requires
        ids_unique(s),
        0 <= i < s.len(),
    ensures
        entry_of(s, s[i].plan_id@) == Some(s[i]),
    decreases s.len(),
{
    if i > 0 {
        assert(s[0].plan_id@ != s[i].plan_id@);
        assert(s.drop_first()[i - 1] == s[i]);
        lemma_entry_at(s.drop_first(), i - 1);
    }
}

proof fn lemma_entry_absent(s: Seq<PlanEntry>, id: Seq<char>)
    requires
        forall|j: int| 0 <= j < s.len() ==> s[j].plan_id@ != id,
    ensures
        entry_of(s, id).is_none(),
    decreases s.len(),
{
    if s.len() > 0 {
        assert forall|j: int| 0 <= j < s.drop_first().len() implies s.drop_first()[j].plan_id@
            != id by {
            assert(s.drop_first()[j] == s[j + 1]);
        }
        lemma_entry_absent(s.drop_first(), id);
    }
}

/// With unique ids, the entry of `id` is the one that holds it.
proof fn lemma_entry_lookup(s: Seq<PlanEntry>, id: Seq<char>)
    requires
        ids_unique(s),
    ensures
        entry_of(s, id) matches Some(e) ==> exists|j: int|
            0 <= j < s.len() && s[j] == e && s[j].plan_id@ == id,
        entry_of(s, id).is_none() ==> forall|j: int| 0 <= j < s.len() ==> s[j].plan_id@ != id,
    decreases s.len(),
{
    if s.len() > 0 {
        if s[0].plan_id@ != id {
            assert forall|a: int, b: int|
                0 <= a < s.drop_first().len() && 0 <= b < s.drop_first().len() && a != b implies (
            #[trigger] s.drop_first()[a]).plan_id@ != (#[trigger] s.drop_first()[b]).plan_id@ by {
                assert(s.drop_first()[a] == s[a + 1]);
                assert(s.drop_first()[b] == s[b + 1]);
            }
            lemma_entry_lookup(s.drop_first(), id);
            if let Some(e) = entry_of(s, id) {
                let j = choose|j: int|
                    0 <= j < s.drop_first().len() && s.drop_first()[j] == e
                        && s.drop_first()[j].plan_id@ == id;
                assert(s[j + 1] == s.drop_first()[j]);
            } else {
                assert forall|j: int| 0 <= j < s.len() implies s[j].plan_id@ != id by {
                    if j > 0 {
                        assert(s[j] == s.drop_first()[j - 1]);
                    }
                }
            }
        }
    }
}

/// Replacing the entry at `i` by one with the same id changes that id's entry only.
proof fn lemma_entry_update(s: Seq<PlanEntry>, i: int, e: PlanEntry)
    requires
        ids_unique(s),
        0 <= i < s.len(),
        s[i].plan_id@ == e.plan_id@,
    ensures
        ids_unique(s.update(i, e)),
        entry_of(s.update(i, e), e.plan_id@) == Some(e),
        forall|id: Seq<char>|
            id != e.plan_id@ ==> #[trigger] entry_of(s.update(i, e), id) == entry_of(s, id),
{
    let t = s.update(i, e);
    assert forall|a: int, b: int|
        0 <= a < t.len() && 0 <= b < t.len() && a != b implies (#[trigger] t[a]).plan_id@ != (
        #[trigger] t[b]).plan_id@ by {
        if a != i {
            assert(t[a] == s[a]);
        }
        if b != i {
            assert(t[b] == s[b]);
        }
    }
    lemma_entry_at(t, i);
    assert forall|id: Seq<char>| id != e.plan_id@ implies #[trigger] entry_of(t, id) == entry_of(
        s,
        id,
    ) by {
        lemma_entry_lookup(t, id);
        lemma_entry_lookup(s, id);
        if let Some(x) = entry_of(t, id) {
            let j = choose|j: int| 0 <= j < t.len() && t[j] == x && t[j].plan_id@ == id;
            assert(j != i);
            assert(s[j] == t[j]);
            lemma_entry_at(s, j);
        } else if let Some(x) = entry_of(s, id) {
            let j = choose|j: int| 0 <= j < s.len() && s[j] == x && s[j].plan_id@ == id;
            assert(j != i);
            assert(s[j] == t[j]);
        }
    }
}

/// Appending an entry with a new id adds that id's entry only.
proof fn lemma_entry_push(s: Seq<PlanEntry>, e: PlanEntry)
    requires
        ids_unique(s),
        forall|j: int| 0 <= j < s.len() ==> s[j].plan_id@ != e.plan_id@,
    ensures
        ids_unique(s.push(e)),
        entry_of(s.push(e), e.plan_id@) == Some(e),
        forall|id: Seq<char>|
            id != e.plan_id@ ==> #[trigger] entry_of(s.push(e), id) == entry_of(s, id),
{
    let t = s.push(e);
    assert forall|a: int, b: int|
        0 <= a < t.len() && 0 <= b < t.len() && a != b implies (#[trigger] t[a]).plan_id@ != (
        #[trigger] t[b]).plan_id@ by {
        if a < s.len() {
            assert(t[a] == s[a]);
        }
        if b < s.len() {
            assert(t[b] == s[b]);
        }
    }
    assert(t[s.len() as int] == e);
    lemma_entry_at(t, s.len() as int);
    assert forall|id: Seq<char>| id != e.plan_id@ implies #[trigger] entry_of(t, id) == entry_of(
        s,
        id,
    ) by {
        lemma_entry_lookup(t, id);
        lemma_entry_lookup(s, id);
        if let Some(x) = entry_of(t, id) {
            let j = choose|j: int| 0 <= j < t.len() && t[j] == x && t[j].plan_id@ == id;
            assert(j < s.len());
            assert(s[j] == t[j]);
            lemma_entry_at(s, j);
        } else if let Some(x) = entry_of(s, id) {
            let j = choose|j: int| 0 <= j < s.len() && s[j] == x && s[j].plan_id@ == id;
            assert(s[j] == t[j]);
        }
    }
}

/// Removing the entry at `i` removes that id's entry only.
proof fn lemma_entry_remove(s: Seq<PlanEntry>, i: int)
    requires
        ids_unique(s),
        0 <= i < s.len(),
    ensures
        ids_unique(s.remove(i)),
        entry_of(s.remove(i), s[i].plan_id@).is_none(),
        forall|id: Seq<char>|
            id != s[i].plan_id@ ==> #[trigger] entry_of(s.remove(i), id) == entry_of(s, id),
{
    let t = s.remove(i);
    assert forall|a: int| 0 <= a < t.len() implies #[trigger] t[a] == (if a < i {
        s[a]
    } else {
        s[a + 1]
    }) by {}
    assert forall|a: int, b: int|
        0 <= a < t.len() && 0 <= b < t.len() && a != b implies (#[trigger] t[a]).plan_id@ != (
        #[trigger] t[b]).plan_id@ by {}
    assert forall|j: int| 0 <= j < t.len() implies t[j].plan_id@ != s[i].plan_id@ by {}
    lemma_entry_absent(t, s[i].plan_id@);
    assert forall|id: Seq<char>| id != s[i].plan_id@ implies #[trigger] entry_of(t, id)
        == entry_of(s, id) by {
        lemma_entry_lookup(t, id);
        lemma_entry_lookup(s, id);
        if let Some(x) = entry_of(t, id) {
            let j = choose|j: int| 0 <= j < t.len() && t[j] == x && t[j].plan_id@ == id;
            let k = if j < i { j } else { j + 1 };
            assert(s[k] == t[j]);
            lemma_entry_at(s, k);
        } else if let Some(x) = entry_of(s, id) {
            let j = choose|j: int| 0 <= j < s.len() && s[j] == x && s[j].plan_id@ == id;
            assert(j != i);
            let k = if j < i { j } else { j - 1 };
            assert(t[k] == s[j]);
        }
    }
}

impl PublishState {
    pub open spec fn wf(&self) -> bool {
        ids_unique(self@)
    }

    /// An empty registry.
    pub fn new() -> (r: Self)
        ensures
            r.wf(),
            forall|id: Seq<char>| #[trigger] plan_of(r@, id).is_none() && !cancelled_of(r@, id),
    {
        PublishState { entries: Vec::new() }
    }

    fn position(&self, id: &str) -> (r: Option<usize>)
        requires
            self.wf(),
        ensures
            match r {
                Some(i) => i < self@.len() && self@[i as int].plan_id@ == id@,
                None => forall|j: int| 0 <= j < self@.len() ==> self@[j].plan_id@ != id@,
            },
    {
        let n = self.entries.len();
        let mut i: usize = 0;
        while i < n
            invariant
                n == self@.len(),
                i <= n,
                forall|j: int| 0 <= j < i ==> self@[j].plan_id@ != id@,
            decreases n - i,
        {
            if str_eq(self.entries[i].plan_id.as_str(), id) {
                return Some(i);
            }
            i = i + 1;
        }
        None
    }

    /// Stores `plan` under its identifier, not cancelled.
    pub fn insert_plan(&mut self, plan: PublishPlan)
        requires
            old(self).wf(),
        ensures
            final(self).wf(),
            plan_of(final(self)@, plan.plan_id@) == Some(plan),
            !cancelled_of(final(self)@, plan.plan_id@),
            forall|id: Seq<char>|
                id != plan.plan_id@ ==> #[trigger] entry_of(final(self)@, id) == entry_of(
                    old(self)@,
                    id,
                ),
    {
        let e = PlanEntry { plan_id: plan.plan_id.clone(), plan: Some(plan), cancelled: false };
        match self.position(e.plan_id.as_str()) {
            Some(i) => {
                proof {
                    lemma_entry_update(self@, i as int, e);
                }
                self.entries[i] = e;
            },
            None => {
                proof {
                    lemma_entry_push(self@, e);
                }
                self.entries.push(e);
            },
        }
    }

    /// Asks for the run of plan `id` to stop at its next cancellation point.
    pub fn cancel(&mut self, id: &str)
        requires
            old(self).wf(),
        ensures
            final(self).wf(),
            cancelled_of(final(self)@, id@),
            plan_of(final(self)@, id@) == plan_of(old(self)@, id@),
            forall|other: Seq<char>|
                other != id@ ==> #[trigger] entry_of(final(self)@, other) == entry_of(
                    old(self)@,
                    other,
                ),
    {
        match self.position(id) {
            Some(i) => {
                proof {
                    lemma_entry_at(self@, i as int);
                }
                let plan = self.entries.remove(i);
                let e = PlanEntry { plan_id: plan.plan_id, plan: plan.plan, cancelled: true };
                self.entries.insert(i, e);
                proof {
                    assert(self@ == old(self)@.update(i as int, e));
                    lemma_entry_update(old(self)@, i as int, e);
                }
            },
            None => {
                let e = PlanEntry { plan_id: String::from_str(id), plan: None, cancelled: true };
                proof {
                    lemma_entry_absent(self@, id@);
                    lemma_entry_push(self@, e);
                }
                self.entries.push(e);
            },
        }
    }

    /// Whether a cancellation was asked for plan `id`.
    pub fn is_cancelled(&self, id: &str) -> (r: bool)
        requires
            self.wf(),
        ensures
            r == cancelled_of(self@, id@),
    {
        match self.position(id) {
            Some(i) => {
                proof {
                    lemma_entry_at(self@, i as int);
                }
                self.entries[i].cancelled
            },
            None => {
                proof {
                    lemma_entry_absent(self@, id@);
                }
                false
            },
        }
    }

    /// The plan stored under `id`.
    pub fn get_plan(&self, id: &str) -> (r: Option<&PublishPlan>)
        requires
            self.wf(),
        ensures
            match r {
                Some(p) => plan_of(self@, id@) == Some(*p),
                None => plan_of(self@, id@).is_none(),
            },
    {
        match self.position(id) {
            Some(i) => {
                proof {
                    lemma_entry_at(self@, i as int);
                }
                match &self.entries[i].plan {
                    Some(p) => Some(p),
                    None => None,
                }
            },
            None => {
                proof {
                    lemma_entry_absent(self@, id@);
                }
                None
            },
        }
    }

    /// Forgets plan `id` and its cancellation flag.
    pub fn remove_plan(&mut self, id: &str)
        requires
            old(self).wf(),
        ensures
            final(self).wf(),
            plan_of(final(self)@, id@).is_none(),
            !cancelled_of(final(self)@, id@),
            forall|other: Seq<char>|
                other != id@ ==> #[trigger] entry_of(final(self)@, other) == entry_of(
                    old(self)@,
                    other,
                ),
    {
        match self.position(id) {
            Some(i) => {
                proof {
                    lemma_entry_remove(self@, i as int);
                }
                let _ = self.entries.remove(i);
            },
            None => {
                proof {
                    lemma_entry_absent(self@, id@);
                }
            },
        }
    }
}

// ----- the executor -----

/// Where a run stands. A run starts uploading, then deletes, then
/// invalidates the cache; it ends complete, or cancelled while uploading or
/// deleting.
#[derive(PartialEq, Eq, Structural, Clone, Copy)]
pub enum ExecPhase {
    Uploading,
    Deleting,
    Invalidating,
    Complete,
    Cancelled,
}

/// What the caller does next.
pub enum ExecAction {
    /// Upload `plan.to_upload[index]`, after reporting `progress`.
    Upload { index: usize, progress: PublishProgress },
    /// Delete `plan.to_delete[index]`, after reporting `progress`.
    Delete { index: usize, progress: PublishProgress },
    /// Invalidate the cached copies under `path`, after reporting `progress`.
    Invalidate { path: String, progress: PublishProgress },
    /// Report the result and forget the plan: the run is over.
    Complete(PublishResult),
    /// Report the counts so far: the run was cancelled.
    Cancelled(PublishResult),
}

pub ghost struct ProgressView {
    pub current: nat,
    pub total: nat,
    pub file: Seq<char>,
    pub action: Seq<char>,
}

pub ghost struct ResultView {
    pub uploaded: nat,
    pub deleted: nat,
    pub unchanged: nat,
}

pub ghost enum ActionView {
    Upload { index: nat, progress: ProgressView },
    Delete { index: nat, progress: ProgressView },
    Invalidate { path: Seq<char>, progress: ProgressView },
    Complete(ResultView),
    Cancelled(ResultView),
}

pub open spec fn progress_view(p: PublishProgress) -> ProgressView {
    ProgressView {
        current: p.current as nat,
        total: p.total as nat,
        file: p.file@,
        action: p.action@,
    }
}

pub open spec fn result_view(r: PublishResult) -> ResultView {
    ResultView {
        uploaded: r.uploaded as nat,
        deleted: r.deleted as nat,
        unchanged: r.unchanged as nat,
    }
}

impl View for ExecAction {
    type V = ActionView;

    open spec fn view(&self) -> ActionView {
        match self {
            ExecAction::Upload { index, progress } => ActionView::Upload {
                index: *index as nat,
                progress: progress_view(*progress),
            },
            ExecAction::Delete { index, progress } => ActionView::Delete {
                index: *index as nat,
                progress: progress_view(*progress),
            },
            ExecAction::Invalidate { path, progress } => ActionView::Invalidate {
                path: path@,
                progress: progress_view(*progress),
            },
            ExecAction::Complete(r) => ActionView::Complete(result_view(*r)),
            ExecAction::Cancelled(r) => ActionView::Cancelled(result_view(*r)),
        }
    }
}

/// The state of one run over a plan.
#[derive(Clone, Copy)]
pub struct Executor {
    pub phase: ExecPhase,
    /// The next upload to hand out.
    pub next_upload: usize,
    /// Where the search for the next deletion resumes.
    pub next_delete: usize,
    /// Transfers handed out so far.
    pub current: usize,
    pub uploaded: usize,
    pub deleted: usize,
}

/// The first managed key of `keys` at or after `from`, or `keys.len()`.
pub open spec fn next_managed(keys: Seq<String>, root: Seq<char>, from: int) -> int
    decreases keys.len() - from,
{
    if from < 0 || from >= keys.len() {
        keys.len() as int
    } else if is_managed(keys[from]@, root) {
        from
    } else {
        next_managed(keys, root, from + 1)
    }
}

proof fn lemma_next_managed_bounds(keys: Seq<String>, root: Seq<char>, from: int)
    requires
        0 <= from <= keys.len(),
    ensures
        from <= next_managed(keys, root, from) <= keys.len(),
        next_managed(keys, root, from) < keys.len() ==> is_managed(
            keys[next_managed(keys, root, from)]@,
            root,
        ),
    decreases keys.len() - from,
{
    if from < keys.len() && !is_managed(keys[from]@, root) {
        lemma_next_managed_bounds(keys, root, from + 1);
    }
}

pub open spec fn progress_of(current: nat, total: nat, file: Seq<char>, action: Seq<char>) -> ProgressView {
    ProgressView { current, total, file, action }
}

/// One step of a run: the next state and what to do. `cancelled` is the
/// plan's flag as read now, `invalidate` whether a distribution is configured.
pub open spec fn step_spec(
    e: Executor,
    plan: PublishPlan,
    root: Seq<char>,
    cancelled: bool,
    invalidate: bool,
) -> (Executor, ActionView) {
    let u = plan.to_upload@.len();
    let d = plan.to_delete@.len();
    let total = u + d;
    let res = ResultView {
        uploaded: e.uploaded as nat,
        deleted: e.deleted as nat,
        unchanged: plan.unchanged as nat,
    };
    let stopped = Executor { phase: ExecPhase::Cancelled, ..e };
    let done = Executor { phase: ExecPhase::Complete, ..e };
    if e.phase == ExecPhase::Uploading && e.next_upload < u {
        if cancelled {
            (stopped, ActionView::Cancelled(res))
        } else {
            (
                Executor {
                    next_upload: (e.next_upload + 1) as usize,
                    current: (e.current + 1) as usize,
                    ..e
                },
                ActionView::Upload {
                    index: e.next_upload as nat,
                    progress: progress_of(
                        (e.current + 1) as nat,
                        total,
                        plan.to_upload@[e.next_upload as int].s3_key@,
                        "upload"@,
                    ),
                },
            )
        }
    } else if e.phase == ExecPhase::Uploading || e.phase == ExecPhase::Deleting {
        let k = next_managed(plan.to_delete@, root, e.next_delete as int);
        if k < d {
            if cancelled {
                (stopped, ActionView::Cancelled(res))
            } else {
                (
                    Executor {
                        phase: ExecPhase::Deleting,
                        next_delete: (k + 1) as usize,
                        current: (e.current + 1) as usize,
                        ..e
                    },
                    ActionView::Delete {
                        index: k as nat,
                        progress: progress_of(
                            (e.current + 1) as nat,
                            total,
                            plan.to_delete@[k]@,
                            "delete"@,
                        ),
                    },
                )
            }
        } else if invalidate {
            (
                Executor { phase: ExecPhase::Invalidating, next_delete: d as usize, ..e },
                ActionView::Invalidate {
                    path: invalidation_path_of(root),
                    progress: progress_of(total, total, Seq::empty(), "invalidate"@),
                },
            )
        } else {
            (done, ActionView::Complete(res))
        }
    } else {
        (done, ActionView::Complete(res))
    }
}

impl Executor {
    /// The state is consistent with `plan`.
    pub open spec fn wf(&self, plan: PublishPlan) -> bool {
        &&& plan.to_upload@.len() + plan.to_delete@.len() <= usize::MAX
        &&& self.next_upload <= plan.to_upload@.len()
        &&& self.next_delete <= plan.to_delete@.len()
        &&& self.current <= self.next_upload + self.next_delete
        &&& self.uploaded <= self.next_upload
        &&& self.deleted <= self.next_delete
    }

    pub open spec fn is_over(&self) -> bool {
        self.phase == ExecPhase::Complete || self.phase == ExecPhase::Cancelled
    }

    /// A run over `plan` that has not started.
    pub fn new(plan: &PublishPlan) -> (r: Executor)
        requires
            plan.to_upload@.len() + plan.to_delete@.len() <= usize::MAX,
        ensures
            r.wf(*plan),
            r == (Executor {
                phase: ExecPhase::Uploading,
                next_upload: 0,
                next_delete: 0,
                current: 0,
                uploaded: 0,
                deleted: 0,
            }),
    {
        Executor {
            phase: ExecPhase::Uploading,
            next_upload: 0,
            next_delete: 0,
            current: 0,
            uploaded: 0,
            deleted: 0,
        }
    }

    /// Decides the next action. Uploads come strictly before deletions and
    /// the invalidation after both; the cancellation flag is honoured before
    /// each transfer and nowhere else; a deletion outside the managed areas
    /// is skipped silently.
    pub fn step(&mut self, plan: &PublishPlan, root: &str, cancelled: bool, invalidate: bool) -> (r:
        ExecAction)
        requires
            old(self).wf(*plan),
            !old(self).is_over(),
        ensures
            (*final(self), r@) == step_spec(*old(self), *plan, root@, cancelled, invalidate),
            final(self).wf(*plan),
            final(self).current >= old(self).current,
    {
        let u = plan.to_upload.len();
        let d = plan.to_delete.len();
        let total = u + d;
        let res = PublishResult {
            uploaded: self.uploaded,
            deleted: self.deleted,
            unchanged: plan.unchanged,
        };
        if self.phase == ExecPhase::Uploading && self.next_upload < u {
            if cancelled {
                self.phase = ExecPhase::Cancelled;
                return ExecAction::Cancelled(res);
            }
            let index = self.next_upload;
            self.next_upload = self.next_upload + 1;
            self.current = self.current + 1;
            let progress = PublishProgress {
                current: self.current,
                total,
                file: plan.to_upload[index].s3_key.clone(),
                action: String::from_str("upload"),
            };
            return ExecAction::Upload { index, progress };
        }
        if self.phase == ExecPhase::Uploading || self.phase == ExecPhase::Deleting {
            proof {
                lemma_next_managed_bounds(plan.to_delete@, root@, self.next_delete as int);
            }
            let mut k = self.next_delete;
            while k < d && !is_managed_key(plan.to_delete[k].as_str(), root)
                invariant
                    d == plan.to_delete@.len(),
                    old(self).next_delete <= k <= d,
                    next_managed(plan.to_delete@, root@, old(self).next_delete as int)
                        == next_managed(plan.to_delete@, root@, k as int),
                decreases d - k,
            {
                k = k + 1;
            }
            if k < d {
                if cancelled {
                    self.phase = ExecPhase::Cancelled;
                    return ExecAction::Cancelled(res);
                }
                self.phase = ExecPhase::Deleting;
                self.next_delete = k + 1;
                self.current = self.current + 1;
                let progress = PublishProgress {
                    current: self.current,
                    total,
                    file: plan.to_delete[k].clone(),
                    action: String::from_str("delete"),
                };
                return ExecAction::Delete { index: k, progress };
            }
            if invalidate {
                self.phase = ExecPhase::Invalidating;
                self.next_delete = d;
                let progress = PublishProgress {
                    current: total,
                    total,
                    file: String::new(),
                    action: String::from_str("invalidate"),
                };
                return ExecAction::Invalidate { path: invalidation_path(root), progress };
            }
        }
        self.phase = ExecPhase::Complete;
        ExecAction::Complete(res)
    }

    /// Counts the transfer last handed out as done. A failed transfer ends
    /// the run instead.
    pub fn transfer_succeeded(&mut self)
        ensures
            final(self).uploaded == (if old(self).phase == ExecPhase::Uploading
                && old(self).uploaded < old(self).next_upload {
                old(self).uploaded + 1
            } else {
                old(self).uploaded as int
            }),
            final(self).deleted == (if old(self).phase == ExecPhase::Deleting && old(self).deleted
                < old(self).next_delete {
                old(self).deleted + 1
            } else {
                old(self).deleted as int
            }),
            final(self).phase == old(self).phase,
            final(self).next_upload == old(self).next_upload,
            final(self).next_delete == old(self).next_delete,
            final(self).current == old(self).current,
            forall|p: PublishPlan| old(self).wf(p) ==> #[trigger] final(self).wf(p),
    {
        if self.phase == ExecPhase::Uploading && self.uploaded < self.next_upload {
            self.uploaded = self.uploaded + 1;
        } else if self.phase == ExecPhase::Deleting && self.deleted < self.next_delete {
            self.deleted = self.deleted + 1;
        }
    }
}

/// A run whose cancellation was asked for before anything was transferred
/// stops at once with nothing uploaded or deleted and the plan's unchanged
/// count, provided there is a transfer to stop before.
pub proof fn law_cancel_before_any_transfer(
    plan: PublishPlan,
    root: Seq<char>,
    invalidate: bool,
)
    requires
        plan.to_upload@.len() > 0 || next_managed(plan.to_delete@, root, 0) < plan.to_delete@.len(),
    ensures
        ({
            let start = Executor {
                phase: ExecPhase::Uploading,
                next_upload: 0,
                next_delete: 0,
                current: 0,
                uploaded: 0,
                deleted: 0,
            };
            let (next, action) = step_spec(start, plan, root, true, invalidate);
            next.phase == ExecPhase::Cancelled && action == ActionView::Cancelled(
                ResultView { uploaded: 0, deleted: 0, unchanged: plan.unchanged as nat },
            )
        }),
{
}

} // verus!
