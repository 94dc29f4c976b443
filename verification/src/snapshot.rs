//! What the service remembers between passes: each daemon's last listing, and
//! the scope writes that still have to be tried again.

use crate::daemon::{DaemonKey, KeyView};
use crate::session_backend;
use crate::session_backend::{BackendWorkspace, RecordView};
use crate::text;
use vstd::prelude::*;
use vstd::string::*;

verus! {

/// The listing kept for a daemon; the first one found counts.
pub open spec fn lookup(
    kept: Seq<(KeyView, Seq<RecordView>)>,
    daemon: KeyView,
) -> Option<Seq<RecordView>>
    decreases kept.len(),
{
    if kept.len() == 0 {
        None
    } else if kept[0].0 == daemon {
        Some(kept[0].1)
    } else {
        lookup(kept.drop_first(), daemon)
    }
}

proof fn lemma_lookup_missing(kept: Seq<(KeyView, Seq<RecordView>)>, daemon: KeyView)
    requires
        forall|k: int| 0 <= k < kept.len() ==> (#[trigger] kept[k]).0 != daemon,
    ensures
        lookup(kept, daemon) is None,
    decreases kept.len(),
{
    if kept.len() > 0 {
        assert(kept[0].0 != daemon);
        assert forall|k: int| 0 <= k < kept.drop_first().len() implies (
        #[trigger] kept.drop_first()[k]).0 != daemon by {
            assert(kept.drop_first()[k] == kept[k + 1]);
        }
        lemma_lookup_missing(kept.drop_first(), daemon);
    }
}

proof fn lemma_lookup_at(kept: Seq<(KeyView, Seq<RecordView>)>, daemon: KeyView, at: int)
    requires
        0 <= at < kept.len(),
        kept[at].0 == daemon,
        forall|k: int| 0 <= k < at ==> (#[trigger] kept[k]).0 != daemon,
    ensures
        lookup(kept, daemon) == Some(kept[at].1),
    decreases kept.len(),
{
    if at > 0 {
        assert(kept[0].0 != daemon);
        assert forall|k: int| 0 <= k < at - 1 implies (#[trigger] kept.drop_first()[k]).0
            != daemon by {
            assert(kept.drop_first()[k] == kept[k + 1]);
        }
        lemma_lookup_at(kept.drop_first(), daemon, at - 1);
    }
}

proof fn lemma_lookup_update(
    kept: Seq<(KeyView, Seq<RecordView>)>,
    at: int,
    held: Seq<RecordView>,
    other: KeyView,
)
    requires
        0 <= at < kept.len(),
        kept[at].0 != other,
    ensures
        lookup(kept.update(at, (kept[at].0, held)), other) == lookup(kept, other),
    decreases kept.len(),
{
    let next = kept.update(at, (kept[at].0, held));
    if at == 0 {
        assert(next.drop_first() =~= kept.drop_first());
    } else if kept[0].0 != other {
        assert(next.drop_first() =~= kept.drop_first().update(
            at - 1,
            (kept.drop_first()[at - 1].0, held),
        ));
        lemma_lookup_update(kept.drop_first(), at - 1, held, other);
    }
}

proof fn lemma_lookup_push(
    kept: Seq<(KeyView, Seq<RecordView>)>,
    daemon: KeyView,
    held: Seq<RecordView>,
    other: KeyView,
)
    requires
        daemon != other,
    ensures
        lookup(kept.push((daemon, held)), other) == lookup(kept, other),
    decreases kept.len(),
{
    let next = kept.push((daemon, held));
    if kept.len() == 0 {
        assert(next.drop_first() =~= kept);
    } else if kept[0].0 != other {
        assert(next.drop_first() =~= kept.drop_first().push((daemon, held)));
        lemma_lookup_push(kept.drop_first(), daemon, held, other);
    }
}

/// Each daemon's last successful listing.
pub struct Discoveries {
    kept: Vec<(DaemonKey, Vec<BackendWorkspace>)>,
}

impl View for Discoveries {
    type V = Map<KeyView, Seq<RecordView>>;

    closed spec fn view(&self) -> Map<KeyView, Seq<RecordView>> {
        let kept = self.kept.deep_view();
        Map::new(|daemon: KeyView| lookup(kept, daemon) is Some, |daemon: KeyView| lookup(
            kept,
            daemon,
        )->0)
    }
}

/// What is remembered of a daemon; nothing for one never listed.
pub open spec fn remembered(
    kept: Map<KeyView, Seq<RecordView>>,
    daemon: KeyView,
) -> Seq<RecordView> {
    if kept.dom().contains(daemon) {
        kept[daemon]
    } else {
        Seq::empty()
    }
}

/// The records of a listing that have another id.
pub open spec fn without_record(held: Seq<RecordView>, wire_id: Seq<char>) -> Seq<RecordView> {
    held.filter(|record: RecordView| record.id != wire_id)
}

impl Discoveries {
    pub fn new() -> (kept: Self)
        ensures
            kept@ == Map::<KeyView, Seq<RecordView>>::empty(),
    {
        let kept = Discoveries { kept: Vec::new() };
        assert(kept@ =~= Map::<KeyView, Seq<RecordView>>::empty());
        kept
    }

    fn find(&self, daemon: &DaemonKey) -> (at: usize)
        ensures
            at <= self.kept.len(),
            forall|k: int| 0 <= k < at ==> (#[trigger] self.kept.deep_view()[k]).0 != daemon@,
            at < self.kept.len() ==> self.kept.deep_view()[at as int].0 == daemon@,
            at < self.kept.len() ==> self@.dom().contains(daemon@) && self@[daemon@]
                == self.kept[at as int].1.deep_view(),
            at == self.kept.len() ==> !self@.dom().contains(daemon@),
    {
        let mut at: usize = 0;
        while at < self.kept.len() && !self.kept[at].0.is(daemon)
            invariant
                at <= self.kept.len(),
                forall|k: int| 0 <= k < at ==> (#[trigger] self.kept.deep_view()[k]).0 != daemon@,
            decreases self.kept.len() - at,
        {
            assert(self.kept.deep_view()[at as int].0 == self.kept[at as int].0@);
            at = at + 1;
        }
        proof {
            if at < self.kept.len() {
                assert(self.kept.deep_view()[at as int].0 == self.kept[at as int].0@);
                assert(self.kept.deep_view()[at as int].1 == self.kept[at as int].1.deep_view());
                lemma_lookup_at(self.kept.deep_view(), daemon@, at as int);
            } else {
                lemma_lookup_missing(self.kept.deep_view(), daemon@);
            }
        }
        at
    }

    fn store(&mut self, at: usize, daemon: &DaemonKey, held: Vec<BackendWorkspace>)
        requires
            at <= old(self).kept.len(),
            forall|k: int|
                0 <= k < at ==> (#[trigger] old(self).kept.deep_view()[k]).0 != daemon@,
            at < old(self).kept.len() ==> old(self).kept.deep_view()[at as int].0 == daemon@,
        ensures
            final(self)@ == old(self)@.insert(daemon@, held.deep_view()),
    {
        let ghost before = self.kept.deep_view();
        let ghost view = held.deep_view();
        if at < self.kept.len() {
            self.kept[at] = (daemon.clone(), held);
        } else {
            self.kept.push((daemon.clone(), held));
        }
        proof {
            let after = self.kept.deep_view();
            if at < before.len() {
                assert(after =~= before.update(at as int, (daemon@, view)));
                lemma_lookup_at(after, daemon@, at as int);
            } else {
                assert(after =~= before.push((daemon@, view)));
                lemma_lookup_at(after, daemon@, at as int);
            }
            assert forall|other: KeyView| other != daemon@ implies #[trigger] lookup(after, other)
                == lookup(before, other) by {
                if at < before.len() {
                    lemma_lookup_update(before, at as int, view, other);
                } else {
                    lemma_lookup_push(before, daemon@, view, other);
                }
            }
            assert(self@ =~= old(self)@.insert(daemon@, view));
        }
    }

    /// Keeps a listing in the place of the daemon's last one.
    pub fn remember(&mut self, daemon: &DaemonKey, held: &Vec<BackendWorkspace>)
        ensures
            final(self)@ == old(self)@.insert(daemon@, held.deep_view()),
    {
        let at = self.find(daemon);
        self.store(at, daemon, session_backend::copied(held));
    }

    /// The daemon's last listing.
    pub fn recall(&self, daemon: &DaemonKey) -> (held: Vec<BackendWorkspace>)
        ensures
            held.deep_view() == remembered(self@, daemon@),
    {
        let at = self.find(daemon);
        if at < self.kept.len() {
            session_backend::copied(&self.kept[at].1)
        } else {
            let held: Vec<BackendWorkspace> = Vec::new();
            assert(held.deep_view() =~= Seq::<RecordView>::empty());
            held
        }
    }

    /// Drops one record from the daemon's last listing.
    pub fn forget(&mut self, daemon: &DaemonKey, wire_id: &str)
        ensures
            final(self)@ == (if old(self)@.dom().contains(daemon@) {
                old(self)@.insert(daemon@, without_record(old(self)@[daemon@], wire_id@))
            } else {
                old(self)@
            }),
    {
        let at = self.find(daemon);
        if at < self.kept.len() {
            let held = kept_records(&self.kept[at].1, wire_id);
            self.store(at, daemon, held);
        }
    }

    pub fn clear(&mut self)
        ensures
            final(self)@ == Map::<KeyView, Seq<RecordView>>::empty(),
    {
        self.kept = Vec::new();
        assert(self@ =~= Map::<KeyView, Seq<RecordView>>::empty());
    }
}

fn kept_records(held: &Vec<BackendWorkspace>, wire_id: &str) -> (kept: Vec<BackendWorkspace>)
    ensures
        kept.deep_view() == without_record(held.deep_view(), wire_id@),
{
    let mut kept: Vec<BackendWorkspace> = Vec::new();
    let ghost all = held.deep_view();
    let ghost other = |record: RecordView| record.id != wire_id@;
    let mut i: usize = 0;
    assert(all.take(0).filter(other) =~= Seq::<RecordView>::empty()) by {
        reveal(Seq::filter);
    }
    while i < held.len()
        invariant
            i <= held.len(),
            all == held.deep_view(),
            other == (|record: RecordView| record.id != wire_id@),
            kept.deep_view() == all.take(i as int).filter(other),
        decreases held.len() - i,
    {
        let ghost before = kept.deep_view();
        proof {
            reveal(Seq::filter);
            assert(all.take(i + 1).drop_last() =~= all.take(i as int));
            assert(all.take(i + 1).last() == held[i as int]@);
        }
        if !text::same_text(held[i].id.as_str(), wire_id) {
            let record = held[i].clone();
            kept.push(record);
            assert(kept.deep_view() =~= before.push(record@));
        }
        i = i + 1;
    }
    assert(all.take(all.len() as int) =~= all);
    kept
}

/// A scope write that failed: the daemon, the workspace and its root.
pub struct RetryKey {
    pub daemon: DaemonKey,
    pub workspace_id: String,
    pub project_root: String,
}

impl View for RetryKey {
    type V = (KeyView, Seq<char>, Seq<char>);

    open spec fn view(&self) -> (KeyView, Seq<char>, Seq<char>) {
        (self.daemon@, self.workspace_id@, self.project_root@)
    }
}

impl DeepView for RetryKey {
    type V = (KeyView, Seq<char>, Seq<char>);

    open spec fn deep_view(&self) -> (KeyView, Seq<char>, Seq<char>) {
        self@
    }
}

/// The key a record's scope write is retried under.
pub open spec fn retry_key(
    daemon: KeyView,
    record: RecordView,
) -> (KeyView, Seq<char>, Seq<char>) {
    (daemon, record.id, record.project_root)
}

pub fn scope_update_key(daemon: &DaemonKey, workspace: &BackendWorkspace) -> (key: RetryKey)
    ensures
        key@ == retry_key(daemon@, workspace@),
{
    RetryKey {
        daemon: daemon.clone(),
        workspace_id: workspace.id.clone(),
        project_root: workspace.project_root.clone(),
    }
}

impl RetryKey {
    fn is(&self, other: &RetryKey) -> (same: bool)
        ensures
            same == (self@ == other@),
    {
        self.daemon.is(&other.daemon) && text::same_text(
            self.workspace_id.as_str(),
            other.workspace_id.as_str(),
        ) && text::same_text(self.project_root.as_str(), other.project_root.as_str())
    }
}

/// The scope writes to try again on the next listing.
pub struct ScopeRetries {
    keys: Vec<RetryKey>,
}

impl View for ScopeRetries {
    type V = Set<(KeyView, Seq<char>, Seq<char>)>;

    closed spec fn view(&self) -> Set<(KeyView, Seq<char>, Seq<char>)> {
        self.keys.deep_view().to_set()
    }
}

impl ScopeRetries {
    pub fn new() -> (retries: Self)
        ensures
            retries@ == Set::<(KeyView, Seq<char>, Seq<char>)>::empty(),
    {
        let retries = ScopeRetries { keys: Vec::new() };
        assert(retries@ =~= Set::<(KeyView, Seq<char>, Seq<char>)>::empty());
        retries
    }

    pub fn holds(&self, key: &RetryKey) -> (held: bool)
        ensures
            held == self@.contains(key@),
    {
        let mut i: usize = 0;
        while i < self.keys.len()
            invariant
                i <= self.keys.len(),
                forall|k: int| 0 <= k < i ==> self.keys.deep_view()[k] != key@,
            decreases self.keys.len() - i,
        {
            assert(self.keys.deep_view()[i as int] == self.keys[i as int]@);
            if self.keys[i].is(key) {
                assert(self.keys.deep_view().contains(key@));
                return true;
            }
            i = i + 1;
        }
        false
    }

    pub fn insert(&mut self, key: RetryKey)
        ensures
            final(self)@ == old(self)@.insert(key@),
    {
        if self.holds(&key) {
            assert(self@ =~= old(self)@.insert(key@));
            return ;
        }
        let ghost before = self.keys.deep_view();
        let ghost view = key@;
        self.keys.push(key);
        proof {
            let after = self.keys.deep_view();
            assert(after =~= before.push(view));
            assert forall|k: (KeyView, Seq<char>, Seq<char>)| #[trigger]
                self@.contains(k) <==> old(self)@.insert(view).contains(k) by {
                if before.contains(k) {
                    let i = choose|i: int| 0 <= i < before.len() && before[i] == k;
                    assert(after[i] == k);
                }
                if k == view {
                    assert(after[before.len() as int] == k);
                }
                if after.contains(k) {
                    let i = choose|i: int| 0 <= i < after.len() && after[i] == k;
                    if i < before.len() {
                        assert(before[i] == k);
                    }
                }
            }
            assert(self@ =~= old(self)@.insert(view));
        }
    }

    pub fn remove(&mut self, key: &RetryKey)
        ensures
            final(self)@ == old(self)@.remove(key@),
    {
        let ghost given = self.keys.deep_view();
        let mut kept: Vec<RetryKey> = Vec::new();
        let mut rest: Vec<RetryKey> = Vec::new();
        std::mem::swap(&mut rest, &mut self.keys);
        while rest.len() > 0
            invariant
                rest.deep_view() == given.take(rest.len() as int),
                rest.len() <= given.len(),
                forall|k: (KeyView, Seq<char>, Seq<char>)| #[trigger]
                    kept.deep_view().contains(k) <==> (k != key@ && given.skip(
                        rest.len() as int,
                    ).contains(k)),
            decreases rest.len(),
        {
            let ghost n = rest.len() as int;
            let ghost whole = rest.deep_view();
            let last = rest.pop().unwrap();
            assert(rest.deep_view() =~= given.take(n - 1));
            assert(last@ == whole[n - 1]);
            let ghost before = kept.deep_view();
            let ghost view = last@;
            assert(given.skip(n - 1) =~= seq![view] + given.skip(n));
            if !last.is(key) {
                kept.push(last);
                assert(kept.deep_view() =~= before.push(view));
            }
            proof {
                assert forall|k: (KeyView, Seq<char>, Seq<char>)| #[trigger]
                    kept.deep_view().contains(k) <==> (k != key@ && given.skip(n - 1).contains(
                        k,
                    )) by {
                    let tail = given.skip(n - 1);
                    let older = given.skip(n);
                    if tail.contains(k) {
                        let i = choose|i: int| 0 <= i < tail.len() && tail[i] == k;
                        if i > 0 {
                            assert(older[i - 1] == k);
                        }
                    }
                    if older.contains(k) {
                        let i = choose|i: int| 0 <= i < older.len() && older[i] == k;
                        assert(tail[i + 1] == k);
                    }
                    assert(tail[0] == view);
                    if view != key@ {
                        let after = kept.deep_view();
                        assert(after[before.len() as int] == view);
                        if before.contains(k) {
                            let i = choose|i: int| 0 <= i < before.len() && before[i] == k;
                            assert(after[i] == k);
                        }
                        if after.contains(k) {
                            let i = choose|i: int| 0 <= i < after.len() && after[i] == k;
                            if i < before.len() {
                                assert(before[i] == k);
                            }
                        }
                    }
                }
            }
        }
        self.keys = kept;
        proof {
            assert(given.skip(0) =~= given);
            assert(self@ =~= old(self)@.remove(key@));
        }
    }

    pub fn clear(&mut self)
        ensures
            final(self)@ == Set::<(KeyView, Seq<char>, Seq<char>)>::empty(),
    {
        self.keys = Vec::new();
        assert(self@ =~= Set::<(KeyView, Seq<char>, Seq<char>)>::empty());
    }
}

} // verus!
