//! Hot reload: which deskling a changed file belongs to, and the debounced
//! queue of desklings waiting to be reloaded.
use vstd::prelude::*;

use crate::text::str_eq;

verus! {

/// Sent to a deskling's window after its configuration was reloaded.
#[derive(Debug, Clone)]
pub struct DesklingReloadedEvent {
    pub slug: String,
}

/// Reloads are at least this many milliseconds apart.
pub const RELOAD_DEBOUNCE_MS: u64 = 250;

/// `prefix` names the first components of `path`.
pub open spec fn components_prefix(prefix: Seq<String>, path: Seq<String>) -> bool {
    prefix.len() <= path.len() && forall|i: int| 0 <= i < prefix.len() ==> #[trigger] prefix[i]@
        == path[i]@
}

/// The deskling a changed path belongs to: the first component of the path
/// below the desklings folder, given both as their components.
pub fn slug_for_path(desklings_dir: &Vec<String>, path: &Vec<String>) -> (r: Option<String>)
    ensures
        r matches Some(s) ==> components_prefix(desklings_dir@, path@) && desklings_dir.len()
            < path.len() && s@ == path@[desklings_dir.len() as int]@,
        r is None ==> !components_prefix(desklings_dir@, path@) || desklings_dir.len()
            == path.len(),
{
    if desklings_dir.len() >= path.len() {
        return None;
    }
    let mut i: usize = 0;
    while i < desklings_dir.len()
        invariant
            desklings_dir.len() < path.len(),
            i <= desklings_dir.len(),
            forall|k: int| 0 <= k < i ==> #[trigger] desklings_dir@[k]@ == path@[k]@,
        decreases desklings_dir.len() - i,
    {
        if !str_eq(desklings_dir[i].as_str(), path[i].as_str()) {
            return None;
        }
        i += 1;
    }
    Some(path[desklings_dir.len()].clone())
}

/// The queue's content: the desklings waiting, in the order they were first
/// noted, and when the last reload ran.
pub struct ReloadView {
    pub pending: Seq<Seq<char>>,
    pub last_reload_ms: Option<u64>,
}

/// Desklings whose files changed, waiting for the next reload.
pub struct ReloadQueue {
    pending: Vec<String>,
    last_reload_ms: Option<u64>,
}

/// Whether a reload may run at `now_ms`: always the first time, afterwards
/// once the debounce interval has passed since the last one.
pub open spec fn reload_due(last_reload_ms: Option<u64>, now_ms: u64) -> bool {
    match last_reload_ms {
        None => true,
        Some(t) => now_ms >= t && now_ms - t >= RELOAD_DEBOUNCE_MS,
    }
}

impl ReloadQueue {
    pub closed spec fn view(&self) -> ReloadView {
        ReloadView {
            pending: self.pending@.map_values(|s: String| s@),
            last_reload_ms: self.last_reload_ms,
        }
    }

    /// No deskling waits twice.
    pub open spec fn wf(&self) -> bool {
        self.view().pending.no_duplicates()
    }

    pub fn new() -> (q: Self)
        ensures
            q.wf(),
            q.view().pending == Seq::<Seq<char>>::empty(),
            q.view().last_reload_ms is None,
    {
        let q = ReloadQueue { pending: Vec::new(), last_reload_ms: None };
        assert(q.view().pending =~= Seq::<Seq<char>>::empty());
        q
    }

    /// Notes that a file of `slug` changed.
    pub fn note(&mut self, slug: String)
        requires
            old(self).wf(),
        ensures
            final(self).wf(),
            final(self).view().last_reload_ms == old(self).view().last_reload_ms,
            final(self).view().pending == if old(self).view().pending.contains(slug@) {
                old(self).view().pending
            } else {
                old(self).view().pending.push(slug@)
            },
    {
        let ghost before = self.view().pending;
        let mut i: usize = 0;
        while i < self.pending.len()
            invariant
                i <= self.pending.len(),
                self.wf(),
                before == self.pending@.map_values(|s: String| s@),
                forall|k: int| 0 <= k < i ==> #[trigger] before[k] != slug@,
            decreases self.pending.len() - i,
        {
            if str_eq(self.pending[i].as_str(), slug.as_str()) {
                assert(before[i as int] == slug@);
                return;
            }
            i += 1;
        }
        assert(!before.contains(slug@));
        self.pending.push(slug);
        assert(self.view().pending =~= before.push(slug@));
    }

    /// At `now_ms`, in milliseconds of a monotonic clock: when a reload is
    /// due, records it and hands out every waiting deskling, in the order
    /// they were noted; otherwise hands out nothing and keeps them waiting.
    pub fn take_due(&mut self, now_ms: u64) -> (slugs: Vec<String>)
        requires
            old(self).wf(),
        ensures
            final(self).wf(),
            reload_due(old(self).view().last_reload_ms, now_ms) ==> {
                &&& slugs@.map_values(|s: String| s@) == old(self).view().pending
                &&& final(self).view().pending == Seq::<Seq<char>>::empty()
                &&& final(self).view().last_reload_ms == Some(now_ms)
            },
            !reload_due(old(self).view().last_reload_ms, now_ms) ==> {
                &&& slugs@.len() == 0
                &&& final(self).view() == old(self).view()
            },
    {
        let due = match self.last_reload_ms {
            None => true,
            Some(t) => now_ms >= t && now_ms - t >= RELOAD_DEBOUNCE_MS,
        };
        if !due {
            return Vec::new();
        }
        self.last_reload_ms = Some(now_ms);
        let mut slugs: Vec<String> = Vec::new();
        std::mem::swap(&mut slugs, &mut self.pending);
        assert(self.view().pending =~= Seq::<Seq<char>>::empty());
        slugs
    }
}

/// Two reloads in a row are at least the debounce interval apart: once a
/// reload ran at `first_ms`, the next one is due no earlier than
/// `first_ms + RELOAD_DEBOUNCE_MS`.
pub proof fn lemma_reloads_spaced(first_ms: u64, next_ms: u64)
    requires
        reload_due(Some(first_ms), next_ms),
    ensures
        next_ms >= first_ms + RELOAD_DEBOUNCE_MS,
{
}

} // verus!
