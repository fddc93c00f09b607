//! Classification of debounced filesystem events: which event kinds count
//! as a change, and whether a whole debounced batch warrants one reload
//! signal — one decision per batch, however many raw events it holds.
use vstd::prelude::*;
use vstd::string::*;

verus! {

/// The kind of one debounced filesystem event, as the watch loop sees it.
/// A rename reported as a matched from/to pair is `RenamedPair`; a rename
/// reported one-sided is `RenamedPartial`; `Informational` covers access
/// notices and other unclassified kinds.
#[derive(Clone, Copy, Debug, PartialEq, Eq, Structural)]
pub enum FsEventKind {
    Created,
    Modified,
    Removed,
    RenamedPair,
    RenamedPartial,
    Informational,
}

/// True for the event kinds that count as a change worth reloading for:
/// creates, writes, removes, and matched rename pairs. One-sided renames
/// and informational kinds are ignored.
pub open spec fn reload_worthy(k: FsEventKind) -> bool {
    match k {
        FsEventKind::Created => true,
        FsEventKind::Modified => true,
        FsEventKind::Removed => true,
        FsEventKind::RenamedPair => true,
        FsEventKind::RenamedPartial => false,
        FsEventKind::Informational => false,
    }
}

/// Whether one event kind counts as a change.
pub fn is_reload_worthy(kind: &FsEventKind) -> (r: bool)
    ensures
        r == reload_worthy(*kind),
{
    match kind {
        FsEventKind::Created => true,
        FsEventKind::Modified => true,
        FsEventKind::Removed => true,
        FsEventKind::RenamedPair => true,
        FsEventKind::RenamedPartial => false,
        FsEventKind::Informational => false,
    }
}

/// True iff a debounced batch holds at least one change worth reloading
/// for.
pub open spec fn batch_triggers(batch: Seq<FsEventKind>) -> bool {
    exists|i: int| 0 <= i < batch.len() && reload_worthy(batch[i])
}

/// Decides whether one debounced batch warrants a reload signal. The
/// whole batch yields this single decision, so a burst of raw events
/// coalesced into one window produces at most one signal.
pub fn batch_triggers_reload(batch: &Vec<FsEventKind>) -> (r: bool)
    ensures
        r == batch_triggers(batch@),
{
    let mut i: usize = 0;
    while i < batch.len()
        invariant
            i <= batch@.len(),
            forall|j: int| 0 <= j < i ==> !reload_worthy(batch@[j]),
        decreases batch@.len() - i,
    {
        if is_reload_worthy(&batch[i]) {
            return true;
        }
        i += 1;
    }
    false
}

/// A burst collapses to one signal: however many raw events the debounce
/// window gathered, a batch with any qualifying change yields the single
/// positive decision — never one signal per underlying event.
pub proof fn lemma_burst_yields_one_signal(batch: Seq<FsEventKind>, i: int)
    requires
        0 <= i < batch.len(),
        reload_worthy(batch[i]),
    ensures
        batch_triggers(batch),
{
}

/// The decision does not depend on how many qualifying events a window
/// gathered: any two batches that each hold one decide alike.
pub proof fn lemma_signal_count_independent(
    b1: Seq<FsEventKind>,
    b2: Seq<FsEventKind>,
    i: int,
    j: int,
)
    requires
        0 <= i < b1.len(),
        reload_worthy(b1[i]),
        0 <= j < b2.len(),
        reload_worthy(b2[j]),
    ensures
        batch_triggers(b1) == batch_triggers(b2),
{
}

/// The remainder of `path` after `prefix`, a single leading separator
/// dropped.
pub open spec fn strip_prefix_spec(path: Seq<char>, prefix: Seq<char>) -> Seq<char> {
    let rest = path.skip(prefix.len() as int);
    if rest.len() > 0 && rest[0] == '/' {
        rest.subrange(1, rest.len() as int)
    } else {
        rest
    }
}

/// Renders a watched path relative to the watch root: the root prefix and
/// the separator after it are removed.
pub fn strip_prefix(path: &str, prefix: &str) -> (r: String)
    requires
        prefix@.is_prefix_of(path@),
    ensures
        r@ == strip_prefix_spec(path@, prefix@),
{
    let plen = prefix.unicode_len();
    let len = path.unicode_len();
    let mut start = plen;
    if start < len && path.get_char(start) == '/' {
        start = start + 1;
    }
    let rest = path.substring_char(start, len);
    proof {
        let tail = path@.skip(plen as int);
        assert(tail =~= path@.subrange(plen as int, len as int));
        if plen < len && path@[plen as int] == '/' {
            assert(tail.len() > 0 && tail[0] == '/');
            assert(path@.subrange(plen as int + 1, len as int) =~= tail.subrange(
                1,
                tail.len() as int,
            ));
        }
        assert(rest@ == strip_prefix_spec(path@, prefix@));
    }
    String::from_str(rest)
}

} // verus!
