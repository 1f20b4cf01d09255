//! Run-time aliasing guard: per-slot access counters, a scoped borrow
//! session, and the tokens it issues.
//!
//! Each resource slot carries one counter.  The value `0` marks a unique
//! (written) slot, `1` an idle slot, and `k >= 2` a slot with `k - 1`
//! shared readers.  The guard never blocks or queues: an acquisition either
//! succeeds immediately or is a contract violation on the caller's side.

use vstd::prelude::*;

verus! {

/// Identity of one resource slot inside the shared store.  Origin and
/// allocation of these values are the store's concern.
#[derive(Clone, Copy, PartialEq, Eq, Hash, Debug, Structural)]
pub struct ArchetypeComponentId(pub usize);

/// Counter value marking a slot with one exclusive writer.
pub const UNIQUE_ACCESS: usize = 0;

/// Counter value marking an idle slot; `BASE_ACCESS + n` means `n` readers.
pub const BASE_ACCESS: usize = 1;

/// One operation on a single slot's counter, used by the contracts below to
/// describe the guard protocol and to reason about whole sessions.
pub ghost enum GuardOp {
    Read,
    Write,
    DropRead,
    DropWrite,
}

/// Whether a counter value admits the operation.  `Read` is refused only on
/// a unique slot; `Write` only succeeds on an idle slot; the two drops
/// require a matching prior success.
pub open spec fn guard_allows(c: int, op: GuardOp) -> bool {
    match op {
        GuardOp::Read => c != UNIQUE_ACCESS,
        GuardOp::Write => c == BASE_ACCESS,
        GuardOp::DropRead => c > BASE_ACCESS,
        GuardOp::DropWrite => c == UNIQUE_ACCESS,
    }
}

/// The counter after the operation; a refused operation leaves it unchanged.
pub open spec fn guard_step(c: int, op: GuardOp) -> int {
    if !guard_allows(c, op) {
        c
    } else {
        match op {
            GuardOp::Read => c + 1,
            GuardOp::Write => c - 1,
            GuardOp::DropRead => c - 1,
            GuardOp::DropWrite => c + 1,
        }
    }
}

/// Sparse map from slot identity to its access counter.  Absent entries
/// behave as idle; the map is mutated only through the four guard
/// operations.
pub struct ArchetypeComponentAccess {
    access: Vec<usize>,
}

impl ArchetypeComponentAccess {
    /// The counter of a slot; slots never touched count as idle.
    pub closed spec fn count(self, id: int) -> int {
        if 0 <= id < self.access@.len() {
            self.access@[id] as int
        } else {
            BASE_ACCESS as int
        }
    }

    /// A fresh registry: every slot idle.
    pub fn new() -> (r: Self)
        ensures
            forall|i: int| r.count(i) == BASE_ACCESS as int,
    {
        ArchetypeComponentAccess { access: Vec::new() }
    }

    /// Materialise the slot so it can be addressed, without changing any
    /// counter.
    fn ensure_slot(&mut self, id: usize)
        ensures
            id < final(self).access@.len(),
            forall|i: int| final(self).count(i) == old(self).count(i),
    {
        let ghost orig = *self;
        while self.access.len() <= id
            invariant
                forall|i: int| self.count(i) == orig.count(i),
            decreases id + 1 - self.access.len(),
        {
            self.access.push(BASE_ACCESS);
        }
    }

    /// Acquire shared access: succeeds, adding one reader, unless the slot
    /// is uniquely held.
    pub fn read(&mut self, id: ArchetypeComponentId) -> (r: bool)
        requires
            old(self).count(id.0 as int) < usize::MAX as int,
        ensures
            r == guard_allows(old(self).count(id.0 as int), GuardOp::Read),
            final(self).count(id.0 as int) == guard_step(
                old(self).count(id.0 as int),
                GuardOp::Read,
            ),
            forall|i: int| i != id.0 as int ==> final(self).count(i) == old(self).count(i),
    {
        self.ensure_slot(id.0);
        let c = self.access[id.0];
        if c == UNIQUE_ACCESS {
            false
        } else {
            self.access[id.0] = c + 1;
            true
        }
    }

    /// Release one reader acquired by a prior successful `read`.
    pub fn drop_read(&mut self, id: ArchetypeComponentId)
        requires
            guard_allows(old(self).count(id.0 as int), GuardOp::DropRead),
        ensures
            final(self).count(id.0 as int) == guard_step(
                old(self).count(id.0 as int),
                GuardOp::DropRead,
            ),
            forall|i: int| i != id.0 as int ==> final(self).count(i) == old(self).count(i),
    {
        self.ensure_slot(id.0);
        let c = self.access[id.0];
        self.access[id.0] = c - 1;
    }

    /// Acquire exclusive access: succeeds only on an idle slot, making it
    /// unique; otherwise fails without mutation.
    pub fn write(&mut self, id: ArchetypeComponentId) -> (r: bool)
        ensures
            r == guard_allows(old(self).count(id.0 as int), GuardOp::Write),
            final(self).count(id.0 as int) == guard_step(
                old(self).count(id.0 as int),
                GuardOp::Write,
            ),
            forall|i: int| i != id.0 as int ==> final(self).count(i) == old(self).count(i),
    {
        self.ensure_slot(id.0);
        let c = self.access[id.0];
        if c == BASE_ACCESS {
            self.access[id.0] = UNIQUE_ACCESS;
            true
        } else {
            false
        }
    }

    /// Release the writer acquired by a prior successful `write`, returning
    /// the slot to idle.
    pub fn drop_write(&mut self, id: ArchetypeComponentId)
        requires
            guard_allows(old(self).count(id.0 as int), GuardOp::DropWrite),
        ensures
            final(self).count(id.0 as int) == guard_step(
                old(self).count(id.0 as int),
                GuardOp::DropWrite,
            ),
            forall|i: int| i != id.0 as int ==> final(self).count(i) == old(self).count(i),
    {
        self.ensure_slot(id.0);
        self.access[id.0] = BASE_ACCESS;
    }

    /// The counter of a slot, for callers that inspect the guard's state.
    pub fn counter(&self, id: ArchetypeComponentId) -> (r: usize)
        ensures
            r as int == self.count(id.0 as int),
    {
        if id.0 < self.access.len() {
            self.access[id.0]
        } else {
            BASE_ACCESS
        }
    }
}

impl Default for ArchetypeComponentAccess {
    /// Same as [`ArchetypeComponentAccess::new`]: every slot idle.
    fn default() -> (r: Self)
        ensures
            forall|i: int| r.count(i) == BASE_ACCESS as int,
    {
        ArchetypeComponentAccess::new()
    }
}

/// The net effect one allowed operation has on a slot's counter.
pub open spec fn guard_delta(op: GuardOp) -> int {
    match op {
        GuardOp::Read => 1,
        GuardOp::Write => -1,
        GuardOp::DropRead => -1,
        GuardOp::DropWrite => 1,
    }
}

/// Whether every operation of the trace is allowed at the point it runs.
pub open spec fn trace_allowed(c: int, ops: Seq<GuardOp>) -> bool
    decreases ops.len(),
{
    ops.len() == 0 || (guard_allows(c, ops[0]) && trace_allowed(
        guard_step(c, ops[0]),
        ops.skip(1),
    ))
}

/// The counter after running the whole trace.
pub open spec fn count_after_trace(c: int, ops: Seq<GuardOp>) -> int
    decreases ops.len(),
{
    if ops.len() == 0 {
        c
    } else {
        count_after_trace(guard_step(c, ops[0]), ops.skip(1))
    }
}

/// The net effect of a trace: an order-independent sum over its operations.
pub open spec fn trace_delta(ops: Seq<GuardOp>) -> int
    decreases ops.len(),
{
    if ops.len() == 0 {
        0
    } else {
        guard_delta(ops[0]) + trace_delta(ops.skip(1))
    }
}

/// Running one more operation after a trace steps the counter once more.
pub proof fn lemma_trace_snoc(c: int, ops: Seq<GuardOp>, op: GuardOp)
    ensures
        count_after_trace(c, ops.push(op)) == guard_step(count_after_trace(c, ops), op),
        trace_allowed(c, ops.push(op)) <==> trace_allowed(c, ops) && guard_allows(
            count_after_trace(c, ops),
            op,
        ),
    decreases ops.len(),
{
    reveal_with_fuel(trace_allowed, 3);
    reveal_with_fuel(count_after_trace, 3);
    if ops.len() == 0 {
        assert(ops.push(op)[0] == op);
        assert(ops.push(op).skip(1) =~= Seq::<GuardOp>::empty());
    } else {
        assert(ops.push(op)[0] == ops[0]);
        assert(ops.push(op).skip(1) =~= ops.skip(1).push(op));
        lemma_trace_snoc(guard_step(c, ops[0]), ops.skip(1), op);
    }
}

/// A slot starting idle admits any number of readers: each of the `n`
/// acquisitions succeeds, the counter ends at `BASE_ACCESS + n`, and while
/// at least one reader is outstanding no `write` on the slot can succeed.
pub proof fn lemma_readers_exclude_writer(n: nat)
    ensures
        trace_allowed(BASE_ACCESS as int, Seq::new(n, |i: int| GuardOp::Read)),
        count_after_trace(BASE_ACCESS as int, Seq::new(n, |i: int| GuardOp::Read)) == BASE_ACCESS
            + n,
        n >= 1 ==> !guard_allows(
            count_after_trace(BASE_ACCESS as int, Seq::new(n, |i: int| GuardOp::Read)),
            GuardOp::Write,
        ),
    decreases n,
{
    let reads = |k: nat| Seq::new(k, |i: int| GuardOp::Read);
    if n > 0 {
        lemma_readers_exclude_writer((n - 1) as nat);
        assert(reads(n) =~= reads((n - 1) as nat).push(GuardOp::Read));
        lemma_trace_snoc(BASE_ACCESS as int, reads((n - 1) as nat), GuardOp::Read);
    }
}

/// After the one `write` that succeeds on an idle slot, both further reads
/// and further writes on the slot are refused until the matching
/// `drop_write`, which returns the slot to idle.
pub proof fn lemma_writer_excludes_all()
    ensures
        guard_allows(BASE_ACCESS as int, GuardOp::Write),
        guard_step(BASE_ACCESS as int, GuardOp::Write) == UNIQUE_ACCESS as int,
        !guard_allows(UNIQUE_ACCESS as int, GuardOp::Read),
        !guard_allows(UNIQUE_ACCESS as int, GuardOp::Write),
        guard_allows(UNIQUE_ACCESS as int, GuardOp::DropWrite),
        guard_step(UNIQUE_ACCESS as int, GuardOp::DropWrite) == BASE_ACCESS as int,
{
}

/// An allowed trace moves the counter by exactly its net effect.
pub proof fn lemma_allowed_trace_counts(c: int, ops: Seq<GuardOp>)
    requires
        trace_allowed(c, ops),
    ensures
        count_after_trace(c, ops) == c + trace_delta(ops),
    decreases ops.len(),
{
    if ops.len() > 0 {
        lemma_allowed_trace_counts(guard_step(c, ops[0]), ops.skip(1));
    }
}

/// A session whose acquisitions are all matched by releases leaves the
/// slot's counter exactly where it started.  The net effect is a plain sum
/// over the trace, so the order in which tokens were taken and released
/// does not matter.
pub proof fn lemma_balanced_trace_restores(c: int, ops: Seq<GuardOp>)
    requires
        trace_allowed(c, ops),
        trace_delta(ops) == 0,
    ensures
        count_after_trace(c, ops) == c,
{
    lemma_allowed_trace_counts(c, ops);
}

/// A scoped borrow session over one store's registry.
///
/// The store lends its registry out through one exclusive borrow; the
/// session holds it for its whole lifetime and issues guarded borrow
/// tokens against it.  [`WorldCell::end`] hands the registry back so the
/// store reuses its allocation.  Tokens must be released before the session
/// ends; each release is explicit, on every exit path.
pub struct WorldCell {
    access: ArchetypeComponentAccess,
}

impl WorldCell {
    /// The counter the session's registry holds for a slot.
    pub closed spec fn count(self, id: int) -> int {
        self.access.count(id)
    }

    /// Open a session over the registry swapped out of a store.
    pub fn new(access: ArchetypeComponentAccess) -> (cell: WorldCell)
        ensures
            forall|i: int| cell.count(i) == access.count(i),
    {
        WorldCell { access }
    }

    /// Close the session, handing the registry back for the store.
    pub fn end(self) -> (r: ArchetypeComponentAccess)
        ensures
            forall|i: int| r.count(i) == self.count(i),
    {
        self.access
    }

    /// The counter of a slot, for callers that inspect the session's state.
    pub fn counter(&self, id: ArchetypeComponentId) -> (r: usize)
        ensures
            r as int == self.count(id.0 as int),
    {
        self.access.counter(id)
    }
}

/// Proof of current shared access to one slot: constructing it adds a
/// reader, releasing it removes that reader.
///
/// A denied acquisition is a fatal misconfiguration on the caller's side,
/// not a recoverable error, so the constructor excludes it by precondition
/// instead of waiting or retrying.
pub struct WorldBorrow {
    id: ArchetypeComponentId,
}

impl WorldBorrow {
    /// The slot the token was acquired for.
    pub closed spec fn slot(self) -> int {
        self.id.0 as int
    }

    /// Acquire shared access to a slot through the session.
    pub fn new(cell: &mut WorldCell, id: ArchetypeComponentId) -> (token: WorldBorrow)
        requires
            guard_allows(old(cell).count(id.0 as int), GuardOp::Read),
            old(cell).count(id.0 as int) < usize::MAX as int,
        ensures
            token.slot() == id.0 as int,
            final(cell).count(id.0 as int) == old(cell).count(id.0 as int) + 1,
            forall|i: int| i != id.0 as int ==> final(cell).count(i) == old(cell).count(i),
    {
        let granted = cell.access.read(id);
        assert(granted);
        WorldBorrow { id }
    }

    /// Release the shared access this token proves, exactly once.
    pub fn release(self, cell: &mut WorldCell)
        requires
            guard_allows(old(cell).count(self.slot()), GuardOp::DropRead),
        ensures
            final(cell).count(self.slot()) == old(cell).count(self.slot()) - 1,
            forall|i: int| i != self.slot() ==> final(cell).count(i) == old(cell).count(i),
    {
        cell.access.drop_read(self.id);
    }
}

/// Proof of current exclusive access to one slot: constructing it marks the
/// slot unique, releasing it returns the slot to idle.
pub struct WorldBorrowMut {
    id: ArchetypeComponentId,
}

impl WorldBorrowMut {
    /// The slot the token was acquired for.
    pub closed spec fn slot(self) -> int {
        self.id.0 as int
    }

    /// Acquire exclusive access to a slot through the session.  Only an
    /// idle slot admits a writer.
    pub fn new(cell: &mut WorldCell, id: ArchetypeComponentId) -> (token: WorldBorrowMut)
        requires
            guard_allows(old(cell).count(id.0 as int), GuardOp::Write),
        ensures
            token.slot() == id.0 as int,
            final(cell).count(id.0 as int) == UNIQUE_ACCESS as int,
            forall|i: int| i != id.0 as int ==> final(cell).count(i) == old(cell).count(i),
    {
        let granted = cell.access.write(id);
        assert(granted);
        WorldBorrowMut { id }
    }

    /// Release the exclusive access this token proves, exactly once.
    pub fn release(self, cell: &mut WorldCell)
        requires
            guard_allows(old(cell).count(self.slot()), GuardOp::DropWrite),
        ensures
            final(cell).count(self.slot()) == BASE_ACCESS as int,
            forall|i: int| i != self.slot() ==> final(cell).count(i) == old(cell).count(i),
    {
        cell.access.drop_write(self.id);
    }
}

} // verus!
