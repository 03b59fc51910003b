//! The readiness multiplexer's bookkeeping: a registration table mapping
//! descriptors to pending continuations, and a queue of cross-thread
//! register/unregister commands drained between blocking waits.
//!
//! The continuation type `W` is a parameter: the running system instantiates
//! it with a waker handle, while a simulation may use plain task identifiers.

use std::collections::VecDeque;
use vstd::prelude::*;

verus! {

broadcast use vstd::set::group_set_axioms, vstd::map::group_map_axioms;

/// Registration table from descriptor to pending continuation.  At most one
/// outstanding registration per descriptor: an entry is consumed when the
/// descriptor fires and must be re-armed by the next suspend point.
pub struct WakerTable<W> {
    entries: Vec<(i32, W)>,
}

/// The finite map described by an association list; later entries would win,
/// though a well-formed table never repeats a descriptor.
pub open spec fn entries_map<W>(s: Seq<(i32, W)>) -> Map<int, W>
    decreases s.len(),
{
    if s.len() == 0 {
        Map::empty()
    } else {
        entries_map(s.drop_last()).insert(s.last().0 as int, s.last().1)
    }
}

/// No descriptor occurs twice in the association list.
pub open spec fn distinct_fds<W>(s: Seq<(i32, W)>) -> bool {
    forall|i: int, j: int| 0 <= i < j < s.len() ==> (#[trigger] s[i]).0 != (#[trigger] s[j]).0
}

proof fn lemma_entries_map_contains<W>(s: Seq<(i32, W)>, fd: int)
    ensures
        entries_map(s).contains_key(fd) <==> (exists|i: int|
            0 <= i < s.len() && (#[trigger] s[i]).0 == fd),
    decreases s.len(),
{
    if s.len() > 0 {
        lemma_entries_map_contains(s.drop_last(), fd);
        if entries_map(s).contains_key(fd) {
            if s.last().0 == fd {
                assert(s[s.len() - 1].0 == fd);
            } else {
                let i = choose|i: int| 0 <= i < s.drop_last().len() && (#[trigger] s.drop_last()[i]).0 == fd;
                assert(s[i].0 == fd);
            }
        }
        if exists|i: int| 0 <= i < s.len() && (#[trigger] s[i]).0 == fd {
            let i = choose|i: int| 0 <= i < s.len() && (#[trigger] s[i]).0 == fd;
            if i < s.len() - 1 {
                assert(s.drop_last()[i].0 == fd);
            }
        }
    }
}

proof fn lemma_entries_map_index<W>(s: Seq<(i32, W)>, i: int)
    requires
        distinct_fds(s),
        0 <= i < s.len(),
    ensures
        entries_map(s).contains_key(s[i].0 as int),
        entries_map(s)[s[i].0 as int] == s[i].1,
    decreases s.len(),
{
    lemma_entries_map_contains(s, s[i].0 as int);
    if s.len() > 0 && i < s.len() - 1 {
        assert(s.last().0 != s[i].0);
        assert(s.drop_last()[i] == s[i]);
        lemma_entries_map_index(s.drop_last(), i);
    }
}

proof fn lemma_entries_map_card<W>(s: Seq<(i32, W)>)
    requires
        distinct_fds(s),
    ensures
        entries_map(s).dom().finite(),
        entries_map(s).dom().len() == s.len(),
    decreases s.len(),
{
    if s.len() > 0 {
        assert(forall|i: int, j: int|
            0 <= i < j < s.drop_last().len() ==> (#[trigger] s.drop_last()[i]).0 != (
            #[trigger] s.drop_last()[j]).0);
        lemma_entries_map_card(s.drop_last());
        lemma_entries_map_contains(s.drop_last(), s.last().0 as int);
        assert(forall|i: int|
            0 <= i < s.drop_last().len() ==> (#[trigger] s.drop_last()[i]) == s[i]);
        assert(!entries_map(s.drop_last()).contains_key(s.last().0 as int)) by {
            if exists|i: int| 0 <= i < s.drop_last().len() && (#[trigger] s.drop_last()[i]).0
                == s.last().0 {
                let i = choose|i: int|
                    0 <= i < s.drop_last().len() && (#[trigger] s.drop_last()[i]).0 == s.last().0;
                assert(s[i].0 == s[s.len() - 1].0);
                assert(false);
            }
        }
    }
}

proof fn lemma_entries_map_remove_at<W>(s: Seq<(i32, W)>, k: int)
    requires
        distinct_fds(s),
        0 <= k < s.len(),
    ensures
        entries_map(s.remove(k)) == entries_map(s).remove(s[k].0 as int),
    decreases s.len(),
{
    let fd = s[k].0 as int;
    if k == s.len() - 1 {
        assert(s.remove(k) =~= s.drop_last());
        lemma_entries_map_contains(s.drop_last(), fd);
        assert(!entries_map(s.drop_last()).contains_key(fd)) by {
            if exists|i: int| 0 <= i < s.drop_last().len() && (#[trigger] s.drop_last()[i]).0
                == s[k].0 {
                let i = choose|i: int|
                    0 <= i < s.drop_last().len() && (#[trigger] s.drop_last()[i]).0 == s[k].0;
                assert(s[i].0 == s[k].0);
                assert(false);
            }
        }
        assert(entries_map(s.drop_last()) =~= entries_map(s).remove(fd));
    } else {
        assert(forall|i: int, j: int|
            0 <= i < j < s.drop_last().len() ==> (#[trigger] s.drop_last()[i]).0 != (
            #[trigger] s.drop_last()[j]).0);
        assert(s.drop_last()[k] == s[k]);
        lemma_entries_map_remove_at(s.drop_last(), k);
        assert(s.remove(k).drop_last() =~= s.drop_last().remove(k));
        assert(s.remove(k).last() == s.last());
        assert(entries_map(s.remove(k)) == entries_map(s.drop_last().remove(k)).insert(
            s.last().0 as int,
            s.last().1,
        ));
        assert(s.last().0 as int != fd);
        assert(entries_map(s.drop_last()).remove(fd).insert(s.last().0 as int, s.last().1)
            =~= entries_map(s.drop_last()).insert(s.last().0 as int, s.last().1).remove(fd));
    }
}

impl<W> View for WakerTable<W> {
    type V = Map<int, W>;

    closed spec fn view(&self) -> Map<int, W> {
        entries_map(self.entries@)
    }
}

impl<W> WakerTable<W> {
    /// Well-formedness: no descriptor is registered twice.
    pub closed spec fn wf(&self) -> bool {
        distinct_fds(self.entries@)
    }

    /// Fresh, empty registration table.
    pub fn new() -> (r: WakerTable<W>)
        ensures
            r.wf(),
            r@ == Map::<int, W>::empty(),
            r@.dom().len() == 0,
    {
        let r = WakerTable { entries: Vec::new() };
        proof {
            assert(r@ =~= Map::<int, W>::empty());
        }
        r
    }

    /// Whether the descriptor has an outstanding registration.
    pub fn contains_fd(&self, fd: i32) -> (r: bool)
        ensures
            r == self@.contains_key(fd as int),
    {
        let n = self.entries.len();
        let mut i: usize = 0;
        while i < n
            invariant
                n == self.entries@.len(),
                0 <= i <= n,
                forall|j: int| 0 <= j < i ==> (#[trigger] self.entries@[j]).0 != fd,
            decreases n - i,
        {
            if self.entries[i].0 == fd {
                proof {
                    lemma_entries_map_contains(self.entries@, fd as int);
                }
                return true;
            }
            i += 1;
        }
        proof {
            lemma_entries_map_contains(self.entries@, fd as int);
        }
        false
    }

    /// Number of outstanding registrations.
    pub fn len(&self) -> (r: usize)
        requires
            self.wf(),
        ensures
            r == self@.dom().len(),
    {
        proof {
            lemma_entries_map_card(self.entries@);
        }
        self.entries.len()
    }

    /// Records a registration for a descriptor that has none outstanding.
    /// (Registering a descriptor twice without an intervening fire or
    /// unregister violates the reactor's one-outstanding invariant.)
    pub fn insert(&mut self, fd: i32, waker: W)
        requires
            old(self).wf(),
            !old(self)@.contains_key(fd as int),
        ensures
            final(self).wf(),
            final(self)@ == old(self)@.insert(fd as int, waker),
    {
        proof {
            lemma_entries_map_contains(self.entries@, fd as int);
        }
        self.entries.push((fd, waker));
        proof {
            assert(self.entries@.drop_last() =~= old(self).entries@);
        }
    }

    /// Removes and returns the continuation registered for the descriptor,
    /// if any.
    pub fn remove(&mut self, fd: i32) -> (w: Option<W>)
        requires
            old(self).wf(),
        ensures
            final(self).wf(),
            final(self)@ == old(self)@.remove(fd as int),
            match w {
                Some(x) => old(self)@.contains_key(fd as int) && x == old(self)@[fd as int],
                None => !old(self)@.contains_key(fd as int),
            },
    {
        let n = self.entries.len();
        let mut i: usize = 0;
        while i < n
            invariant
                self.entries@ == old(self).entries@,
                old(self).wf(),
                n == self.entries@.len(),
                0 <= i <= n,
                forall|j: int| 0 <= j < i ==> (#[trigger] self.entries@[j]).0 != fd,
            decreases n - i,
        {
            if self.entries[i].0 == fd {
                proof {
                    lemma_entries_map_index(self.entries@, i as int);
                    lemma_entries_map_remove_at(self.entries@, i as int);
                }
                let pair = self.entries.remove(i);
                proof {
                    assert(forall|a: int, b: int|
                        0 <= a < b < self.entries@.len() ==> (#[trigger] self.entries@[a]).0 != (
                        #[trigger] self.entries@[b]).0);
                }
                return Some(pair.1);
            }
            i += 1;
        }
        proof {
            lemma_entries_map_contains(self.entries@, fd as int);
            assert(entries_map(self.entries@) =~= entries_map(self.entries@).remove(fd as int));
        }
        None
    }

    /// A value-free copy of the table: the same registered descriptors,
    /// nothing else.  Used to check a pending command batch against the
    /// table without touching the continuations.
    pub fn domain_copy(&self) -> (r: WakerTable<()>)
        requires
            self.wf(),
        ensures
            r.wf(),
            forall|fd: int| r@.contains_key(fd) <==> self@.contains_key(fd),
    {
        let n = self.entries.len();
        let mut copied: Vec<(i32, ())> = Vec::new();
        let mut i: usize = 0;
        while i < n
            invariant
                self.wf(),
                n == self.entries@.len(),
                0 <= i <= n,
                copied@.len() == i,
                forall|k: int| 0 <= k < i ==> (#[trigger] copied@[k]).0 == self.entries@[k].0,
            decreases n - i,
        {
            copied.push((self.entries[i].0, ()));
            i += 1;
        }
        let r = WakerTable { entries: copied };
        proof {
            assert(distinct_fds(r.entries@));
            assert forall|fd: int| r@.contains_key(fd) <==> self@.contains_key(fd) by {
                lemma_entries_map_contains(r.entries@, fd);
                lemma_entries_map_contains(self.entries@, fd);
                if r@.contains_key(fd) {
                    let k = choose|k: int|
                        0 <= k < r.entries@.len() && (#[trigger] r.entries@[k]).0 == fd;
                    assert(self.entries@[k].0 == fd);
                }
                if self@.contains_key(fd) {
                    let k = choose|k: int|
                        0 <= k < self.entries@.len() && (#[trigger] self.entries@[k]).0 == fd;
                    assert(r.entries@[k].0 == fd);
                }
            }
        }
        r
    }
}

/// A registration command for the reactor, queued by a suspend point on the
/// worker thread and applied by the reactor thread between waits.
pub enum IoOps<W> {
    /// Register read/write interest (`flags` are the interest bits) for a
    /// descriptor, with the continuation to run once it is ready.
    Add(u32, i32, W),
    /// Drop any registration for the descriptor.
    Remove(i32),
}

/// The multiplexer-side action that applying one command calls for: arm the
/// descriptor (one-shot) in the OS facility, or delete it from there.
#[derive(PartialEq, Eq, Structural, Clone, Copy, Debug)]
pub enum OsAction {
    Arm(u32, i32),
    Disarm(i32),
}

/// Effect of one command on the registration table.
pub open spec fn apply_op<W>(m: Map<int, W>, op: IoOps<W>) -> Map<int, W> {
    match op {
        IoOps::Add(_flags, fd, w) => m.insert(fd as int, w),
        IoOps::Remove(fd) => m.remove(fd as int),
    }
}

/// Effect of a command sequence on the registration table, applied strictly
/// in submission order.
pub open spec fn apply_ops<W>(m: Map<int, W>, ops: Seq<IoOps<W>>) -> Map<int, W>
    decreases ops.len(),
{
    if ops.len() == 0 {
        m
    } else {
        apply_ops(apply_op(m, ops[0]), ops.drop_first())
    }
}

/// A command sequence never registers a descriptor that already holds an
/// outstanding registration at that point: the reactor's design keeps at most
/// one registration per descriptor, so such a command would be a caller bug.
pub open spec fn ops_admissible<W>(m: Map<int, W>, ops: Seq<IoOps<W>>) -> bool
    decreases ops.len(),
{
    if ops.len() == 0 {
        true
    } else {
        (match ops[0] {
            IoOps::Add(_flags, fd, _w) => !m.contains_key(fd as int),
            IoOps::Remove(_) => true,
        }) && ops_admissible(apply_op(m, ops[0]), ops.drop_first())
    }
}

/// The OS-side action a command calls for.
pub open spec fn action_of<W>(op: IoOps<W>) -> OsAction {
    match op {
        IoOps::Add(flags, fd, _w) => OsAction::Arm(flags, fd),
        IoOps::Remove(fd) => OsAction::Disarm(fd),
    }
}

/// Whether a command registers the given descriptor.
pub open spec fn registers_fd<W>(op: IoOps<W>, fd: i32) -> bool {
    match op {
        IoOps::Add(_flags, f, _w) => f == fd,
        IoOps::Remove(_) => false,
    }
}

/// Appending one command to a drained batch is the same as applying it after
/// the batch: commands take effect strictly in submission order.
pub proof fn lemma_apply_ops_snoc<W>(m: Map<int, W>, ops: Seq<IoOps<W>>, op: IoOps<W>)
    ensures
        apply_ops(m, ops.push(op)) == apply_op(apply_ops(m, ops), op),
    decreases ops.len(),
{
    if ops.len() == 0 {
        assert(ops.push(op)[0] == op);
        assert(ops.push(op).drop_first() =~= Seq::<IoOps<W>>::empty());
        assert(apply_ops(m, ops.push(op)) == apply_ops(apply_op(m, op), Seq::<IoOps<W>>::empty()));
    } else {
        assert(ops.push(op)[0] == ops[0]);
        assert(ops.push(op).drop_first() =~= ops.drop_first().push(op));
        lemma_apply_ops_snoc(apply_op(m, ops[0]), ops.drop_first(), op);
        assert(apply_ops(m, ops.push(op)) == apply_ops(
            apply_op(m, ops[0]),
            ops.drop_first().push(op),
        ));
        assert(apply_ops(m, ops) == apply_ops(apply_op(m, ops[0]), ops.drop_first()));
    }
}

/// One-shot arming: once a descriptor has no registration, no batch of
/// commands that is free of new registrations for it can make one appear, so
/// no second readiness event can be dispatched for it until a suspend point
/// re-registers it.
pub proof fn lemma_one_shot_requires_rearm<W>(m: Map<int, W>, ops: Seq<IoOps<W>>, fd: i32)
    requires
        !m.contains_key(fd as int),
        forall|i: int| 0 <= i < ops.len() ==> !registers_fd(#[trigger] ops[i], fd),
    ensures
        !apply_ops(m, ops).contains_key(fd as int),
    decreases ops.len(),
{
    if ops.len() > 0 {
        assert(!registers_fd(ops[0], fd));
        assert(forall|i: int|
            0 <= i < ops.drop_first().len() ==> !registers_fd(#[trigger] ops.drop_first()[i], fd));
        lemma_one_shot_requires_rearm(apply_op(m, ops[0]), ops.drop_first(), fd);
    }
}

/// A register command submitted while the reactor sleeps is visible on the
/// very next drain: after the pending batch runs, the table holds exactly the
/// submitted continuation for that descriptor.
pub proof fn lemma_register_seen_next_wake<W>(
    m: Map<int, W>,
    ops: Seq<IoOps<W>>,
    flags: u32,
    fd: i32,
    w: W,
)
    ensures
        apply_ops(m, ops.push(IoOps::Add(flags, fd, w))).contains_key(fd as int),
        apply_ops(m, ops.push(IoOps::Add(flags, fd, w)))[fd as int] == w,
{
    lemma_apply_ops_snoc(m, ops, IoOps::Add(flags, fd, w));
}

/// An unregister command submitted while the reactor sleeps is visible on the
/// very next drain: after the pending batch runs, the descriptor is gone from
/// the table, so tearing a connection down leaks no registration.
pub proof fn lemma_unregister_seen_next_wake<W>(m: Map<int, W>, ops: Seq<IoOps<W>>, fd: i32)
    ensures
        !apply_ops(m, ops.push(IoOps::Remove(fd))).contains_key(fd as int),
{
    lemma_apply_ops_snoc(m, ops, IoOps::Remove(fd));
}

/// What the OS facility reported for one attempt to add a descriptor to the
/// multiplexed set with one-shot arming.
pub enum ArmEvent {
    /// The descriptor was added.
    Added,
    /// The descriptor is already in the set: an earlier one-shot
    /// registration fired and left it there, disabled.
    AlreadyPresent,
    /// Any other failure.
    Failed,
}

/// The reactor's decision for that outcome.
pub enum ArmStep {
    /// The descriptor is armed; nothing more to do.
    Armed,
    /// Re-arm the existing entry (modify it in place): a registration for a
    /// descriptor the OS already knows is a re-arm, not an error.
    Rearm,
    /// Abort the process: a registration for a genuinely new descriptor
    /// must never collide with the OS side.
    Fatal,
}

/// The arming decision as a function of the OS outcome.
pub open spec fn arm_outcome(ev: ArmEvent) -> ArmStep {
    match ev {
        ArmEvent::Added => ArmStep::Armed,
        ArmEvent::AlreadyPresent => ArmStep::Rearm,
        ArmEvent::Failed => ArmStep::Fatal,
    }
}

/// Decides what the reactor does after one attempt to add a descriptor to
/// the OS multiplexer: success stands, "already present" is re-armed in
/// place, anything else is fatal.
pub fn arm_step(ev: ArmEvent) -> (r: ArmStep)
    ensures
        r == arm_outcome(ev),
{
    match ev {
        ArmEvent::Added => ArmStep::Armed,
        ArmEvent::AlreadyPresent => ArmStep::Rearm,
        ArmEvent::Failed => ArmStep::Fatal,
    }
}

/// The reactor's shared state: the registration table (touched only by the
/// reactor thread) and the pending command queue (filled by worker-side
/// suspend points, drained here between waits).
pub struct IOSelector<W> {
    wakers: WakerTable<W>,
    queue: VecDeque<IoOps<W>>,
}

impl<W> IOSelector<W> {
    /// The registration table as a map from descriptor to continuation.
    pub closed spec fn table(&self) -> Map<int, W> {
        self.wakers@
    }

    /// The commands submitted but not yet drained, in submission order.
    pub closed spec fn commands(&self) -> Seq<IoOps<W>> {
        self.queue@
    }

    /// Well-formedness: the table holds each descriptor at most once.
    pub closed spec fn wf(&self) -> bool {
        self.wakers.wf()
    }

    /// Fresh selector state: nothing registered, nothing pending.
    pub fn new() -> (r: IOSelector<W>)
        ensures
            r.wf(),
            r.table() == Map::<int, W>::empty(),
            r.commands() == Seq::<IoOps<W>>::empty(),
    {
        IOSelector { wakers: WakerTable::new(), queue: VecDeque::new() }
    }

    /// Queues a command to register interest in a descriptor together with
    /// the continuation that will re-enqueue the waiting task.  The caller
    /// wakes the reactor afterwards; nothing blocks here.
    pub fn register(&mut self, flags: u32, fd: i32, waker: W)
        requires
            old(self).wf(),
        ensures
            final(self).wf(),
            final(self).table() == old(self).table(),
            final(self).commands() == old(self).commands().push(IoOps::Add(flags, fd, waker)),
    {
        self.queue.push_back(IoOps::Add(flags, fd, waker));
    }

    /// Queues a command to drop any registration for the descriptor; used
    /// when an async I/O wrapper is destroyed, so no dangling continuation
    /// outlives it.
    pub fn unregister(&mut self, fd: i32)
        requires
            old(self).wf(),
        ensures
            final(self).wf(),
            final(self).table() == old(self).table(),
            final(self).commands() == old(self).commands().push(IoOps::Remove(fd)),
    {
        self.queue.push_back(IoOps::Remove(fd));
    }

    /// Drains the pending command queue completely, applying each command to
    /// the registration table in submission order, and reports the OS-side
    /// arming actions the reactor loop must perform, one per command in the
    /// same order.
    pub fn handle_commands(&mut self) -> (acts: Vec<OsAction>)
        requires
            old(self).wf(),
            ops_admissible(old(self).table(), old(self).commands()),
        ensures
            final(self).wf(),
            final(self).table() == apply_ops(old(self).table(), old(self).commands()),
            final(self).commands().len() == 0,
            acts@ == old(self).commands().map_values(|op: IoOps<W>| action_of(op)),
    {
        let ghost q0 = old(self).queue@;
        let ghost m0 = old(self).wakers@;
        let mut acts: Vec<OsAction> = Vec::new();
        proof {
            assert(q0.skip(0) =~= q0);
            assert(q0.take(0).map_values(|op: IoOps<W>| action_of(op)) =~= Seq::<
                OsAction,
            >::empty());
        }
        while self.queue.len() != 0
            invariant
                self.wakers.wf(),
                self.queue@.len() <= q0.len(),
                self.queue@ == q0.skip(q0.len() - self.queue@.len()),
                apply_ops(m0, q0) == apply_ops(self.wakers@, self.queue@),
                ops_admissible(self.wakers@, self.queue@),
                acts@ == q0.take(q0.len() - self.queue@.len()).map_values(
                    |op: IoOps<W>| action_of(op),
                ),
            decreases self.queue@.len(),
        {
            let ghost n = q0.len() - self.queue@.len();
            let ghost m_before = self.wakers@;
            let next = self.queue.pop_front();
            match next {
                None => {
                    proof {
                        assert(false);
                    }
                },
                Some(op) => {
                    proof {
                        assert(q0.skip(n)[0] == q0[n]);
                        assert(q0.skip(n).drop_first() =~= q0.skip(n + 1));
                        assert(self.queue@ =~= q0.skip(n + 1));
                        assert(apply_ops(m_before, q0.skip(n)) == apply_ops(
                            apply_op(m_before, q0[n]),
                            q0.skip(n + 1),
                        ));
                    }
                    match op {
                        IoOps::Add(flags, fd, w) => {
                            self.wakers.insert(fd, w);
                            acts.push(OsAction::Arm(flags, fd));
                        },
                        IoOps::Remove(fd) => {
                            self.wakers.remove(fd);
                            acts.push(OsAction::Disarm(fd));
                        },
                    }
                    proof {
                        assert(acts@ =~= q0.take(n + 1).map_values(
                            |op: IoOps<W>| action_of(op),
                        )) by {
                            assert(q0.take(n + 1).drop_last() =~= q0.take(n));
                            assert(q0.take(n + 1).map_values(
                                |op: IoOps<W>| action_of(op),
                            ).drop_last() =~= q0.take(n).map_values(|op: IoOps<W>| action_of(op)));
                        }
                    }
                },
            }
        }
        proof {
            assert(self.queue@ =~= Seq::<IoOps<W>>::empty());
            assert(q0.take(q0.len() as int) =~= q0);
        }
        acts
    }

    /// Dispatch of a readiness event for an application descriptor: consumes
    /// the one-shot registration and hands back its continuation, which the
    /// reactor loop invokes to re-enqueue the waiting task.  No entry for the
    /// descriptor remains until a suspend point re-registers it.
    pub fn handle_ready(&mut self, fd: i32) -> (w: W)
        requires
            old(self).wf(),
            old(self).table().contains_key(fd as int),
        ensures
            final(self).wf(),
            final(self).table() == old(self).table().remove(fd as int),
            final(self).commands() == old(self).commands(),
            w == old(self).table()[fd as int],
    {
        let found = self.wakers.remove(fd);
        found.unwrap()
    }

    /// Executable check of the one-outstanding-registration protocol for
    /// the pending batch: whether applying the queued commands in order ever
    /// registers a descriptor that holds a registration at that point.  The
    /// reactor loop tests this before draining and treats a violation the
    /// way the bookkeeping's own assertion would: as a caller bug.
    pub fn pending_admissible(&self) -> (r: bool)
        requires
            self.wf(),
        ensures
            r == ops_admissible(self.table(), self.commands()),
    {
        let ghost q = self.queue@;
        let mut sim: WakerTable<()> = self.wakers.domain_copy();
        let ghost mut m = self.table();
        let n = self.queue.len();
        let mut i: usize = 0;
        proof {
            assert(q.skip(0) =~= q);
        }
        while i < n
            invariant
                self.wf(),
                q == self.queue@,
                n == q.len(),
                0 <= i <= n,
                sim.wf(),
                forall|fd: int| sim@.contains_key(fd) <==> m.contains_key(fd),
                ops_admissible(self.table(), q) == ops_admissible(m, q.skip(i as int)),
            decreases n - i,
        {
            let ghost cur = q.skip(i as int);
            proof {
                assert(cur[0] == q[i as int]);
                assert(cur.drop_first() =~= q.skip(i + 1));
            }
            let op = &self.queue[i];
            match op {
                IoOps::Add(_flags, fd, _w) => {
                    if sim.contains_fd(*fd) {
                        proof {
                            assert(m.contains_key(*fd as int));
                            assert(!ops_admissible(m, cur));
                        }
                        return false;
                    }
                    sim.insert(*fd, ());
                    proof {
                        m = apply_op(m, q[i as int]);
                    }
                },
                IoOps::Remove(fd) => {
                    sim.remove(*fd);
                    proof {
                        m = apply_op(m, q[i as int]);
                    }
                },
            }
            i += 1;
        }
        proof {
            assert(q.skip(n as int) =~= Seq::<IoOps<W>>::empty());
        }
        true
    }

    /// Whether the descriptor currently has an outstanding registration.
    pub fn table_contains(&self, fd: i32) -> (r: bool)
        ensures
            r == self.table().contains_key(fd as int),
    {
        self.wakers.contains_fd(fd)
    }

    /// Number of outstanding registrations, for observing that the table is
    /// stable between a fire and the matching re-register.
    pub fn table_len(&self) -> (r: usize)
        requires
            self.wf(),
        ensures
            r == self.table().dom().len(),
    {
        self.wakers.len()
    }

    /// Number of submitted commands not yet drained.
    pub fn pending_commands(&self) -> (r: usize)
        ensures
            r == self.commands().len(),
    {
        self.queue.len()
    }
}

} // verus!
