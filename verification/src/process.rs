//! The process table and its round-robin scheduler.
use vstd::prelude::*;

verus! {

/// Number of process slots.
pub const PROCS_MAX: usize = 8;
/// Size of each process's kernel stack in bytes.
pub const KSTACK_SIZE: usize = 8192;

/// Registers saved on a context switch besides `ra`: `s0` through `s11`.
pub const CALLEE_SAVED_COUNT: usize = 12;
/// Words in a saved context: `ra` followed by the callee-saved registers.
pub const FRAME_WORDS: usize = CALLEE_SAVED_COUNT + 1;
/// Bytes per saved register.
pub const WORD_SIZE: usize = 4;
/// Bytes in a saved context.
pub const FRAME_BYTES: usize = FRAME_WORDS * WORD_SIZE;

/// Whether a process slot is in use.
#[derive(Clone, Copy, PartialEq, Eq, Structural, Debug)]
pub enum State {
    Unused,
    Runnable,
}

/// A process control block with its kernel stack.
#[derive(Clone, Copy)]
pub struct Process {
    pub pid: i32,
    pub state: State,
    /// Saved kernel stack pointer.
    pub sp: usize,
    pub pt_root_phys: usize,
    pub stack: [u8; KSTACK_SIZE],
}

impl Process {
    /// An empty slot: no pid, unused, zeroed stack.
    pub fn unused() -> (r: Self)
        ensures
            r.pid == -1,
            r.state == State::Unused,
            r.sp == 0,
            r.pt_root_phys == 0,
            forall|i: int| 0 <= i < KSTACK_SIZE ==> r.stack@[i] == 0,
    {
        Process { pid: -1, state: State::Unused, sp: 0, pt_root_phys: 0, stack: [0u8; KSTACK_SIZE] }
    }
}

/// A process the scheduler may switch to: runnable with a positive pid (the idle process has
/// pid 0).
pub open spec fn eligible(p: Process) -> bool {
    p.state == State::Runnable && p.pid > 0
}

/// Every slot is unused.
pub open spec fn all_unused_spec(procs: Seq<Process>) -> bool {
    forall|i: int| 0 <= i < procs.len() ==> #[trigger] procs[i].state == State::Unused
}

/// Number of unused slots.
pub open spec fn count_unused(procs: Seq<Process>) -> nat
    decreases procs.len(),
{
    if procs.len() == 0 {
        0
    } else {
        count_unused(procs.drop_last()) + if procs.last().state == State::Unused { 1nat } else { 0nat }
    }
}

/// The lowest unused slot at or after `k`.
pub open spec fn first_unused(procs: Seq<Process>, k: int) -> Option<int>
    decreases procs.len() - k,
{
    if k < 0 || k >= procs.len() {
        None
    } else if procs[k].state == State::Unused {
        Some(k)
    } else {
        first_unused(procs, k + 1)
    }
}

/// Where the round-robin scan starts: the slot after the current process, or slot 0.
pub open spec fn scan_start(current: Option<usize>) -> int {
    match current {
        Some(i) => (i + 1) % (PROCS_MAX as int),
        None => 0,
    }
}

/// The number of steps of a cyclic scan from `start`, at least `k`, until it meets an eligible
/// slot, if it meets one within `PROCS_MAX` steps.
pub open spec fn first_eligible_step(procs: Seq<Process>, start: int, k: int) -> Option<int>
    decreases PROCS_MAX - k,
{
    if k < 0 || k >= PROCS_MAX {
        None
    } else if eligible(procs[(start + k) % (PROCS_MAX as int)]) {
        Some(k)
    } else {
        first_eligible_step(procs, start, k + 1)
    }
}

/// The process the scheduler runs next: the idle process when no slot is in use or none is
/// eligible, otherwise the first eligible slot after the current one in round-robin order.
pub open spec fn pick_next_spec(procs: Seq<Process>, current: Option<usize>, idle: Option<usize>) -> Option<usize> {
    if all_unused_spec(procs) {
        idle
    } else {
        match first_eligible_step(procs, scan_start(current), 0) {
            Some(m) => Some(((scan_start(current) + m) % (PROCS_MAX as int)) as usize),
            None => idle,
        }
    }
}

/// `first_unused` finds the lowest unused slot at or after `k`.
pub proof fn lemma_first_unused(procs: Seq<Process>, k: int)
    requires
        0 <= k,
    ensures
        match first_unused(procs, k) {
            Some(i) => k <= i < procs.len() && procs[i].state == State::Unused
                && forall|j: int| k <= j < i ==> #[trigger] procs[j].state != State::Unused,
            None => forall|j: int| k <= j < procs.len() ==> #[trigger] procs[j].state != State::Unused,
        },
    decreases procs.len() - k,
{
    if k < procs.len() && procs[k].state != State::Unused {
        lemma_first_unused(procs, k + 1);
    }
}

/// Replacing slot `i` changes the number of unused slots by the change in slot `i` alone.
pub proof fn lemma_count_unused_update(procs: Seq<Process>, i: int, p: Process)
    requires
        0 <= i < procs.len(),
    ensures
        count_unused(procs.update(i, p)) + (if procs[i].state == State::Unused { 1int } else { 0int })
            == count_unused(procs) + (if p.state == State::Unused { 1int } else { 0int }),
    decreases procs.len(),
{
    let u = procs.update(i, p);
    if i < procs.len() - 1 {
        assert(u.drop_last() =~= procs.drop_last().update(i, p));
        lemma_count_unused_update(procs.drop_last(), i, p);
    } else {
        assert(u.drop_last() =~= procs.drop_last());
    }
}

/// When some slot is unused, `first_unused` finds one.
pub proof fn lemma_count_unused_positive(procs: Seq<Process>)
    requires
        count_unused(procs) > 0,
    ensures
        first_unused(procs, 0) is Some,
    decreases procs.len(),
{
    lemma_first_unused(procs, 0);
    if first_unused(procs, 0) is None {
        if procs.last().state != State::Unused {
            lemma_count_unused_positive(procs.drop_last());
            lemma_first_unused(procs.drop_last(), 0);
            let i = first_unused(procs.drop_last(), 0)->0;
            assert(procs[i] == procs.drop_last()[i]);
        }
    }
}

/// Used slots at the front of the search do not change what `first_unused` finds.
pub proof fn lemma_first_unused_skip(procs: Seq<Process>, k: int, m: int)
    requires
        0 <= k <= m,
        forall|j: int| k <= j < m && j < procs.len() ==> #[trigger] procs[j].state != State::Unused,
    ensures
        first_unused(procs, k) == first_unused(procs, m),
    decreases m - k,
{
    if k < m && k < procs.len() {
        lemma_first_unused_skip(procs, k + 1, m);
    }
}

/// `first_unused` from `k` depends only on the states of the slots from `k` on.
pub proof fn lemma_first_unused_agree(a: Seq<Process>, b: Seq<Process>, k: int)
    requires
        0 <= k,
        a.len() == b.len(),
        forall|j: int| k <= j < a.len() ==> #[trigger] a[j].state == b[j].state,
    ensures
        first_unused(a, k) == first_unused(b, k),
    decreases a.len() - k,
{
    if k < a.len() {
        lemma_first_unused_agree(a, b, k + 1);
    }
}

/// `first_eligible_step` finds the fewest scan steps, at least `k`, reaching an eligible slot.
pub proof fn lemma_first_eligible_step(procs: Seq<Process>, start: int, k: int)
    requires
        0 <= k,
    ensures
        match first_eligible_step(procs, start, k) {
            Some(m) => k <= m < PROCS_MAX && eligible(procs[(start + m) % (PROCS_MAX as int)])
                && forall|j: int| k <= j < m ==> !eligible(#[trigger] procs[(start + j) % (PROCS_MAX as int)]),
            None => forall|j: int| k <= j < PROCS_MAX ==> !eligible(#[trigger] procs[(start + j) % (PROCS_MAX as int)]),
        },
    decreases PROCS_MAX - k,
{
    if k < PROCS_MAX && !eligible(procs[(start + k) % (PROCS_MAX as int)]) {
        lemma_first_eligible_step(procs, start, k + 1);
    }
}

/// The little-endian bytes of a 32-bit word.
pub open spec fn u32_le(w: u32) -> Seq<u8> {
    seq![(w & 0xff) as u8, ((w >> 8u32) & 0xff) as u8, ((w >> 16u32) & 0xff) as u8, ((w >> 24u32) & 0xff) as u8]
}

/// A fresh saved context: `ra` holds the entry point, `s0`..`s11` are zero.
pub open spec fn initial_frame(entry: u32) -> Seq<u8> {
    u32_le(entry) + Seq::new((CALLEE_SAVED_COUNT * WORD_SIZE) as nat, |_i: int| 0u8)
}

/// `after` is slot `slot` as `create_process` leaves it, from `before`, for a process entering at
/// `entry` whose kernel stack ends at `stack_top`: pid `slot + 1`, runnable, saved stack pointer
/// on a fresh saved context at the top of the stack, everything else as before.
pub open spec fn fresh_process(before: Process, after: Process, slot: int, entry: usize, stack_top: int) -> bool {
    &&& after.pid == slot + 1
    &&& after.state == State::Runnable
    &&& after.pt_root_phys == before.pt_root_phys
    &&& after.sp == stack_top - FRAME_BYTES
    &&& after.stack@ == before.stack@.subrange(0, (KSTACK_SIZE - FRAME_BYTES) as int) + initial_frame(entry as u32)
}

/// A context switch the caller must carry out: set the trap stack to `kernel_stack_top`, save
/// the running context into slot `prev` (or a scratch location when there is none), and resume
/// slot `next`.
#[derive(Clone, Copy, PartialEq, Eq, Structural, Debug)]
pub struct Switch {
    pub prev: Option<usize>,
    pub next: usize,
    pub kernel_stack_top: usize,
}

/// The table of process slots, the running process and the idle process. Slot `i`'s kernel
/// stack begins at address `stack_base + i * stride`.
pub struct ProcessTable {
    procs: Vec<Process>,
    current: Option<usize>,
    idle: Option<usize>,
    stack_base: usize,
    stride: usize,
}

impl ProcessTable {
    /// The process slots.
    pub closed spec fn procs(&self) -> Seq<Process> {
        self.procs@
    }

    /// The running process, if any.
    pub closed spec fn current(&self) -> Option<usize> {
        self.current
    }

    /// The idle process, if set up.
    pub closed spec fn idle(&self) -> Option<usize> {
        self.idle
    }

    /// Address of slot 0's kernel stack.
    pub closed spec fn stack_base(&self) -> int {
        self.stack_base as int
    }

    /// Distance between the kernel stacks of consecutive slots.
    pub closed spec fn stride(&self) -> int {
        self.stride as int
    }

    /// One past the top of slot `i`'s kernel stack.
    pub open spec fn stack_top(&self, i: int) -> int {
        self.stack_base() + i * self.stride() + KSTACK_SIZE
    }

    /// There are `PROCS_MAX` slots, the running and idle processes name slots, and every stack
    /// address fits in a `usize`.
    pub open spec fn wf(&self) -> bool {
        &&& self.procs().len() == PROCS_MAX
        &&& self.current() matches Some(i) ==> i < PROCS_MAX
        &&& self.idle() matches Some(i) ==> i < PROCS_MAX
        &&& self.stack_top(PROCS_MAX - 1) <= usize::MAX
        &&& self.stride() >= 0
    }

    /// Bounds on stack addresses, for every slot.
    proof fn lemma_stack_top_bounds(&self, i: int)
        requires
            self.wf(),
            0 <= i < PROCS_MAX,
        ensures
            FRAME_BYTES <= self.stack_top(i) <= usize::MAX,
            self.stack_base() + i * self.stride() <= usize::MAX,
    {
        assert(i * self.stride() <= (PROCS_MAX - 1) * self.stride()) by (nonlinear_arith)
            requires
                0 <= i < PROCS_MAX,
                self.stride() >= 0,
        ;
        assert(0 <= i * self.stride()) by (nonlinear_arith)
            requires
                0 <= i,
                self.stride() >= 0,
        ;
    }

    /// A table of unused slots whose stacks are laid out from `stack_base`, `stride` bytes
    /// apart; no process is running and there is no idle process yet.
    pub fn new(stack_base: usize, stride: usize) -> (r: Self)
        requires
            stack_base + (PROCS_MAX - 1) * stride + KSTACK_SIZE <= usize::MAX,
        ensures
            r.wf(),
            r.stack_base() == stack_base,
            r.stride() == stride,
            r.current() is None,
            r.idle() is None,
            forall|i: int| 0 <= i < PROCS_MAX ==> (#[trigger] r.procs()[i]).pid == -1
                && r.procs()[i].state == State::Unused && r.procs()[i].sp == 0
                && r.procs()[i].pt_root_phys == 0
                && forall|j: int| 0 <= j < KSTACK_SIZE ==> r.procs()[i].stack@[j] == 0,
    {
        let mut procs: Vec<Process> = Vec::new();
        let mut k: usize = 0;
        while k < PROCS_MAX
            invariant
                k <= PROCS_MAX,
                procs@.len() == k,
                forall|i: int| 0 <= i < k ==> (#[trigger] procs@[i]).pid == -1
                    && procs@[i].state == State::Unused && procs@[i].sp == 0
                    && procs@[i].pt_root_phys == 0
                    && forall|j: int| 0 <= j < KSTACK_SIZE ==> procs@[i].stack@[j] == 0,
            decreases PROCS_MAX - k,
        {
            procs.push(Process::unused());
            k = k + 1;
        }
        ProcessTable { procs, current: None, idle: None, stack_base, stride }
    }

    /// Returns slot `i`.
    pub fn get(&self, i: usize) -> (r: &Process)
        requires
            self.wf(),
            i < PROCS_MAX,
        ensures
            *r == self.procs()[i as int],
    {
        &self.procs[i]
    }

    /// The running process's slot, if any.
    pub fn current_index(&self) -> (r: Option<usize>)
        ensures
            r == self.current(),
    {
        self.current
    }

    /// The idle process's slot, if any.
    pub fn idle_index(&self) -> (r: Option<usize>)
        ensures
            r == self.idle(),
    {
        self.idle
    }

    /// Whether every slot is unused.
    pub fn all_unused(&self) -> (r: bool)
        requires
            self.wf(),
        ensures
            r == all_unused_spec(self.procs()),
    {
        let mut i: usize = 0;
        while i < PROCS_MAX
            invariant
                self.wf(),
                i <= PROCS_MAX,
                forall|j: int| 0 <= j < i ==> #[trigger] self.procs()[j].state == State::Unused,
            decreases PROCS_MAX - i,
        {
            if self.procs[i].state != State::Unused {
                return false;
            }
            i = i + 1;
        }
        true
    }

    /// Number of unused slots.
    pub fn unused_count(&self) -> (r: usize)
        requires
            self.wf(),
        ensures
            r == count_unused(self.procs()),
    {
        let mut n: usize = 0;
        let mut i: usize = 0;
        while i < PROCS_MAX
            invariant
                self.wf(),
                i <= PROCS_MAX,
                n == count_unused(self.procs().subrange(0, i as int)),
                n <= i,
            decreases PROCS_MAX - i,
        {
            assert(self.procs().subrange(0, i + 1).drop_last() =~= self.procs().subrange(0, i as int));
            if self.procs[i].state == State::Unused {
                n = n + 1;
            }
            i = i + 1;
        }
        assert(self.procs().subrange(0, PROCS_MAX as int) =~= self.procs());
        n
    }

    /// Claims the lowest unused slot `i`: it gets pid `i + 1`, becomes runnable and has its saved
    /// stack pointer cleared. Returns `None` when every slot is in use.
    pub fn alloc_pcb(&mut self) -> (r: Option<usize>)
        requires
            old(self).wf(),
        ensures
            final(self).wf(),
            final(self).current() == old(self).current(),
            final(self).idle() == old(self).idle(),
            final(self).stack_base() == old(self).stack_base(),
            final(self).stride() == old(self).stride(),
            r == (match first_unused(old(self).procs(), 0) {
                Some(i) => Some(i as usize),
                None => None,
            }),
            match r {
                None => final(self).procs() == old(self).procs(),
                Some(i) => final(self).procs() == old(self).procs().update(
                    i as int,
                    (Process {
                        pid: (i + 1) as i32,
                        state: State::Runnable,
                        sp: 0,
                        ..old(self).procs()[i as int]
                    }),
                ),
            },
    {
        let mut i: usize = 0;
        while i < PROCS_MAX
            invariant
                self.wf(),
                *self == *old(self),
                i <= PROCS_MAX,
                first_unused(self.procs(), 0) == first_unused(self.procs(), i as int),
            decreases PROCS_MAX - i,
        {
            if self.procs[i].state == State::Unused {
                let mut p = self.procs[i];
                p.pid = (i + 1) as i32;
                p.state = State::Runnable;
                p.sp = 0;
                self.procs.set(i, p);
                return Some(i);
            }
            i = i + 1;
        }
        None
    }

    /// Builds slot `i`'s first saved context at the top of its kernel stack, so that switching to
    /// it returns into `entry` with `s0`..`s11` zero, and points its saved stack pointer there.
    pub fn init_kernel_frame_and_sp(&mut self, i: usize, entry: usize)
        requires
            old(self).wf(),
            i < PROCS_MAX,
        ensures
            final(self).wf(),
            final(self).current() == old(self).current(),
            final(self).idle() == old(self).idle(),
            final(self).stack_base() == old(self).stack_base(),
            final(self).stride() == old(self).stride(),
            final(self).procs().len() == PROCS_MAX,
            forall|j: int| 0 <= j < PROCS_MAX && j != i ==> #[trigger] final(self).procs()[j] == old(self).procs()[j],
            final(self).procs()[i as int].pid == old(self).procs()[i as int].pid,
            final(self).procs()[i as int].state == old(self).procs()[i as int].state,
            final(self).procs()[i as int].pt_root_phys == old(self).procs()[i as int].pt_root_phys,
            final(self).procs()[i as int].sp == old(self).stack_top(i as int) - FRAME_BYTES,
            final(self).procs()[i as int].stack@ == old(self).procs()[i as int].stack@.subrange(
                0,
                (KSTACK_SIZE - FRAME_BYTES) as int,
            ) + initial_frame(entry as u32),
    {
        proof { self.lemma_stack_top_bounds(i as int); }
        let top = self.stack_base + i * self.stride + KSTACK_SIZE;
        let frame = top - FRAME_BYTES;
        let mut p = self.procs[i];
        let off: usize = KSTACK_SIZE - FRAME_BYTES;
        let e = entry as u32;
        p.stack[off] = (e & 0xff) as u8;
        p.stack[off + 1] = ((e >> 8) & 0xff) as u8;
        p.stack[off + 2] = ((e >> 16) & 0xff) as u8;
        p.stack[off + 3] = ((e >> 24) & 0xff) as u8;
        let mut k: usize = WORD_SIZE;
        while k < FRAME_BYTES
            invariant
                off == KSTACK_SIZE - FRAME_BYTES,
                WORD_SIZE <= k <= FRAME_BYTES,
                e == entry as u32,
                forall|j: int| 0 <= j < off ==> p.stack@[j] == old(self).procs()[i as int].stack@[j],
                forall|j: int| off + WORD_SIZE <= j < off + k ==> p.stack@[j] == 0,
                p.stack@[off as int] == (e & 0xff) as u8,
                p.stack@[off + 1] == ((e >> 8u32) & 0xff) as u8,
                p.stack@[off + 2] == ((e >> 16u32) & 0xff) as u8,
                p.stack@[off + 3] == ((e >> 24u32) & 0xff) as u8,
                p.pid == old(self).procs()[i as int].pid,
                p.state == old(self).procs()[i as int].state,
                p.pt_root_phys == old(self).procs()[i as int].pt_root_phys,
            decreases FRAME_BYTES - k,
        {
            p.stack[off + k] = 0;
            k = k + 1;
        }
        p.sp = frame;
        self.procs.set(i, p);
        assert(self.procs()[i as int].stack@ =~= old(self).procs()[i as int].stack@.subrange(
            0,
            (KSTACK_SIZE - FRAME_BYTES) as int,
        ) + initial_frame(entry as u32));
    }

    /// Claims the lowest unused slot for a new process entering at `entry` and builds its first
    /// saved context. Returns the slot.
    pub fn create_process(&mut self, entry: usize) -> (r: usize)
        requires
            old(self).wf(),
            first_unused(old(self).procs(), 0) is Some,
        ensures
            final(self).wf(),
            final(self).current() == old(self).current(),
            final(self).idle() == old(self).idle(),
            final(self).stack_base() == old(self).stack_base(),
            final(self).stride() == old(self).stride(),
            first_unused(old(self).procs(), 0) == Some(r as int),
            forall|j: int| 0 <= j < PROCS_MAX && j != r ==> #[trigger] final(self).procs()[j] == old(self).procs()[j],
            r < PROCS_MAX,
            final(self).procs().len() == PROCS_MAX,
            fresh_process(old(self).procs()[r as int], final(self).procs()[r as int], r as int, entry, old(self).stack_top(r as int)),
    {
        proof { lemma_first_unused(self.procs(), 0); }
        let p = match self.alloc_pcb() {
            Some(p) => p,
            None => {
                proof { assert(false); }
                0
            },
        };
        self.init_kernel_frame_and_sp(p, entry);
        p
    }

    /// Boots the scheduler: the lowest unused slot becomes the idle process (pid 0) and the
    /// running process, the next two unused slots become processes entering at `a_entry` and
    /// `b_entry`, and the processor is yielded. Returns the switch to perform.
#[verifier::rlimit(30)]
    pub fn init_and_boot(&mut self, a_entry: usize, b_entry: usize) -> (r: Option<Switch>)
        requires
            old(self).wf(),
            count_unused(old(self).procs()) >= 3,
        ensures
            final(self).wf(),
            final(self).stack_base() == old(self).stack_base(),
            final(self).stride() == old(self).stride(),
            ({
                let before = old(self).procs();
                let after = final(self).procs();
                let i0 = first_unused(before, 0)->0;
                let ia = first_unused(before, i0 + 1)->0;
                let ib = first_unused(before, ia + 1)->0;
                &&& first_unused(before, 0) is Some
                &&& first_unused(before, i0 + 1) is Some
                &&& first_unused(before, ia + 1) is Some
                &&& final(self).idle() == Some(i0 as usize)
                &&& after[i0].pid == 0
                &&& after[i0].state == State::Runnable
                &&& after[i0].sp == 0
                &&& after[i0].pt_root_phys == before[i0].pt_root_phys
                &&& after[i0].stack == before[i0].stack
                &&& fresh_process(before[ia], after[ia], ia, a_entry, old(self).stack_top(ia))
                &&& fresh_process(before[ib], after[ib], ib, b_entry, old(self).stack_top(ib))
                &&& forall|j: int| 0 <= j < PROCS_MAX && j != i0 && j != ia && j != ib ==> #[trigger] after[j] == before[j]
                &&& ({
                    let next = pick_next_spec(after, Some(i0 as usize), Some(i0 as usize));
                    match next {
                        Some(n) if next != Some(i0 as usize) => {
                            &&& final(self).current() == Some(n)
                            &&& r == Some(Switch {
                                prev: Some(i0 as usize),
                                next: n,
                                kernel_stack_top: old(self).stack_top(n as int) as usize,
                            })
                        },
                        _ => final(self).current() == Some(i0 as usize) && r is None,
                    }
                })
            }),
    {
        let ghost before = self.procs();
        proof {
            lemma_count_unused_positive(before);
            lemma_first_unused(before, 0);
        }
        let idle = match self.alloc_pcb() {
            Some(p) => p,
            None => {
                proof { assert(false); }
                0
            },
        };
        let ghost p1 = self.procs();
        let mut p = self.procs[idle];
        p.pid = 0;
        self.procs.set(idle, p);
        self.idle = Some(idle);
        self.current = Some(idle);
        let ghost p2 = self.procs();
        proof {
            lemma_count_unused_update(before, idle as int, p1[idle as int]);
            lemma_count_unused_update(p1, idle as int, p);
            lemma_first_unused_skip(p2, 0, idle + 1);
            lemma_first_unused_agree(p2, before, idle + 1);
            lemma_count_unused_positive(p2);
            lemma_first_unused(p2, 0);
        }
        let a = self.create_process(a_entry);
        let ghost p3 = self.procs();
        proof {
            assert(p3 == p2.update(a as int, p3[a as int]));
            lemma_count_unused_update(p2, a as int, p3[a as int]);
            lemma_first_unused(p2, 0);
            lemma_first_unused_skip(p3, 0, a + 1);
            lemma_first_unused_agree(p3, before, a + 1);
            lemma_count_unused_positive(p3);
            lemma_first_unused(p3, 0);
        }
        let b = self.create_process(b_entry);
        proof {
            lemma_first_eligible_step(self.procs(), scan_start(Some(idle)), 0);
        }
        self.yield_now()
    }

    /// The process to run after `current`, in round-robin order; see `pick_next_spec`.
    pub fn pick_next(&self, current: Option<usize>) -> (r: Option<usize>)
        requires
            self.wf(),
            current matches Some(i) ==> i < PROCS_MAX,
        ensures
            r == pick_next_spec(self.procs(), current, self.idle()),
            !(exists|i: int| 0 <= i < PROCS_MAX && #[trigger] self.procs()[i].state == State::Runnable
                && self.procs()[i].pid > 0) ==> r == self.idle(),
            (exists|i: int| 0 <= i < PROCS_MAX && #[trigger] self.procs()[i].state == State::Runnable
                && self.procs()[i].pid > 0) ==> ({
                let j = r->0 as int;
                &&& r is Some
                &&& 0 <= j < PROCS_MAX
                &&& self.procs()[j].state == State::Runnable
                &&& self.procs()[j].pid > 0
                &&& current is None ==> forall|i: int|
                    0 <= i < j ==> !(#[trigger] self.procs()[i].state == State::Runnable && self.procs()[i].pid > 0)
                &&& current matches Some(c) ==> forall|i: int|
                    0 <= i < PROCS_MAX && (i + PROCS_MAX - 1 - c) % (PROCS_MAX as int)
                        < (j + PROCS_MAX - 1 - c) % (PROCS_MAX as int)
                        ==> !(#[trigger] self.procs()[i].state == State::Runnable && self.procs()[i].pid > 0)
            }),
    {
        let r = self.scan_for_next(current);
        proof { lemma_pick_next_picks_first_ready_slot(self.procs(), current, self.idle()); }
        r
    }

    /// The round-robin scan behind `pick_next`.
    fn scan_for_next(&self, current: Option<usize>) -> (r: Option<usize>)
        requires
            self.wf(),
            current matches Some(i) ==> i < PROCS_MAX,
        ensures
            r == pick_next_spec(self.procs(), current, self.idle()),
    {
        if self.all_unused() {
            return self.idle;
        }
        let start: usize = match current {
            Some(idx) => (idx + 1) % PROCS_MAX,
            None => 0,
        };
        let mut step: usize = 0;
        while step < PROCS_MAX
            invariant
                self.wf(),
                start == scan_start(current),
                !all_unused_spec(self.procs()),
                step <= PROCS_MAX,
                first_eligible_step(self.procs(), start as int, 0) == first_eligible_step(self.procs(), start as int, step as int),
            decreases PROCS_MAX - step,
        {
            let idx = (start + step) % PROCS_MAX;
            let p = &self.procs[idx];
            if p.state == State::Runnable && p.pid > 0 {
                return Some(idx);
            }
            step = step + 1;
        }
        self.idle
    }

    /// Gives up the processor: picks the next process and, when it is another one, makes it the
    /// running process and returns the switch to perform.
    pub fn yield_now(&mut self) -> (r: Option<Switch>)
        requires
            old(self).wf(),
        ensures
            final(self).wf(),
            final(self).procs() == old(self).procs(),
            final(self).idle() == old(self).idle(),
            final(self).stack_base() == old(self).stack_base(),
            final(self).stride() == old(self).stride(),
            final(self).current() == after_yield(old(self).procs(), old(self).current(), old(self).idle()),
            (exists|i: int| 0 <= i < PROCS_MAX && #[trigger] old(self).procs()[i].state == State::Runnable
                && old(self).procs()[i].pid > 0) ==> ({
                let j = final(self).current()->0 as int;
                &&& final(self).current() is Some
                &&& 0 <= j < PROCS_MAX
                &&& old(self).procs()[j].state == State::Runnable
                &&& old(self).procs()[j].pid > 0
                &&& old(self).current() is None ==> forall|i: int|
                    0 <= i < j ==> !(#[trigger] old(self).procs()[i].state == State::Runnable
                        && old(self).procs()[i].pid > 0)
                &&& old(self).current() matches Some(c) ==> forall|i: int|
                    0 <= i < PROCS_MAX && (i + PROCS_MAX - 1 - c) % (PROCS_MAX as int)
                        < (j + PROCS_MAX - 1 - c) % (PROCS_MAX as int)
                        ==> !(#[trigger] old(self).procs()[i].state == State::Runnable
                        && old(self).procs()[i].pid > 0)
            }),
            ({
                let next = pick_next_spec(old(self).procs(), old(self).current(), old(self).idle());
                match next {
                    Some(n) if next != old(self).current() => {
                        &&& final(self).current() == Some(n)
                        &&& r == Some(Switch {
                            prev: old(self).current(),
                            next: n,
                            kernel_stack_top: old(self).stack_top(n as int) as usize,
                        })
                    },
                    _ => final(self).current() == old(self).current() && r is None,
                }
            }),
    {
        let cur = self.current;
        proof {
            lemma_first_eligible_step(self.procs(), scan_start(cur), 0);
            lemma_pick_next_picks_first_ready_slot(self.procs(), cur, self.idle());
        }
        let next = self.pick_next(cur);
        match next {
            Some(n) => {
                if next != cur {
                    proof { self.lemma_stack_top_bounds(n as int); }
                    let ksp_top = self.stack_base + n * self.stride + KSTACK_SIZE;
                    self.current = Some(n);
                    Some(Switch { prev: cur, next: n, kernel_stack_top: ksp_top })
                } else {
                    None
                }
            },
            None => None,
        }
    }
}

/// The scheduler picks either the idle process or an eligible one, and it falls back to the
/// idle process only when no slot is eligible.
#[verifier::rlimit(30)]
pub proof fn lemma_pick_next_eligible_or_idle(procs: Seq<Process>, current: Option<usize>, idle: Option<usize>)
    requires
        procs.len() == PROCS_MAX,
    ensures
        ({
            let r = pick_next_spec(procs, current, idle);
            ||| r == idle
            ||| r matches Some(j) && j < PROCS_MAX && eligible(procs[j as int])
        }),
        (exists|i: int| 0 <= i < PROCS_MAX && #[trigger] eligible(procs[i])) ==> (
            pick_next_spec(procs, current, idle) matches Some(j) && j < PROCS_MAX && eligible(procs[j as int])),
{
    let start = scan_start(current);
    lemma_first_eligible_step(procs, start, 0);
    if exists|i: int| 0 <= i < PROCS_MAX && #[trigger] eligible(procs[i]) {
        let i = choose|i: int| 0 <= i < PROCS_MAX && #[trigger] eligible(procs[i]);
        assert(procs[i].state == State::Runnable);
        let m = (i - start + PROCS_MAX) % (PROCS_MAX as int);
        assert((start + m) % (PROCS_MAX as int) == i);
        assert(!eligible(procs[(start + m) % (PROCS_MAX as int)]) || first_eligible_step(procs, start, 0) is Some);
    }
}

/// Round-robin order: the process picked after `current` is the first eligible one in cyclic
/// order after it, so no eligible process between the two is passed over.
#[verifier::rlimit(30)]
pub proof fn lemma_pick_next_round_robin(procs: Seq<Process>, current: Option<usize>, idle: Option<usize>, j: usize)
    requires
        procs.len() == PROCS_MAX,
        current matches Some(c) ==> c < PROCS_MAX,
        exists|i: int| 0 <= i < PROCS_MAX && #[trigger] eligible(procs[i]),
        pick_next_spec(procs, current, idle) == Some(j),
    ensures
        eligible(procs[j as int]),
        forall|k: int|
            0 <= k < scan_distance(current, j as int) ==> !eligible(
                #[trigger] procs[(scan_start(current) + k) % (PROCS_MAX as int)],
            ),
{
    let start = scan_start(current);
    let d = scan_distance(current, j as int);
    assert(0 <= start < PROCS_MAX);
    lemma_first_eligible_step(procs, start, 0);
    let i = choose|i: int| 0 <= i < PROCS_MAX && #[trigger] eligible(procs[i]);
    assert(procs[i].state == State::Runnable);
    assert(!all_unused_spec(procs));
    let di = scan_distance(current, i);
    assert((start + di) % (PROCS_MAX as int) == i) by {
        if di > 0 {
            lemma_scan_arith(start, i, 0);
        } else {
            assert(i == start);
        }
    }
    assert(first_eligible_step(procs, start, 0) is Some) by {
        if first_eligible_step(procs, start, 0) is None {
            assert(!eligible(procs[(start + di) % (PROCS_MAX as int)]));
        }
    }
    let m = first_eligible_step(procs, start, 0)->0;
    assert(j == (start + m) % (PROCS_MAX as int));
    assert(d == m) by {
        if m > 0 {
            lemma_scan_arith(start, j as int, 0);
        }
    }
}


/// The running process after one yield from `cur`: the picked process, or `cur` when nothing
/// is picked.
pub open spec fn after_yield(procs: Seq<Process>, cur: Option<usize>, idle: Option<usize>) -> Option<usize> {
    match pick_next_spec(procs, cur, idle) {
        Some(n) => Some(n),
        None => cur,
    }
}

/// The running process after `k` yields from `cur`, with the slots unchanged.
pub open spec fn after_yields(procs: Seq<Process>, cur: Option<usize>, idle: Option<usize>, k: nat) -> Option<usize>
    decreases k,
{
    if k == 0 {
        cur
    } else {
        after_yields(procs, after_yield(procs, cur, idle), idle, (k - 1) as nat)
    }
}

/// Scan steps from where a yield after `cur` starts looking to slot `p`.
pub open spec fn scan_distance(cur: Option<usize>, p: int) -> int {
    (p - scan_start(cur) + PROCS_MAX) % (PROCS_MAX as int)
}

/// Cyclic index arithmetic behind `lemma_every_eligible_process_runs`.
proof fn lemma_scan_arith(start: int, p: int, m: int)
    requires
        0 <= start < PROCS_MAX,
        0 <= p < PROCS_MAX,
        0 <= m < (p - start + PROCS_MAX) % (PROCS_MAX as int),
    ensures
        (start + (p - start + PROCS_MAX) % (PROCS_MAX as int)) % (PROCS_MAX as int) == p,
        ((p - ((start + m) % (PROCS_MAX as int) + 1) % (PROCS_MAX as int) + PROCS_MAX) % (PROCS_MAX as int))
            == (p - start + PROCS_MAX) % (PROCS_MAX as int) - m - 1,
{
}

/// Fairness: while the slots do not change, every eligible process becomes the running process
/// within `PROCS_MAX` yields, whatever process runs first. Returns how many yields it takes.
#[verifier::rlimit(30)]
pub proof fn lemma_every_eligible_process_runs(
    procs: Seq<Process>,
    cur: Option<usize>,
    idle: Option<usize>,
    p: int,
) -> (k: nat)
    requires
        procs.len() == PROCS_MAX,
        cur matches Some(c) ==> c < PROCS_MAX,
        0 <= p < PROCS_MAX,
        eligible(procs[p]),
    ensures
        1 <= k <= scan_distance(cur, p) + 1 <= PROCS_MAX,
        after_yields(procs, cur, idle, k) == Some(p as usize),
    decreases scan_distance(cur, p),
{
    let start = scan_start(cur);
    let d = scan_distance(cur, p);
    assert(0 <= start < PROCS_MAX);
    assert(0 <= d < PROCS_MAX);
    assert((start + d) % (PROCS_MAX as int) == p) by {
        if d > 0 {
            lemma_scan_arith(start, p, 0);
        } else {
            assert(p == start);
        }
    }
    assert(procs[p].state == State::Runnable);
    assert(!all_unused_spec(procs));
    lemma_first_eligible_step(procs, start, 0);
    assert(first_eligible_step(procs, start, 0) is Some) by {
        if first_eligible_step(procs, start, 0) is None {
            assert(!eligible(procs[(start + d) % (PROCS_MAX as int)]));
        }
    }
    let m = first_eligible_step(procs, start, 0)->0;
    assert(m <= d) by {
        if m > d {
            assert(!eligible(procs[(start + d) % (PROCS_MAX as int)]));
        }
    }
    let n0 = (start + m) % (PROCS_MAX as int);
    assert(pick_next_spec(procs, cur, idle) == Some(n0 as usize));
    assert(after_yield(procs, cur, idle) == Some(n0 as usize));
    let next = Some(n0 as usize);
    assert(after_yields(procs, cur, idle, 1) == after_yields(procs, next, idle, 0));
    if m == d {
        1
    } else {
        assert(scan_distance(next, p) == d - m - 1) by {
            lemma_scan_arith(start, p, m);
        }
        let k2 = lemma_every_eligible_process_runs(procs, next, idle, p);
        assert(after_yields(procs, cur, idle, k2 + 1) == after_yields(procs, next, idle, k2));
        k2 + 1
    }
}


/// What the scheduler picks, in terms of the slots alone. Call a slot ready when its process is
/// `Runnable` with a positive pid. When some slot is ready, the pick is a ready slot, and no
/// ready slot comes before it in round-robin order: with no running process that order starts
/// at slot 0, so the pick is the lowest ready slot; after slot `c` it starts at slot `c + 1`
/// and wraps around. When no slot is ready, the pick is the idle process.
#[verifier::rlimit(30)]
pub proof fn lemma_pick_next_picks_first_ready_slot(procs: Seq<Process>, current: Option<usize>, idle: Option<usize>)
    requires
        procs.len() == PROCS_MAX,
        current matches Some(c) ==> c < PROCS_MAX,
    ensures
        !(exists|i: int| 0 <= i < PROCS_MAX && #[trigger] procs[i].state == State::Runnable && procs[i].pid > 0)
            ==> pick_next_spec(procs, current, idle) == idle,
        (exists|i: int| 0 <= i < PROCS_MAX && #[trigger] procs[i].state == State::Runnable && procs[i].pid > 0)
            ==> ({
            let r = pick_next_spec(procs, current, idle);
            let j = r->0 as int;
            &&& r is Some
            &&& 0 <= j < PROCS_MAX
            &&& procs[j].state == State::Runnable
            &&& procs[j].pid > 0
            &&& current is None ==> forall|i: int|
                0 <= i < j ==> !(#[trigger] procs[i].state == State::Runnable && procs[i].pid > 0)
            &&& current matches Some(c) ==> forall|i: int|
                0 <= i < PROCS_MAX && (i + PROCS_MAX - 1 - c) % (PROCS_MAX as int)
                    < (j + PROCS_MAX - 1 - c) % (PROCS_MAX as int)
                    ==> !(#[trigger] procs[i].state == State::Runnable && procs[i].pid > 0)
        }),
{
    let start = scan_start(current);
    assert(0 <= start < PROCS_MAX);
    lemma_first_eligible_step(procs, start, 0);
    if exists|i: int| 0 <= i < PROCS_MAX && #[trigger] procs[i].state == State::Runnable && procs[i].pid > 0 {
        let w = choose|i: int| 0 <= i < PROCS_MAX && #[trigger] procs[i].state == State::Runnable && procs[i].pid > 0;
        assert(eligible(procs[w]));
        lemma_pick_next_eligible_or_idle(procs, current, idle);
        let j = pick_next_spec(procs, current, idle)->0;
        lemma_pick_next_round_robin(procs, current, idle, j);
        assert forall|i: int|
            0 <= i < PROCS_MAX && ((current is None && i < j) || (current matches Some(c) && (i + PROCS_MAX - 1 - c)
                % (PROCS_MAX as int) < (j + PROCS_MAX - 1 - c) % (PROCS_MAX as int)))
            implies !(#[trigger] procs[i].state == State::Runnable && procs[i].pid > 0) by {
            let k = scan_distance(current, i);
            assert(k < scan_distance(current, j as int));
            if k > 0 {
                lemma_scan_arith(start, i, 0);
            }
            assert((start + k) % (PROCS_MAX as int) == i);
            assert(!eligible(procs[(start + k) % (PROCS_MAX as int)]));
        }
    } else {
        assert forall|i: int| 0 <= i < PROCS_MAX implies !eligible(#[trigger] procs[i]) by {
            if eligible(procs[i]) {
                assert(procs[i].state == State::Runnable && procs[i].pid > 0);
            }
        }
        if !all_unused_spec(procs) && first_eligible_step(procs, start, 0) is Some {
            let m = first_eligible_step(procs, start, 0)->0;
            assert(!eligible(procs[(start + m) % (PROCS_MAX as int)]));
        }
    }
}

} // verus!
