//! How many worker threads run, and on which cores.

use crate::config::CpuConfig;
use vstd::prelude::*;

verus! {

/// The number of threads where the machine does not tell.
pub const FALLBACK_THREADS: usize = 4;

/// The ports that the firewall opens to clients.
pub fn client_ports() -> (r: Vec<u16>)
    ensures
        r@ == seq![8899u16, 8900u16, 10101u16, 20202u16],
{
    let r: Vec<u16> = vec![8899, 8900, 10101, 20202];
    assert(r@ =~= seq![8899u16, 8900u16, 10101u16, 20202u16]);
    r
}

/// How many worker threads run.
pub open spec fn thread_count(cpu: CpuConfig, available: Option<usize>) -> usize {
    match cpu.worker_threads {
        Some(n) => n,
        None => if cpu.cores@.len() > 0 {
            cpu.cores@.len() as usize
        } else {
            match available {
                Some(n) => n,
                None => FALLBACK_THREADS,
            }
        },
    }
}

/// A number of threads that is configured counts before the cores that are given, and these before what
/// the machine tells; where it tells nothing, four threads run.
pub proof fn law_what_is_configured_comes_first(cpu: CpuConfig, available: Option<usize>)
    requires
        cpu.cores@.len() <= usize::MAX,
    ensures
        cpu.worker_threads is Some ==> thread_count(cpu, available) == cpu.worker_threads->0,
        cpu.worker_threads is None && cpu.cores@.len() > 0 ==> thread_count(cpu, available)
            == cpu.cores@.len(),
        cpu.worker_threads is None && cpu.cores@.len() == 0 && available is Some ==> thread_count(
            cpu,
            available,
        ) == available->0,
        cpu.worker_threads is None && cpu.cores@.len() == 0 && available is None ==> thread_count(
            cpu,
            available,
        ) == 4,
{
}

/// The core of a thread, by how many have started before it.
pub open spec fn core_for(cores: Seq<usize>, started: usize) -> Option<usize> {
    if cores.len() == 0 {
        None
    } else {
        Some(cores[started as int % cores.len() as int])
    }
}

/// The threads go to the cores in order: the first as many as there are go to one each, and the one
/// after a full turn to the same as the first.
pub proof fn law_cores_are_taken_in_turn(cores: Seq<usize>, started: usize)
    ensures
        cores.len() == 0 ==> core_for(cores, started) is None,
        started < cores.len() ==> core_for(cores, started) == Some(cores[started as int]),
        cores.len() > 0 && started + cores.len() <= usize::MAX ==> core_for(
            cores,
            (started + cores.len()) as usize,
        ) == core_for(cores, started),
{
    if cores.len() > 0 {
        let n = cores.len() as int;
        vstd::arithmetic::div_mod::lemma_mod_add_multiples_vanish(started as int, n);
        if started < n {
            vstd::arithmetic::div_mod::lemma_small_mod(started as nat, n as nat);
        }
    }
}

/// How many worker threads run: as many as configured, else one for each core that is given, else
/// as many as the machine can run at once.
pub fn worker_threads(cpu: &CpuConfig, available: Option<usize>) -> (r: usize)
    ensures
        r == thread_count(*cpu, available),
{
    match cpu.worker_threads {
        Some(n) => n,
        None => {
            if cpu.cores.len() > 0 {
                cpu.cores.len()
            } else {
                available.unwrap_or(FALLBACK_THREADS)
            }
        },
    }
}

/// Hands the cores that are given out to threads as they start.
pub struct CorePinner {
    pub cores: Vec<usize>,
    pub started: usize,
}

/// One more thread has started, on this core.
pub open spec fn is_next_core(before: CorePinner, after: CorePinner, r: Option<usize>) -> bool {
    &&& after.cores == before.cores
    &&& after.started == before.started.wrapping_add(1)
    &&& r == core_for(before.cores@, before.started)
}

/// A thread that starts is counted, and gets the core whose turn it is, where there are any.
pub proof fn law_thread_gets_the_core_whose_turn_it_is(
    before: CorePinner,
    after: CorePinner,
    r: Option<usize>,
)
    requires
        is_next_core(before, after, r),
        before.started < usize::MAX,
    ensures
        after.started == before.started + 1,
        after.cores == before.cores,
        r is Some <==> before.cores@.len() > 0,
        r is Some ==> r->0 == before.cores@[before.started as int % before.cores@.len() as int],
{
}

impl CorePinner {
    pub fn new(cores: Vec<usize>) -> (p: CorePinner)
        ensures
            p.cores == cores,
            p.started == 0,
    {
        CorePinner { cores, started: 0 }
    }

    /// The core of the next thread: in turn, over and over; none where none are given.
    pub fn next_core(&mut self) -> (r: Option<usize>)
        ensures
            is_next_core(*old(self), *final(self), r),
    {
        let idx: usize = self.started;
        self.started = self.started.wrapping_add(1);
        let n: usize = self.cores.len();
        if n == 0 {
            None
        } else {
            Some(self.cores[idx % n])
        }
    }
}

} // verus!
