//! The pool of workers, as far as dispatching reads it.

use vstd::prelude::*;
use crate::forwarding::WorkerReply;

verus! {

/// The index of the first idle worker, where `idle[i]` tells whether worker
/// `i` is idle; `None` where all are busy.
pub fn get_idle_worker(idle: &Vec<bool>) -> (r: Option<usize>)
    ensures
        match r {
            Some(i) => i < idle@.len() && idle@[i as int] && forall|j: int| 0 <= j < i ==> !idle@[j],
            None => forall|j: int| 0 <= j < idle@.len() ==> !idle@[j],
        },
{
    let mut i: usize = 0;
    while i < idle.len()
        invariant
            i <= idle@.len(),
            forall|j: int| 0 <= j < i ==> !idle@[j],
        decreases idle.len() - i,
    {
        if idle[i] {
            return Some(i);
        }
        i = i + 1;
    }
    None
}

/// The first idle worker among the flags `idle`.
pub open spec fn first_idle(idle: Seq<bool>) -> Option<int>
    decreases idle.len(),
{
    if idle.len() == 0 {
        None
    } else if idle[0] {
        Some(0)
    } else {
        match first_idle(idle.drop_first()) {
            Some(i) => Some(i + 1),
            None => None,
        }
    }
}

/// `first_idle` is the first idle position, and none where none is idle.
pub proof fn lemma_first_idle(idle: Seq<bool>)
    ensures
        match first_idle(idle) {
            Some(i) => 0 <= i < idle.len() && idle[i] && forall|j: int| 0 <= j < i ==> !idle[j],
            None => forall|j: int| 0 <= j < idle.len() ==> !idle[j],
        },
    decreases idle.len(),
{
    if idle.len() > 0 && !idle[0] {
        let t = idle.drop_first();
        lemma_first_idle(t);
        assert forall|j: int| 0 < j < idle.len() implies idle[j] == t[j - 1] by {}
    }
}

/// Where the queued items go, front first: each to the first worker still
/// idle (which is then busy), or back to the queue (`None`) once none is.
pub open spec fn dispatch_plan(idle: Seq<bool>, queued: nat) -> Seq<Option<usize>>
    decreases queued,
{
    if queued == 0 {
        Seq::empty()
    } else {
        match first_idle(idle) {
            Some(i) => seq![Some(i as usize)] + dispatch_plan(idle.update(i, false), (queued - 1) as nat),
            None => seq![None::<usize>] + dispatch_plan(idle, (queued - 1) as nat),
        }
    }
}

/// Plans one pass over `queued` queued items for workers whose idle flags are
/// `idle`: entry `k` is the worker that the `k`-th item goes to, or `None`
/// where it goes back to the end of the queue.
pub fn plan_dispatch(idle: &Vec<bool>, queued: usize) -> (r: Vec<Option<usize>>)
    ensures
        r@ == dispatch_plan(idle@, queued as nat),
{
    let mut flags: Vec<bool> = Vec::new();
    let mut j: usize = 0;
    while j < idle.len()
        invariant
            j <= idle@.len(),
            flags@ == idle@.take(j as int),
        decreases idle.len() - j,
    {
        flags.push(idle[j]);
        j = j + 1;
        assert(flags@ =~= idle@.take(j as int));
    }
    assert(flags@ =~= idle@);
    let mut r: Vec<Option<usize>> = Vec::new();
    let mut k: usize = 0;
    while k < queued
        invariant
            k <= queued,
            dispatch_plan(idle@, queued as nat) == r@ + dispatch_plan(flags@, (queued - k) as nat),
        decreases queued - k,
    {
        let choice = get_idle_worker(&flags);
        proof {
            lemma_first_idle(flags@);
        }
        let ghost rest = dispatch_plan(flags@, (queued - k) as nat);
        let ghost old_flags = flags@;
        let ghost old_r = r@;
        match choice {
            Some(i) => {
                assert(first_idle(old_flags) == Some(i as int)) by {
                    if let Some(f) = first_idle(old_flags) {
                        if f < i {
                            assert(old_flags[f]);
                        } else if i < f {
                            assert(old_flags[i as int]);
                        }
                    }
                }
                flags.set(i, false);
                assert(rest =~= seq![Some(i)] + dispatch_plan(flags@, (queued - k - 1) as nat));
            },
            None => {
                assert(first_idle(old_flags) is None) by {
                    if let Some(f) = first_idle(old_flags) {
                        assert(old_flags[f]);
                    }
                }
                assert(rest =~= seq![None::<usize>] + dispatch_plan(flags@, (queued - k - 1) as nat));
            },
        }
        r.push(choice);
        k = k + 1;
        assert(r@ + dispatch_plan(flags@, (queued - k) as nat) =~= old_r + rest);
    }
    assert(dispatch_plan(flags@, 0) =~= Seq::<Option<usize>>::empty());
    assert(r@ + dispatch_plan(flags@, 0) =~= r@);
    r
}

/// Every worker a plan names was idle, and no worker is named twice.
pub open spec fn plan_uses_idle_once(idle: Seq<bool>, p: Seq<Option<usize>>) -> bool {
    &&& forall|a: int|
        0 <= a < p.len() && (#[trigger] p[a]) is Some ==> p[a].unwrap() < idle.len() && idle[p[a].unwrap() as int]
    &&& forall|a: int, b: int|
        0 <= a < b < p.len() && (#[trigger] p[a]) is Some && (#[trigger] p[b]) is Some ==> p[a].unwrap()
            != p[b].unwrap()
}

/// Once a plan sends an item back to the queue, it sends back all later ones.
pub open spec fn plan_requeues_a_suffix(p: Seq<Option<usize>>) -> bool {
    forall|a: int, b: int| 0 <= a < b < p.len() && (#[trigger] p[a]) is None ==> (#[trigger] p[b]) is None
}

/// Law: a dispatch pass plans one entry per queued item, hands items only to
/// workers that were idle, never two items to one worker, and once an item
/// goes back to the queue every later one does too, so the returned items
/// keep their order at the end of the queue.
pub proof fn law_dispatch_plan(idle: Seq<bool>, queued: nat)
    requires
        idle.len() <= usize::MAX,
    ensures
        dispatch_plan(idle, queued).len() == queued,
        plan_uses_idle_once(idle, dispatch_plan(idle, queued)),
        plan_requeues_a_suffix(dispatch_plan(idle, queued)),
    decreases queued,
{
    if queued > 0 {
        lemma_first_idle(idle);
        let p = dispatch_plan(idle, queued);
        match first_idle(idle) {
            Some(i) => {
                let idle2 = idle.update(i, false);
                law_dispatch_plan(idle2, (queued - 1) as nat);
                let t = dispatch_plan(idle2, (queued - 1) as nat);
                assert(p =~= seq![Some(i as usize)] + t);
                assert forall|a: int|
                    0 <= a < p.len() && (#[trigger] p[a]) is Some implies p[a].unwrap() < idle.len()
                        && idle[p[a].unwrap() as int] by {
                    if a > 0 {
                        assert(p[a] == t[a - 1]);
                        assert(idle2[t[a - 1].unwrap() as int]);
                    }
                }
                assert forall|a: int, b: int|
                    0 <= a < b < p.len() && (#[trigger] p[a]) is Some && (#[trigger] p[b]) is Some implies p[a].unwrap()
                        != p[b].unwrap() by {
                    assert(p[b] == t[b - 1]);
                    assert(idle2[t[b - 1].unwrap() as int]);
                    if a > 0 {
                        assert(p[a] == t[a - 1]);
                    }
                }
                assert forall|a: int, b: int|
                    0 <= a < b < p.len() && (#[trigger] p[a]) is None implies (#[trigger] p[b]) is None by {
                    assert(a > 0);
                    assert(p[a] == t[a - 1]);
                    assert(p[b] == t[b - 1]);
                }
            },
            None => {
                law_dispatch_plan(idle, (queued - 1) as nat);
                let t = dispatch_plan(idle, (queued - 1) as nat);
                assert(p =~= seq![None::<usize>] + t);
                assert forall|a: int| 0 <= a < p.len() implies (#[trigger] p[a]) is None by {
                    if a > 0 {
                        assert(p[a] == t[a - 1]);
                        if t[a - 1] is Some {
                            assert(idle[t[a - 1].unwrap() as int]);
                        }
                    }
                }
            },
        }
    }
}

/// Law: an item goes back to the queue only once every idle worker has an
/// earlier item, and the items taken go to the idle workers in the order of
/// their positions; so the first item goes to the first idle worker whenever
/// one is idle.
pub proof fn law_dispatch_serves_idle_workers_first(idle: Seq<bool>, queued: nat)
    requires
        idle.len() <= usize::MAX,
    ensures
        forall|k: int, i: int|
            0 <= k < queued && (#[trigger] dispatch_plan(idle, queued)[k]) is None && 0 <= i < idle.len()
                && #[trigger] idle[i] ==> exists|a: int|
                0 <= a < k && dispatch_plan(idle, queued)[a] == Some(i as usize),
        forall|a: int, b: int|
            0 <= a < b < queued && (#[trigger] dispatch_plan(idle, queued)[a]) is Some && (
            #[trigger] dispatch_plan(idle, queued)[b]) is Some ==> dispatch_plan(idle, queued)[a].unwrap()
                < dispatch_plan(idle, queued)[b].unwrap(),
        forall|i: int|
            queued > 0 && 0 <= i < idle.len() && idle[i] && (forall|j: int| 0 <= j < i ==> !idle[j])
                ==> dispatch_plan(idle, queued)[0] == Some(i as usize),
    decreases queued,
{
    law_dispatch_plan(idle, queued);
    if queued > 0 {
        lemma_first_idle(idle);
        let p = dispatch_plan(idle, queued);
        match first_idle(idle) {
            Some(i0) => {
                let idle2 = idle.update(i0, false);
                law_dispatch_serves_idle_workers_first(idle2, (queued - 1) as nat);
                law_dispatch_plan(idle2, (queued - 1) as nat);
                let t = dispatch_plan(idle2, (queued - 1) as nat);
                assert(p =~= seq![Some(i0 as usize)] + t);
                assert forall|k: int, i: int|
                    0 <= k < queued && (#[trigger] p[k]) is None && 0 <= i < idle.len()
                        && #[trigger] idle[i] implies exists|a: int| 0 <= a < k && p[a] == Some(i as usize) by {
                    assert(k > 0);
                    assert(p[k] == t[k - 1]);
                    if i == i0 {
                        assert(p[0] == Some(i as usize));
                    } else {
                        assert(idle2[i]);
                        assert(t[k - 1] is None);
                        let a = choose|a: int| 0 <= a < k - 1 && t[a] == Some(i as usize);
                        assert(p[a + 1] == t[a]);
                    }
                }
                assert forall|a: int, b: int|
                    0 <= a < b < queued && (#[trigger] p[a]) is Some && (#[trigger] p[b]) is Some implies p[a].unwrap()
                        < p[b].unwrap() by {
                    assert(p[b] == t[b - 1]);
                    assert(t[b - 1] is Some);
                    let v = t[b - 1].unwrap();
                    assert(idle2[v as int]);
                    if a == 0 {
                        assert(v as int != i0);
                        assert(idle[v as int]);
                    } else {
                        assert(p[a] == t[a - 1]);
                    }
                }
            },
            None => {},
        }
    }
}

/// What happens to a worker, as far as its idle flag goes.
#[derive(PartialEq, Eq, Structural, Clone, Copy, Debug)]
pub enum PoolEvent {
    /// A job was handed to the worker (or to the worker that replaced it).
    Dispatched,
    /// The worker sent a reply.
    Replied(WorkerReply),
    /// The worker was found dead and replaced by a fresh one.
    Replaced,
}

/// Whether a worker is idle after `ev`, given whether it was idle before: a
/// job makes it busy, `Done` makes it idle, handing something back changes
/// nothing, and a fresh worker is idle.
pub fn idle_after(was_idle: bool, ev: PoolEvent) -> (r: bool)
    ensures
        r == match ev {
            PoolEvent::Dispatched => false,
            PoolEvent::Replied(WorkerReply::Done) => true,
            PoolEvent::Replied(_) => was_idle,
            PoolEvent::Replaced => true,
        },
{
    match ev {
        PoolEvent::Dispatched => false,
        PoolEvent::Replied(WorkerReply::Done) => true,
        PoolEvent::Replied(_) => was_idle,
        PoolEvent::Replaced => true,
    }
}

} // verus!
