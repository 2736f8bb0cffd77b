use crate::config::{
    has_priority_suffix, lemma_physical_names_distinct, lemma_sub_queues_differ, target_queue_name, ProcessConfig,
    QueueConfig,
};
use rand::seq::SliceRandom;
use vstd::prelude::*;
use vstd::seq_lib::group_to_multiset_ensures;

verus! {

/// No two queues of the list share a name.
pub open spec fn names_unique(queues: Seq<QueueConfig>) -> bool {
    forall|a: int, b: int|
        0 <= a < queues.len() && 0 <= b < queues.len() && a != b ==> queues[a]@ != queues[b]@
}

/// No queue name ends with the priority suffix.
pub open spec fn no_reserved_suffix(queues: Seq<QueueConfig>) -> bool {
    forall|k: int| 0 <= k < queues.len() ==> !has_priority_suffix(#[trigger] queues[k]@)
}

/// No two positions of the schedule poll the same physical queue.
pub open spec fn physical_names_distinct(s: Seq<(Seq<char>, bool)>) -> bool {
    forall|i: int, j: int|
        #![trigger s[i], s[j]]
        0 <= i < j < s.len() ==> target_queue_name(s[i]) != target_queue_name(s[j])
}

/// `order` lists, each exactly once, the positions of the queues whose name is not `home`.
pub open spec fn is_foreign_order(queues: Seq<QueueConfig>, home: Seq<char>, order: Seq<usize>) -> bool {
    &&& order.no_duplicates()
    &&& forall|k: usize| order.contains(k) <==> (k < queues.len() && queues[k as int]@ != home)
}

/// The schedule of a worker whose home queue is `home` and which visits the
/// foreign queues in `order`: home's priority and default targets, then for each
/// foreign queue its priority target followed by its default target.
pub open spec fn schedule_view(queues: Seq<QueueConfig>, home: Seq<char>, order: Seq<usize>) -> Seq<
    (Seq<char>, bool),
> {
    Seq::new(
        (2 + 2 * order.len()) as nat,
        |i: int|
            if i < 2 {
                (home, i == 0)
            } else {
                (queues[order[(i - 2) / 2] as int]@, (i - 2) % 2 == 0)
            },
    )
}

/// The targets of a schedule, as (logical name, is priority) pairs.
pub open spec fn targets_view(s: Seq<ProcessConfig>) -> Seq<(Seq<char>, bool)> {
    s.map_values(|t: ProcessConfig| t@)
}

/// `t` stands at exactly one position of `s`.
pub open spec fn occurs_once(s: Seq<(Seq<char>, bool)>, t: (Seq<char>, bool)) -> bool {
    exists|i: int|
        0 <= i < s.len() && s[i] == t && forall|j: int| 0 <= j < s.len() && s[j] == t ==> j == i
}

/// Relies on rand's `SliceRandom::shuffle`, with the generator of `thread_rng`:
/// the slice is permuted in place by swaps (Fisher-Yates), so the elements stay
/// the same and only their order is drawn. `thread_rng` panics only where the
/// operating system cannot seed it, which no argument here can rule out.
#[verifier::external_body]
fn shuffle_indices(v: &mut Vec<usize>)
    ensures
        final(v)@.to_multiset() == old(v)@.to_multiset(),
{
    v.shuffle(&mut rand::thread_rng());
}

/// Positions of the queues whose name differs from `exclude`, in list order.
fn foreign_indices(queues: &Vec<QueueConfig>, exclude: &QueueConfig) -> (r: Vec<usize>)
    ensures
        is_foreign_order(queues@, exclude@, r@),
{
    let mut r: Vec<usize> = Vec::new();
    let mut k: usize = 0;
    while k < queues.len()
        invariant
            k <= queues.len(),
            r@.no_duplicates(),
            forall|x: usize| r@.contains(x) <==> (x < k && queues@[x as int]@ != exclude@),
        decreases queues.len() - k,
    {
        let ghost prev = r@;
        let differs = queues[k].name != exclude.name;
        assert(differs == (queues@[k as int]@ != exclude@));
        if differs {
            r.push(k);
            assert forall|x: usize| r@.contains(x) <==> (prev.contains(x) || x == k) by {
                if prev.contains(x) {
                    let j = choose|j: int| 0 <= j < prev.len() && prev[j] == x;
                    assert(r@[j] == x);
                }
                if r@.contains(x) && x != k {
                    let j = choose|j: int| 0 <= j < r@.len() && r@[j] == x;
                    assert(prev[j] == x);
                }
                if x == k {
                    assert(r@[prev.len() as int] == x);
                }
            }
            assert(r@.no_duplicates()) by {
                assert(!prev.contains(k));
                assert forall|a: int, b: int| 0 <= a < r@.len() && 0 <= b < r@.len() && a != b implies r@[a] != r@[b] by {
                    if a < prev.len() && b < prev.len() {
                        assert(prev[a] != prev[b]);
                    } else if a < prev.len() {
                        assert(prev.contains(prev[a]));
                    } else {
                        assert(prev.contains(prev[b]));
                    }
                }
            }
        }
        assert forall|x: usize| r@.contains(x) <==> (x < k + 1 && queues@[x as int]@ != exclude@) by {
            assert(prev.contains(x) <==> (x < k && queues@[x as int]@ != exclude@));
            if !differs {
                assert(r@ == prev);
            }
        }
        k = k + 1;
    }
    r
}

/// Positions of every queue but `exclude`, in an order drawn at random.
pub fn get_remaining_queues(queues: &Vec<QueueConfig>, exclude: &QueueConfig) -> (r: Vec<usize>)
    ensures
        is_foreign_order(queues@, exclude@, r@),
{
    let mut other = foreign_indices(queues, exclude);
    let ghost before = other@;
    shuffle_indices(&mut other);
    proof {
        broadcast use group_to_multiset_ensures;

        before.lemma_multiset_has_no_duplicates();
        assert forall|x: usize| other@.to_multiset().contains(x) implies other@.to_multiset().count(x) == 1 by {
            assert(before.to_multiset().contains(x));
        }
        other@.lemma_multiset_has_no_duplicates_conv();
        assert forall|x: usize|
            other@.contains(x) <==> (x < queues@.len() && queues@[x as int]@ != exclude@) by {
            assert(other@.to_multiset().count(x) == before.to_multiset().count(x));
            assert(before.contains(x) <==> (x < queues@.len() && queues@[x as int]@ != exclude@));
        }
    }
    other
}

/// The schedule of a worker whose home queue is `home`, visiting the foreign
/// queues in the given order.
pub fn schedule_with_order(queues: &Vec<QueueConfig>, home: &QueueConfig, order: &Vec<usize>) -> (r:
    Vec<ProcessConfig>)
    requires
        forall|j: int| 0 <= j < order@.len() ==> order@[j] < queues@.len(),
    ensures
        targets_view(r@) == schedule_view(queues@, home@, order@),
{
    let mut r: Vec<ProcessConfig> = Vec::new();
    r.push(ProcessConfig::new(home, true));
    r.push(ProcessConfig::new(home, false));
    let mut j: usize = 0;
    while j < order.len()
        invariant
            j <= order@.len(),
            forall|x: int| 0 <= x < order@.len() ==> order@[x] < queues@.len(),
            r@.len() == 2 + 2 * j,
            forall|i: int|
                0 <= i < r@.len() ==> r@[i]@ == schedule_view(queues@, home@, order@)[i],
        decreases order@.len() - j,
    {
        let q = &queues[order[j]];
        r.push(ProcessConfig::new(q, true));
        r.push(ProcessConfig::new(q, false));
        assert((2 + 2 * j - 2) / 2 == j);
        assert((3 + 2 * j - 2) / 2 == j);
        j = j + 1;
    }
    assert(targets_view(r@) =~= schedule_view(queues@, home@, order@));
    r
}

/// The schedule of the worker whose home queue is `thread_queue`: its own two
/// targets first, then the other queues' targets in an order drawn at random.
pub fn get_process_configs(queues: &Vec<QueueConfig>, thread_queue: QueueConfig) -> (r: Vec<
    ProcessConfig,
>)
    ensures
        targets_view(r@).len() >= 2,
        targets_view(r@)[0] == (thread_queue@, true),
        targets_view(r@)[1] == (thread_queue@, false),
        exists|order: Seq<usize>|
            is_foreign_order(queues@, thread_queue@, order) && targets_view(r@) == schedule_view(
                queues@,
                thread_queue@,
                order,
            ),
        names_unique(queues@) && no_reserved_suffix(queues@) && !has_priority_suffix(
            thread_queue@,
        ) ==> physical_names_distinct(targets_view(r@)),
{
    let order = get_remaining_queues(queues, &thread_queue);
    proof {
        if names_unique(queues@) && no_reserved_suffix(queues@) && !has_priority_suffix(
            thread_queue@,
        ) {
            lemma_schedule_physical_names_distinct(queues@, thread_queue@, order@);
        }
        assert forall|j: int| 0 <= j < order@.len() implies order@[j] < queues@.len() by {
            assert(order@.contains(order@[j]));
        }
    }
    schedule_with_order(queues, &thread_queue, &order)
}


/// Whatever order the foreign queues come in, a worker's schedule starts with
/// its home queue's priority target, then its home queue's default target.
pub proof fn lemma_home_targets_first(queues: Seq<QueueConfig>, home: Seq<char>, order: Seq<usize>)
    ensures
        schedule_view(queues, home, order).len() >= 2,
        schedule_view(queues, home, order)[0] == (home, true),
        schedule_view(queues, home, order)[1] == (home, false),
{
}

/// Where does the foreign queue at position `k` of the list stand in a schedule
/// that visits the foreign queues in `order`?
proof fn lemma_foreign_position(
    queues: Seq<QueueConfig>,
    home: Seq<char>,
    order: Seq<usize>,
    i: int,
)
    requires
        is_foreign_order(queues, home, order),
        2 <= i < schedule_view(queues, home, order).len(),
    ensures
        order.contains(order[(i - 2) / 2]),
        schedule_view(queues, home, order)[i].0 != home,
        schedule_view(queues, home, order)[i] == (
            queues[order[(i - 2) / 2] as int]@,
            (i - 2) % 2 == 0,
        ),
        i == 2 + 2 * ((i - 2) / 2) + (if (i - 2) % 2 == 0 {
            0int
        } else {
            1int
        }),
{
    assert(order.contains(order[(i - 2) / 2]));
}

/// With unique queue names, every queue of the system has exactly one priority
/// target and exactly one default target in every worker's schedule.
pub proof fn lemma_each_queue_once(
    queues: Seq<QueueConfig>,
    home: Seq<char>,
    order: Seq<usize>,
    q: usize,
    priority: bool,
)
    requires
        names_unique(queues),
        is_foreign_order(queues, home, order),
        q < queues.len(),
    ensures
        occurs_once(schedule_view(queues, home, order), (queues[q as int]@, priority)),
{
    let s = schedule_view(queues, home, order);
    let t = (queues[q as int]@, priority);
    let p: int = if priority {
        0
    } else {
        1
    };
    if queues[q as int]@ == home {
        assert(s[p] == t);
        assert forall|j: int| 0 <= j < s.len() && s[j] == t implies j == p by {
            if j >= 2 {
                lemma_foreign_position(queues, home, order, j);
            }
        }
    } else {
        assert(order.contains(q));
        let m = choose|m: int| 0 <= m < order.len() && order[m] == q;
        let i = 2 + 2 * m + p;
        assert((i - 2) / 2 == m);
        assert(s[i] == t);
        assert forall|j: int| 0 <= j < s.len() && s[j] == t implies j == i by {
            if j >= 2 {
                lemma_foreign_position(queues, home, order, j);
                let mj = (j - 2) / 2;
                assert(order[mj] == q);
                assert(mj == m);
            }
        }
    }
}

/// With unique names, the foreign part of a schedule holds no target twice.
proof fn lemma_foreign_part_no_duplicates(queues: Seq<QueueConfig>, home: Seq<char>, order: Seq<usize>)
    requires
        names_unique(queues),
        is_foreign_order(queues, home, order),
    ensures
        ({
            let s = schedule_view(queues, home, order);
            s.subrange(2, s.len() as int).no_duplicates()
        }),
{
    let s = schedule_view(queues, home, order);
    let f = s.subrange(2, s.len() as int);
    assert forall|a: int, b: int| 0 <= a < f.len() && 0 <= b < f.len() && a != b implies f[a] != f[b] by {
        lemma_foreign_position(queues, home, order, a + 2);
        lemma_foreign_position(queues, home, order, b + 2);
        if f[a] == f[b] {
            assert(order[a / 2] == order[b / 2]);
        }
    }
}

/// With unique names, a schedule holds no target twice.
proof fn lemma_schedule_no_duplicates(queues: Seq<QueueConfig>, home: Seq<char>, order: Seq<usize>)
    requires
        names_unique(queues),
        is_foreign_order(queues, home, order),
    ensures
        schedule_view(queues, home, order).no_duplicates(),
{
    let s = schedule_view(queues, home, order);
    let f = s.subrange(2, s.len() as int);
    lemma_foreign_part_no_duplicates(queues, home, order);
    assert forall|i: int, j: int| 0 <= i < s.len() && 0 <= j < s.len() && i != j implies s[i]
        != s[j] by {
        if i >= 2 {
            lemma_foreign_position(queues, home, order, i);
        }
        if j >= 2 {
            lemma_foreign_position(queues, home, order, j);
        }
        if i >= 2 && j >= 2 {
            assert(f[i - 2] != f[j - 2]);
        }
    }
}

/// With unique names, none of which carries the priority suffix, no two
/// positions of a worker's schedule poll the same physical queue.
pub proof fn lemma_schedule_physical_names_distinct(
    queues: Seq<QueueConfig>,
    home: Seq<char>,
    order: Seq<usize>,
)
    requires
        names_unique(queues),
        no_reserved_suffix(queues),
        !has_priority_suffix(home),
        is_foreign_order(queues, home, order),
    ensures
        physical_names_distinct(schedule_view(queues, home, order)),
{
    let s = schedule_view(queues, home, order);
    lemma_schedule_no_duplicates(queues, home, order);
    assert forall|i: int, j: int| 0 <= i < j < s.len() implies target_queue_name(s[i])
        != target_queue_name(s[j]) by {
        if i >= 2 {
            lemma_foreign_position(queues, home, order, i);
            assert(order.contains(order[(i - 2) / 2]));
        }
        if j >= 2 {
            lemma_foreign_position(queues, home, order, j);
        }
        assert(!has_priority_suffix(s[i].0));
        assert(!has_priority_suffix(s[j].0));
        assert(s[i] != s[j]);
        if s[i].0 == s[j].0 {
            lemma_sub_queues_differ(s[i].0);
        } else {
            lemma_physical_names_distinct(s[i].0, s[j].0);
            lemma_physical_names_distinct(s[j].0, s[i].0);
        }
    }
}

/// The targets in the foreign part of a schedule are those of the foreign queues.
proof fn lemma_foreign_part_contents(
    queues: Seq<QueueConfig>,
    home: Seq<char>,
    order: Seq<usize>,
    t: (Seq<char>, bool),
)
    requires
        is_foreign_order(queues, home, order),
    ensures
        ({
            let s = schedule_view(queues, home, order);
            s.subrange(2, s.len() as int).contains(t) <==> exists|k: usize|
                k < queues.len() && queues[k as int]@ != home && t == (queues[k as int]@, t.1)
        }),
{
    let s = schedule_view(queues, home, order);
    let f = s.subrange(2, s.len() as int);
    if f.contains(t) {
        let a = choose|a: int| 0 <= a < f.len() && f[a] == t;
        lemma_foreign_position(queues, home, order, a + 2);
        let k = order[a / 2];
        assert(k < queues.len() && queues[k as int]@ != home && t == (queues[k as int]@, t.1));
    }
    if exists|k: usize| k < queues.len() && queues[k as int]@ != home && t == (queues[k as int]@, t.1) {
        let k = choose|k: usize| k < queues.len() && queues[k as int]@ != home && t == (queues[k as int]@, t.1);
        assert(order.contains(k));
        let m = choose|m: int| 0 <= m < order.len() && order[m] == k;
        let p: int = if t.1 {
            0
        } else {
            1
        };
        let i = 2 * m + p;
        assert((i + 2 - 2) / 2 == m);
        assert(f[i] == t);
    }
}

/// The random order of the foreign queues is all that differs between two
/// schedules of one worker: with unique names, any two foreign orders give
/// schedules with the same home prefix and foreign parts that are permutations
/// of each other.
pub proof fn lemma_only_foreign_order_varies(
    queues: Seq<QueueConfig>,
    home: Seq<char>,
    order1: Seq<usize>,
    order2: Seq<usize>,
)
    requires
        names_unique(queues),
        is_foreign_order(queues, home, order1),
        is_foreign_order(queues, home, order2),
    ensures
        ({
            let s1 = schedule_view(queues, home, order1);
            let s2 = schedule_view(queues, home, order2);
            &&& s1.len() == s2.len()
            &&& s1.subrange(0, 2) == s2.subrange(0, 2)
            &&& s1.subrange(2, s1.len() as int).to_multiset() == s2.subrange(
                2,
                s2.len() as int,
            ).to_multiset()
        }),
{
    broadcast use group_to_multiset_ensures;

    let s1 = schedule_view(queues, home, order1);
    let s2 = schedule_view(queues, home, order2);
    let f1 = s1.subrange(2, s1.len() as int);
    let f2 = s2.subrange(2, s2.len() as int);
    lemma_foreign_part_no_duplicates(queues, home, order1);
    lemma_foreign_part_no_duplicates(queues, home, order2);
    assert forall|t: (Seq<char>, bool)| f1.contains(t) <==> f2.contains(t) by {
        lemma_foreign_part_contents(queues, home, order1, t);
        lemma_foreign_part_contents(queues, home, order2, t);
    }
    f1.lemma_multiset_has_no_duplicates();
    f2.lemma_multiset_has_no_duplicates();
    assert(f1.to_multiset() =~= f2.to_multiset()) by {
        assert forall|t: (Seq<char>, bool)| f1.to_multiset().count(t) == f2.to_multiset().count(t) by {
            if f1.contains(t) {
                assert(f1.to_multiset().contains(t));
                assert(f2.to_multiset().contains(t));
            }
        }
    }
    assert(f1.len() == f1.to_multiset().len());
    assert(f2.len() == f2.to_multiset().len());
    assert(s1.subrange(0, 2) =~= s2.subrange(0, 2));
}

/// Two draws of the foreign order differ only in order: as multisets they are
/// the same positions.
pub proof fn lemma_foreign_orders_permute(
    queues: Seq<QueueConfig>,
    home: Seq<char>,
    order1: Seq<usize>,
    order2: Seq<usize>,
)
    requires
        is_foreign_order(queues, home, order1),
        is_foreign_order(queues, home, order2),
    ensures
        order1.to_multiset() == order2.to_multiset(),
{
    broadcast use group_to_multiset_ensures;

    order1.lemma_multiset_has_no_duplicates();
    order2.lemma_multiset_has_no_duplicates();
    assert(order1.to_multiset() =~= order2.to_multiset()) by {
        assert forall|k: usize| order1.to_multiset().count(k) == order2.to_multiset().count(k) by {
            if order1.contains(k) {
                assert(order1.to_multiset().contains(k));
                assert(order2.to_multiset().contains(k));
            }
        }
    }
}

} // verus!
