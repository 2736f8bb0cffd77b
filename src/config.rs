use vstd::prelude::*;
use vstd::string::StringExecFns;

verus! {

/// The suffix that marks the priority sub-queue of a logical queue.
pub open spec fn priority_suffix() -> Seq<char> {
    seq![':', 'p', 'r', 'i', 'o', 'r', 'i', 't', 'y']
}

/// Physical name of the priority sub-queue of the logical queue `name`.
pub open spec fn priority_queue_name(name: Seq<char>) -> Seq<char> {
    name + priority_suffix()
}

/// Physical name of the default sub-queue of the logical queue `name`.
pub open spec fn default_queue_name(name: Seq<char>) -> Seq<char> {
    name
}

/// Whether `s` ends with the priority suffix.
pub open spec fn has_priority_suffix(s: Seq<char>) -> bool {
    s.len() >= priority_suffix().len() && s.subrange(
        s.len() - priority_suffix().len(),
        s.len() as int,
    ) == priority_suffix()
}

/// The physical names of distinct logical queues never overlap, as long as no
/// logical name carries the priority suffix itself.
pub proof fn lemma_physical_names_distinct(n: Seq<char>, m: Seq<char>)
    requires
        n != m,
        !has_priority_suffix(m),
    ensures
        priority_queue_name(n) != priority_queue_name(m),
        default_queue_name(n) != default_queue_name(m),
        priority_queue_name(n) != default_queue_name(m),
{
    let s = priority_suffix();
    if priority_queue_name(n) == priority_queue_name(m) {
        assert(n =~= priority_queue_name(n).subrange(0, n.len() as int));
        assert(m =~= priority_queue_name(m).subrange(0, m.len() as int));
    }
    if priority_queue_name(n) == default_queue_name(m) {
        assert(m.subrange(m.len() - s.len(), m.len() as int) =~= s);
    }
}

/// The two sub-queues of one logical queue have different names.
pub proof fn lemma_sub_queues_differ(n: Seq<char>)
    ensures
        priority_queue_name(n) != default_queue_name(n),
{
    assert(priority_queue_name(n).len() != n.len());
}

/// A logical queue, named by the operator.
pub struct QueueConfig {
    pub name: String,
}

impl View for QueueConfig {
    type V = Seq<char>;

    open spec fn view(&self) -> Seq<char> {
        self.name@
    }
}

impl QueueConfig {
    pub fn new(name: String) -> (r: QueueConfig)
        ensures
            r@ == name@,
    {
        QueueConfig { name }
    }

    /// A copy of this queue.
    pub fn copy(&self) -> (r: QueueConfig)
        ensures
            r@ == self@,
    {
        QueueConfig { name: self.name.clone() }
    }

    /// Name of the priority sub-queue: the logical name followed by `:priority`.
    pub fn get_priority_queue_name(&self) -> (r: String)
        ensures
            r@ == priority_queue_name(self@),
    {
        let suffix = ":priority";
        proof {
            reveal_strlit(":priority");
        }
        let r = self.name.clone().concat(suffix);
        assert(suffix@ =~= priority_suffix());
        r
    }

    /// Name of the default sub-queue: the logical name itself.
    pub fn get_default_queue_name(&self) -> (r: String)
        ensures
            r@ == default_queue_name(self@),
    {
        self.name.clone()
    }
}

/// One target of a worker's schedule: a logical queue and which of its two
/// sub-queues to poll.
pub struct ProcessConfig {
    pub queue: QueueConfig,
    pub priority: bool,
}

impl View for ProcessConfig {
    type V = (Seq<char>, bool);

    open spec fn view(&self) -> (Seq<char>, bool) {
        (self.queue@, self.priority)
    }
}

/// The physical queue name that a target designates.
pub open spec fn target_queue_name(t: (Seq<char>, bool)) -> Seq<char> {
    if t.1 {
        priority_queue_name(t.0)
    } else {
        default_queue_name(t.0)
    }
}

impl ProcessConfig {
    pub fn new(queue: &QueueConfig, priority: bool) -> (r: ProcessConfig)
        ensures
            r@ == (queue@, priority),
    {
        ProcessConfig { queue: queue.copy(), priority }
    }

    /// The physical queue that this target polls.
    pub fn queue_name(&self) -> (r: String)
        ensures
            r@ == target_queue_name(self@),
    {
        if self.priority {
            self.queue.get_priority_queue_name()
        } else {
            self.queue.get_default_queue_name()
        }
    }
}

/// Where the broker is and how long one blocking pop may wait, in seconds.
pub struct ConnectionConfig {
    pub hostname: String,
    pub port: u16,
    pub timeout: usize,
}

} // verus!
