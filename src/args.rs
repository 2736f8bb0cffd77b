use crate::config::{has_priority_suffix, priority_suffix, ConnectionConfig, QueueConfig};
use vstd::prelude::*;
use vstd::string::StringExecFns;

verus! {

/// Why a list of queue names was refused.
#[derive(PartialEq, Eq, Structural, Clone, Copy, Debug)]
pub enum ArgsError {
    /// No queue name was given.
    NoQueues,
    /// `--help` was asked for instead of a run.
    HelpRequested,
    /// A queue name is empty.
    EmptyName,
    /// A queue name ends with `:priority`, the suffix of priority sub-queues,
    /// so its default sub-queue would be another queue's priority sub-queue.
    ReservedSuffix,
    /// Two queues share a name.
    DuplicateName,
}

/// Why the connection settings were refused.
#[derive(PartialEq, Eq, Structural, Clone, Copy, Debug)]
pub enum ConfigError {
    /// The port is not a number from 1 to 65535.
    InvalidPort,
    /// The pop timeout is not a whole number of seconds of at least 1.
    InvalidTimeout,
}

pub open spec fn help_flag() -> Seq<char> {
    seq!['-', '-', 'h', 'e', 'l', 'p']
}

/// Whether two of the names are equal.
pub open spec fn has_duplicate(names: Seq<Seq<char>>) -> bool {
    exists|a: int, b: int| 0 <= a < b < names.len() && names[a] == names[b]
}

/// The error, if any, for a list of queue names, checked in this order: none
/// given, help asked for, an empty name, a name with the priority suffix, a
/// repeated name.
pub open spec fn args_error(names: Seq<Seq<char>>) -> Option<ArgsError> {
    if names.len() == 0 {
        Some(ArgsError::NoQueues)
    } else if names.contains(help_flag()) {
        Some(ArgsError::HelpRequested)
    } else if names.contains(Seq::<char>::empty()) {
        Some(ArgsError::EmptyName)
    } else if exists|i: int| 0 <= i < names.len() && has_priority_suffix(#[trigger] names[i]) {
        Some(ArgsError::ReservedSuffix)
    } else if has_duplicate(names) {
        Some(ArgsError::DuplicateName)
    } else {
        None
    }
}

pub open spec fn strings_view(v: Seq<String>) -> Seq<Seq<char>> {
    v.map_values(|s: String| s@)
}

/// The logical queues named by the command-line arguments (the program's own
/// name left out), one per argument in the given order.
pub fn get_queue_configs(args: &Vec<String>) -> (r: Result<Vec<QueueConfig>, ArgsError>)
    ensures
        match args_error(strings_view(args@)) {
            Some(e) => r == Err::<Vec<QueueConfig>, ArgsError>(e),
            None => r is Ok && r->Ok_0@.len() == args@.len() && forall|i: int|
                0 <= i < args@.len() ==> #[trigger] r->Ok_0@[i]@ == args@[i]@,
        },
{
    let ghost names = strings_view(args@);
    if args.len() == 0 {
        return Err(ArgsError::NoQueues);
    }
    let help = String::from_str("--help");
    proof {
        reveal_strlit("--help");
        assert(help@ =~= help_flag());
    }
    let mut i: usize = 0;
    while i < args.len()
        invariant
            i <= args@.len(),
            names == strings_view(args@),
            help@ == help_flag(),
            forall|j: int| 0 <= j < i ==> names[j] != help_flag(),
        decreases args@.len() - i,
    {
        if args[i] == help {
            assert(names[i as int] == help_flag());
            return Err(ArgsError::HelpRequested);
        }
        i = i + 1;
    }
    assert(!names.contains(help_flag()));
    let mut i: usize = 0;
    while i < args.len()
        invariant
            i <= args@.len(),
            names == strings_view(args@),
            forall|j: int| 0 <= j < i ==> names[j].len() != 0,
            !names.contains(help_flag()),
        decreases args@.len() - i,
    {
        if args[i].as_str().is_empty() {
            assert(names[i as int] =~= Seq::<char>::empty());
            assert(names.contains(Seq::<char>::empty()));
            return Err(ArgsError::EmptyName);
        }
        i = i + 1;
    }
    assert(!names.contains(Seq::<char>::empty())) by {
        if names.contains(Seq::<char>::empty()) {
            let j = choose|j: int| 0 <= j < names.len() && names[j] == Seq::<char>::empty();
            assert(names[j].len() == 0);
        }
    }
    let suffix = ":priority";
    proof {
        reveal_strlit(":priority");
        assert(suffix@ =~= priority_suffix());
    }
    let mut i: usize = 0;
    while i < args.len()
        invariant
            i <= args@.len(),
            names == strings_view(args@),
            suffix@ == priority_suffix(),
            forall|j: int| 0 <= j < i ==> !has_priority_suffix(#[trigger] names[j]),
            !names.contains(help_flag()),
            !names.contains(Seq::<char>::empty()),
        decreases args@.len() - i,
    {
        if ends_with(args[i].as_str(), suffix) {
            assert(has_priority_suffix(names[i as int]));
            return Err(ArgsError::ReservedSuffix);
        }
        i = i + 1;
    }
    let mut b: usize = 0;
    while b < args.len()
        invariant
            b <= args@.len(),
            names == strings_view(args@),
            forall|x: int, y: int| 0 <= x < y < b ==> names[x] != names[y],
            !names.contains(help_flag()),
            !names.contains(Seq::<char>::empty()),
            forall|j: int| 0 <= j < names.len() ==> !has_priority_suffix(#[trigger] names[j]),
        decreases args@.len() - b,
    {
        let mut a: usize = 0;
        while a < b
            invariant
                a <= b < args@.len(),
                names == strings_view(args@),
                forall|x: int, y: int| 0 <= x < y < b ==> names[x] != names[y],
                forall|x: int| 0 <= x < a ==> names[x] != names[b as int],
                !names.contains(help_flag()),
                !names.contains(Seq::<char>::empty()),
                forall|j: int| 0 <= j < names.len() ==> !has_priority_suffix(#[trigger] names[j]),
            decreases b - a,
        {
            if args[a] == args[b] {
                assert(names[a as int] == names[b as int]);
                assert(has_duplicate(names));
                return Err(ArgsError::DuplicateName);
            }
            a = a + 1;
        }
        b = b + 1;
    }
    assert(!has_duplicate(names));
    let mut queues: Vec<QueueConfig> = Vec::new();
    let mut i: usize = 0;
    while i < args.len()
        invariant
            i <= args@.len(),
            queues@.len() == i,
            forall|j: int| 0 <= j < i ==> #[trigger] queues@[j]@ == args@[j]@,
        decreases args@.len() - i,
    {
        queues.push(QueueConfig::new(args[i].clone()));
        i = i + 1;
    }
    Ok(queues)
}

/// Relies on `str::ends_with` with a `&str` pattern: whether `suffix` is a
/// suffix of `s`.
#[verifier::external_body]
fn ends_with(s: &str, suffix: &str) -> (r: bool)
    ensures
        r == (suffix@.len() <= s@.len() && s@.subrange(
            s@.len() - suffix@.len(),
            s@.len() as int,
        ) == suffix@),
{
    s.ends_with(suffix)
}

/// Whether `c` is a decimal digit.
pub open spec fn is_digit(c: char) -> bool {
    '0' <= c <= '9'
}

/// The value of a string of decimal digits.
pub open spec fn digits_value(s: Seq<char>) -> int
    decreases s.len(),
{
    if s.len() == 0 {
        0
    } else {
        digits_value(s.drop_last()) * 10 + (s.last() as int - '0' as int)
    }
}

proof fn lemma_digits_value_nonnegative(s: Seq<char>)
    requires
        forall|i: int| 0 <= i < s.len() ==> is_digit(#[trigger] s[i]),
    ensures
        digits_value(s) >= 0,
    decreases s.len(),
{
    if s.len() > 0 {
        assert(is_digit(s[s.len() - 1]));
        lemma_digits_value_nonnegative(s.drop_last());
    }
}

/// A number written in decimal is never negative.
proof fn lemma_decimal_value_nonnegative(s: Seq<char>)
    ensures
        decimal_value(s) matches Some(n) ==> n >= 0,
{
    if all_digits(unsigned_part(s)) {
        lemma_digits_value_nonnegative(unsigned_part(s));
    }
}

/// The number that `s` writes in decimal, with an optional leading `+`.
pub open spec fn decimal_value(s: Seq<char>) -> Option<int> {
    if unsigned_part(s).len() > 0 && all_digits(unsigned_part(s)) {
        Some(digits_value(unsigned_part(s)))
    } else {
        None
    }
}

/// `s` without its leading `+`, if it has one.
pub open spec fn unsigned_part(s: Seq<char>) -> Seq<char> {
    if s.len() > 0 && s[0] == '+' {
        s.drop_first()
    } else {
        s
    }
}

/// Every character of `d` is a decimal digit.
pub open spec fn all_digits(d: Seq<char>) -> bool {
    forall|i: int| 0 <= i < d.len() ==> is_digit(#[trigger] d[i])
}

/// Relies on `str::parse::<usize>`: an optional `+` followed by one or more
/// decimal digits, with a value that fits in `usize`; anything else is refused.
#[verifier::external_body]
fn parse_usize(s: &str) -> (r: Option<usize>)
    ensures
        r == (match decimal_value(s@) {
            Some(n) => if n <= usize::MAX {
                Some(n as usize)
            } else {
                None
            },
            None => None,
        }),
{
    s.parse::<usize>().ok()
}

/// The port of a setting: 6379 when none is given.
pub open spec fn port_setting(v: Option<Seq<char>>) -> Option<u16> {
    match v {
        None => Some(6379u16),
        Some(s) => match decimal_value(s) {
            Some(n) => if 1 <= n <= 65535 {
                Some(n as u16)
            } else {
                None
            },
            None => None,
        },
    }
}

/// The pop timeout of a setting, in seconds: 3 when none is given.
pub open spec fn timeout_setting(v: Option<Seq<char>>) -> Option<usize> {
    match v {
        None => Some(3usize),
        Some(s) => match decimal_value(s) {
            Some(n) => if 1 <= n <= usize::MAX {
                Some(n as usize)
            } else {
                None
            },
            None => None,
        },
    }
}

pub open spec fn default_hostname() -> Seq<char> {
    seq!['1', '2', '7', '.', '0', '.', '0', '.', '1']
}

pub open spec fn option_view(v: Option<String>) -> Option<Seq<char>> {
    match v {
        Some(s) => Some(s@),
        None => None,
    }
}

/// The connection settings from the given values, each absent where it was
/// not set: hostname 127.0.0.1, port 6379 and a pop timeout of 3 seconds by
/// default. A port outside 1..65535 or a timeout under 1 second is refused,
/// the port checked first.
pub fn get_connection_config(
    hostname: Option<String>,
    port: Option<String>,
    pop_timeout: Option<String>,
) -> (r: Result<ConnectionConfig, ConfigError>)
    ensures
        port_setting(option_view(port)) is None ==> r == Err::<ConnectionConfig, ConfigError>(
            ConfigError::InvalidPort,
        ),
        port_setting(option_view(port)) is Some && timeout_setting(option_view(pop_timeout)) is None
            ==> r == Err::<ConnectionConfig, ConfigError>(ConfigError::InvalidTimeout),
        port_setting(option_view(port)) is Some && timeout_setting(option_view(pop_timeout)) is Some
            ==> r is Ok && r->Ok_0.hostname@ == (match hostname {
            Some(h) => h@,
            None => default_hostname(),
        }) && r->Ok_0.port == port_setting(option_view(port))->Some_0 && r->Ok_0.timeout
            == timeout_setting(option_view(pop_timeout))->Some_0,
{
    proof {
        if option_view(port) is Some {
            lemma_decimal_value_nonnegative(option_view(port)->Some_0);
        }
        if option_view(pop_timeout) is Some {
            lemma_decimal_value_nonnegative(option_view(pop_timeout)->Some_0);
        }
    }
    let port: u16 = match port {
        None => 6379,
        Some(p) => match parse_usize(p.as_str()) {
            Some(n) => {
                if n >= 1 && n <= 65535 {
                    n as u16
                } else {
                    return Err(ConfigError::InvalidPort);
                }
            },
            None => {
                return Err(ConfigError::InvalidPort);
            },
        },
    };
    let timeout: usize = match pop_timeout {
        None => 3,
        Some(t) => match parse_usize(t.as_str()) {
            Some(n) => {
                if n >= 1 {
                    n
                } else {
                    return Err(ConfigError::InvalidTimeout);
                }
            },
            None => {
                return Err(ConfigError::InvalidTimeout);
            },
        },
    };
    let hostname = match hostname {
        Some(h) => h,
        None => {
            let h = String::from_str("127.0.0.1");
            proof {
                reveal_strlit("127.0.0.1");
                assert(h@ =~= default_hostname());
            }
            h
        },
    };
    Ok(ConnectionConfig { hostname, port, timeout })
}

} // verus!
