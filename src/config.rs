//! The startup configuration: a flat list of arguments, three per machine
//! (name, control-channel address, declared target in MiB), read into a
//! registry.
use vstd::prelude::*;
use crate::registry::{Allocation, Registry, MAX_MB, MAX_WORKLOADS};

verus! {

/// Why a configuration was refused.
#[derive(Clone, Copy, Debug, PartialEq, Eq, Structural)]
pub enum ConfigError {
    /// No arguments, or a count that is not a multiple of three.
    IncompleteEntry,
    /// More machines than the registry holds.
    TooManyWorkloads,
    /// The target of entry `entry` is not a whole number of MiB whose byte
    /// count fits in a `u64`.
    InvalidTarget { entry: usize },
    /// The name of entry `entry` was used by an earlier entry.
    DuplicateWorkload { entry: usize },
}

pub open spec fn is_digit(c: char) -> bool {
    '0' <= c && c <= '9'
}

pub open spec fn digit_value(c: char) -> int {
    (c as u32) - ('0' as u32)
}

/// The number that a string of decimal digits spells.
pub open spec fn decimal_value(d: Seq<char>) -> int
    decreases d.len(),
{
    if d.len() == 0 {
        0
    } else {
        decimal_value(d.drop_last()) * 10 + digit_value(d.last())
    }
}

/// The digits of a number, after an optional leading `+`.
pub open spec fn unsigned_digits(s: Seq<char>) -> Seq<char> {
    if s.len() > 0 && s[0] == '+' {
        s.drop_first()
    } else {
        s
    }
}

/// The target, in MiB, that an argument gives, if it gives one.
pub open spec fn target_of(s: Seq<char>) -> Option<u64> {
    let d = unsigned_digits(s);
    if d.len() > 0 && (forall|k: int| 0 <= k < d.len() ==> is_digit(#[trigger] d[k]))
        && decimal_value(d) <= MAX_MB {
        Some(decimal_value(d) as u64)
    } else {
        None
    }
}

proof fn lemma_decimal_monotone(d: Seq<char>, j: int)
    requires
        0 <= j <= d.len(),
        forall|k: int| 0 <= k < d.len() ==> is_digit(#[trigger] d[k]),
    ensures
        0 <= decimal_value(d.subrange(0, j)) <= decimal_value(d),
    decreases d.len(),
{
    if j == d.len() {
        assert(d.subrange(0, j) =~= d);
        if d.len() > 0 {
            lemma_decimal_monotone(d.drop_last(), j - 1);
            assert(is_digit(d[d.len() - 1]));
        }
    } else {
        let p = d.drop_last();
        assert forall|k: int| 0 <= k < p.len() implies is_digit(#[trigger] p[k]) by {
            assert(p[k] == d[k]);
        }
        lemma_decimal_monotone(p, j);
        assert(p.subrange(0, j) =~= d.subrange(0, j));
        lemma_decimal_monotone(p, p.len() as int);
        assert(p.subrange(0, p.len() as int) =~= p);
        assert(is_digit(d[d.len() - 1]));
    }
}

/// Reads a declared target: decimal digits after an optional `+`, at most
/// `MAX_MB`.
pub fn parse_target(s: &str) -> (r: Option<u64>)
    ensures
        r == target_of(s@),
        r is Some ==> r->Some_0 <= MAX_MB,
{
    let n = s.unicode_len();
    let mut start: usize = 0;
    if n > 0 && s.get_char(0) == '+' {
        start = 1;
    }
    let ghost d = unsigned_digits(s@);
    proof {
        assert(d =~= s@.subrange(start as int, n as int));
    }
    if start == n {
        proof {
            assert(d.len() == 0);
        }
        return None;
    }
    let mut value: u64 = 0;
    let mut i: usize = start;
    while i < n
        invariant
            n == s@.len(),
            start <= i <= n,
            d == s@.subrange(start as int, n as int),
            d == unsigned_digits(s@),
            forall|k: int| 0 <= k < i - start ==> is_digit(#[trigger] d[k]),
            value == decimal_value(d.subrange(0, i - start)),
            value <= MAX_MB,
        decreases n - i,
    {
        let c = s.get_char(i);
        proof {
            assert(d[i - start] == c);
        }
        if !('0' <= c && c <= '9') {
            proof {
                assert(!is_digit(d[i - start]));
            }
            return None;
        }
        let next: u64 = value * 10 + ((c as u32 - '0' as u32) as u64);
        proof {
            let p = d.subrange(0, i - start + 1);
            assert(p.drop_last() =~= d.subrange(0, i - start));
            assert(p.last() == c);
        }
        if next > MAX_MB {
            proof {
                if forall|k: int| 0 <= k < d.len() ==> is_digit(#[trigger] d[k]) {
                    lemma_decimal_monotone(d, i - start + 1);
                }
            }
            return None;
        }
        value = next;
        i = i + 1;
    }
    proof {
        assert(d.subrange(0, n - start) =~= d);
    }
    Some(value)
}

/// Number of complete entries in a configuration.
pub open spec fn entry_count(args: Seq<Seq<char>>) -> int {
    args.len() as int / 3
}

/// The error of entry `k`, given that the entries before it are sound.
pub open spec fn entry_error(args: Seq<Seq<char>>, k: int) -> Option<ConfigError> {
    if target_of(args[3 * k + 2]) is None {
        Some(ConfigError::InvalidTarget { entry: k as usize })
    } else if exists|j: int| 0 <= j < k && #[trigger] args[3 * j] == args[3 * k] {
        Some(ConfigError::DuplicateWorkload { entry: k as usize })
    } else {
        None
    }
}

/// Whether the argument count can be read as entries at all.
pub open spec fn complete(args: Seq<Seq<char>>) -> bool {
    args.len() > 0 && args.len() % 3 == 0
}

/// The arguments as text.
pub open spec fn texts(args: Seq<String>) -> Seq<Seq<char>> {
    args.map_values(|x: String| x@)
}

/// Whether the entries before `k` are all sound.
pub open spec fn sound_before(args: Seq<Seq<char>>, k: int) -> bool {
    forall|j: int| 0 <= j < k ==> #[trigger] entry_error(args, j) is None
}

/// Whether the argument count admits a registry.
pub open spec fn admissible(args: Seq<Seq<char>>) -> bool {
    complete(args) && entry_count(args) <= MAX_WORKLOADS
}

/// The allocation that entry `k` starts with.
pub open spec fn initial_allocation(args: Seq<Seq<char>>, k: int, now_ms: u64) -> Allocation {
    Allocation {
        declared_target_mb: target_of(args[3 * k + 2])->Some_0,
        observed_actual_mb: 0,
        last_adjusted_at_ms: now_ms,
    }
}

/// Whether `reg` holds exactly the entries of `args`.
pub open spec fn holds_entries(reg: Registry, args: Seq<Seq<char>>, now_ms: u64) -> bool {
    &&& reg.wf()
    &&& reg@.len() == entry_count(args)
    &&& forall|k: int|
        0 <= k < reg@.len() ==> {
            &&& reg.ids()[k] == args[3 * k]
            &&& reg.addresses()[k] == args[3 * k + 1]
            &&& #[trigger] reg@[k] == initial_allocation(args, k, now_ms)
        }
}

/// The entry that an error points at, if it points at one.
pub open spec fn entry_of(e: ConfigError) -> Option<int> {
    match e {
        ConfigError::InvalidTarget { entry } => Some(entry as int),
        ConfigError::DuplicateWorkload { entry } => Some(entry as int),
        _ => None,
    }
}

/// Whether `e` is the error of an entry of `args` whose predecessors are
/// all sound.
pub open spec fn at_entry(args: Seq<Seq<char>>, e: ConfigError) -> bool {
    let k = entry_of(e)->Some_0;
    &&& admissible(args)
    &&& k < entry_count(args)
    &&& sound_before(args, k)
    &&& entry_error(args, k) == Some(e)
}

/// Reads the configuration into a registry, every machine with no usage
/// observed yet and its last adjustment at `now_ms`. The first entry in
/// order that is unsound gives the error.
pub fn parse_config(args: &Vec<String>, now_ms: u64) -> (r: Result<Registry, ConfigError>)
    ensures
        (r == Err::<Registry, ConfigError>(ConfigError::IncompleteEntry)) <==> !complete(
            texts(args@),
        ),
        (r == Err::<Registry, ConfigError>(ConfigError::TooManyWorkloads)) <==> (complete(
            texts(args@),
        ) && entry_count(texts(args@)) > MAX_WORKLOADS),
        (r is Err && entry_of(r->Err_0) is Some) ==> at_entry(texts(args@), r->Err_0),
        (r is Ok) <==> (admissible(texts(args@)) && sound_before(
            texts(args@),
            entry_count(texts(args@)),
        )),
        (r is Ok) ==> holds_entries(r->Ok_0, texts(args@), now_ms),
{
    let ghost a = texts(args@);
    let len = args.len();
    if len == 0 || len % 3 != 0 {
        return Err(ConfigError::IncompleteEntry);
    }
    let n = len / 3;
    if n > MAX_WORKLOADS {
        return Err(ConfigError::TooManyWorkloads);
    }
    let mut reg = Registry::new();
    let mut k: usize = 0;
    while k < n
        invariant
            a == texts(args@),
            n == entry_count(a),
            n <= MAX_WORKLOADS,
            complete(a),
            len == args@.len(),
            k <= n,
            reg.wf(),
            reg@.len() == k,
            sound_before(a, k as int),
            forall|j: int| 0 <= j < k ==> #[trigger] reg.ids()[j] == a[3 * j],
            forall|j: int| 0 <= j < k ==> #[trigger] reg.addresses()[j] == a[3 * j + 1],
            forall|j: int| 0 <= j < k ==> #[trigger] reg@[j] == initial_allocation(a, j, now_ms),
        decreases n - k,
    {
        assert(3 * k + 2 < len) by (nonlinear_arith)
            requires
                k < n,
                n == len / 3,
                len % 3 == 0,
        ;
        let id = &args[3 * k];
        let target = parse_target(args[3 * k + 2].as_str());
        proof {
            assert(a[3 * k as int] == id@);
            assert(a[3 * k + 2] == args@[3 * k + 2]@);
            assert(a[3 * k + 1] == args@[3 * k + 1]@);
        }
        match target {
            None => {
                proof {
                    assert(entry_error(a, k as int) is Some);
                }
                return Err(ConfigError::InvalidTarget { entry: k });
            },
            Some(mb) => {
                let seen = reg.contains(id);
                proof {
                    if seen {
                        let j = choose|j: int| 0 <= j < k && reg.ids()[j] == id@;
                        assert(a[3 * j] == a[3 * k as int]);
                    } else {
                        assert forall|j: int| 0 <= j < k implies #[trigger] a[3 * j] != a[3 * k] by {
                            assert(reg.ids()[j] == a[3 * j]);
                        }
                    }
                }
                if seen {
                    proof {
                        assert(entry_error(a, k as int) is Some);
                    }
                    return Err(ConfigError::DuplicateWorkload { entry: k });
                }
                reg.insert(id.clone(), args[3 * k + 1].clone(), mb, now_ms);
            },
        }
        k = k + 1;
    }
    Ok(reg)
}

} // verus!
