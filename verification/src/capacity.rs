//! What the host can bear, and what it bears at the moment.

use crate::text::{
    behind_prefix, has_prefix, lines, lines_of, optional_text, parse_unsigned, starts_with,
    strip_prefix, texts, unsigned_number, words, words_of,
};
use vstd::prelude::*;
use vstd::string::StringExecFns;

verus! {

/// The limits within which jobs are admitted. Pressures are in hundredths of a percent, the
/// precision in which the kernel gives them.
#[derive(Clone, Copy, Debug, PartialEq, Eq, Structural)]
pub struct Limits {
    pub max_running_jobs: usize,
    pub max_compile_slots: u16,
    pub host_memory_reserve_mib: u64,
    pub max_job_memory_mib: u64,
    pub cpu_pressure_limit: i64,
    pub memory_pressure_limit: i64,
    pub io_pressure_limit: i64,
}

/// The limits of a runner that configures none.
pub open spec fn default_limits() -> Limits {
    Limits {
        max_running_jobs: 2,
        max_compile_slots: 6,
        host_memory_reserve_mib: 4096,
        max_job_memory_mib: 12288,
        cpu_pressure_limit: 2500,
        memory_pressure_limit: 200,
        io_pressure_limit: 800,
    }
}

impl Default for Limits {
    fn default() -> (limits: Self)
        ensures
            limits == default_limits(),
    {
        Limits {
            max_running_jobs: 2,
            max_compile_slots: 6,
            host_memory_reserve_mib: 4096,
            max_job_memory_mib: 12288,
            cpu_pressure_limit: 2500,
            memory_pressure_limit: 200,
            io_pressure_limit: 800,
        }
    }
}

/// The limits that a configuration sets; the others keep their defaults.
#[derive(Clone, Copy, Debug, PartialEq, Eq, Structural)]
pub struct ConfigLimits {
    pub max_running_jobs: Option<usize>,
    pub max_compile_slots: Option<u16>,
    pub host_memory_reserve_mib: Option<u64>,
    pub max_job_memory_mib: Option<u64>,
    pub cpu_pressure_limit: Option<i64>,
    pub memory_pressure_limit: Option<i64>,
    pub io_pressure_limit: Option<i64>,
}

/// The value that was set, or the default.
pub open spec fn set_or<T>(value: Option<T>, default: T) -> T {
    match value {
        Some(inner) => inner,
        None => default,
    }
}

impl ConfigLimits {
    /// The limits that follow from the configuration.
    pub open spec fn effective(self) -> Limits {
        let defaults = default_limits();
        Limits {
            max_running_jobs: set_or(self.max_running_jobs, defaults.max_running_jobs),
            max_compile_slots: set_or(self.max_compile_slots, defaults.max_compile_slots),
            host_memory_reserve_mib: set_or(
                self.host_memory_reserve_mib,
                defaults.host_memory_reserve_mib,
            ),
            max_job_memory_mib: set_or(self.max_job_memory_mib, defaults.max_job_memory_mib),
            cpu_pressure_limit: set_or(self.cpu_pressure_limit, defaults.cpu_pressure_limit),
            memory_pressure_limit: set_or(
                self.memory_pressure_limit,
                defaults.memory_pressure_limit,
            ),
            io_pressure_limit: set_or(self.io_pressure_limit, defaults.io_pressure_limit),
        }
    }

    /// The limits that follow from the configuration.
    pub fn limits(&self) -> (limits: Limits)
        ensures
            limits == self.effective(),
    {
        let defaults = Limits::default();
        Limits {
            max_running_jobs: self.max_running_jobs.unwrap_or(defaults.max_running_jobs),
            max_compile_slots: self.max_compile_slots.unwrap_or(defaults.max_compile_slots),
            host_memory_reserve_mib: self.host_memory_reserve_mib.unwrap_or(
                defaults.host_memory_reserve_mib,
            ),
            max_job_memory_mib: self.max_job_memory_mib.unwrap_or(defaults.max_job_memory_mib),
            cpu_pressure_limit: self.cpu_pressure_limit.unwrap_or(defaults.cpu_pressure_limit),
            memory_pressure_limit: self.memory_pressure_limit.unwrap_or(
                defaults.memory_pressure_limit,
            ),
            io_pressure_limit: self.io_pressure_limit.unwrap_or(defaults.io_pressure_limit),
        }
    }
}

/// The host's free memory and its pressures over ten seconds, in hundredths of a percent.
#[derive(Clone, Copy, Debug, PartialEq, Eq, Structural)]
pub struct HostCapacity {
    pub available_memory_mib: u64,
    pub cpu_pressure_some_avg10: i64,
    pub memory_pressure_full_avg10: i64,
    pub io_pressure_full_avg10: i64,
}

impl Default for HostCapacity {
    fn default() -> (capacity: Self)
        ensures
            capacity.available_memory_mib == 0,
            capacity.cpu_pressure_some_avg10 == 0,
            capacity.memory_pressure_full_avg10 == 0,
            capacity.io_pressure_full_avg10 == 0,
    {
        HostCapacity {
            available_memory_mib: 0,
            cpu_pressure_some_avg10: 0,
            memory_pressure_full_avg10: 0,
            io_pressure_full_avg10: 0,
        }
    }
}

impl HostCapacity {
    /// Whether no pressure is above its limit.
    pub open spec fn calm(self, limits: Limits) -> bool {
        &&& self.cpu_pressure_some_avg10 <= limits.cpu_pressure_limit
        &&& self.memory_pressure_full_avg10 <= limits.memory_pressure_limit
        &&& self.io_pressure_full_avg10 <= limits.io_pressure_limit
    }

    /// Whether no pressure is above its limit.
    pub fn is_calm(&self, limits: &Limits) -> (calm: bool)
        ensures
            calm == self.calm(*limits),
    {
        self.cpu_pressure_some_avg10 <= limits.cpu_pressure_limit
            && self.memory_pressure_full_avg10 <= limits.memory_pressure_limit
            && self.io_pressure_full_avg10 <= limits.io_pressure_limit
    }
}

// ---------------------------------------------------------------------------
// Several samples as one
// ---------------------------------------------------------------------------

/// The sum of the numbers.
pub open spec fn sum(numbers: Seq<int>) -> int
    decreases numbers.len(),
{
    if numbers.len() == 0 {
        0
    } else {
        sum(numbers.drop_last()) + numbers.last()
    }
}

/// The least of the numbers; of none, zero.
pub open spec fn least(numbers: Seq<int>) -> int
    decreases numbers.len(),
{
    if numbers.len() == 0 {
        0
    } else if numbers.len() == 1 || numbers.last() < least(numbers.drop_last()) {
        numbers.last()
    } else {
        least(numbers.drop_last())
    }
}

/// The free memory in each sample.
pub open spec fn memories(samples: Seq<HostCapacity>) -> Seq<int> {
    Seq::new(samples.len(), |i: int| samples[i].available_memory_mib as int)
}

/// The processor pressure in each sample.
pub open spec fn cpu_pressures(samples: Seq<HostCapacity>) -> Seq<int> {
    Seq::new(samples.len(), |i: int| samples[i].cpu_pressure_some_avg10 as int)
}

/// The memory pressure in each sample.
pub open spec fn memory_pressures(samples: Seq<HostCapacity>) -> Seq<int> {
    Seq::new(samples.len(), |i: int| samples[i].memory_pressure_full_avg10 as int)
}

/// The input and output pressure in each sample.
pub open spec fn io_pressures(samples: Seq<HostCapacity>) -> Seq<int> {
    Seq::new(samples.len(), |i: int| samples[i].io_pressure_full_avg10 as int)
}

proof fn lemma_sum_bounds(numbers: Seq<int>)
    requires
        forall|i: int| 0 <= i < numbers.len() ==> i64::MIN <= #[trigger] numbers[i] <= i64::MAX,
    ensures
        i64::MIN * numbers.len() <= sum(numbers) <= i64::MAX * numbers.len(),
    decreases numbers.len(),
{
    if numbers.len() > 0 {
        lemma_sum_bounds(numbers.drop_last());
    }
}

/// Several samples as one: the least free memory, and each mean pressure as the sum of the samples
/// and the number that divides it.
#[derive(Clone, Copy, Debug, PartialEq, Eq, Structural)]
pub struct MeanCapacity {
    pub available_memory_mib: u64,
    pub samples: usize,
    pub cpu_pressure_total: i128,
    pub memory_pressure_total: i128,
    pub io_pressure_total: i128,
}

/// Whether the mean of so many pressures with this sum is a pressure.
pub open spec fn mean_fits(total: int, samples: int) -> bool {
    i64::MIN * samples <= total <= i64::MAX * samples
}

impl MeanCapacity {
    /// What holds of the mean of any samples.
    pub open spec fn wf(self) -> bool {
        &&& self.samples > 0
        &&& mean_fits(self.cpu_pressure_total as int, self.samples as int)
        &&& mean_fits(self.memory_pressure_total as int, self.samples as int)
        &&& mean_fits(self.io_pressure_total as int, self.samples as int)
    }

    /// Whether no mean pressure is above its limit.
    pub open spec fn calm(self, limits: Limits) -> bool {
        &&& self.cpu_pressure_total <= limits.cpu_pressure_limit * self.samples
        &&& self.memory_pressure_total <= limits.memory_pressure_limit * self.samples
        &&& self.io_pressure_total <= limits.io_pressure_limit * self.samples
    }

    /// The capacity in whole hundredths that is within the same limits: each mean, rounded up.
    pub fn in_hundredths(&self) -> (capacity: HostCapacity)
        requires
            self.wf(),
        ensures
            capacity.available_memory_mib == self.available_memory_mib,
            capacity.cpu_pressure_some_avg10 == rounded_up(
                self.cpu_pressure_total as int,
                self.samples as int,
            ),
            capacity.memory_pressure_full_avg10 == rounded_up(
                self.memory_pressure_total as int,
                self.samples as int,
            ),
            capacity.io_pressure_full_avg10 == rounded_up(
                self.io_pressure_total as int,
                self.samples as int,
            ),
            forall|limits: Limits| #[trigger] capacity.calm(limits) == self.calm(limits),
    {
        let capacity = HostCapacity {
            available_memory_mib: self.available_memory_mib,
            cpu_pressure_some_avg10: round_up(self.cpu_pressure_total, self.samples),
            memory_pressure_full_avg10: round_up(self.memory_pressure_total, self.samples),
            io_pressure_full_avg10: round_up(self.io_pressure_total, self.samples),
        };
        proof {
            let n = self.samples as int;
            assert forall|limits: Limits| #[trigger] capacity.calm(limits) == self.calm(limits) by {
                rounding_up_keeps_the_comparison(
                    self.cpu_pressure_total as int,
                    n,
                    limits.cpu_pressure_limit as int,
                );
                rounding_up_keeps_the_comparison(
                    self.memory_pressure_total as int,
                    n,
                    limits.memory_pressure_limit as int,
                );
                rounding_up_keeps_the_comparison(
                    self.io_pressure_total as int,
                    n,
                    limits.io_pressure_limit as int,
                );
            }
        }
        capacity
    }
}

/// The quotient, rounded up.
pub open spec fn rounded_up(total: int, count: int) -> int {
    -((-total) / count)
}

/// The quotient, rounded up.
fn round_up(total: i128, count: usize) -> (quotient: i64)
    requires
        count > 0,
        mean_fits(total as int, count as int),
    ensures
        quotient == rounded_up(total as int, count as int),
{
    let parts: i128 = count as i128;
    let ghost low = i64::MIN as int;
    let ghost high = i64::MAX as int;
    let ghost whole = total as int;
    let ghost n = count as int;
    proof {
        assert(low <= -((-whole) / n) <= high) by (nonlinear_arith)
            requires
                n > 0,
                low * n <= whole <= high * n,
        ;
    }
    if total > 0 {
        let below: i128 = (total - 1) / parts;
        assert(below + 1 == -((-whole) / n)) by (nonlinear_arith)
            requires
                below == (whole - 1) / n,
                n > 0,
                whole > 0,
        ;
        (below + 1) as i64
    } else {
        (-((-total) / parts)) as i64
    }
}

/// A quotient rounded up is within a limit exactly where the quotient itself is.
pub proof fn rounding_up_keeps_the_comparison(total: int, count: int, limit: int)
    requires
        count > 0,
    ensures
        rounded_up(total, count) <= limit <==> total <= limit * count,
{
    assert(-((-total) / count) <= limit <==> total <= limit * count) by (nonlinear_arith)
        requires
            count > 0,
    ;
}

/// Several samples as one: the least free memory and the mean of each pressure. Of no samples, the
/// memory and the means are zero.
pub fn combine_samples(samples: &Vec<HostCapacity>) -> (mean: MeanCapacity)
    ensures
        mean.wf(),
        mean.available_memory_mib == least(memories(samples@)),
        mean.samples == if samples@.len() == 0 {
            1
        } else {
            samples@.len()
        },
        mean.cpu_pressure_total == sum(cpu_pressures(samples@)),
        mean.memory_pressure_total == sum(memory_pressures(samples@)),
        mean.io_pressure_total == sum(io_pressures(samples@)),
{
    let mut memory: u64 = 0;
    let mut cpu: i128 = 0;
    let mut full: i128 = 0;
    let mut io: i128 = 0;
    let mut at: usize = 0;
    while at < samples.len()
        invariant
            at <= samples@.len(),
            memory == least(memories(samples@.take(at as int))),
            cpu == sum(cpu_pressures(samples@.take(at as int))),
            full == sum(memory_pressures(samples@.take(at as int))),
            io == sum(io_pressures(samples@.take(at as int))),
        decreases samples.len() - at,
    {
        let sample = samples[at];
        proof {
            let seen = samples@.take(at as int);
            let more = samples@.take(at + 1);
            assert(memories(more).drop_last() =~= memories(seen));
            assert(cpu_pressures(more).drop_last() =~= cpu_pressures(seen));
            assert(memory_pressures(more).drop_last() =~= memory_pressures(seen));
            assert(io_pressures(more).drop_last() =~= io_pressures(seen));
            lemma_sum_bounds(cpu_pressures(more));
            lemma_sum_bounds(memory_pressures(more));
            lemma_sum_bounds(io_pressures(more));
        }
        if at == 0 || sample.available_memory_mib < memory {
            memory = sample.available_memory_mib;
        }
        cpu = cpu + sample.cpu_pressure_some_avg10 as i128;
        full = full + sample.memory_pressure_full_avg10 as i128;
        io = io + sample.io_pressure_full_avg10 as i128;
        at = at + 1;
    }
    proof {
        assert(samples@.take(at as int) =~= samples@);
        lemma_sum_bounds(cpu_pressures(samples@));
        lemma_sum_bounds(memory_pressures(samples@));
        lemma_sum_bounds(io_pressures(samples@));
    }
    MeanCapacity {
        available_memory_mib: memory,
        samples: if at == 0 {
            1
        } else {
            at
        },
        cpu_pressure_total: cpu,
        memory_pressure_total: full,
        io_pressure_total: io,
    }
}

// ---------------------------------------------------------------------------
// The kernel's reports
// ---------------------------------------------------------------------------

/// What follows the prefix in the first of the texts from `from` on that begins with it.
pub open spec fn first_behind(all: Seq<Seq<char>>, prefix: Seq<char>, from: int) -> Option<Seq<char>>
    decreases all.len() - from,
{
    if from >= all.len() {
        None
    } else if has_prefix(all[from], prefix) {
        behind_prefix(all[from], prefix)
    } else {
        first_behind(all, prefix, from + 1)
    }
}

/// What follows the prefix in the first of the strings that begins with it.
fn find_behind(strings: &Vec<String>, prefix: &str) -> (rest: Option<String>)
    ensures
        optional_text(rest) == first_behind(texts(strings@), prefix@, 0),
{
    let mut at: usize = 0;
    while at < strings.len()
        invariant
            at <= strings@.len(),
            first_behind(texts(strings@), prefix@, 0) == first_behind(
                texts(strings@),
                prefix@,
                at as int,
            ),
        decreases strings.len() - at,
    {
        let rest = strip_prefix(strings[at].as_str(), prefix);
        assert(texts(strings@)[at as int] == strings@[at as int]@);
        if rest.is_some() {
            return rest;
        }
        at = at + 1;
    }
    None
}

/// The first of the texts from `from` on that begins with the prefix.
pub open spec fn first_with(all: Seq<Seq<char>>, prefix: Seq<char>, from: int) -> Option<Seq<char>>
    decreases all.len() - from,
{
    if from >= all.len() {
        None
    } else if has_prefix(all[from], prefix) {
        Some(all[from])
    } else {
        first_with(all, prefix, from + 1)
    }
}

/// The first of the strings that begins with the prefix.
fn find_with(strings: &Vec<String>, prefix: &str) -> (found: Option<String>)
    ensures
        optional_text(found) == first_with(texts(strings@), prefix@, 0),
{
    let mut at: usize = 0;
    while at < strings.len()
        invariant
            at <= strings@.len(),
            first_with(texts(strings@), prefix@, 0) == first_with(
                texts(strings@),
                prefix@,
                at as int,
            ),
        decreases strings.len() - at,
    {
        assert(texts(strings@)[at as int] == strings@[at as int]@);
        if starts_with(strings[at].as_str(), prefix) {
            return Some(strings[at].clone());
        }
        at = at + 1;
    }
    None
}

/// The number of KiB that the memory report gives as available, as text.
pub open spec fn available_text(report: Seq<char>) -> Option<Seq<char>> {
    match first_behind(lines(report), "MemAvailable:"@, 0) {
        Some(rest) => if words(rest).len() > 0 {
            Some(words(rest)[0])
        } else {
            None
        },
        None => None,
    }
}

/// The available memory in MiB, from the text of `/proc/meminfo`.
pub fn mem_available_mib(report: &str) -> (res: Result<u64, &'static str>)
    ensures
        match available_text(report@) {
            None => res matches Err(fault) && fault@
                == "MemAvailable is absent from /proc/meminfo"@,
            Some(text) => match unsigned_number(text) {
                Some(kib) if kib <= u64::MAX => res == Ok::<u64, &'static str>((kib / 1024) as u64),
                _ => res matches Err(fault) && fault@ == "parse MemAvailable"@,
            },
        },
{
    let all = lines_of(report);
    let rest = match find_behind(&all, "MemAvailable:") {
        Some(rest) => rest,
        None => {
            return Err("MemAvailable is absent from /proc/meminfo");
        },
    };
    let fields = words_of(rest.as_str());
    if fields.len() == 0 {
        return Err("MemAvailable is absent from /proc/meminfo");
    }
    assert(words(rest@)[0] == fields@[0]@);
    match parse_unsigned(fields[0].as_str(), u64::MAX) {
        Some(kib) => Ok(kib / 1024),
        None => Err("parse MemAvailable"),
    }
}

/// The ten-second average of a class of pressure, as the text that the report at `path` gives.
pub fn pressure_avg10(report: &str, path: &str, class: &str) -> (res: Result<String, String>)
    ensures
        match first_with(lines(report@), class@, 0) {
            None => res matches Err(fault) && fault@ == "missing "@ + class@ + " pressure in "@
                + path@,
            Some(line) => match first_behind(words(line), "avg10="@, 0) {
                None => res matches Err(fault) && fault@ == "missing avg10 pressure"@,
                Some(text) => res matches Ok(average) && average@ == text,
            },
        },
{
    let all = lines_of(report);
    match find_with(&all, class) {
        None => {
            let mut fault = "missing ".to_owned();
            fault.append(class);
            fault.append(" pressure in ");
            fault.append(path);
            Err(fault)
        },
        Some(line) => {
            let fields = words_of(line.as_str());
            match find_behind(&fields, "avg10=") {
                Some(average) => Ok(average),
                None => Err("missing avg10 pressure".to_owned()),
            }
        },
    }
}

} // verus!
