//! Which CPUs the worker threads are pinned to.
//!
//! Two threads of one physical core fight for its units, so workers are
//! spread over distinct cores before siblings are used.

use crate::text::{
    char_views, chars_of, digits_value, is_white, lemma_digits_value_nonneg, split_on, split_text, white,
};
use vstd::prelude::*;
use vstd::string::*;

verus! {

/// A text without white space at its ends.
pub open spec fn trimmed(s: Seq<char>) -> Seq<char>
    decreases s.len(),
{
    if s.len() > 0 && white(s[0]) {
        trimmed(s.skip(1))
    } else if s.len() > 0 && white(s.last()) {
        trimmed(s.drop_last())
    } else {
        s
    }
}

/// A number that a text of digits, with an optional plus sign, holds, if it
/// fits.
pub open spec fn cpu_number(s: Seq<char>) -> Option<usize> {
    let d = if s.len() > 0 && s[0] == '+' {
        s.skip(1)
    } else {
        s
    };
    if d.len() == 0 {
        None
    } else {
        match digits_value(d) {
            Some(v) => if v <= usize::MAX {
                Some(v as usize)
            } else {
                None
            },
            None => None,
        }
    }
}

/// What is in front of the first hyphen; the whole where there is none.
pub open spec fn before_hyphen(s: Seq<char>) -> Seq<char>
    decreases s.len(),
{
    if s.len() == 0 || s[0] == '-' {
        Seq::<char>::empty()
    } else {
        seq![s[0]] + before_hyphen(s.skip(1))
    }
}

/// The first CPU of a part of a list: a number, or the start of a range.
pub open spec fn part_start(part: Seq<char>) -> Option<usize> {
    cpu_number(trimmed(before_hyphen(part)))
}

/// The smaller of a number and what a part starts with.
pub open spec fn lowered(min: usize, part: Seq<char>) -> usize {
    match part_start(part) {
        Some(n) => if n < min {
            n
        } else {
            min
        },
        None => min,
    }
}

/// The smallest of a CPU and those that a list of parts starts with.
pub open spec fn lowest_of(cpu: usize, parts: Seq<Seq<char>>) -> usize
    decreases parts.len(),
{
    if parts.len() == 0 {
        cpu
    } else {
        lowered(lowest_of(cpu, parts.drop_last()), parts.last())
    }
}

fn trim(s: &Vec<char>, from: usize, to: usize) -> (r: (usize, usize))
    requires
        from <= to <= s@.len(),
    ensures
        from <= r.0 <= r.1 <= to,
        s@.subrange(r.0 as int, r.1 as int) == trimmed(s@.subrange(from as int, to as int)),
    decreases to - from,
{
    let ghost t = s@.subrange(from as int, to as int);
    if from < to && is_white(s[from]) {
        assert(t.skip(1) =~= s@.subrange(from + 1, to as int));
        trim(s, from + 1, to)
    } else if from < to && is_white(s[to - 1]) {
        assert(t.drop_last() =~= s@.subrange(from as int, to - 1));
        trim(s, from, to - 1)
    } else {
        (from, to)
    }
}

fn text_between(s: &Vec<char>, from: usize, to: usize) -> (r: String)
    requires
        from <= to <= s@.len(),
    ensures
        r@ == s@.subrange(from as int, to as int),
{
    let mut out: String = String::new();
    let mut i: usize = from;
    assert(out@ =~= s@.subrange(from as int, from as int));
    while i < to
        invariant
            from <= i <= to <= s@.len(),
            out@ == s@.subrange(from as int, i as int),
        decreases to - i,
    {
        out.push(s[i]);
        i = i + 1;
        assert(out@ =~= s@.subrange(from as int, i as int));
    }
    out
}

fn value_of(s: &Vec<char>, from: usize, to: usize) -> (r: Option<usize>)
    requires
        from <= to <= s@.len(),
    ensures
        match r {
            Some(v) => digits_value(s@.subrange(from as int, to as int)) == Some(v as int),
            None => digits_value(s@.subrange(from as int, to as int)) is None || digits_value(
                s@.subrange(from as int, to as int),
            )->0 > usize::MAX,
        },
    decreases to - from,
{
    let ghost t = s@.subrange(from as int, to as int);
    if from == to {
        return Some(0);
    }
    assert(t.drop_last() =~= s@.subrange(from as int, to - 1));
    assert(t.last() == s@[to - 1]);
    let c: char = s[to - 1];
    if !('0' <= c && c <= '9') {
        return None;
    }
    let digit: usize = (c as u32 - 48) as usize;
    match value_of(s, from, to - 1) {
        Some(v) => {
            if v > usize::MAX / 10 {
                assert(10 * v > usize::MAX - 9) by (nonlinear_arith)
                    requires
                        v > usize::MAX / 10,
                ;
                assert(10 * (v as int) > usize::MAX) by (nonlinear_arith)
                    requires
                        v as int >= usize::MAX as int / 10 + 1,
                ;
                return None;
            }
            if 10 * v > usize::MAX - digit {
                return None;
            }
            Some(10 * v + digit)
        },
        None => {
            proof {
                lemma_digits_value_nonneg(t.drop_last());
            }
            None
        },
    }
}

fn number_in(s: &Vec<char>, from: usize, to: usize) -> (r: Option<usize>)
    requires
        from <= to <= s@.len(),
    ensures
        r == cpu_number(s@.subrange(from as int, to as int)),
{
    let ghost t = s@.subrange(from as int, to as int);
    let start: usize = if from < to && s[from] == '+' {
        assert(t.skip(1) =~= s@.subrange(from + 1, to as int));
        from + 1
    } else {
        from
    };
    if start == to {
        return None;
    }
    value_of(s, start, to)
}

fn start_of(part: &Vec<char>) -> (r: Option<usize>)
    ensures
        r == part_start(part@),
{
    let mut end: usize = 0;
    assert(part@.skip(0) =~= part@);
    assert(part@.subrange(0, 0) + before_hyphen(part@) =~= before_hyphen(part@));
    while end < part.len() && part[end] != '-'
        invariant
            end <= part@.len(),
            before_hyphen(part@) == part@.subrange(0, end as int) + before_hyphen(part@.skip(end as int)),
        decreases part@.len() - end,
    {
        let ghost rest = part@.skip(end as int);
        assert(rest[0] == part@[end as int]);
        assert(rest.skip(1) =~= part@.skip(end + 1));
        assert(part@.subrange(0, end as int) + (seq![rest[0]] + before_hyphen(rest.skip(1))) =~= part@.subrange(0, end + 1)
            + before_hyphen(part@.skip(end + 1)));
        end = end + 1;
    }
    assert(before_hyphen(part@) =~= part@.subrange(0, end as int));
    let (from, to) = trim(part, 0, end);
    number_in(part, from, to)
}

/// The physical core of a CPU, named by its lowest sibling: `siblings` is the
/// system's list of the CPUs that share the core, commas between numbers and
/// ranges. A list that cannot be read leaves the CPU by itself.
pub fn physical_core_id(cpu: usize, siblings: Option<&str>) -> (r: usize)
    ensures
        r == (match siblings {
            Some(s) => lowest_of(cpu, split_on(trimmed(s@), ',')),
            None => cpu,
        }),
{
    match siblings {
        None => cpu,
        Some(s) => {
            let chars = chars_of(s);
            let (from, to) = trim(&chars, 0, chars.len());
            assert(chars@.subrange(0, chars@.len() as int) =~= s@);
            let list = text_between(&chars, from, to);
            let parts = split_text(list.as_str(), ',');
            let mut min: usize = cpu;
            let mut i: usize = 0;
            while i < parts.len()
                invariant
                    i <= parts@.len(),
                    min == lowest_of(cpu, char_views(parts@).take(i as int)),
                decreases parts@.len() - i,
            {
                let ghost now = char_views(parts@).take(i + 1);
                assert(now.last() == parts@[i as int]@);
                assert(now.drop_last() =~= char_views(parts@).take(i as int));
                match start_of(&chars_of(parts[i].as_str())) {
                    Some(n) => {
                        if n < min {
                            min = n;
                        }
                    },
                    None => {},
                }
                i = i + 1;
            }
            assert(char_views(parts@).take(i as int) =~= char_views(parts@));
            min
        },
    }
}

// Pins

/// Whether the core of the `i`-th CPU came before in the list.
pub open spec fn core_used(cores: Seq<usize>, i: int) -> bool {
    exists|j: int| 0 <= j < i && #[trigger] cores[j] == cores[i]
}

/// The first CPU of each core among the first `n`, at most `workers` of them.
pub open spec fn one_per_core(cpus: Seq<usize>, cores: Seq<usize>, n: int, workers: int) -> Seq<usize>
    decreases n,
{
    if n <= 0 {
        Seq::<usize>::empty()
    } else {
        let before = one_per_core(cpus, cores, n - 1, workers);
        if before.len() < workers && !core_used(cores, n - 1) {
            before.push(cpus[n - 1])
        } else {
            before
        }
    }
}

/// A list filled up from the first `n` CPUs, each once, to at most `workers`.
pub open spec fn filled_up(pins: Seq<usize>, cpus: Seq<usize>, n: int, workers: int) -> Seq<usize>
    decreases n,
{
    if n <= 0 {
        pins
    } else {
        let before = filled_up(pins, cpus, n - 1, workers);
        if before.len() < workers && !before.contains(cpus[n - 1]) {
            before.push(cpus[n - 1])
        } else {
            before
        }
    }
}

/// How many workers run: no more than there are CPUs, at least as many as
/// wanted up to one.
pub open spec fn worker_count(desired: int, cpus: int) -> int {
    let most = if cpus > 1 {
        cpus
    } else {
        1
    };
    if desired < most {
        desired
    } else {
        most
    }
}

/// The CPUs that workers are pinned to.
pub open spec fn pins_for(cpus: Seq<usize>, cores: Seq<usize>, workers: int) -> Seq<usize> {
    filled_up(
        one_per_core(cpus, cores, cpus.len() as int, workers),
        cpus,
        cpus.len() as int,
        workers,
    )
}

fn contains(s: &Vec<usize>, x: usize) -> (r: bool)
    ensures
        r == s@.contains(x),
{
    let mut i: usize = 0;
    while i < s.len()
        invariant
            i <= s@.len(),
            forall|j: int| 0 <= j < i ==> s@[j] != x,
        decreases s@.len() - i,
    {
        if s[i] == x {
            assert(s@[i as int] == x);
            return true;
        }
        i = i + 1;
    }
    false
}

/// How many workers run and which CPUs they are pinned to, given the CPUs
/// that may be used and the core of each: first one CPU of each core, then
/// the siblings.
pub fn build_pinner(desired_workers: usize, cpus: &Vec<usize>, cores: &Vec<usize>) -> (r: (usize, Vec<usize>))
    requires
        cores@.len() == cpus@.len(),
    ensures
        r.0 == worker_count(desired_workers as int, cpus@.len() as int),
        r.1@ == pins_for(cpus@, cores@, r.0 as int),
{
    let most: usize = if cpus.len() > 1 {
        cpus.len()
    } else {
        1
    };
    let workers: usize = if desired_workers < most {
        desired_workers
    } else {
        most
    };
    let mut pins: Vec<usize> = Vec::new();
    let mut seen: Vec<usize> = Vec::new();
    let mut i: usize = 0;
    while i < cpus.len()
        invariant
            i <= cpus@.len() == cores@.len(),
            pins@ == one_per_core(cpus@, cores@, i as int, workers as int),
            seen@ == cores@.take(i as int),
        decreases cpus@.len() - i,
    {
        let used = contains(&seen, cores[i]);
        proof {
            if used {
                let j = seen@.index_of(cores@[i as int]);
                assert(cores@[j] == cores@[i as int]);
            } else if core_used(cores@, i as int) {
                let j = choose|j: int| 0 <= j < i && #[trigger] cores@[j] == cores@[i as int];
                assert(seen@[j] == cores@[i as int]);
            }
        }
        if pins.len() < workers && !used {
            pins.push(cpus[i]);
        }
        seen.push(cores[i]);
        i = i + 1;
        assert(seen@ =~= cores@.take(i as int));
    }
    let ghost first = pins@;
    let mut i: usize = 0;
    while i < cpus.len()
        invariant
            i <= cpus@.len(),
            pins@ == filled_up(first, cpus@, i as int, workers as int),
        decreases cpus@.len() - i,
    {
        if pins.len() < workers && !contains(&pins, cpus[i]) {
            pins.push(cpus[i]);
        }
        i = i + 1;
    }
    (workers, pins)
}

/// The CPU of the `i`-th thread: round and round; none where threads are not
/// pinned.
pub fn pin_of(pins: &Vec<usize>, i: usize) -> (r: Option<usize>)
    ensures
        r == (if pins@.len() == 0 {
            None
        } else {
            Some(pins@[i as int % pins@.len() as int])
        }),
{
    if pins.len() == 0 {
        None
    } else {
        Some(pins[i % pins.len()])
    }
}

proof fn lemma_pins(cpus: Seq<usize>, cores: Seq<usize>, n: int, workers: int)
    requires
        0 <= n <= cpus.len(),
        workers >= 0,
    ensures
        one_per_core(cpus, cores, n, workers).len() <= workers,
        one_per_core(cpus, cores, n, workers).len() <= n,
        forall|k: int| 0 <= k < one_per_core(cpus, cores, n, workers).len() ==> exists|j: int|
            0 <= j < n && cpus[j] == #[trigger] one_per_core(cpus, cores, n, workers)[k],
    decreases n,
{
    if n > 0 {
        lemma_pins(cpus, cores, n - 1, workers);
        let before = one_per_core(cpus, cores, n - 1, workers);
        let after = one_per_core(cpus, cores, n, workers);
        assert forall|k: int| 0 <= k < after.len() implies exists|j: int| 0 <= j < n && cpus[j] == #[trigger] after[k] by {
            if k < before.len() {
                assert(after[k] == before[k]);
                let j = choose|j: int| 0 <= j < n - 1 && cpus[j] == before[k];
                assert(cpus[j] == after[k]);
            } else {
                assert(cpus[n - 1] == after[k]);
            }
        }
    }
}

proof fn lemma_filled(pins: Seq<usize>, cpus: Seq<usize>, n: int, workers: int)
    requires
        0 <= n <= cpus.len(),
        pins.len() <= workers,
    ensures
        pins.len() <= filled_up(pins, cpus, n, workers).len() <= workers,
        filled_up(pins, cpus, n, workers).take(pins.len() as int) == pins,
        filled_up(pins, cpus, n, workers).len() < workers ==> forall|j: int|
            0 <= j < n ==> filled_up(pins, cpus, n, workers).contains(#[trigger] cpus[j]),
        forall|k: int| 0 <= k < filled_up(pins, cpus, n, workers).len() ==> pins.contains(
            #[trigger] filled_up(pins, cpus, n, workers)[k],
        ) || cpus.contains(filled_up(pins, cpus, n, workers)[k]),
    decreases n,
{
    if n <= 0 {
        assert(pins.take(pins.len() as int) =~= pins);
        assert forall|k: int| 0 <= k < pins.len() implies pins.contains(#[trigger] pins[k]) by {}
    } else {
        lemma_filled(pins, cpus, n - 1, workers);
        let before = filled_up(pins, cpus, n - 1, workers);
        let after = filled_up(pins, cpus, n, workers);
        assert(after.take(pins.len() as int) =~= before.take(pins.len() as int));
        assert(cpus.contains(cpus[n - 1]));
        if after.len() < workers {
            assert forall|j: int| 0 <= j < n implies after.contains(#[trigger] cpus[j]) by {
                if before.contains(cpus[j]) {
                    let k = before.index_of(cpus[j]);
                    assert(after[k] == cpus[j]);
                } else {
                    assert(j == n - 1);
                    assert(after[before.len() as int] == cpus[j]);
                }
            }
        }
        assert forall|k: int| 0 <= k < after.len() implies pins.contains(#[trigger] after[k]) || cpus.contains(after[k]) by {
            if k < before.len() {
                assert(after[k] == before[k]);
            }
        }
    }
}

/// Every pin is a CPU that may be used, there are at most as many as workers,
/// and where there are fewer, every CPU has one.
pub proof fn law_pins_use_allowed_cpus(cpus: Seq<usize>, cores: Seq<usize>, workers: int)
    requires
        workers >= 0,
    ensures
        pins_for(cpus, cores, workers).len() <= workers,
        forall|k: int| 0 <= k < pins_for(cpus, cores, workers).len() ==> cpus.contains(
            #[trigger] pins_for(cpus, cores, workers)[k],
        ),
        pins_for(cpus, cores, workers).len() < workers ==> forall|j: int|
            0 <= j < cpus.len() ==> pins_for(cpus, cores, workers).contains(#[trigger] cpus[j]),
{
    let n = cpus.len() as int;
    let first = one_per_core(cpus, cores, n, workers);
    lemma_pins(cpus, cores, n, workers);
    lemma_filled(first, cpus, n, workers);
    let pins = pins_for(cpus, cores, workers);
    assert forall|k: int| 0 <= k < pins.len() implies cpus.contains(#[trigger] pins[k]) by {
        if first.contains(pins[k]) {
            let i = first.index_of(pins[k]);
            let j = choose|j: int| 0 <= j < n && cpus[j] == first[i];
            assert(cpus[j] == pins[k]);
        }
    }
}

/// Where in the list the CPUs of the first pass come from.
pub open spec fn first_cpus(cores: Seq<usize>, n: int, workers: int) -> Seq<int>
    decreases n,
{
    if n <= 0 {
        Seq::<int>::empty()
    } else {
        let before = first_cpus(cores, n - 1, workers);
        if before.len() < workers && !core_used(cores, n - 1) {
            before.push(n - 1)
        } else {
            before
        }
    }
}

/// The first pass never puts two workers on one core.
pub proof fn law_first_pins_on_distinct_cores(cpus: Seq<usize>, cores: Seq<usize>, n: int, workers: int)
    requires
        0 <= n <= cpus.len(),
        cores.len() == cpus.len(),
    ensures
        ({
            let at = first_cpus(cores, n, workers);
            let pins = one_per_core(cpus, cores, n, workers);
            &&& at.len() == pins.len()
            &&& forall|k: int| 0 <= k < pins.len() ==> 0 <= #[trigger] at[k] < n && pins[k] == cpus[at[k]]
            &&& forall|a: int, b: int|
                0 <= a < b < at.len() ==> #[trigger] at[a] < #[trigger] at[b] && cores[at[a]] != cores[at[b]]
        }),
    decreases n,
{
    if n > 0 {
        law_first_pins_on_distinct_cores(cpus, cores, n - 1, workers);
        let before = first_cpus(cores, n - 1, workers);
        let at = first_cpus(cores, n, workers);
        if before.len() < workers && !core_used(cores, n - 1) {
            assert forall|a: int, b: int| 0 <= a < b < at.len() implies #[trigger] at[a] < #[trigger] at[b] && cores[at[a]]
                != cores[at[b]] by {
                if b == before.len() {
                    assert(at[a] == before[a]);
                    assert(cores[at[a]] == cores[n - 1] ==> core_used(cores, n - 1));
                } else {
                    assert(at[a] == before[a] && at[b] == before[b]);
                }
            }
        }
    }
}

/// A core goes by the lowest of its numbers: none of its siblings is lower,
/// nor is the processor itself, and it is one of them.
pub proof fn law_core_is_its_lowest_number(cpu: usize, parts: Seq<Seq<char>>)
    ensures
        lowest_of(cpu, parts) <= cpu,
        forall|i: int|
            0 <= i < parts.len() && part_start(#[trigger] parts[i]) is Some ==> lowest_of(cpu, parts) <= part_start(
                parts[i],
            )->0,
        lowest_of(cpu, parts) == cpu || exists|i: int|
            0 <= i < parts.len() && part_start(#[trigger] parts[i]) == Some(lowest_of(cpu, parts)),
    decreases parts.len(),
{
    if parts.len() > 0 {
        let rest = parts.drop_last();
        let n = parts.len() - 1;
        law_core_is_its_lowest_number(cpu, rest);
        assert(parts.last() == parts[n]);
        assert(forall|i: int| 0 <= i < n ==> #[trigger] rest[i] == parts[i]);
        let before = lowest_of(cpu, rest);
        assert forall|i: int| 0 <= i < parts.len() && part_start(#[trigger] parts[i]) is Some implies lowest_of(cpu, parts)
            <= part_start(parts[i])->0 by {
            if i < n {
                assert(part_start(rest[i]) is Some);
            }
        }
        if lowest_of(cpu, parts) == before && before != cpu {
            let i = choose|i: int| 0 <= i < rest.len() && part_start(#[trigger] rest[i]) == Some(before);
            assert(part_start(parts[i]) == Some(before));
        }
    }
}

/// There are as many workers as are asked for, up to one for each processor,
/// and one where there is no processor to pin to.
pub proof fn law_workers_fit_the_processors(desired: int, cpus: int)
    requires
        0 <= cpus,
    ensures
        desired <= 1 ==> worker_count(desired, cpus) == desired,
        0 < cpus && desired <= cpus ==> worker_count(desired, cpus) == desired,
        0 < cpus && desired > cpus ==> worker_count(desired, cpus) == cpus,
        cpus == 0 && desired >= 1 ==> worker_count(desired, cpus) == 1,
{
}

/// White space around a text does not count.
pub proof fn law_trimming_drops_the_edges(s: Seq<char>)
    ensures
        trimmed(s).len() > 0 ==> !white(trimmed(s)[0]) && !white(trimmed(s).last()),
        s.len() > 0 && !white(s[0]) && !white(s.last()) ==> trimmed(s) == s,
        s.len() > 0 && white(s[0]) ==> trimmed(s) == trimmed(s.skip(1)),
        s.len() > 0 && !white(s[0]) && white(s.last()) ==> trimmed(s) == trimmed(s.drop_last()),
    decreases s.len(),
{
    if s.len() > 0 && white(s[0]) {
        law_trimming_drops_the_edges(s.skip(1));
    } else if s.len() > 0 && white(s.last()) {
        law_trimming_drops_the_edges(s.drop_last());
    }
}

/// A range of processors starts with the number before the hyphen; a single
/// number is all of it.
pub proof fn law_ranges_start_before_the_hyphen(front: Seq<char>, rest: Seq<char>)
    requires
        forall|i: int| 0 <= i < front.len() ==> #[trigger] front[i] != '-',
        rest.len() == 0 || rest[0] == '-',
    ensures
        before_hyphen(front + rest) == front,
    decreases front.len(),
{
    if front.len() == 0 {
        assert(front + rest =~= rest);
        assert(before_hyphen(rest) =~= front);
    } else {
        assert((front + rest)[0] == front[0]);
        assert((front + rest).skip(1) =~= front.skip(1) + rest);
        law_ranges_start_before_the_hyphen(front.skip(1), rest);
        assert(before_hyphen(front + rest) =~= front);
    }
}

} // verus!
