//! Append-only line files that start anew each day and when they grow large.

use crate::dates::{
    four_digits, law_four_digits_read_back, law_two_digits_read_back, month_and_day, push_four_digits,
    push_month_and_day, two_digits, Date,
};
use crate::text::{digit_of, digits, digits_value, push_u64};
use vstd::prelude::*;
use vstd::string::*;

verus! {

/// Bytes after which a file is followed by another.
pub const MAX_BYTES_PER_FILE: u64 = 268_435_456;

/// Lines that may wait to be written.
pub const CHANNEL_CAPACITY: usize = 10_000;

/// Lines between flushes.
pub const WRITES_PER_FLUSH: u32 = 100;

/// Lost lines between reports.
pub const DROPPED_PER_REPORT: u64 = 100;

/// A year in at least four characters: zeros fill it up, and a year before 0
/// has a sign among the four.
pub open spec fn padded_year(year: int) -> Seq<char> {
    if 0 <= year <= 9999 {
        four_digits(year)
    } else if year > 9999 {
        digits(year as nat)
    } else if year >= -999 {
        "-"@ + four_digits(-year).skip(1)
    } else {
        "-"@ + digits(-year as nat)
    }
}

/// A date as `YYYY-MM-DD`.
pub open spec fn day_text_of(d: Date) -> Seq<char> {
    padded_year(d.year as int) + month_and_day(d)
}

/// A date as `YYYY-MM-DD`.
pub fn day_text(d: &Date) -> (r: String)
    requires
        d.valid(),
    ensures
        r@ == day_text_of(*d),
{
    let mut out: String = String::new();
    let y: i64 = d.year as i64;
    if 0 <= y && y <= 9999 {
        push_four_digits(&mut out, y as u64);
    } else if y > 9999 {
        push_u64(&mut out, y as u64);
    } else if y >= -999 {
        let n: u64 = (-y) as u64;
        out.append("-");
        out.push(digit_of((n / 100) % 10));
        out.push(digit_of((n / 10) % 10));
        out.push(digit_of(n % 10));
        assert(out@ =~= "-"@ + four_digits(n as int).skip(1));
    } else {
        out.append("-");
        push_u64(&mut out, (-y) as u64);
    }
    assert(out@ =~= padded_year(d.year as int));
    push_month_and_day(&mut out, d);
    out
}

/// A file's name: prefix, day, and the number of the part where it is not the
/// day's first.
pub open spec fn file_name_of(prefix: Seq<char>, d: Date, part: u32) -> Seq<char> {
    prefix + "-"@ + day_text_of(d) + ".jsonl"@ + (if part == 0 {
        ""@
    } else {
        "."@ + digits(part as nat)
    })
}

/// A file's name.
pub fn file_name(prefix: &str, d: &Date, part: u32) -> (r: String)
    requires
        d.valid(),
    ensures
        r@ == file_name_of(prefix@, *d, part),
{
    proof {
        reveal_strlit("");
    }
    let mut out = prefix.to_owned();
    out.append("-");
    out.append(day_text(d).as_str());
    out.append(".jsonl");
    if part > 0 {
        out.append(".");
        push_u64(&mut out, part as u64);
    }
    assert(out@ =~= file_name_of(prefix@, *d, part));
    out
}

/// Which file is written, and what is due.
#[derive(Debug)]
pub struct Rotation {
    pub day: Option<Date>,
    pub part: u32,
    /// Bytes in the file.
    pub size: u64,
    pub last_dropped_logged: u64,
    pub writes_since_flush: u32,
}

impl Rotation {
    /// No file is open.
    pub fn new() -> (r: Rotation)
        ensures
            r == (Rotation { day: None, part: 0, size: 0, last_dropped_logged: 0, writes_since_flush: 0 }),
    {
        Rotation { day: None, part: 0, size: 0, last_dropped_logged: 0, writes_since_flush: 0 }
    }

    /// Whether another file is due before a line is written on a day: there
    /// is none yet, the day has changed, or the file is full.
    pub open spec fn rolls(self, today: Date) -> bool {
        self.day != Some(today) || self.size >= MAX_BYTES_PER_FILE
    }

    /// The part that is written on a day: a new day starts with its first, a
    /// full file is followed by the next.
    pub open spec fn part_on(self, today: Date) -> int {
        match self.day {
            None => self.part as int,
            Some(d) => if d != today {
                0
            } else if self.size >= MAX_BYTES_PER_FILE {
                self.part + 1
            } else {
                self.part as int
            },
        }
    }

    /// Before a line: which part to open, or none where the file that is open
    /// goes on.
    pub fn before_write(&mut self, today: Date) -> (open: Option<u32>)
        requires
            old(self).part < u32::MAX,
        ensures
            open == (if old(self).rolls(today) {
                Some(old(self).part_on(today) as u32)
            } else {
                None
            }),
            *final(self) == (Rotation {
                day: Some(today),
                part: old(self).part_on(today) as u32,
                ..*old(self)
            }),
    {
        let same_day = match self.day {
            Some(d) => d.year == today.year && d.month == today.month && d.day == today.day,
            None => false,
        };
        if !same_day {
            if self.day.is_some() {
                self.part = 0;
            }
            self.day = Some(today);
            return Some(self.part);
        }
        if self.size >= MAX_BYTES_PER_FILE {
            self.part = self.part + 1;
            return Some(self.part);
        }
        None
    }

    /// A file was opened that holds this much.
    pub fn opened(&mut self, existing: u64)
        ensures
            *final(self) == (Rotation { size: existing, ..*old(self) }),
    {
        self.size = existing;
    }

    /// A line was tried: `written` bytes where it went well, else the file
    /// holds `on_disk`, where that is known. Returns whether lost lines are
    /// to be reported and whether to flush.
    pub fn after_write(&mut self, written: Option<u64>, on_disk: Option<u64>, dropped: u64) -> (r: (bool, bool))
        requires
            old(self).writes_since_flush < u32::MAX,
            old(self).size <= 0x7fff_ffff_ffff_ffff,
            written matches Some(n) ==> n <= 0x7fff_ffff_ffff_ffff,
        ensures
            r.0 == (dropped > old(self).last_dropped_logged + DROPPED_PER_REPORT),
            r.1 == (old(self).writes_since_flush + 1 >= WRITES_PER_FLUSH),
            final(self).day == old(self).day,
            final(self).part == old(self).part,
            final(self).size == (match (written, on_disk) {
                (Some(n), _) => old(self).size + n,
                (None, Some(m)) => m as int,
                (None, None) => old(self).size as int,
            }),
            final(self).last_dropped_logged == (if r.0 {
                dropped
            } else {
                old(self).last_dropped_logged
            }),
            final(self).writes_since_flush == (if r.1 {
                0
            } else {
                old(self).writes_since_flush + 1
            }),
    {
        match written {
            Some(n) => {
                self.size = self.size + n;
            },
            None => match on_disk {
                Some(m) => {
                    self.size = m;
                },
                None => {},
            },
        }
        let report = dropped > self.last_dropped_logged && dropped - self.last_dropped_logged > DROPPED_PER_REPORT;
        if report {
            self.last_dropped_logged = dropped;
        }
        self.writes_since_flush = self.writes_since_flush + 1;
        let flush = self.writes_since_flush >= WRITES_PER_FLUSH;
        if flush {
            self.writes_since_flush = 0;
        }
        (report, flush)
    }
}

/// A day that follows another starts with its first part, whatever the size
/// of the file before.
pub proof fn law_new_day_starts_over(r: Rotation, today: Date)
    requires
        r.day is Some,
        r.day != Some(today),
    ensures
        r.rolls(today),
        r.part_on(today) == 0,
{
}

/// Within a day, a part is left only when it is full.
pub proof fn law_part_grows_only_when_full(r: Rotation, today: Date)
    requires
        r.day == Some(today),
    ensures
        r.rolls(today) == (r.size >= MAX_BYTES_PER_FILE),
        r.part_on(today) == r.part + (if r.size >= MAX_BYTES_PER_FILE {
            1int
        } else {
            0
        }),
{
}

/// A file's name tells the day: its year, its month and its day, and which of
/// the day's files it is.
pub proof fn law_file_names_tell_the_day(prefix: Seq<char>, d: Date, part: u32)
    requires
        d.valid(),
        0 <= d.year <= 9999,
    ensures
        file_name_of(prefix, d, 0) == prefix + "-"@ + day_text_of(d) + ".jsonl"@,
        part > 0 ==> file_name_of(prefix, d, part) == prefix + "-"@ + day_text_of(d) + ".jsonl"@ + ("."@ + digits(
            part as nat,
        )),
        day_text_of(d).len() == 10,
        digits_value(day_text_of(d).take(4)) == Some(d.year as int),
        digits_value(day_text_of(d).subrange(5, 7)) == Some(d.month as int),
        digits_value(day_text_of(d).skip(8)) == Some(d.day as int),
{
    reveal_strlit("-");
    reveal_strlit("");
    let s = day_text_of(d);
    assert(s.take(4) =~= four_digits(d.year as int));
    assert(s.subrange(5, 7) =~= two_digits(d.month as int));
    assert(s.skip(8) =~= two_digits(d.day as int));
    law_four_digits_read_back(d.year as int);
    law_two_digits_read_back(d.month as int);
    law_two_digits_read_back(d.day as int);
    let front = prefix + "-"@ + day_text_of(d) + ".jsonl"@;
    assert(front + ""@ =~= front);
}

/// A file that holds 256 megabytes is full, and one that holds less is not.
pub proof fn law_full_files_are_left(r: Rotation, today: Date)
    requires
        r.day == Some(today),
    ensures
        r.size < 268_435_456 ==> !r.rolls(today) && r.part_on(today) == r.part,
        r.size >= 268_435_456 ==> r.rolls(today) && r.part_on(today) == r.part + 1,
{
}

} // verus!
