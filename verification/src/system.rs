//! How the machine's raw facts become the figures that the dashboard shows.
//!
//! The facts themselves (processor, memory, disks, uptime, the storage
//! model) are read by the caller; this module turns them into text and sums.
use vstd::prelude::*;
use crate::models::{InfoDto, MachineDto, ProcessorDto, StorageDto, UptimeDto};
use crate::text::{
    trimmed_is_trimmed, all_digits, decimal, digit_char, digits_value, lemma_decimal_digits, lemma_decimal_value, has_prefix, push_char, push_decimal, str_equal, text_starts_with, trim_text, trimmed,
};
use crate::config::text_or;

verus! {

/// Whether the cached hardware facts are old enough to be read again: at
/// least one second has passed.
pub fn refresh_due(elapsed_secs: u64) -> (r: bool)
    ensures
        r == (elapsed_secs >= 1),
{
    elapsed_secs >= 1
}

/// `n` written with at least two digits, as `{:02}` writes it.
pub open spec fn two_digits(n: nat) -> Seq<char> {
    if n < 10 {
        seq!['0'] + decimal(n)
    } else {
        decimal(n)
    }
}

proof fn lemma_two_digits_len(n: nat)
    ensures
        two_digits(n).len() >= 2,
{
    lemma_decimal_digits(n);
    if n >= 10 {
        assert(decimal(n) == decimal(n / 10).push(digit_char((n % 10) as int)));
        lemma_decimal_digits(n / 10);
    }
}

/// A decimal numeral of a positive number does not begin with `0`.
proof fn lemma_decimal_no_leading_zero(n: nat)
    requires
        n >= 1,
    ensures
        decimal(n)[0] != '0',
    decreases n,
{
    lemma_decimal_digits(n);
    if n < 10 {
        assert(digit_char(n as int) as u32 == n + 48);
    } else {
        lemma_decimal_digits(n / 10);
        assert(decimal(n)[0] == decimal(n / 10)[0]);
        lemma_decimal_no_leading_zero(n / 10);
    }
}

/// The two-digit form of `n` is a run of digits that reads back as `n`; it
/// has exactly two characters below 100, and begins with `0` exactly when
/// `n` is below 10, so that from 10 on it is the plain numeral.
pub proof fn two_digit_parts(n: nat)
    ensures
        all_digits(two_digits(n)),
        digits_value(two_digits(n)) == n,
        n < 100 ==> two_digits(n).len() == 2,
        two_digits(n).len() >= decimal(n).len(),
        two_digits(n)[0] == '0' <==> n < 10,
        n >= 10 ==> two_digits(n) == decimal(n),
{
    lemma_two_digits_len(n);
    lemma_decimal_digits(n);
    lemma_decimal_value(n);
    let t = two_digits(n);
    if n < 10 {
        let c = digit_char(n as int);
        assert(c as u32 == n + 48);
        assert(t =~= seq!['0', c]);
        assert(t.drop_last() =~= seq!['0']);
        assert(seq!['0'].drop_last() =~= Seq::<char>::empty());
        assert(seq!['0'].last() == '0');
        assert(digits_value(seq!['0']) == digits_value(seq!['0'].drop_last()) * 10 + ('0' as u32 - 48) as nat);
        assert(digits_value(seq!['0']) == 0);
        assert(digits_value(t) == digits_value(t.drop_last()) * 10 + (t.last() as u32 - 48) as nat);
        assert(all_digits(t)) by {
            assert forall|i: int| 0 <= i < t.len() implies crate::text::is_digit(#[trigger] t[i]) by {
                if i == 0 {
                } else {
                    assert(t[i] == c);
                }
            }
        }
    } else {
        lemma_decimal_no_leading_zero(n);
        if n < 100 {
            assert(decimal(n) == decimal(n / 10).push(digit_char((n % 10) as int)));
        }
    }
}

fn two_digit_text(n: u64) -> (r: String)
    ensures
        r@ == two_digits(n as nat),
{
    let mut out = String::new();
    if n < 10 {
        push_char(&mut out, '0');
    }
    push_decimal(&mut out, n);
    out
}

/// The seconds in a day, an hour and a minute.
pub const SECS_PER_DAY: u64 = 86400;

pub const SECS_PER_HOUR: u64 = 3600;

pub const SECS_PER_MINUTE: u64 = 60;

/// The uptime of `secs` seconds, split into days, hours, minutes and seconds.
pub fn uptime_from_secs(secs: u64) -> (r: UptimeDto)
    ensures
        r.days@ == two_digits((secs / SECS_PER_DAY) as nat),
        r.hours@ == two_digits(((secs % SECS_PER_DAY) / SECS_PER_HOUR) as nat),
        r.minutes@ == two_digits(((secs % SECS_PER_HOUR) / SECS_PER_MINUTE) as nat),
        r.seconds@ == two_digits((secs % SECS_PER_MINUTE) as nat),
        r.days@.len() >= 2,
        r.hours@.len() >= 2,
        r.minutes@.len() >= 2,
        r.seconds@.len() >= 2,
{
    proof {
        lemma_two_digits_len((secs / SECS_PER_DAY) as nat);
        lemma_two_digits_len(((secs % SECS_PER_DAY) / SECS_PER_HOUR) as nat);
        lemma_two_digits_len(((secs % SECS_PER_HOUR) / SECS_PER_MINUTE) as nat);
        lemma_two_digits_len((secs % SECS_PER_MINUTE) as nat);
    }
    let days = secs / SECS_PER_DAY;
    let hours = (secs % SECS_PER_DAY) / SECS_PER_HOUR;
    let minutes = (secs % SECS_PER_HOUR) / SECS_PER_MINUTE;
    let seconds = secs % SECS_PER_MINUTE;
    UptimeDto {
        days: two_digit_text(days),
        hours: two_digit_text(hours),
        minutes: two_digit_text(minutes),
        seconds: two_digit_text(seconds),
    }
}

/// Every part of an uptime is in range, and the parts add up to the seconds
/// they were taken from.
pub proof fn uptime_parts_recompose(secs: u64)
    ensures
        ((secs % SECS_PER_DAY) / SECS_PER_HOUR) < 24,
        ((secs % SECS_PER_HOUR) / SECS_PER_MINUTE) < 60,
        (secs % SECS_PER_MINUTE) < 60,
        (secs / SECS_PER_DAY) * 86400 + ((secs % SECS_PER_DAY) / SECS_PER_HOUR) * 3600 + ((secs
            % SECS_PER_HOUR) / SECS_PER_MINUTE) * 60 + secs % SECS_PER_MINUTE == secs,
{
    let s = secs as int;
    assert(s == (s / 86400) * 86400 + s % 86400);
    assert(s % 86400 == ((s % 86400) / 3600) * 3600 + (s % 86400) % 3600);
    assert((s % 86400) % 3600 == s % 3600) by (nonlinear_arith)
        requires
            s >= 0,
    {
        assert(s == (s / 86400) * (24 * 3600) + s % 86400);
    }
    assert(s % 3600 == ((s % 3600) / 60) * 60 + (s % 3600) % 60);
    assert((s % 3600) % 60 == s % 60) by (nonlinear_arith)
        requires
            s >= 0,
    {
        assert(s == (s / 3600) * (60 * 60) + s % 3600);
    }
}

/// A count and its noun: `1 Core`, `4 Cores`; the plural is used above one.
pub open spec fn count_label(n: nat, singular: Seq<char>, plural: Seq<char>) -> Seq<char> {
    decimal(n) + seq![' '] + if n > 1 {
        plural
    } else {
        singular
    }
}

/// A count and its noun (see `count_label`).
pub fn count_label_text(n: usize, singular: &str, plural: &str) -> (r: String)
    ensures
        r@ == count_label(n as nat, singular@, plural@),
{
    let mut out = String::new();
    push_decimal(&mut out, n as u64);
    push_char(&mut out, ' ');
    if n > 1 {
        out.append(plural);
    } else {
        out.append(singular);
    }
    out
}

/// The label takes the plural noun for every count of two or more, and the
/// singular for zero and one; the count before it reads back as `n`.
pub proof fn count_label_noun(n: nat, singular: Seq<char>, plural: Seq<char>)
    ensures
        n >= 2 ==> count_label(n, singular, plural) == decimal(n) + seq![' '] + plural,
        n < 2 ==> count_label(n, singular, plural) == decimal(n) + seq![' '] + singular,
        all_digits(decimal(n)),
        digits_value(decimal(n)) == n,
{
    lemma_decimal_digits(n);
    lemma_decimal_value(n);
}

/// `s` up to its first `c`, as the first piece of `str::split` gives it.
pub open spec fn before_first(s: Seq<char>, c: char) -> Seq<char>
    decreases s.len(),
{
    if s.len() == 0 {
        s
    } else if s[0] == c {
        Seq::empty()
    } else {
        seq![s[0]] + before_first(s.drop_first(), c)
    }
}

/// The processor's name: its brand up to the first `@`, trimmed, or, where
/// that is empty, the processor's own name.
pub open spec fn processor_name(brand: Seq<char>, name: Seq<char>) -> Seq<char> {
    let b = trimmed(before_first(brand, '@'));
    if b.len() == 0 {
        name
    } else {
        b
    }
}

/// The processor's name (see `processor_name`).
pub fn processor_name_text(brand: &str, name: &str) -> (r: String)
    ensures
        r@ == processor_name(brand@, name@),
{
    let n = brand.unicode_len();
    let mut i: usize = 0;
    assert(brand@.subrange(0, n as int) =~= brand@);
    assert(brand@.subrange(0, 0) =~= Seq::<char>::empty());
    while i < n && brand.get_char(i) != '@'
        invariant
            n == brand@.len(),
            i <= n,
            before_first(brand@, '@') == brand@.subrange(0, i as int) + before_first(
                brand@.subrange(i as int, n as int),
                '@',
            ),
        decreases n - i,
    {
        let ghost rest = brand@.subrange(i as int, n as int);
        assert(rest.drop_first() =~= brand@.subrange(i + 1, n as int));
        assert(brand@.subrange(0, i + 1) =~= brand@.subrange(0, i as int) + seq![rest[0]]);
        assert(before_first(rest, '@') == seq![rest[0]] + before_first(rest.drop_first(), '@'));
        i = i + 1;
    }
    let head = brand.substring_char(0, i);
    assert(before_first(brand@.subrange(i as int, n as int), '@') =~= Seq::<char>::empty());
    assert(before_first(brand@, '@') =~= head@);
    let b = trim_text(head);
    if b.as_str().unicode_len() == 0 {
        String::from_str(name)
    } else {
        b
    }
}

/// The name and version of the operating system, with `Unknown` for a
/// missing name and nothing for a missing version.
pub open spec fn operating_system(name: Option<Seq<char>>, version: Option<Seq<char>>) -> Seq<char> {
    text_or(name, "Unknown"@) + seq![' '] + text_or(version, Seq::empty())
}

/// The name and version of the operating system (see `operating_system`).
pub fn operating_system_text(name: Option<String>, version: Option<String>) -> (r: String)
    ensures
        r@ == operating_system(
            match name {
                Some(s) => Some(s@),
                None => None,
            },
            match version {
                Some(s) => Some(s@),
                None => None,
            },
        ),
{
    let mut out = match name {
        Some(s) => s,
        None => String::from_str("Unknown"),
    };
    push_char(&mut out, ' ');
    match version {
        Some(v) => out.append(v.as_str()),
        None => {},
    }
    proof {
        if version is None {
            assert(out@ =~= out@ + Seq::<char>::empty());
        }
    }
    out
}

/// The first name that is not empty.
pub open spec fn first_nonempty(names: Seq<Seq<char>>) -> Option<Seq<char>>
    decreases names.len(),
{
    if names.len() == 0 {
        None
    } else if names[0].len() > 0 {
        Some(names[0])
    } else {
        first_nonempty(names.drop_first())
    }
}

/// The name shown for the main storage: the drive's model where it is known,
/// else the first disk that has a name, else `Disk`; a name that is still
/// `Undefined` is shown as `Disk` too.
pub open spec fn main_storage(model: Seq<char>, disk_names: Seq<Seq<char>>) -> Seq<char> {
    if model != "Undefined"@ {
        model
    } else {
        match first_nonempty(disk_names) {
            Some(n) => if n != "Undefined"@ {
                n
            } else {
                "Disk"@
            },
            None => "Disk"@,
        }
    }
}

/// The main storage's name is never `Undefined`.
pub proof fn main_storage_is_defined(model: Seq<char>, disk_names: Seq<Seq<char>>)
    ensures
        main_storage(model, disk_names) != "Undefined"@,
{
    reveal_strlit("Disk");
    reveal_strlit("Undefined");
    assert("Disk"@ != "Undefined"@) by {
        assert("Disk"@.len() != "Undefined"@.len());
    }
}

/// The views of a list of texts.
pub open spec fn texts(v: Seq<String>) -> Seq<Seq<char>> {
    v.map_values(|s: String| s@)
}

/// The name shown for the main storage (see `main_storage`); `model` is what
/// the storage model lookup found, `Undefined` where it found nothing.
pub fn main_storage_text(model: &str, disk_names: &Vec<String>) -> (r: String)
    ensures
        r@ == main_storage(model@, texts(disk_names@)),
{
    if !str_equal(model, "Undefined") {
        return String::from_str(model);
    }
    let n = disk_names.len();
    let mut i: usize = 0;
    let ghost all = texts(disk_names@);
    assert(all.subrange(0, n as int) =~= all);
    while i < n
        invariant
            n == disk_names@.len(),
            all == texts(disk_names@),
            model@ == "Undefined"@,
            i <= n,
            first_nonempty(all) == first_nonempty(all.subrange(i as int, n as int)),
        decreases n - i,
    {
        let name = &disk_names[i];
        assert(all.subrange(i as int, n as int)[0] == name@);
        if name.as_str().unicode_len() > 0 {
            if str_equal(name.as_str(), "Undefined") {
                return String::from_str("Disk");
            }
            return name.clone();
        }
        assert(all.subrange(i as int, n as int).drop_first() =~= all.subrange(i + 1, n as int));
        i = i + 1;
    }
    String::from_str("Disk")
}

/// The sum of a list of sizes.
pub open spec fn sum_of(s: Seq<u64>) -> nat
    decreases s.len(),
{
    if s.len() == 0 {
        0
    } else {
        sum_of(s.drop_last()) + s.last() as nat
    }
}

proof fn lemma_sum_grows(s: Seq<u64>, k: int)
    requires
        0 <= k <= s.len(),
    ensures
        sum_of(s.take(k)) <= sum_of(s),
    decreases s.len(),
{
    if k < s.len() {
        assert(s.drop_last().take(k) =~= s.take(k));
        lemma_sum_grows(s.drop_last(), k);
    } else {
        assert(s.take(k) =~= s);
    }
}

/// The total size of the disks, or `None` where it does not fit in a `u64`.
pub fn total_space(spaces: &Vec<u64>) -> (r: Option<u64>)
    ensures
        match r {
            Some(t) => t == sum_of(spaces@),
            None => sum_of(spaces@) > u64::MAX,
        },
{
    let n = spaces.len();
    let mut total: u64 = 0;
    let mut i: usize = 0;
    assert(spaces@.take(0) =~= Seq::<u64>::empty());
    while i < n
        invariant
            n == spaces@.len(),
            i <= n,
            total == sum_of(spaces@.take(i as int)),
        decreases n - i,
    {
        assert(spaces@.take(i + 1).drop_last() =~= spaces@.take(i as int));
        match total.checked_add(spaces[i]) {
            Some(t) => total = t,
            None => {
                proof {
                    lemma_sum_grows(spaces@, i + 1);
                }
                return None;
            },
        }
        i = i + 1;
    }
    assert(spaces@.take(n as int) =~= spaces@);
    Some(total)
}

/// The sizes of the disks, as pairs of total and available space.
pub open spec fn totals_of(d: Seq<(u64, u64)>) -> Seq<u64> {
    d.map_values(|p: (u64, u64)| p.0)
}

/// The used space of each disk: total less available.
pub open spec fn used_of(d: Seq<(u64, u64)>) -> Seq<u64> {
    d.map_values(|p: (u64, u64)| (p.0 - p.1) as u64)
}

/// Whether no disk reports more available than total space.
pub open spec fn disks_consistent(d: Seq<(u64, u64)>) -> bool {
    forall|i: int| 0 <= i < d.len() ==> (#[trigger] d[i]).1 <= d[i].0
}

/// Where no disk reports more available than total space, the used space of
/// the disks is at most their total space.
pub proof fn lemma_used_within_total(d: Seq<(u64, u64)>)
    requires
        disks_consistent(d),
    ensures
        sum_of(used_of(d)) <= sum_of(totals_of(d)),
    decreases d.len(),
{
    if d.len() > 0 {
        let e = d.drop_last();
        assert(used_of(d).drop_last() =~= used_of(e));
        assert(totals_of(d).drop_last() =~= totals_of(e));
        assert(disks_consistent(e)) by {
            assert forall|i: int| 0 <= i < e.len() implies (#[trigger] e[i]).1 <= e[i].0 by {
                assert(e[i] == d[i]);
            }
        }
        assert(d[d.len() - 1].1 <= d[d.len() - 1].0);
        lemma_used_within_total(e);
    }
}

/// The total and used space of the disks, each a pair of total and
/// available space; `None` where a disk reports more available than total
/// space or where a sum does not fit in a `u64`.
pub fn storage_totals(disks: &Vec<(u64, u64)>) -> (r: Option<(u64, u64)>)
    ensures
        match r {
            Some((t, u)) => disks_consistent(disks@) && t == sum_of(totals_of(disks@)) && u
                == sum_of(used_of(disks@)) && u <= t,
            None => !disks_consistent(disks@) || sum_of(totals_of(disks@)) > u64::MAX || sum_of(
                used_of(disks@),
            ) > u64::MAX,
        },
{
    let n = disks.len();
    let mut total: u64 = 0;
    let mut used: u64 = 0;
    let mut i: usize = 0;
    let ghost ts = totals_of(disks@);
    let ghost us = used_of(disks@);
    assert(ts.take(0) =~= Seq::<u64>::empty());
    assert(us.take(0) =~= Seq::<u64>::empty());
    while i < n
        invariant
            n == disks@.len(),
            ts == totals_of(disks@),
            us == used_of(disks@),
            i <= n,
            forall|k: int| 0 <= k < i ==> (#[trigger] disks@[k]).1 <= disks@[k].0,
            total == sum_of(ts.take(i as int)),
            used == sum_of(us.take(i as int)),
        decreases n - i,
    {
        let (size, available) = disks[i];
        assert(ts.take(i + 1).drop_last() =~= ts.take(i as int));
        assert(us.take(i + 1).drop_last() =~= us.take(i as int));
        if available > size {
            return None;
        }
        match total.checked_add(size) {
            Some(t) => total = t,
            None => {
                proof {
                    lemma_sum_grows(ts, i + 1);
                }
                return None;
            },
        }
        match used.checked_add(size - available) {
            Some(u) => used = u,
            None => {
                proof {
                    lemma_sum_grows(us, i + 1);
                }
                return None;
            },
        }
        i = i + 1;
    }
    assert(ts.take(n as int) =~= ts);
    assert(us.take(n as int) =~= us);
    proof {
        lemma_used_within_total(disks@);
    }
    Some((total, used))
}

/// The pieces of `s` between its line feeds (one more than there are line
/// feeds).
pub open spec fn line_split(s: Seq<char>) -> Seq<Seq<char>>
    decreases s.len(),
{
    if s.len() == 0 {
        seq![Seq::<char>::empty()]
    } else {
        let prev = line_split(s.drop_last());
        if s.last() == '\n' {
            prev.push(Seq::empty())
        } else {
            prev.update(prev.len() - 1, prev.last().push(s.last()))
        }
    }
}

/// The pieces, trimmed, without those left empty.
pub open spec fn nonblank(pieces: Seq<Seq<char>>) -> Seq<Seq<char>>
    decreases pieces.len(),
{
    if pieces.len() == 0 {
        Seq::empty()
    } else {
        let rest = nonblank(pieces.drop_last());
        let t = trimmed(pieces.last());
        if t.len() > 0 {
            rest.push(t)
        } else {
            rest
        }
    }
}

/// The lines of `s` that are not blank, each trimmed: what
/// `s.lines().map(str::trim).filter(|l| !l.is_empty())` yields. (`str::lines`
/// also drops the `\r` of a `\r\n`, which the trimming drops anyway.)
pub open spec fn text_lines(s: Seq<char>) -> Seq<Seq<char>> {
    nonblank(line_split(s))
}

proof fn lemma_line_split_len(s: Seq<char>)
    ensures
        line_split(s).len() > 0,
    decreases s.len(),
{
    if s.len() > 0 {
        lemma_line_split_len(s.drop_last());
    }
}

/// The lines of `s` that are not blank, each trimmed (see `text_lines`).
pub fn text_lines_of(s: &str) -> (r: Vec<String>)
    ensures
        texts(r@) == text_lines(s@),
{
    let n = s.unicode_len();
    let mut out: Vec<String> = Vec::new();
    let mut start: usize = 0;
    let mut i: usize = 0;
    let ghost mut done: Seq<Seq<char>> = Seq::empty();
    assert(s@.take(0) =~= Seq::<char>::empty());
    assert(line_split(s@.take(0)) =~= done.push(s@.subrange(0, 0)));
    assert(texts(out@) =~= nonblank(done));
    while i < n
        invariant
            n == s@.len(),
            start <= i <= n,
            line_split(s@.take(i as int)) == done.push(s@.subrange(start as int, i as int)),
            texts(out@) == nonblank(done),
        decreases n - i,
    {
        let c = s.get_char(i);
        let ghost prev = s@.take(i as int);
        assert(s@.take(i + 1).drop_last() =~= prev);
        assert(s@.take(i + 1).last() == c);
        if c == '\n' {
            let piece = s.substring_char(start, i);
            let t = trim_text(piece);
            proof {
                assert(line_split(s@.take(i + 1)) == done.push(piece@).push(Seq::empty()));
                let nd = done.push(piece@);
                assert(nd.drop_last() =~= done);
                assert(nd.last() == piece@);
            }
            if t.as_str().unicode_len() > 0 {
                let ghost before = out@;
                out.push(t);
                assert(out@ =~= before.push(t));
                assert(texts(out@) =~= texts(before).push(t@));
            }
            proof {
                done = done.push(piece@);
                assert(s@.subrange(i + 1, i + 1) =~= Seq::<char>::empty());
            }
            start = i + 1;
        } else {
            proof {
                let cur = s@.subrange(start as int, i as int);
                let ls = done.push(cur);
                assert(ls.update(ls.len() - 1, cur.push(c)) =~= done.push(cur.push(c)));
                assert(cur.push(c) =~= s@.subrange(start as int, i + 1));
            }
        }
        i = i + 1;
    }
    assert(s@.take(n as int) =~= s@);
    let piece = s.substring_char(start, n);
    let t = trim_text(piece);
    proof {
        let nd = done.push(piece@);
        assert(nd.drop_last() =~= done);
        assert(nd.last() == piece@);
    }
    if t.as_str().unicode_len() > 0 {
        let ghost before = out@;
        out.push(t);
        assert(out@ =~= before.push(t));
        assert(texts(out@) =~= texts(before).push(t@));
    }
    out
}

/// The storage model in the output of `wmic diskdrive get model`: the line
/// after the header, among the lines that are not blank.
pub open spec fn wmic_model(output: Seq<char>) -> Option<Seq<char>> {
    let lines = text_lines(output);
    if lines.len() >= 2 {
        Some(lines[1])
    } else {
        None
    }
}

/// The storage model in the output of `wmic diskdrive get model` (see
/// `wmic_model`).
pub fn wmic_model_text(output: &str) -> (r: Option<String>)
    ensures
        match r {
            Some(m) => wmic_model(output@) == Some(m@),
            None => wmic_model(output@) is None,
        },
{
    let lines = text_lines_of(output);
    if lines.len() >= 2 {
        assert(texts(lines@)[1] == lines@[1]@);
        Some(lines[1].clone())
    } else {
        None
    }
}

/// Text with no line feed is a single line.
proof fn lemma_line_split_single(a: Seq<char>)
    requires
        forall|i: int| 0 <= i < a.len() ==> a[i] != '\n',
    ensures
        line_split(a) == seq![a],
    decreases a.len(),
{
    if a.len() > 0 {
        let b = a.drop_last();
        assert forall|i: int| 0 <= i < b.len() implies b[i] != '\n' by {
            assert(b[i] == a[i]);
        }
        lemma_line_split_single(b);
        assert(a.last() == a[a.len() - 1]);
        assert(b.push(a.last()) =~= a);
        assert(seq![b].update(0, b.push(a.last())) =~= seq![a]);
    } else {
        assert(a =~= Seq::<char>::empty());
    }
}

/// Splitting at a line feed splits the lines there.
proof fn lemma_line_split_join(a: Seq<char>, b: Seq<char>)
    ensures
        line_split(a + seq!['\n'] + b) == line_split(a) + line_split(b),
    decreases b.len(),
{
    let s = a + seq!['\n'] + b;
    if b.len() == 0 {
        assert(s.drop_last() =~= a);
        assert(line_split(b) =~= seq![Seq::<char>::empty()]);
        assert(line_split(a).push(Seq::empty()) =~= line_split(a) + line_split(b));
    } else {
        let b0 = b.drop_last();
        lemma_line_split_join(a, b0);
        lemma_line_split_len(b0);
        assert(s.drop_last() =~= a + seq!['\n'] + b0);
        assert(s.last() == b.last());
        let la = line_split(a);
        let lb = line_split(b0);
        if b.last() == '\n' {
            assert((la + lb).push(Seq::empty()) =~= la + lb.push(Seq::empty()));
        } else {
            let prev = la + lb;
            assert(prev.last() == lb.last());
            assert(prev.update(prev.len() - 1, prev.last().push(b.last())) =~= la + lb.update(
                lb.len() - 1,
                lb.last().push(b.last()),
            ));
        }
    }
}

/// The non-blank lines of two runs of pieces are those of each, in turn.
proof fn lemma_nonblank_join(x: Seq<Seq<char>>, y: Seq<Seq<char>>)
    ensures
        nonblank(x + y) == nonblank(x) + nonblank(y),
    decreases y.len(),
{
    if y.len() == 0 {
        assert(x + y =~= x);
        assert(nonblank(x) + nonblank(y) =~= nonblank(x));
    } else {
        lemma_nonblank_join(x, y.drop_last());
        assert((x + y).drop_last() =~= x + y.drop_last());
        assert((x + y).last() == y.last());
        let t = trimmed(y.last());
        if t.len() > 0 {
            assert((nonblank(x) + nonblank(y.drop_last())).push(t) =~= nonblank(x) + nonblank(
                y.drop_last(),
            ).push(t));
        }
    }
}

/// The model that `wmic` reports is the line right after the header line,
/// trimmed, whatever lines follow it.
pub proof fn wmic_model_after_header(header: Seq<char>, model: Seq<char>, more: Seq<char>)
    requires
        forall|i: int| 0 <= i < header.len() ==> header[i] != '\n',
        forall|i: int| 0 <= i < model.len() ==> model[i] != '\n',
        trimmed(header).len() > 0,
        trimmed(model).len() > 0,
    ensures
        wmic_model(header + seq!['\n'] + model + seq!['\n'] + more) == Some(trimmed(model)),
{
    let hm = header + seq!['\n'] + model;
    lemma_line_split_join(header, model);
    lemma_line_split_join(hm, more);
    lemma_line_split_single(header);
    lemma_line_split_single(model);
    let lh = seq![header];
    let lm = seq![model];
    let lr = line_split(more);
    lemma_nonblank_join(lh + lm, lr);
    lemma_nonblank_join(lh, lm);
    assert(lh.drop_last() =~= Seq::<Seq<char>>::empty());
    assert(lm.drop_last() =~= Seq::<Seq<char>>::empty());
    assert(nonblank(Seq::<Seq<char>>::empty()) =~= Seq::<Seq<char>>::empty());
    assert(lh.last() == header);
    assert(lm.last() == model);
    assert(Seq::<Seq<char>>::empty().push(trimmed(header)) =~= seq![trimmed(header)]);
    assert(Seq::<Seq<char>>::empty().push(trimmed(model)) =~= seq![trimmed(model)]);
    assert(nonblank(lh) =~= seq![trimmed(header)]);
    assert(nonblank(lm) =~= seq![trimmed(model)]);
    let lines = text_lines(header + seq!['\n'] + model + seq!['\n'] + more);
    assert(lines == seq![trimmed(header)] + seq![trimmed(model)] + nonblank(lr));
    assert(lines[1] == trimmed(model));
}

/// The model that one line of `system_profiler SPStorageDataType` names, if
/// any: a line `Device Name: ...` or `Media Name: ...` with no other colon,
/// whose name, trimmed, is neither empty nor `APPLE SSD`.
pub open spec fn profiler_line_model(line: Seq<char>) -> Option<Seq<char>> {
    let rest = if has_prefix(line, "Device Name:"@) {
        Some(line.skip("Device Name:"@.len() as int))
    } else if has_prefix(line, "Media Name:"@) {
        Some(line.skip("Media Name:"@.len() as int))
    } else {
        None
    };
    match rest {
        None => None,
        Some(r) => if r.contains(':') {
            None
        } else {
            let m = trimmed(r);
            if m.len() > 0 && m != "APPLE SSD"@ {
                Some(m)
            } else {
                None
            }
        },
    }
}

/// The first model that a line names.
pub open spec fn first_line_model(lines: Seq<Seq<char>>) -> Option<Seq<char>>
    decreases lines.len(),
{
    if lines.len() == 0 {
        None
    } else {
        match profiler_line_model(lines[0]) {
            Some(m) => Some(m),
            None => first_line_model(lines.drop_first()),
        }
    }
}

/// The storage model in the output of `system_profiler SPStorageDataType`:
/// the first that a line names (see `profiler_line_model`).
pub open spec fn profiler_model(output: Seq<char>) -> Option<Seq<char>> {
    first_line_model(text_lines(output))
}

fn contains_char(s: &str, c: char) -> (r: bool)
    ensures
        r == s@.contains(c),
{
    let n = s.unicode_len();
    let mut i: usize = 0;
    while i < n
        invariant
            n == s@.len(),
            i <= n,
            forall|k: int| 0 <= k < i ==> s@[k] != c,
        decreases n - i,
    {
        if s.get_char(i) == c {
            return true;
        }
        i = i + 1;
    }
    false
}

fn profiler_line_model_text(line: &str) -> (r: Option<String>)
    ensures
        match r {
            Some(m) => profiler_line_model(line@) == Some(m@),
            None => profiler_line_model(line@) is None,
        },
{
    let n = line.unicode_len();
    let rest = if text_starts_with(line, "Device Name:") {
        line.substring_char("Device Name:".unicode_len(), n)
    } else if text_starts_with(line, "Media Name:") {
        line.substring_char("Media Name:".unicode_len(), n)
    } else {
        return None;
    };
    if contains_char(rest, ':') {
        return None;
    }
    let m = trim_text(rest);
    if m.as_str().unicode_len() > 0 && !str_equal(m.as_str(), "APPLE SSD") {
        Some(m)
    } else {
        None
    }
}

/// The storage model in the output of `system_profiler SPStorageDataType`
/// (see `profiler_model`).
pub fn profiler_model_text(output: &str) -> (r: Option<String>)
    ensures
        match r {
            Some(m) => profiler_model(output@) == Some(m@),
            None => profiler_model(output@) is None,
        },
{
    let lines = text_lines_of(output);
    let n = lines.len();
    let ghost all = texts(lines@);
    let mut i: usize = 0;
    assert(all.subrange(0, n as int) =~= all);
    while i < n
        invariant
            n == lines@.len(),
            all == texts(lines@),
            all == text_lines(output@),
            i <= n,
            first_line_model(all) == first_line_model(all.subrange(i as int, n as int)),
        decreases n - i,
    {
        assert(all.subrange(i as int, n as int)[0] == lines@[i as int]@);
        match profiler_line_model_text(lines[i].as_str()) {
            Some(m) => return Some(m),
            None => {},
        }
        assert(all.subrange(i as int, n as int).drop_first() =~= all.subrange(i + 1, n as int));
        i = i + 1;
    }
    None
}

/// The model of a drive as its `device/model` file holds it: the file's text
/// trimmed, where that is not empty.
pub open spec fn sysfs_model(contents: Seq<char>) -> Option<Seq<char>> {
    if trimmed(contents).len() > 0 {
        Some(trimmed(contents))
    } else {
        None
    }
}

/// The model of a drive as its `device/model` file holds it (see
/// `sysfs_model`).
pub fn sysfs_model_text(contents: &str) -> (r: Option<String>)
    ensures
        match r {
            Some(m) => sysfs_model(contents@) == Some(m@),
            None => sysfs_model(contents@) is None,
        },
{
    let t = trim_text(contents);
    if t.as_str().unicode_len() > 0 {
        Some(t)
    } else {
        None
    }
}

/// Whether a block device may be a storage drive: its name begins with none
/// of `loop`, `ram`, `fd` and `sr`.
pub open spec fn is_storage_device(name: Seq<char>) -> bool {
    !has_prefix(name, "loop"@) && !has_prefix(name, "ram"@) && !has_prefix(name, "fd"@)
        && !has_prefix(name, "sr"@)
}

/// Whether a block device may be a storage drive (see `is_storage_device`).
pub fn is_storage_device_name(name: &str) -> (r: bool)
    ensures
        r == is_storage_device(name@),
{
    !text_starts_with(name, "loop") && !text_starts_with(name, "ram") && !text_starts_with(
        name,
        "fd",
    ) && !text_starts_with(name, "sr")
}

/// The facts about the machine that the dashboard's information is drawn
/// from. Sizes and the clock speed come already written as numbers with their
/// units; the rest is raw.
pub struct HardwareFacts {
    /// The first processor's brand, such as `Intel(R) Core(TM) i7 @ 2.60GHz`.
    pub cpu_brand: String,
    /// The first processor's own name, shown where the brand is empty.
    pub cpu_name: String,
    /// The number of logical processors.
    pub core_count: usize,
    /// The clock speed in GHz, such as `2.6`.
    pub clock_ghz: String,
    /// Whether the program runs with 64-bit pointers.
    pub is_64_bit: bool,
    /// The operating system's name and version, where known.
    pub os_name: Option<String>,
    pub os_version: Option<String>,
    /// The memory's size, such as `16 GiB`.
    pub total_ram: String,
    /// The number of processes.
    pub proc_count: usize,
    /// The storage model that the lookup found, `Undefined` where it found none.
    pub storage_model: String,
    /// The names of the disks, one per disk.
    pub disk_names: Vec<String>,
    /// The disks' total size, such as `512 GiB`.
    pub total_storage: String,
    /// The swap's size, such as `2 GiB`.
    pub swap: String,
}

/// The pointer width shown for the processor and the machine.
pub open spec fn bit_depth(is_64_bit: bool) -> Seq<char> {
    if is_64_bit {
        "64-bit"@
    } else {
        "32-bit"@
    }
}

fn bit_depth_text(is_64_bit: bool) -> (r: String)
    ensures
        r@ == bit_depth(is_64_bit),
{
    if is_64_bit {
        String::from_str("64-bit")
    } else {
        String::from_str("32-bit")
    }
}

fn with_suffix(s: String, suffix: &str) -> (r: String)
    ensures
        r@ == s@ + suffix@,
{
    let mut out = s;
    out.append(suffix);
    out
}

/// The static information that the dashboard shows, drawn from the facts.
pub fn info_from_facts(facts: HardwareFacts) -> (r: InfoDto)
    ensures
        r.processor.name@ == processor_name(facts.cpu_brand@, facts.cpu_name@),
        r.processor.core_count@ == count_label(facts.core_count as nat, "Core"@, "Cores"@),
        r.processor.clock_speed@ == facts.clock_ghz@ + " GHz"@,
        r.processor.bit_depth@ == bit_depth(facts.is_64_bit),
        r.machine.operating_system@ == operating_system(
            match facts.os_name {
                Some(s) => Some(s@),
                None => None,
            },
            match facts.os_version {
                Some(s) => Some(s@),
                None => None,
            },
        ),
        r.machine.total_ram@ == facts.total_ram@ + " RAM"@,
        r.machine.ram_type_or_os_bit_depth@ == bit_depth(facts.is_64_bit),
        r.machine.proc_count@ == count_label(facts.proc_count as nat, "Proc"@, "Procs"@),
        r.storage.main_storage@ == main_storage(facts.storage_model@, texts(facts.disk_names@)),
        r.storage.total@ == facts.total_storage@ + " Total"@,
        r.storage.disk_count@ == count_label(facts.disk_names@.len(), "Disk"@, "Disks"@),
        r.storage.swap_amount@ == facts.swap@ + " Swap"@,
{
    let processor = ProcessorDto {
        name: processor_name_text(facts.cpu_brand.as_str(), facts.cpu_name.as_str()),
        core_count: count_label_text(facts.core_count, "Core", "Cores"),
        clock_speed: with_suffix(facts.clock_ghz, " GHz"),
        bit_depth: bit_depth_text(facts.is_64_bit),
    };
    let machine = MachineDto {
        operating_system: operating_system_text(facts.os_name, facts.os_version),
        total_ram: with_suffix(facts.total_ram, " RAM"),
        ram_type_or_os_bit_depth: bit_depth_text(facts.is_64_bit),
        proc_count: count_label_text(facts.proc_count, "Proc", "Procs"),
    };
    let storage = StorageDto {
        main_storage: main_storage_text(facts.storage_model.as_str(), &facts.disk_names),
        total: with_suffix(facts.total_storage, " Total"),
        disk_count: count_label_text(facts.disk_names.len(), "Disk", "Disks"),
        swap_amount: with_suffix(facts.swap, " Swap"),
    };
    InfoDto { processor, machine, storage }
}

/// A block device's name and the text of its `device/model` file, where that
/// file could be read.
pub open spec fn block_entry(e: (String, Option<String>)) -> (Seq<char>, Option<Seq<char>>) {
    (
        e.0@,
        match e.1 {
            Some(c) => Some(c@),
            None => None,
        },
    )
}

/// The views of a list of block devices.
pub open spec fn block_entries(v: Seq<(String, Option<String>)>) -> Seq<(Seq<char>, Option<Seq<char>>)> {
    v.map_values(|e: (String, Option<String>)| block_entry(e))
}

/// The model that one block device gives: where it may be a storage drive
/// and its model file could be read, the file's model (see `sysfs_model`).
pub open spec fn block_model(e: (Seq<char>, Option<Seq<char>>)) -> Option<Seq<char>> {
    if is_storage_device(e.0) {
        match e.1 {
            Some(c) => sysfs_model(c),
            None => None,
        }
    } else {
        None
    }
}

/// The first model that a block device gives, in the order listed.
pub open spec fn first_block_model(es: Seq<(Seq<char>, Option<Seq<char>>)>) -> Option<Seq<char>>
    decreases es.len(),
{
    if es.len() == 0 {
        None
    } else {
        match block_model(es[0]) {
            Some(m) => Some(m),
            None => first_block_model(es.drop_first()),
        }
    }
}

/// A storage model read from a drive's model file, a block device or the
/// tools' output is never empty and has no whitespace at either end.
pub proof fn storage_models_are_trimmed(contents: Seq<char>, output: Seq<char>, es: Seq<(Seq<char>, Option<Seq<char>>)>)
    ensures
        sysfs_model(contents) matches Some(m) ==> m.len() > 0 && trimmed(m) == m,
        first_block_model(es) matches Some(m) ==> m.len() > 0 && trimmed(m) == m,
        profiler_model(output) matches Some(m) ==> m.len() > 0 && trimmed(m) == m,
    decreases es.len(),
{
    trimmed_is_trimmed(contents);
    if es.len() > 0 {
        storage_models_are_trimmed(contents, output, es.drop_first());
        match es[0].1 {
            Some(c) => trimmed_is_trimmed(c),
            None => {},
        }
    }
    lemma_first_line_model_trimmed(text_lines(output));
}

proof fn lemma_first_line_model_trimmed(lines: Seq<Seq<char>>)
    ensures
        first_line_model(lines) matches Some(m) ==> m.len() > 0 && trimmed(m) == m,
    decreases lines.len(),
{
    if lines.len() > 0 {
        let line = lines[0];
        let rest = if has_prefix(line, "Device Name:"@) {
            line.skip("Device Name:"@.len() as int)
        } else {
            line.skip("Media Name:"@.len() as int)
        };
        trimmed_is_trimmed(rest);
        lemma_first_line_model_trimmed(lines.drop_first());
    }
}

/// The storage model that the block devices give: the first device, in the
/// order listed, that may be a storage drive and whose model file holds a
/// model (see `first_block_model`).
pub fn block_devices_model(entries: &Vec<(String, Option<String>)>) -> (r: Option<String>)
    ensures
        match r {
            Some(m) => first_block_model(block_entries(entries@)) == Some(m@),
            None => first_block_model(block_entries(entries@)) is None,
        },
{
    let n = entries.len();
    let ghost all = block_entries(entries@);
    let mut i: usize = 0;
    assert(all.subrange(0, n as int) =~= all);
    while i < n
        invariant
            n == entries@.len(),
            all == block_entries(entries@),
            i <= n,
            first_block_model(all) == first_block_model(all.subrange(i as int, n as int)),
        decreases n - i,
    {
        let (name, contents) = &entries[i];
        assert(all.subrange(i as int, n as int)[0] == block_entry(entries@[i as int]));
        if is_storage_device_name(name.as_str()) {
            match contents {
                Some(c) => match sysfs_model_text(c.as_str()) {
                    Some(m) => return Some(m),
                    None => {},
                },
                None => {},
            }
        }
        assert(all.subrange(i as int, n as int).drop_first() =~= all.subrange(i + 1, n as int));
        i = i + 1;
    }
    None
}

} // verus!
