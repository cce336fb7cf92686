//! Interpreting raw sensor-dump text: the fan/temperature report filter
//! and the CPU temperature extraction.

use vstd::prelude::*;
use vstd::seq_lib::group_seq_properties;

use crate::error::Error;
use crate::text::contains_ci;
use crate::text::digit_run;
use crate::text::digits_val;
use crate::text::find_line_end;
use crate::text::is_ascii_digit;
use crate::text::is_digit;
use crate::text::is_space;
use crate::text::is_space_char;
use crate::text::lemma_digits_val_prefix;
use crate::text::lemma_line_len;
use crate::text::lemma_run_start;
use crate::text::lemma_spec_lines_unfold;
use crate::text::line_len;
use crate::text::matches_ci_at;
use crate::text::run_start;
use crate::text::spec_lines;
use crate::text::starts_with_ci;
use crate::text::str_matches_ci_at;
use crate::text::strip_cr;

verus! {

/// The fan prefix the report filter looks for.
pub open spec fn fan_pat() -> Seq<char> {
    seq!['f', 'a', 'n']
}

/// The temperature substring the report filter looks for.
pub open spec fn temp_pat() -> Seq<char> {
    seq!['t', 'e', 'm', 'p']
}

/// A sensor line belongs in the fan/temperature report: it starts with
/// "fan" or contains "temp", case-insensitively. The substring match is
/// intentionally loose; the name column is not isolated first.
pub open spec fn line_selected(l: Seq<char>) -> bool {
    starts_with_ci(l, fan_pat()) || contains_ci(l, temp_pat())
}

/// The report built from a sequence of lines: each selected line in its
/// original order, newline-terminated; nothing else.
pub open spec fn report_of(ls: Seq<Seq<char>>) -> Seq<char>
    decreases ls.len(),
{
    if ls.len() == 0 {
        Seq::empty()
    } else {
        (if line_selected(ls[0]) {
            ls[0].push('\n')
        } else {
            Seq::empty()
        }) + report_of(ls.drop_first())
    }
}

/// The fan/temperature report of a whole sensor dump.
pub open spec fn fan_temp_report(s: Seq<char>) -> Seq<char> {
    report_of(spec_lines(s))
}

/// A sequence of lines joined back into one text, each line
/// newline-terminated.
pub open spec fn joined_lines(ls: Seq<Seq<char>>) -> Seq<char>
    decreases ls.len(),
{
    if ls.len() == 0 {
        Seq::empty()
    } else {
        ls[0].push('\n') + joined_lines(ls.drop_first())
    }
}

proof fn lemma_report_of_push(ls: Seq<Seq<char>>, l: Seq<char>)
    ensures
        report_of(ls.push(l)) == report_of(ls) + (if line_selected(l) {
            l.push('\n')
        } else {
            Seq::<char>::empty()
        }),
    decreases ls.len(),
{
    let tail = if line_selected(l) {
        l.push('\n')
    } else {
        Seq::<char>::empty()
    };
    if ls.len() == 0 {
        assert(ls.push(l).drop_first() =~= ls);
        assert(ls.push(l)[0] == l);
        assert(report_of(ls.push(l)) =~= report_of(ls) + tail);
    } else {
        assert(ls.push(l).drop_first() =~= ls.drop_first().push(l));
        lemma_report_of_push(ls.drop_first(), l);
        assert(ls.push(l)[0] == ls[0]);
        assert(report_of(ls.push(l)) =~= report_of(ls) + tail);
    }
}

proof fn lemma_joined_lines_push(ls: Seq<Seq<char>>, l: Seq<char>)
    ensures
        joined_lines(ls.push(l)) == joined_lines(ls) + l.push('\n'),
    decreases ls.len(),
{
    if ls.len() == 0 {
        assert(ls.push(l).drop_first() =~= ls);
        assert(ls.push(l)[0] == l);
        assert(joined_lines(ls.push(l)) =~= joined_lines(ls) + l.push('\n'));
    } else {
        assert(ls.push(l).drop_first() =~= ls.drop_first().push(l));
        lemma_joined_lines_push(ls.drop_first(), l);
        assert(ls.push(l)[0] == ls[0]);
        assert(joined_lines(ls.push(l)) =~= joined_lines(ls) + l.push('\n'));
    }
}

/// The report contains exactly the selected lines, in their original
/// order, and no others: it equals the selected lines filtered out of
/// the input and joined back with newlines.
pub proof fn lemma_report_is_filtered_lines(ls: Seq<Seq<char>>)
    ensures
        report_of(ls) == joined_lines(ls.filter(|l: Seq<char>| line_selected(l))),
    decreases ls.len(),
{
    broadcast use group_seq_properties;

    reveal(Seq::filter);
    let pred = |l: Seq<char>| line_selected(l);
    if ls.len() == 0 {
        assert(ls.filter(pred) =~= ls);
    } else {
        let dl = ls.drop_last();
        lemma_report_is_filtered_lines(dl);
        assert(dl.push(ls.last()) =~= ls);
        lemma_report_of_push(dl, ls.last());
        if pred(ls.last()) {
            assert(ls.filter(pred) == dl.filter(pred).push(ls.last()));
            lemma_joined_lines_push(dl.filter(pred), ls.last());
        } else {
            assert(ls.filter(pred) == dl.filter(pred));
            assert(report_of(ls) =~= report_of(dl));
        }
    }
}

/// Whether one line belongs in the fan/temperature report.
pub fn is_selected_line(line: &str) -> (r: bool)
    ensures
        r == line_selected(line@),
{
    proof {
        reveal_strlit("fan");
        assert("fan"@ =~= fan_pat());
        reveal_strlit("temp");
        assert("temp"@ =~= temp_pat());
    }
    if str_matches_ci_at(line, 0, "fan") {
        return true;
    }
    let n = line.unicode_len();
    let mut i: usize = 0;
    while i < n
        invariant
            n == line@.len(),
            i <= n,
            "temp"@ =~= temp_pat(),
            forall|k: int| 0 <= k < i ==> !matches_ci_at(line@, k, temp_pat()),
        decreases n - i,
    {
        if str_matches_ci_at(line, i, "temp") {
            return true;
        }
        i += 1;
    }
    proof {
        assert forall|k: int| !matches_ci_at(line@, k, temp_pat()) by {
            if 0 <= k && k + temp_pat().len() <= n {
                assert(k < n);
                assert(!matches_ci_at(line@, k, temp_pat()));
            }
        }
    }
    false
}

/// Filter a raw sensor dump down to its fan/temperature lines.
///
/// The result holds exactly the input lines that start with "fan" or
/// contain "temp" (case-insensitively), in their original order, each
/// followed by a newline.
pub fn filter_fan_temp(dump: &str) -> (report: String)
    ensures
        report@ == fan_temp_report(dump@),
{
    let n = dump.unicode_len();
    let mut out = String::new();
    let mut i: usize = 0;
    proof {
        reveal_strlit("\n");
        assert(dump@.skip(0) =~= dump@);
        assert(out@ + report_of(spec_lines(dump@)) =~= report_of(spec_lines(dump@)));
    }
    while i < n
        invariant
            n == dump@.len(),
            i <= n,
            "\n"@ =~= seq!['\n'],
            fan_temp_report(dump@) == out@ + report_of(spec_lines(dump@.skip(i as int))),
        decreases n - i,
    {
        let ghost t = dump@.skip(i as int);
        let j = find_line_end(dump, i);
        proof {
            lemma_line_len(t);
            assert(line_len(t) == j - i);
        }
        let line_end = if j < n && j > i && dump.get_char(j - 1) == '\r' {
            j - 1
        } else {
            j
        };
        let line = dump.substring_char(i, line_end);
        let ghost rest = if j < n {
            spec_lines(dump@.skip(j as int + 1))
        } else {
            Seq::<Seq<char>>::empty()
        };
        proof {
            // The first line of the remaining text is exactly `line@`.
            if j < n {
                assert(t.take(line_len(t) as int) =~= dump@.subrange(i as int, j as int));
                if j > i && dump@[j - 1] == '\r' {
                    assert(t.take(line_len(t) as int).last() == '\r');
                    assert(strip_cr(t.take(line_len(t) as int)) =~= dump@.subrange(
                        i as int,
                        j - 1,
                    ));
                } else {
                    assert(strip_cr(t.take(line_len(t) as int)) =~= dump@.subrange(
                        i as int,
                        j as int,
                    ));
                }
                assert(t.skip(line_len(t) as int + 1) =~= dump@.skip(j as int + 1));
                assert(spec_lines(t) == seq![line@] + rest);
            } else {
                assert(t =~= dump@.subrange(i as int, j as int));
                assert(spec_lines(t) == seq![line@]);
                assert(seq![line@] =~= seq![line@] + rest);
            }
            assert((seq![line@] + rest)[0] == line@);
            assert((seq![line@] + rest).drop_first() =~= rest);
            assert(report_of(spec_lines(t)) == (if line_selected(line@) {
                line@.push('\n')
            } else {
                Seq::<char>::empty()
            }) + report_of(rest));
        }
        let ghost out0 = out@;
        let ghost item = if line_selected(line@) {
            line@.push('\n')
        } else {
            Seq::<char>::empty()
        };
        if is_selected_line(line) {
            out.append(line);
            out.append("\n");
            proof {
                assert(out@ =~= out0 + item);
            }
        } else {
            proof {
                assert(out@ =~= out0 + item);
            }
        }
        i = if j < n {
            j + 1
        } else {
            n
        };
        proof {
            if i == n && j == n {
                assert(dump@.skip(n as int) =~= Seq::<char>::empty());
            }
            assert(report_of(spec_lines(dump@.skip(i as int))) == report_of(rest));
            assert(out0 + item + report_of(rest) =~= out0 + (item + report_of(rest)));
        }
    }
    proof {
        assert(dump@.skip(n as int) =~= Seq::<char>::empty());
    }
    out
}

/// The record-name prefix that designates the CPU-zero temperature line.
pub open spec fn cpu_pat() -> Seq<char> {
    seq!['t', 'e', 'm', 'p', '_', 'c', 'p', 'u', '0']
}

/// The unit word a temperature reading precedes.
pub open spec fn degrees_pat() -> Seq<char> {
    seq!['d', 'e', 'g', 'r', 'e', 'e', 's']
}

/// Position `j` of `l` holds one whitespace character followed by the
/// word "degrees" (case-insensitively).
pub open spec fn degrees_marker_at(l: Seq<char>, j: int) -> bool {
    &&& 0 <= j < l.len()
    &&& is_space_char(l[j])
    &&& matches_ci_at(l, j + 1, degrees_pat())
}

/// The first degrees marker at or after `from` (`l.len()` if none).
pub open spec fn marker_from(l: Seq<char>, from: nat) -> nat
    decreases l.len() - from,
{
    if from >= l.len() {
        l.len()
    } else if degrees_marker_at(l, from as int) {
        from
    } else {
        marker_from(l, from + 1)
    }
}

/// The first line whose name starts with "temp_cpu0" (case-insensitively).
pub open spec fn first_cpu_line(ls: Seq<Seq<char>>) -> Option<Seq<char>>
    decreases ls.len(),
{
    if ls.len() == 0 {
        Option::None
    } else if starts_with_ci(ls[0], cpu_pat()) {
        Option::Some(ls[0])
    } else {
        first_cpu_line(ls.drop_first())
    }
}

/// The digit run of the CPU-zero temperature record of a dump: the run
/// of digits right before the first " degrees" of the first line whose
/// name starts with "temp_cpu0". `None` when no such line, or no such
/// marker in it, exists; the run itself may still be empty.
pub open spec fn cpu_temp_digits(s: Seq<char>) -> Option<Seq<char>> {
    match first_cpu_line(spec_lines(s)) {
        Option::None => Option::None,
        Option::Some(l) => {
            let j = marker_from(l, 0);
            if j < l.len() {
                Option::Some(digit_run(l, j as int))
            } else {
                Option::None
            }
        },
    }
}

/// The first line of `dump` whose name starts with "temp_cpu0"
/// (case-insensitively), stripped of its line ending.
fn find_cpu_line<'a>(dump: &'a str) -> (r: Option<&'a str>)
    ensures
        match r {
            Option::Some(line) => first_cpu_line(spec_lines(dump@)) == Option::Some(line@),
            Option::None => first_cpu_line(spec_lines(dump@)) is None,
        },
{
    proof {
        reveal_strlit("temp_cpu0");
        assert("temp_cpu0"@ =~= cpu_pat());
    }
    let n = dump.unicode_len();
    let mut i: usize = 0;
    proof {
        assert(dump@.skip(0) =~= dump@);
    }
    while i < n
        invariant
            n == dump@.len(),
            i <= n,
            "temp_cpu0"@ =~= cpu_pat(),
            first_cpu_line(spec_lines(dump@)) == first_cpu_line(spec_lines(dump@.skip(i as int))),
        decreases n - i,
    {
        let ghost t = dump@.skip(i as int);
        let j = find_line_end(dump, i);
        proof {
            lemma_line_len(t);
            lemma_spec_lines_unfold(dump@, i as int, j as int);
        }
        let line_end = if j < n && j > i && dump.get_char(j - 1) == '\r' {
            j - 1
        } else {
            j
        };
        let line = dump.substring_char(i, line_end);
        let ghost rest = if j < n {
            spec_lines(dump@.skip(j as int + 1))
        } else {
            Seq::<Seq<char>>::empty()
        };
        proof {
            if j < n {
                if j > i && dump@[j - 1] == '\r' {
                    assert(strip_cr(dump@.subrange(i as int, j as int)) =~= dump@.subrange(
                        i as int,
                        j - 1,
                    ));
                } else {
                    assert(strip_cr(dump@.subrange(i as int, j as int)) =~= dump@.subrange(
                        i as int,
                        j as int,
                    ));
                }
                assert(spec_lines(t) == seq![line@] + rest);
            } else {
                assert(spec_lines(t) == seq![line@]);
                assert(seq![line@] =~= seq![line@] + rest);
            }
            assert((seq![line@] + rest)[0] == line@);
            assert((seq![line@] + rest).drop_first() =~= rest);
        }
        if str_matches_ci_at(line, 0, "temp_cpu0") {
            return Option::Some(line);
        }
        i = if j < n {
            j + 1
        } else {
            n
        };
        proof {
            if i == n && j == n {
                assert(dump@.skip(n as int) =~= Seq::<char>::empty());
            }
            assert(first_cpu_line(spec_lines(dump@.skip(i as int))) == first_cpu_line(rest));
        }
    }
    proof {
        assert(dump@.skip(n as int) =~= Seq::<char>::empty());
    }
    Option::None
}

/// The position of the first " degrees" marker of `line` (its length if
/// there is none).
fn find_marker(line: &str) -> (r: usize)
    ensures
        r as nat == marker_from(line@, 0),
        r <= line@.len(),
{
    proof {
        reveal_strlit("degrees");
        assert("degrees"@ =~= degrees_pat());
    }
    let n = line.unicode_len();
    let mut k: usize = 0;
    while k < n
        invariant
            n == line@.len(),
            k <= n,
            "degrees"@ =~= degrees_pat(),
            marker_from(line@, 0) == marker_from(line@, k as nat),
        decreases n - k,
    {
        let c = line.get_char(k);
        if is_space(c) && str_matches_ci_at(line, k + 1, "degrees") {
            return k;
        }
        k += 1;
    }
    n
}

/// Extract the CPU-zero temperature from a raw temperature dump.
///
/// Scans for the first line whose name starts with "temp_cpu0"
/// (case-insensitively) and reads the run of digits right before its
/// first " degrees". Fails with `NotFound` when no such line, marker or
/// digit exists, and with `ParseFailure` when the digits overflow an
/// unsigned 16-bit value.
pub fn parse_cpu_temperature(dump: &str) -> (r: Result<u16, Error>)
    ensures
        match r {
            Result::Ok(v) => (match cpu_temp_digits(dump@) {
                Option::Some(d) => d.len() > 0 && digits_val(d) == v as nat,
                Option::None => false,
            }),
            Result::Err(e) => (match e {
                Error::NotFound => (match cpu_temp_digits(dump@) {
                    Option::Some(d) => d.len() == 0,
                    Option::None => true,
                }),
                Error::ParseFailure { digits } => (match cpu_temp_digits(dump@) {
                    Option::Some(d) => d.len() > 0 && digits_val(d) > 0xffff && digits@ == d,
                    Option::None => false,
                }),
                _ => false,
            }),
        },
{
    let line = match find_cpu_line(dump) {
        Option::None => {
            return Result::Err(Error::NotFound);
        },
        Option::Some(l) => l,
    };
    let n = line.unicode_len();
    let j = find_marker(line);
    if j == n {
        return Result::Err(Error::NotFound);
    }
    let mut rs: usize = j;
    while rs > 0 && is_digit(line.get_char(rs - 1))
        invariant
            n == line@.len(),
            rs <= j <= n,
            run_start(line@, j as int) == run_start(line@, rs as int),
        decreases rs,
    {
        rs -= 1;
    }
    proof {
        assert(run_start(line@, j as int) == rs as int);
    }
    let ghost run = line@.subrange(rs as int, j as int);
    if rs == j {
        return Result::Err(Error::NotFound);
    }
    proof {
        lemma_run_start(line@, j as int);
    }
    let mut v: u32 = 0;
    let mut idx: usize = rs;
    let mut overflow = false;
    while idx < j
        invariant
            n == line@.len(),
            rs <= idx <= j <= n,
            run == line@.subrange(rs as int, j as int),
            forall|k: int| rs <= k < j ==> is_ascii_digit(line@[k]),
            !overflow ==> v as nat == digits_val(line@.subrange(rs as int, idx as int)) && v
                <= 0xffff,
            overflow ==> digits_val(run) > 0xffff,
        decreases j - idx,
    {
        let c = line.get_char(idx);
        if !overflow {
            let d = (c as u32) - 48;
            let v2 = v * 10 + d;
            proof {
                let pr = line@.subrange(rs as int, idx as int);
                assert(line@.subrange(rs as int, idx as int + 1) =~= pr.push(line@[idx as int]));
                assert(pr.push(line@[idx as int]).drop_last() =~= pr);
                assert(v2 as nat == digits_val(line@.subrange(rs as int, idx as int + 1)));
            }
            if v2 > 0xffff {
                overflow = true;
                proof {
                    lemma_digits_val_prefix(run, idx as int + 1 - rs as int);
                    assert(run.take(idx as int + 1 - rs as int) =~= line@.subrange(
                        rs as int,
                        idx as int + 1,
                    ));
                }
            } else {
                v = v2;
            }
        }
        idx += 1;
    }
    proof {
        assert(line@.subrange(rs as int, j as int) == run);
    }
    if overflow {
        let digits = String::from_str(line.substring_char(rs, j));
        Result::Err(Error::ParseFailure { digits })
    } else {
        Result::Ok(v as u16)
    }
}

} // verus!
