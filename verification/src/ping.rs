//! Reading the output of the system `ping` command.

use vstd::prelude::*;
use crate::text::{
    chars_of, contains_chars, contains_seq, is_digit, lower_all, lower_seq, occurs_at, string_of,
};

verus! {

pub open spec fn ttl_marker() -> Seq<char> {
    seq!['t', 't', 'l', '=']
}

/// `ttl=` (in any case) appears only in genuine echo replies, on every
/// platform and locale.
pub open spec fn indicates_reply(output: Seq<char>) -> bool {
    contains_seq(lower_seq(output), ttl_marker())
}

/// True when the output contains an actual echo reply.
pub fn output_indicates_reply(output: &str) -> (b: bool)
    ensures
        b == indicates_reply(output@),
{
    let c = chars_of(output);
    let l = lower_all(c.as_slice());
    let m: [char; 4] = ['t', 't', 'l', '='];
    let ms: &[char] = &m;
    assert(ms@ =~= ttl_marker());
    contains_chars(l.as_slice(), ms)
}

/// An echo probe succeeded: a reply was printed and, except on Windows
/// (where "unreachable" still exits with 0 but prints no `ttl=`), the
/// command exited successfully.
pub fn icmp_success(output: &str, windows: bool, exit_ok: bool) -> (b: bool)
    ensures
        b == (indicates_reply(output@) && (windows || exit_ok)),
{
    output_indicates_reply(output) && (windows || exit_ok)
}

pub open spec fn ms_unit() -> Seq<char> {
    seq!['m', 's']
}

pub open spec fn number_char(c: char) -> bool {
    is_digit(c) || c == '.'
}

/// Start of the run of digits and dots that ends at `end`.
pub open spec fn run_start(l: Seq<char>, end: int) -> int
    decreases end,
{
    if end > 0 && end <= l.len() && number_char(l[end - 1]) {
        run_start(l, end - 1)
    } else {
        end
    }
}

pub open spec fn count_dots(t: Seq<char>) -> nat
    decreases t.len(),
{
    if t.len() == 0 {
        0
    } else {
        count_dots(t.drop_last()) + if t.last() == '.' {
            1nat
        } else {
            0nat
        }
    }
}

/// A text of digits and dots that `f64::from_str` accepts: at most one dot
/// and at least one digit.
pub open spec fn float_text_ok(t: Seq<char>) -> bool {
    count_dots(t) <= 1 && count_dots(t) < t.len()
}

/// The time reported before the `ms` unit at `idx`: an optional space, then
/// digits and dots preceded by `=` or `<`, when they form a number.
pub open spec fn time_candidate(l: Seq<char>, idx: int) -> Option<Seq<char>> {
    if occurs_at(l, ms_unit(), idx) {
        let end = if idx > 0 && l[idx - 1] == ' ' {
            idx - 1
        } else {
            idx
        };
        let start = run_start(l, end);
        if start < end && start > 0 && (l[start - 1] == '=' || l[start - 1] == '<')
            && float_text_ok(l.subrange(start, end)) {
            Some(l.subrange(start, end))
        } else {
            None
        }
    } else {
        None
    }
}

/// The first candidate at or after position `i`.
pub open spec fn first_time(l: Seq<char>, i: int) -> Option<Seq<char>>
    decreases l.len() - i,
{
    if i < 0 || i >= l.len() {
        None
    } else {
        match time_candidate(l, i) {
            Some(t) => Some(t),
            None => first_time(l, i + 1),
        }
    }
}

/// The text of the round-trip time in milliseconds: the first `ms` unit
/// (case-insensitive) directly preceded by a `=`/`<`-separated number.
pub open spec fn ping_time(output: Seq<char>) -> Option<Seq<char>> {
    first_time(lower_seq(output), 0)
}

fn run_start_exec(l: &[char], end: usize) -> (s: usize)
    requires
        end <= l@.len(),
    ensures
        s == run_start(l@, end as int),
        s <= end,
{
    let mut s: usize = end;
    while s > 0 && (('0' <= l[s - 1] && l[s - 1] <= '9') || l[s - 1] == '.')
        invariant
            s <= end,
            end <= l@.len(),
            run_start(l@, end as int) == run_start(l@, s as int),
        decreases s,
    {
        s = s - 1;
    }
    s
}

fn float_text_ok_exec(t: &[char]) -> (b: bool)
    ensures
        b == float_text_ok(t@),
{
    let mut dots: usize = 0;
    for i in 0..t.len()
        invariant
            dots == count_dots(t@.take(i as int)),
            dots <= i,
    {
        assert(t@.take(i + 1).drop_last() =~= t@.take(i as int));
        if t[i] == '.' {
            dots = dots + 1;
        }
    }
    assert(t@.take(t.len() as int) =~= t@);
    dots <= 1 && dots < t.len()
}

fn time_candidate_exec(l: &[char], idx: usize) -> (r: Option<Vec<char>>)
    requires
        idx < l@.len(),
    ensures
        r is Some <==> time_candidate(l@, idx as int) is Some,
        r matches Some(v) ==> time_candidate(l@, idx as int) == Some(v@),
{
    let n = l.len();
    if idx >= n - 1 || l[idx] != 'm' || l[idx + 1] != 's' {
        proof {
            if occurs_at(l@, ms_unit(), idx as int) {
                assert(l@.subrange(idx as int, idx + 2)[0] == l@[idx as int]);
                assert(l@.subrange(idx as int, idx + 2)[1] == l@[idx + 1]);
            }
        }
        return None;
    }
    assert(l@.subrange(idx as int, idx + 2) =~= ms_unit());
    let end: usize = if idx > 0 && l[idx - 1] == ' ' {
        idx - 1
    } else {
        idx
    };
    let start = run_start_exec(l, end);
    if start < end && start > 0 && (l[start - 1] == '=' || l[start - 1] == '<') {
        let t = &l[start..end];
        if float_text_ok_exec(t) {
            let mut v: Vec<char> = Vec::new();
            crate::text::extend_chars(&mut v, t);
            assert(v@ =~= l@.subrange(start as int, end as int));
            return Some(v);
        }
    }
    None
}

/// The text of the reported round-trip time in milliseconds, when the
/// output reports one. Handles `time=0.045 ms`, `time=3ms`, `time<1ms` and
/// localized variants such as `Zeit=3ms`.
pub fn ping_time_text(output: &str) -> (r: Option<String>)
    ensures
        r is Some <==> ping_time(output@) is Some,
        r matches Some(t) ==> ping_time(output@) == Some(t@),
{
    let c = chars_of(output);
    let l = lower_all(c.as_slice());
    let mut i: usize = 0;
    while i < l.len()
        invariant
            i <= l@.len(),
            l@ == lower_seq(output@),
            first_time(l@, 0) == first_time(l@, i as int),
        decreases l.len() - i,
    {
        match time_candidate_exec(l.as_slice(), i) {
            Some(v) => {
                return Some(string_of(v.as_slice()));
            },
            None => {},
        }
        i = i + 1;
    }
    None
}

} // verus!
