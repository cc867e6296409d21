//! Reading a choice among numbered candidates: a line of numbers,
//! separated by commas, each with white space around it at will.

use vstd::prelude::*;
use vstd::string::StrSliceExecFns;
use crate::error::GeojsonError;
use crate::text::{str_concat, to_chars};

verus! {

/// `c` is white space, as Unicode defines it.
pub open spec fn is_white_space(c: char) -> bool {
    ||| '\u{9}' <= c <= '\u{d}'
    ||| c == ' '
    ||| c == '\u{85}'
    ||| c == '\u{a0}'
    ||| c == '\u{1680}'
    ||| '\u{2000}' <= c <= '\u{200a}'
    ||| c == '\u{2028}'
    ||| c == '\u{2029}'
    ||| c == '\u{202f}'
    ||| c == '\u{205f}'
    ||| c == '\u{3000}'
}

/// `s` without the white space at its start.
pub open spec fn trim_start(s: Seq<char>) -> Seq<char>
    decreases s.len(),
{
    if s.len() > 0 && is_white_space(s[0]) {
        trim_start(s.drop_first())
    } else {
        s
    }
}

/// `s` without the white space at its end.
pub open spec fn trim_end(s: Seq<char>) -> Seq<char>
    decreases s.len(),
{
    if s.len() > 0 && is_white_space(s.last()) {
        trim_end(s.drop_last())
    } else {
        s
    }
}

/// `s` without the white space at its start and at its end.
pub open spec fn trimmed(s: Seq<char>) -> Seq<char> {
    trim_end(trim_start(s))
}

/// The parts of `s` between its commas, in order. A text without a comma
/// is one part, and so is the empty text; two commas in a row, and a comma
/// at either end, give an empty part.
pub open spec fn tokens(s: Seq<char>) -> Seq<Seq<char>>
    decreases s.len(),
{
    if s.len() == 0 {
        seq![Seq::empty()]
    } else if s.last() == ',' {
        tokens(s.drop_last()).push(Seq::empty())
    } else {
        let before = tokens(s.drop_last());
        before.drop_last().push(before.last().push(s.last()))
    }
}

/// The value of a decimal digit, if `c` is one.
pub open spec fn digit_value(c: char) -> Option<nat> {
    if c == '0' {
        Some(0)
    } else if c == '1' {
        Some(1)
    } else if c == '2' {
        Some(2)
    } else if c == '3' {
        Some(3)
    } else if c == '4' {
        Some(4)
    } else if c == '5' {
        Some(5)
    } else if c == '6' {
        Some(6)
    } else if c == '7' {
        Some(7)
    } else if c == '8' {
        Some(8)
    } else if c == '9' {
        Some(9)
    } else {
        None
    }
}

/// `s` is one decimal digit or more, and nothing else.
pub open spec fn is_numeral(s: Seq<char>) -> bool {
    s.len() > 0 && forall|i: int| 0 <= i < s.len() ==> digit_value(#[trigger] s[i]) is Some
}

/// The number that the digits of `s` write.
pub open spec fn numeral_value(s: Seq<char>) -> nat
    decreases s.len(),
{
    if s.len() == 0 {
        0
    } else {
        numeral_value(s.drop_last()) * 10 + digit_value(s.last()).unwrap()
    }
}

/// The number that `s` writes: decimal digits, with a `+` before them or
/// without. Leading zeros count for nothing. Anything else is no number.
pub open spec fn number_of(s: Seq<char>) -> Option<nat> {
    let digits = if s.len() > 0 && s[0] == '+' {
        s.drop_first()
    } else {
        s
    };
    if is_numeral(digits) {
        Some(numeral_value(digits))
    } else {
        None
    }
}

/// The candidate that `token` chooses among `count` candidates, numbered
/// from 0: the number that it writes between its white space, if it is
/// below `count`.
pub open spec fn chosen_index(token: Seq<char>, count: nat) -> Option<nat> {
    match number_of(trimmed(token)) {
        Some(n) => if n < count {
            Some(n)
        } else {
            None
        },
        None => None,
    }
}

/// `at` is the place of the first of `parts` that chooses no candidate.
pub open spec fn is_first_rejected(parts: Seq<Seq<char>>, count: nat, at: int) -> bool {
    &&& 0 <= at < parts.len()
    &&& chosen_index(parts[at], count) is None
    &&& forall|j: int| 0 <= j < at ==> chosen_index(#[trigger] parts[j], count) is Some
}

/// `ids` is in strictly ascending order.
pub open spec fn increasing(ids: Seq<usize>) -> bool {
    forall|i: int, j: int| 0 <= i < j < ids.len() ==> ids[i] < ids[j]
}

/// `ids` is what `parts` choose together: each of them chooses a candidate,
/// and `ids` holds the chosen numbers, each once, in ascending order.
pub open spec fn is_selection(parts: Seq<Seq<char>>, count: nat, ids: Seq<usize>) -> bool {
    &&& forall|k: int| 0 <= k < parts.len() ==> chosen_index(#[trigger] parts[k], count) is Some
    &&& increasing(ids)
    &&& forall|n: usize|
        ids.contains(n) <==> exists|k: int|
            0 <= k < parts.len() && chosen_index(#[trigger] parts[k], count) == Some(n as nat)
}

/// A longer numeral writes no smaller number than its beginning.
proof fn lemma_numeral_grows(s: Seq<char>, k: int)
    requires
        0 <= k <= s.len(),
    ensures
        numeral_value(s.take(k)) <= numeral_value(s),
    decreases s.len(),
{
    if k < s.len() {
        lemma_numeral_grows(s.drop_last(), k);
        assert(s.drop_last().take(k) =~= s.take(k));
    } else {
        assert(s.take(k) =~= s);
    }
}

/// Whether `c` is white space.
fn is_space(c: char) -> (yes: bool)
    ensures
        yes == is_white_space(c),
{
    (c >= '\u{9}' && c <= '\u{d}') || c == ' ' || c == '\u{85}' || c == '\u{a0}' || c == '\u{1680}'
        || (c >= '\u{2000}' && c <= '\u{200a}') || c == '\u{2028}' || c == '\u{2029}' || c
        == '\u{202f}' || c == '\u{205f}' || c == '\u{3000}'
}

/// The value of the digit `c`.
fn digit_of(c: char) -> (d: Option<usize>)
    ensures
        match d {
            Some(v) => digit_value(c) == Some(v as nat) && v < 10,
            None => digit_value(c) is None,
        },
{
    if c == '0' {
        Some(0)
    } else if c == '1' {
        Some(1)
    } else if c == '2' {
        Some(2)
    } else if c == '3' {
        Some(3)
    } else if c == '4' {
        Some(4)
    } else if c == '5' {
        Some(5)
    } else if c == '6' {
        Some(6)
    } else if c == '7' {
        Some(7)
    } else if c == '8' {
        Some(8)
    } else if c == '9' {
        Some(9)
    } else {
        None
    }
}

/// The bounds of the parts of `chars` between its commas.
fn split_commas(chars: &Vec<char>) -> (ranges: Vec<(usize, usize)>)
    ensures
        ranges.len() == tokens(chars@).len(),
        forall|k: int|
            0 <= k < ranges.len() ==> {
                &&& (#[trigger] ranges[k]).0 <= ranges[k].1 <= chars.len()
                &&& chars@.subrange(ranges[k].0 as int, ranges[k].1 as int) == tokens(chars@)[k]
            },
{
    let mut ranges: Vec<(usize, usize)> = Vec::new();
    let mut start: usize = 0;
    let mut i: usize = 0;
    while i < chars.len()
        invariant
            start <= i <= chars.len(),
            tokens(chars@.take(i as int)).len() == ranges.len() + 1,
            tokens(chars@.take(i as int)).last() == chars@.subrange(start as int, i as int),
            forall|k: int|
                0 <= k < ranges.len() ==> {
                    &&& (#[trigger] ranges[k]).0 <= ranges[k].1 <= chars.len()
                    &&& chars@.subrange(ranges[k].0 as int, ranges[k].1 as int) == tokens(
                        chars@.take(i as int),
                    )[k]
                },
        decreases chars.len() - i,
    {
        assert(chars@.take(i + 1).drop_last() =~= chars@.take(i as int));
        if chars[i] == ',' {
            ranges.push((start, i));
            start = i + 1;
        }
        i += 1;
    }
    assert(chars@.take(i as int) =~= chars@);
    ranges.push((start, i));
    ranges
}

/// The bounds of the part of `chars` from `from` to `to` without the white
/// space at its two ends.
fn trim_range(chars: &Vec<char>, from: usize, to: usize) -> (r: (usize, usize))
    requires
        from <= to <= chars.len(),
    ensures
        from <= r.0 <= r.1 <= to,
        chars@.subrange(r.0 as int, r.1 as int) == trimmed(chars@.subrange(from as int, to as int)),
{
    let mut a: usize = from;
    while a < to && is_space(chars[a])
        invariant
            from <= a <= to <= chars.len(),
            trim_start(chars@.subrange(from as int, to as int)) == trim_start(
                chars@.subrange(a as int, to as int),
            ),
        decreases to - a,
    {
        assert(chars@.subrange(a as int, to as int).drop_first() =~= chars@.subrange(
            a + 1,
            to as int,
        ));
        a += 1;
    }
    let mut b: usize = to;
    while b > a && is_space(chars[b - 1])
        invariant
            a <= b <= to <= chars.len(),
            trim_end(chars@.subrange(a as int, to as int)) == trim_end(
                chars@.subrange(a as int, b as int),
            ),
        decreases b - a,
    {
        assert(chars@.subrange(a as int, b as int).drop_last() =~= chars@.subrange(
            a as int,
            b - 1,
        ));
        b -= 1;
    }
    (a, b)
}

/// The candidate that the trimmed part of `chars` from `from` to `to`
/// chooses among `count`.
fn parse_index(chars: &Vec<char>, from: usize, to: usize, count: usize) -> (index: Option<usize>)
    requires
        from <= to <= chars.len(),
    ensures
        match index {
            Some(n) => n < count && number_of(chars@.subrange(from as int, to as int)) == Some(
                n as nat,
            ),
            None => match number_of(chars@.subrange(from as int, to as int)) {
                Some(n) => n >= count,
                None => true,
            },
        },
{
    let ghost text = chars@.subrange(from as int, to as int);
    let first: usize = if from < to && chars[from] == '+' {
        from + 1
    } else {
        from
    };
    let ghost digits = chars@.subrange(first as int, to as int);
    assert(digits =~= if text.len() > 0 && text[0] == '+' {
        text.drop_first()
    } else {
        text
    });
    if first == to {
        return None;
    }
    let mut value: usize = 0;
    let mut i: usize = first;
    while i < to
        invariant
            from <= first <= i <= to <= chars.len(),
            first < to,
            digits == chars@.subrange(first as int, to as int),
            number_of(chars@.subrange(from as int, to as int)) == if is_numeral(digits) {
                Some(numeral_value(digits))
            } else {
                None
            },
            forall|j: int| 0 <= j < i - first ==> digit_value(#[trigger] digits[j]) is Some,
            value == numeral_value(digits.take(i - first)),
            i > first ==> value < count,
        decreases to - i,
    {
        assert(digits.take(i - first + 1).drop_last() =~= digits.take(i - first));
        match digit_of(chars[i]) {
            None => {
                assert(digit_value(digits[i - first]) is None);
                return None;
            },
            Some(d) => {
                let wide: u128 = (value as u128) * 10 + (d as u128);
                if wide >= count as u128 {
                    proof {
                        lemma_numeral_grows(digits, i - first + 1);
                    }
                    return None;
                }
                value = wide as usize;
            },
        }
        i += 1;
    }
    assert(digits.take(to - first) =~= digits);
    Some(value)
}

/// Puts `n` into the ascending `ids`, unless it is there.
fn insert_index(ids: &mut Vec<usize>, n: usize)
    requires
        increasing(old(ids)@),
    ensures
        increasing(final(ids)@),
        forall|x: usize| final(ids)@.contains(x) <==> old(ids)@.contains(x) || x == n,
{
    let mut at: usize = 0;
    while at < ids.len() && ids[at] < n
        invariant
            at <= ids.len(),
            *ids == *old(ids),
            increasing(ids@),
            forall|j: int| 0 <= j < at ==> ids@[j] < n,
        decreases ids.len() - at,
    {
        at += 1;
    }
    if at < ids.len() && ids[at] == n {
        assert(ids@.contains(n));
        return;
    }
    proof {
        lemma_insert_index(ids@, at as int, n);
    }
    ids.insert(at, n);
}

/// The choice of `input`, part by part.
fn parse_parts(input: &str, max_id: usize) -> (selection: Result<Vec<usize>, GeojsonError>)
    ensures
        match selection {
            Ok(ids) => ids.len() > 0 && is_selection(tokens(input@), max_id as nat, ids@),
            Err(e) => exists|at: int|
                {
                    &&& is_first_rejected(tokens(input@), max_id as nat, at)
                    &&& e matches GeojsonError::InvalidInput(what)
                    &&& what@ == trimmed(#[trigger] tokens(input@)[at]) + " is invalid"@
                },
        },
{
    let chars = to_chars(input);
    let ranges = split_commas(&chars);
    let ghost parts = tokens(input@);
    let ghost count = max_id as nat;
    let mut ids: Vec<usize> = Vec::new();
    let mut k: usize = 0;
    while k < ranges.len()
        invariant
            k <= ranges.len(),
            chars@ == input@,
            parts == tokens(input@),
            count == max_id as nat,
            ranges.len() == parts.len(),
            forall|j: int|
                0 <= j < ranges.len() ==> {
                    &&& (#[trigger] ranges[j]).0 <= ranges[j].1 <= chars.len()
                    &&& chars@.subrange(ranges[j].0 as int, ranges[j].1 as int) == parts[j]
                },
            is_selection(parts.take(k as int), count, ids@),
            k > 0 ==> ids.len() > 0,
        decreases ranges.len() - k,
    {
        let range = ranges[k];
        let (from, to) = trim_range(&chars, range.0, range.1);
        let ghost done = parts.take(k as int);
        let ghost now = parts.take(k + 1);
        assert(now[k as int] == parts[k as int]);
        match parse_index(&chars, from, to, max_id) {
            Some(n) => {
                insert_index(&mut ids, n);
                assert(ids@.contains(n));
            },
            None => {
                assert forall|j: int| 0 <= j < k implies chosen_index(
                    #[trigger] parts[j],
                    count,
                ) is Some by {
                    assert(done[j] == parts[j]);
                }
                let part = input.substring_char(from, to);
                let what = str_concat(part, " is invalid");
                return Err(GeojsonError::InvalidInput(what));
            },
        }
        k += 1;
    }
    assert(parts.take(k as int) =~= parts);
    Ok(ids)
}

/// Two ascending lists with the same members are the same list.
pub proof fn lemma_increasing_unique(a: Seq<usize>, b: Seq<usize>)
    requires
        increasing(a),
        increasing(b),
        forall|x: usize| a.contains(x) <==> b.contains(x),
    ensures
        a == b,
    decreases a.len(),
{
    if a.len() == 0 {
        if b.len() > 0 {
            assert(b.contains(b[0]));
        }
    } else {
        assert(a.contains(a.last()));
        assert(b.contains(b.last()));
        let a0 = a.drop_last();
        let b0 = b.drop_last();
        assert forall|x: usize| a0.contains(x) <==> b0.contains(x) by {
            if a0.contains(x) {
                assert(a.contains(x));
                let m = choose|m: int| 0 <= m < b.len() && b[m] == x;
                assert(b0[m] == x);
            }
            if b0.contains(x) {
                assert(b.contains(x));
                let m = choose|m: int| 0 <= m < a.len() && a[m] == x;
                assert(a0[m] == x);
            }
        }
        lemma_increasing_unique(a0, b0);
        assert(a =~= a0.push(a.last()));
    }
}

/// What an input chooses is fixed by the input: two lists that are both the
/// choice of the same parts are the same list.
pub proof fn lemma_selection_unique(parts: Seq<Seq<char>>, count: nat, a: Seq<usize>, b: Seq<usize>)
    requires
        is_selection(parts, count, a),
        is_selection(parts, count, b),
    ensures
        a == b,
{
    lemma_increasing_unique(a, b);
}

/// A number that is not in an ascending list has its place in it.
proof fn lemma_place_of_index(ids: Seq<usize>, n: usize) -> (at: int)
    requires
        increasing(ids),
        !ids.contains(n),
    ensures
        0 <= at <= ids.len(),
        forall|j: int| 0 <= j < at ==> ids[j] < n,
        forall|j: int| at <= j < ids.len() ==> n < ids[j],
    decreases ids.len(),
{
    if ids.len() == 0 {
        0
    } else {
        let last = ids.last();
        if last < n {
            ids.len() as int
        } else {
            let rest = ids.drop_last();
            let at = lemma_place_of_index(rest, n);
            assert forall|j: int| 0 <= j < at implies ids[j] < n by {
                assert(rest[j] == ids[j]);
            }
            assert forall|j: int| at <= j < ids.len() implies n < ids[j] by {
                if j < ids.len() - 1 {
                    assert(rest[j] == ids[j]);
                }
            }
            at
        }
    }
}

/// A number put where the order wants it keeps the list ascending, and the
/// list then holds that number besides what it held.
proof fn lemma_insert_index(ids: Seq<usize>, at: int, n: usize)
    requires
        increasing(ids),
        0 <= at <= ids.len(),
        forall|j: int| 0 <= j < at ==> ids[j] < n,
        forall|j: int| at <= j < ids.len() ==> n < ids[j],
    ensures
        increasing(ids.insert(at, n)),
        forall|x: usize| ids.insert(at, n).contains(x) <==> ids.contains(x) || x == n,
{
    let now = ids.insert(at, n);
    assert(now[at] == n);
    assert forall|x: usize| now.contains(x) <==> ids.contains(x) || x == n by {
        if ids.contains(x) {
            let j = choose|j: int| 0 <= j < ids.len() && ids[j] == x;
            if j < at {
                assert(now[j] == x);
            } else {
                assert(now[j + 1] == x);
            }
        }
    }
}

/// Parts that each choose a candidate choose a list together.
pub proof fn lemma_selection_exists(parts: Seq<Seq<char>>, count: nat)
    requires
        forall|k: int| 0 <= k < parts.len() ==> chosen_index(#[trigger] parts[k], count) is Some,
    ensures
        exists|ids: Seq<usize>| is_selection(parts, count, ids),
    decreases parts.len(),
{
    if parts.len() == 0 {
        let none = Seq::<usize>::empty();
        assert(is_selection(parts, count, none));
    } else {
        let rest = parts.drop_last();
        lemma_selection_exists(rest, count);
        let before = choose|ids: Seq<usize>| is_selection(rest, count, ids);
        let last = parts.len() - 1;
        let value = chosen_index(parts[last], count).unwrap();
        assert forall|x: usize|
            (exists|k: int|
                0 <= k < parts.len() && chosen_index(#[trigger] parts[k], count) == Some(x as nat))
                <==> before.contains(x) || x as nat == value by {
            if exists|k: int|
                0 <= k < parts.len() && chosen_index(#[trigger] parts[k], count) == Some(x as nat) {
                let k = choose|k: int|
                    0 <= k < parts.len() && chosen_index(#[trigger] parts[k], count) == Some(
                        x as nat,
                    );
                if k < last {
                    assert(rest[k] == parts[k]);
                }
            }
        }
        if value <= usize::MAX && !before.contains(value as usize) {
            let n = value as usize;
            let at = lemma_place_of_index(before, n);
            lemma_insert_index(before, at, n);
            let now = before.insert(at, n);
            assert forall|x: usize|
                now.contains(x) <==> exists|k: int|
                    0 <= k < parts.len() && chosen_index(#[trigger] parts[k], count) == Some(
                        x as nat,
                    ) by {
                assert(now.contains(x) <==> before.contains(x) || x == n);
            }
            assert(is_selection(parts, count, now));
        } else {
            assert(is_selection(parts, count, before));
        }
    }
}

/// What `line` chooses among `count` candidates: the chosen numbers in
/// ascending order, or nothing where a part of the line chooses none.
pub open spec fn selection(line: Seq<char>, count: nat) -> Option<Seq<usize>> {
    if exists|at: int| is_first_rejected(tokens(line), count, at) {
        None
    } else {
        Some(choose|ids: Seq<usize>| is_selection(tokens(line), count, ids))
    }
}

/// The first part of `line` that chooses no candidate, without the white
/// space around it.
pub open spec fn rejected_part(line: Seq<char>, count: nat) -> Seq<char> {
    trimmed(tokens(line)[choose|at: int| is_first_rejected(tokens(line), count, at)])
}

/// Where a part chooses no candidate, some part is the first to do so.
proof fn lemma_first_rejected_exists(parts: Seq<Seq<char>>, count: nat, k: int)
    requires
        0 <= k < parts.len(),
        chosen_index(parts[k], count) is None,
    ensures
        exists|at: int| is_first_rejected(parts, count, at),
    decreases k,
{
    if exists|j: int| 0 <= j < k && chosen_index(#[trigger] parts[j], count) is None {
        let j = choose|j: int| 0 <= j < k && chosen_index(#[trigger] parts[j], count) is None;
        lemma_first_rejected_exists(parts, count, j);
    } else {
        assert(is_first_rejected(parts, count, k));
    }
}

/// What a line chooses is well defined: either each of its parts chooses a
/// candidate, and `selection` is what they choose together, or
/// `rejected_part` is the first part that chooses none.
pub proof fn lemma_selection_is_defined(line: Seq<char>, count: nat)
    ensures
        match selection(line, count) {
            Some(ids) => is_selection(tokens(line), count, ids),
            None => exists|at: int|
                is_first_rejected(tokens(line), count, at) && rejected_part(line, count) == trimmed(
                    #[trigger] tokens(line)[at],
                ),
        },
{
    let parts = tokens(line);
    if exists|at: int| is_first_rejected(parts, count, at) {
    } else {
        assert forall|k: int| 0 <= k < parts.len() implies chosen_index(
            #[trigger] parts[k],
            count,
        ) is Some by {
            if chosen_index(parts[k], count) is None {
                lemma_first_rejected_exists(parts, count, k);
            }
        }
        lemma_selection_exists(parts, count);
    }
}

/// The candidates that `input` chooses among `max_id` candidates, numbered
/// from 0.
///
/// The input is cut at its commas, and each part is freed of the white
/// space around it. Where every part writes a number below `max_id`, the
/// numbers are returned, each once, in ascending order. The first part that
/// does not makes the whole input invalid, and the error names that part.
pub fn parse_selection(input: &str, max_id: usize) -> (chosen: Result<Vec<usize>, GeojsonError>)
    ensures
        match chosen {
            Ok(ids) => {
                &&& selection(input@, max_id as nat) == Some(ids@)
                &&& is_selection(tokens(input@), max_id as nat, ids@)
                &&& ids.len() > 0
            },
            Err(e) => {
                &&& selection(input@, max_id as nat) is None
                &&& e matches GeojsonError::InvalidInput(what)
                &&& what@ == rejected_part(input@, max_id as nat) + " is invalid"@
            },
        },
{
    let chosen = parse_parts(input, max_id);
    proof {
        let parts = tokens(input@);
        let count = max_id as nat;
        match &chosen {
            Ok(ids) => {
                let picked = choose|picked: Seq<usize>| is_selection(parts, count, picked);
                lemma_selection_unique(parts, count, ids@, picked);
            },
            Err(e) => {
            },
        }
    }
    chosen
}

} // verus!
