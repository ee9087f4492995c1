//! Parses a problem instance from its text form: a size line, a capacity
//! line, one line of three gains per group, a blank separator, and one line
//! of three costs per group. Reading the file is the caller's business; this
//! module turns its lines into a well-formed `Problem` or a parse error.

use vstd::prelude::*;

verus! {

use crate::structure::make_item;
use crate::structure::problem::{Item, Problem, VALUE_LIMIT};

/// Why a problem text was rejected.
#[derive(Debug, Clone, Copy, PartialEq, Eq, Structural)]
pub enum ParseError {
    /// Fewer than the two header lines.
    MissingHeader,
    /// A number is malformed or out of range.
    InvalidNumber,
    /// The line count does not match the declared size, or the separator
    /// line is not blank.
    WrongGroupCount,
    /// A group line does not hold exactly three numbers.
    WrongItemCount,
}

/// A decimal digit.
pub open spec fn is_digit(c: char) -> bool {
    '0' <= c && c <= '9'
}

/// Blank characters that separate the numbers of a line.
pub open spec fn is_space(c: char) -> bool {
    c == ' ' || c == '\t' || c == '\r'
}

/// The value of a digit string, most significant digit first.
pub open spec fn digits_val(s: Seq<char>) -> int
    decreases s.len(),
{
    if s.len() == 0 {
        0
    } else {
        digits_val(s.drop_last()) * 10 + (s.last() as int - '0' as int)
    }
}

/// A non-empty, all-digit string.
pub open spec fn is_number(s: Seq<char>) -> bool {
    s.len() >= 1 && forall|i: int| 0 <= i < s.len() ==> is_digit(#[trigger] s[i])
}

/// Where the token starting at `i` ends: the first blank at or after `i`.
pub open spec fn token_end(s: Seq<char>, i: int) -> int
    decreases s.len() - i when 0 <= i <= s.len()
{
    if i >= s.len() || is_space(s[i]) {
        i
    } else {
        token_end(s, i + 1)
    }
}

/// `token_end` stays within the string and strictly advances on a non-blank.
pub proof fn lemma_token_end_bounds(s: Seq<char>, i: int)
    requires
        0 <= i <= s.len(),
    ensures
        i <= token_end(s, i) <= s.len(),
        i < s.len() && !is_space(s[i]) ==> token_end(s, i) > i,
        forall|k: int| i <= k < token_end(s, i) ==> !is_space(#[trigger] s[k]),
        token_end(s, i) < s.len() ==> is_space(s[token_end(s, i)]),
    decreases s.len() - i,
{
    if !(i >= s.len() || is_space(s[i])) {
        lemma_token_end_bounds(s, i + 1);
    }
}

/// A scan that saw no blank up to `j` pins the token end at `j`.
pub proof fn lemma_token_end_at(s: Seq<char>, i: int, j: int)
    requires
        0 <= i <= j <= s.len(),
        forall|k: int| i <= k < j ==> !is_space(#[trigger] s[k]),
        j == s.len() || is_space(s[j]),
    ensures
        token_end(s, i) == j,
    decreases j - i,
{
    if i < j {
        lemma_token_end_at(s, i + 1, j);
    }
}

/// The blank-separated tokens of `s`, from position `i` on.
pub open spec fn tokens_from(s: Seq<char>, i: int) -> Seq<Seq<char>>
    decreases s.len() - i when 0 <= i <= s.len() via tokens_from_decreases
{
    if i >= s.len() {
        Seq::empty()
    } else if is_space(s[i]) {
        tokens_from(s, i + 1)
    } else {
        seq![s.subrange(i, token_end(s, i))] + tokens_from(s, token_end(s, i))
    }
}

#[via_fn]
proof fn tokens_from_decreases(s: Seq<char>, i: int) {
    if 0 <= i < s.len() && !is_space(s[i]) {
        lemma_token_end_bounds(s, i);
    }
}

/// The blank-separated tokens of a whole line.
pub open spec fn tokens_of(s: Seq<char>) -> Seq<Seq<char>> {
    tokens_from(s, 0)
}

/// A line carrying one group: exactly three numbers within `VALUE_LIMIT`.
pub open spec fn group_line_ok(s: Seq<char>) -> bool {
    &&& tokens_of(s).len() == 3
    &&& forall|k: int|
        0 <= k < 3 ==> is_number(#[trigger] tokens_of(s)[k]) && digits_val(tokens_of(s)[k])
            <= VALUE_LIMIT
}

/// The shape `parse_input` accepts: two numeric header lines, `size` gain
/// lines, a blank separator, `size` cost lines, and at most one trailing
/// blank line.
pub open spec fn input_ok(lines: Seq<String>) -> bool {
    &&& lines.len() >= 2
    &&& is_number(lines[0]@)
    &&& digits_val(lines[0]@) <= 0x7fff_ffff
    &&& is_number(lines[1]@)
    &&& digits_val(lines[1]@) <= u32::MAX
    &&& {
        let size = digits_val(lines[0]@);
        &&& (lines.len() == 3 + 2 * size || (lines.len() == 4 + 2 * size && lines[3 + 2
            * size]@.len() == 0))
        &&& lines[2 + size]@.len() == 0
        &&& forall|g: int| 0 <= g < size ==> group_line_ok((#[trigger] lines[2 + g])@)
        &&& forall|g: int| 0 <= g < size ==> group_line_ok((#[trigger] lines[3 + size + g])@)
    }
}

/// Every digit string has a non-negative value, and a prefix is never worth
/// more than the whole.
pub proof fn lemma_digits_val_prefix(s: Seq<char>, j: int)
    requires
        0 <= j <= s.len(),
        forall|i: int| 0 <= i < s.len() ==> is_digit(#[trigger] s[i]),
    ensures
        0 <= digits_val(s.subrange(0, j)),
        digits_val(s.subrange(0, j)) <= digits_val(s),
    decreases s.len() - j,
{
    lemma_digits_val_nonneg(s.subrange(0, j));
    if j < s.len() {
        lemma_digits_val_prefix(s, j + 1);
        assert(s.subrange(0, j + 1).drop_last() =~= s.subrange(0, j));
        lemma_digits_val_nonneg(s.subrange(0, j));
    } else {
        assert(s.subrange(0, j) =~= s);
    }
}

/// The value of a digit string is never negative.
pub proof fn lemma_digits_val_nonneg(s: Seq<char>)
    requires
        forall|i: int| 0 <= i < s.len() ==> is_digit(#[trigger] s[i]),
    ensures
        0 <= digits_val(s),
    decreases s.len(),
{
    if s.len() > 0 {
        assert(forall|i: int|
            0 <= i < s.drop_last().len() ==> is_digit(#[trigger] s.drop_last()[i]));
        lemma_digits_val_nonneg(s.drop_last());
    }
}

/// Parses the digits of `s` between `start` and `end` as a number of at most
/// `max`; rejects anything else.
fn parse_number_range(s: &str, start: usize, end: usize, max: u64) -> (r: Result<u64, ParseError>)
    requires
        start <= end <= s@.len(),
        9 <= max <= u32::MAX,
    ensures
        r matches Ok(v) ==> is_number(s@.subrange(start as int, end as int)) && digits_val(
            s@.subrange(start as int, end as int),
        ) == v && v <= max,
        r is Err ==> !is_number(s@.subrange(start as int, end as int)) || digits_val(
            s@.subrange(start as int, end as int),
        ) > max,
        r matches Err(e) ==> e == ParseError::InvalidNumber,
{
    let ghost tok = s@.subrange(start as int, end as int);
    if start == end {
        return Err(ParseError::InvalidNumber);
    }
    let mut acc: u64 = 0;
    let mut i: usize = start;
    while i < end
        invariant
            start <= i <= end <= s@.len(),
            9 <= max <= u32::MAX,
            tok == s@.subrange(start as int, end as int),
            tok.len() == end - start,
            forall|k: int| 0 <= k < i - start ==> is_digit(#[trigger] tok[k]),
            acc == digits_val(tok.subrange(0, i - start)),
            acc <= max,
        decreases end - i,
    {
        let c = s.get_char(i);
        proof {
            assert(tok[i - start] == s@[i as int]);
        }
        if !(c >= '0' && c <= '9') {
            return Err(ParseError::InvalidNumber);
        }
        let d = (c as u32 - '0' as u32) as u64;
        proof {
            assert(tok.subrange(0, i - start + 1).drop_last() =~= tok.subrange(
                0,
                i - start as int,
            ));
            assert(tok.subrange(0, i - start + 1).last() == tok[i - start]);
        }
        if acc > (max - d) / 10 || acc * 10 > max - d {
            // The number would exceed `max`; a longer digit string is worth
            // at least its prefix, so reject.
            proof {
                vstd::arithmetic::div_mod::lemma_fundamental_div_mod(
                    (max - d) as int,
                    10,
                );
                vstd::arithmetic::div_mod::lemma_mod_bound((max - d) as int, 10);
                assert(acc * 10 + d > max);
                assert(digits_val(tok.subrange(0, i - start + 1)) > max);
                assert(forall|k: int| 0 <= k < i + 1 - start ==> is_digit(#[trigger] tok[k]));
                if forall|k: int| 0 <= k < tok.len() ==> is_digit(#[trigger] tok[k]) {
                    lemma_digits_val_prefix(tok, i - start + 1);
                }
            }
            return Err(ParseError::InvalidNumber);
        }
        acc = acc * 10 + d;
        i = i + 1;
    }
    proof {
        assert(tok.subrange(0, tok.len() as int) =~= tok);
    }
    Ok(acc)
}

/// Whether the line's character at `i` is a blank.
fn blank_at(s: &str, i: usize) -> (r: bool)
    requires
        i < s@.len(),
    ensures
        r == is_space(s@[i as int]),
{
    let c = s.get_char(i);
    c == ' ' || c == '\t' || c == '\r'
}

/// Parses one group line: exactly three numbers within `VALUE_LIMIT`.
#[verifier::rlimit(30)]
fn parse_group_line(line: &String) -> (r: Result<(i64, i64, i64), ParseError>)
    ensures
        r matches Ok(v) ==> group_line_ok(line@) && v.0 == digits_val(tokens_of(line@)[0]) && v.1
            == digits_val(tokens_of(line@)[1]) && v.2 == digits_val(tokens_of(line@)[2]) && 0
            <= v.0 <= VALUE_LIMIT && 0 <= v.1 <= VALUE_LIMIT && 0 <= v.2 <= VALUE_LIMIT,
        r is Err ==> !group_line_ok(line@),
        r matches Err(e) ==> e == ParseError::WrongItemCount || e == ParseError::InvalidNumber,
{
    let s = line.as_str();
    let n = s.unicode_len();
    let mut values: Vec<i64> = Vec::new();
    let mut i: usize = 0;
    let ghost sv = s@;
    let ghost toks = tokens_of(sv);
    while i < n
        invariant
            n == sv.len(),
            sv == s@,
            sv == line@,
            toks == tokens_of(sv),
            i <= n,
            values@.len() <= 3,
            toks.len() == values@.len() + tokens_from(sv, i as int).len(),
            toks =~= toks.subrange(0, values@.len() as int) + tokens_from(sv, i as int),
            forall|k: int|
                0 <= k < values@.len() ==> is_number(#[trigger] toks[k]) && digits_val(toks[k])
                    == values@[k] && 0 <= values@[k] <= VALUE_LIMIT,
        decreases n - i,
    {
        if blank_at(s, i) {
            proof {
                assert(tokens_from(sv, i as int) =~= tokens_from(sv, i + 1));
            }
            i = i + 1;
            continue ;
        }
        // A token starts here; find its end.
        let start = i;
        let mut j = i;
        while j < n && !blank_at(s, j)
            invariant
                start <= j <= n,
                n == sv.len(),
                sv == s@,
                forall|k: int| start <= k < j ==> !is_space(#[trigger] sv[k]),
            decreases n - j,
        {
            j = j + 1;
        }
        proof {
            lemma_token_end_at(sv, start as int, j as int);
        }
        let ghost tok = sv.subrange(start as int, j as int);
        proof {
            assert(tokens_from(sv, start as int) =~= seq![tok] + tokens_from(sv, j as int));
            assert(toks.len() >= values@.len() + 1);
            assert(toks == toks.subrange(0, values@.len() as int) + tokens_from(sv, i as int));
            assert(toks[values@.len() as int] == (toks.subrange(0, values@.len() as int)
                + tokens_from(sv, i as int))[values@.len() as int]);
            assert(toks[values@.len() as int] == tokens_from(sv, i as int)[0]);
            assert(toks[values@.len() as int] == tok);
        }
        if values.len() == 3 {
            // A fourth token: the line cannot be a group.
            proof {
                assert(toks.len() >= 4);
            }
            return Err(ParseError::WrongItemCount);
        }
        let v = match parse_number_range(s, start, j, VALUE_LIMIT as u64) {
            Ok(v) => v,
            Err(_) => {
                proof {
                    assert(!is_number(toks[values@.len() as int]) || digits_val(
                        toks[values@.len() as int],
                    ) > VALUE_LIMIT);
                }
                return Err(ParseError::InvalidNumber);
            },
        };
        let ghost count = values@.len() as int;
        values.push(v as i64);
        i = j;
        proof {
            assert(toks =~= toks.subrange(0, count) + (seq![tok] + tokens_from(sv, j as int)));
            assert(toks.subrange(0, count + 1) =~= toks.subrange(0, count) + seq![tok]);
            assert(toks =~= toks.subrange(0, count + 1) + tokens_from(sv, i as int));
        }
    }
    proof {
        assert(tokens_from(sv, n as int) =~= Seq::<Seq<char>>::empty());
        assert(toks =~= toks.subrange(0, values@.len() as int));
        assert(toks.len() == values@.len());
    }
    if values.len() != 3 {
        return Err(ParseError::WrongItemCount);
    }
    proof {
        assert(group_line_ok(line@));
        assert(values@[0] == digits_val(tokens_of(line@)[0]));
        assert(values@[1] == digits_val(tokens_of(line@)[1]));
        assert(values@[2] == digits_val(tokens_of(line@)[2]));
        assert(0 <= values@[0] <= VALUE_LIMIT);
        assert(0 <= values@[1] <= VALUE_LIMIT);
        assert(0 <= values@[2] <= VALUE_LIMIT);
    }
    Ok((values[0], values[1], values[2]))
}

/// Parses a whole instance. Succeeds exactly on well-shaped input
/// (`input_ok`), and then returns the well-formed problem the text denotes.
pub fn parse_input(lines: &Vec<String>) -> (r: Result<Problem, ParseError>)
    ensures
        r is Ok <==> input_ok(lines@),
        r matches Ok(p) ==> {
            &&& p.wf()
            &&& p.size == digits_val(lines@[0]@)
            &&& p.capacity == digits_val(lines@[1]@)
            &&& p.data@.len() == digits_val(lines@[0]@)
            &&& forall|g: int, k: int|
                0 <= g < p.data@.len() && 0 <= k < 3 ==> (#[trigger] p.data@[g]@[k]).gain
                    == digits_val(tokens_of(lines@[2 + g]@)[k]) && p.data@[g]@[k].cost
                    == digits_val(tokens_of(lines@[3 + p.data@.len() + g]@)[k])
        },
        r matches Err(e) && e == ParseError::MissingHeader ==> lines@.len() < 2,
{
    if lines.len() < 2 {
        return Err(ParseError::MissingHeader);
    }
    let size64 = match parse_number_range(
        lines[0].as_str(),
        0,
        lines[0].as_str().unicode_len(),
        0x7fff_ffff,
    ) {
        Ok(v) => v,
        Err(_) => {
            proof {
                assert(lines@[0]@.subrange(0, lines@[0]@.len() as int) =~= lines@[0]@);
            }
            return Err(ParseError::InvalidNumber);
        },
    };
    proof {
        assert(lines@[0]@.subrange(0, lines@[0]@.len() as int) =~= lines@[0]@);
    }
    let capacity64 = match parse_number_range(
        lines[1].as_str(),
        0,
        lines[1].as_str().unicode_len(),
        0xffff_ffff,
    ) {
        Ok(v) => v,
        Err(_) => {
            proof {
                assert(lines@[1]@.subrange(0, lines@[1]@.len() as int) =~= lines@[1]@);
            }
            return Err(ParseError::InvalidNumber);
        },
    };
    proof {
        assert(lines@[1]@.subrange(0, lines@[1]@.len() as int) =~= lines@[1]@);
    }
    let size = size64 as usize;
    let expected: u64 = 3 + 2 * size64;
    let len64 = lines.len() as u64;
    if len64 != expected && len64 != expected + 1 {
        return Err(ParseError::WrongGroupCount);
    }
    if len64 == expected + 1 {
        if lines[lines.len() - 1].as_str().unicode_len() != 0 {
            return Err(ParseError::WrongGroupCount);
        }
    }
    if lines[2 + size].as_str().unicode_len() != 0 {
        return Err(ParseError::WrongGroupCount);
    }
    let mut data: Vec<Vec<Item>> = Vec::new();
    let total = lines.len();
    let mut g: usize = 0;
    while g < size
        invariant
            lines@.len() == total,
            lines@.len() >= 3 + 2 * size,
            size == size64,
            is_number(lines@[0]@),
            digits_val(lines@[0]@) == size64,
            size64 <= 0x7fff_ffff,
            is_number(lines@[1]@),
            digits_val(lines@[1]@) == capacity64,
            capacity64 <= u32::MAX,
            lines@.len() == 3 + 2 * (size64 as int) || (lines@.len() == 4 + 2 * (size64 as int)
                && lines@[3 + 2 * (size64 as int)]@.len() == 0),
            lines@[2 + size64 as int]@.len() == 0,
            g <= size,
            data@.len() == g,
            forall|q: int| 0 <= q < g ==> (#[trigger] data@[q])@.len() == 3,
            forall|q: int, k: int|
                0 <= q < g && 0 <= k < 3 ==> crate::structure::item_valid(
                    #[trigger] data@[q]@[k],
                ),
            forall|q: int| 0 <= q < g ==> group_line_ok((#[trigger] lines@[2 + q])@),
            forall|q: int| 0 <= q < g ==> group_line_ok((#[trigger] lines@[3 + size + q])@),
            forall|q: int, k: int|
                0 <= q < g && 0 <= k < 3 ==> (#[trigger] data@[q]@[k]).gain == digits_val(
                    tokens_of(lines@[2 + q]@)[k],
                ) && data@[q]@[k].cost == digits_val(tokens_of(lines@[3 + size as int + q]@)[k]),
        decreases size - g,
    {
        let gains = match parse_group_line(&lines[2 + g]) {
            Ok(v) => v,
            Err(e) => {
                proof {
                    if input_ok(lines@) {
                        assert(group_line_ok((lines@[2 + g as int])@));
                    }
                }
                return Err(e);
            },
        };
        let costs = match parse_group_line(&lines[3 + size + g]) {
            Ok(v) => v,
            Err(e) => {
                proof {
                    if input_ok(lines@) {
                        assert(group_line_ok((lines@[3 + size64 as int + g as int])@));
                    }
                }
                return Err(e);
            },
        };
        let mut group: Vec<Item> = Vec::new();
        group.push(make_item(gains.0, costs.0));
        group.push(make_item(gains.1, costs.1));
        group.push(make_item(gains.2, costs.2));
        data.push(group);
        g = g + 1;
    }
    let problem = Problem { capacity: capacity64 as u32, data, size: size64 as i32 };
    proof {
        assert(input_ok(lines@));
        assert(problem.wf());
    }
    Ok(problem)
}

} // verus!
