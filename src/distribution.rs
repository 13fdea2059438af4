use vstd::prelude::*;

use crate::error::ChumError;
use crate::text::{
    all_digits, chars_of, digits_value, is_digit, lemma_digits_prefix_le,
    string_from_chars,
};
use crate::worker::{operation_of, Operation};

verus! {

/// `s` cut at every `sep`: always at least one piece, empty pieces kept.
pub open spec fn split_on(s: Seq<char>, sep: char) -> Seq<Seq<char>>
    decreases s.len(),
{
    if s.len() == 0 {
        seq![Seq::empty()]
    } else {
        let init = split_on(s.drop_last(), sep);
        if s.last() == sep {
            init.push(Seq::empty())
        } else {
            init.update(init.len() - 1, init.last().push(s.last()))
        }
    }
}

/// Splitting always gives at least one piece.
pub proof fn lemma_split_nonempty(s: Seq<char>, sep: char)
    ensures
        split_on(s, sep).len() >= 1,
    decreases s.len(),
{
    if s.len() > 0 {
        lemma_split_nonempty(s.drop_last(), sep);
    }
}

/// The views of a vector of character vectors.
pub open spec fn views_of(v: Seq<Vec<char>>) -> Seq<Seq<char>> {
    v.map_values(|x: Vec<char>| x@)
}

/// The views of a vector of strings.
pub open spec fn string_views(v: Seq<String>) -> Seq<Seq<char>> {
    v.map_values(|x: String| x@)
}

/// Cuts `cs` at every `sep`.
pub fn split_chars(cs: &Vec<char>, sep: char) -> (r: Vec<Vec<char>>)
    ensures
        views_of(r@) == split_on(cs@, sep),
{
    let mut out: Vec<Vec<char>> = Vec::new();
    let mut cur: Vec<char> = Vec::new();
    let mut i: usize = 0;
    while i < cs.len()
        invariant
            i <= cs.len(),
            views_of(out@).push(cur@) == split_on(cs@.subrange(0, i as int), sep),
        decreases cs.len() - i,
    {
        let ghost pre = cs@.subrange(0, i as int);
        let ghost next = cs@.subrange(0, i as int + 1);
        assert(next.drop_last() =~= pre);
        proof {
            lemma_split_nonempty(pre, sep);
        }
        if cs[i] == sep {
            out.push(cur);
            cur = Vec::new();
            assert(views_of(out@).push(cur@) =~= split_on(next, sep));
        } else {
            cur.push(cs[i]);
            assert(views_of(out@).push(cur@) =~= split_on(next, sep));
        }
        i += 1;
    }
    assert(cs@.subrange(0, cs.len() as int) =~= cs@);
    out.push(cur);
    assert(views_of(out@) =~= split_on(cs@, sep));
    out
}

/// The value of a multiplier as `str::parse::<u32>` reads it: an optional
/// `+`, then at least one decimal digit, the number at most `u32::MAX`.
pub open spec fn multiplier_of(s: Seq<char>) -> Option<nat> {
    let d = if s.len() > 0 && s[0] == '+' {
        s.drop_first()
    } else {
        s
    };
    if d.len() > 0 && all_digits(d) && digits_value(d) <= u32::MAX {
        Some(digits_value(d))
    } else {
        None
    }
}

/// Reads the digits `cs[start..]` as a number no larger than `limit`;
/// `None` when they are not all digits, or none, or the number is larger.
fn read_bounded(cs: &Vec<char>, start: usize, limit: u64) -> (r: Option<u64>)
    requires
        start <= cs.len(),
    ensures
        ({
            let d = cs@.subrange(start as int, cs.len() as int);
            match r {
                Some(v) => d.len() > 0 && all_digits(d) && v == digits_value(d) && v <= limit,
                None => !(d.len() > 0 && all_digits(d) && digits_value(d) <= limit),
            }
        }),
{
    let ghost d = cs@.subrange(start as int, cs.len() as int);
    if start == cs.len() {
        return None;
    }
    let mut acc: u64 = 0;
    let mut i: usize = start;
    while i < cs.len()
        invariant
            start <= i <= cs.len(),
            d == cs@.subrange(start as int, cs.len() as int),
            all_digits(cs@.subrange(start as int, i as int)),
            acc == digits_value(cs@.subrange(start as int, i as int)),
            acc <= limit,
        decreases cs.len() - i,
    {
        let ghost pre = cs@.subrange(start as int, i as int);
        let ghost next = cs@.subrange(start as int, i as int + 1);
        assert(next.drop_last() =~= pre);
        let c = cs[i];
        if !('0' <= c && c <= '9') {
            assert(d[i - start] == c);
            return None;
        }
        let dv: u64 = (c as u32 - '0' as u32) as u64;
        assert(digits_value(next) == acc * 10 + dv);
        if dv > limit || acc > (limit - dv) / 10 {
            assert(acc * 10 + dv > limit) by (nonlinear_arith)
                requires
                    dv > limit || acc > (limit - dv) / 10,
            ;
            proof {
                assert(next =~= d.subrange(0, (i - start) + 1));
                lemma_digits_prefix_le(d, (i - start) + 1);
            }
            return None;
        }
        assert(acc * 10 + dv <= limit) by (nonlinear_arith)
            requires
                acc <= (limit - dv) / 10,
                dv <= limit,
        ;
        acc = acc * 10 + dv;
        i += 1;
        assert(all_digits(next)) by {
            assert forall|j: int| 0 <= j < next.len() implies is_digit(#[trigger] next[j]) by {
                if j < next.len() - 1 {
                    assert(next[j] == pre[j]);
                }
            }
        }
    }
    assert(cs@.subrange(start as int, i as int) =~= d);
    Some(acc)
}

/// Reads a multiplier of the distribution syntax.
fn parse_multiplier(cs: &Vec<char>) -> (r: Option<u32>)
    ensures
        match multiplier_of(cs@) {
            Some(n) => r == Some(n as u32),
            None => r is None,
        },
{
    let start: usize = if cs.len() > 0 && cs[0] == '+' {
        1
    } else {
        0
    };
    assert(cs@.subrange(start as int, cs.len() as int) =~= if cs@.len() > 0 && cs@[0] == '+' {
        cs@.drop_first()
    } else {
        cs@
    });
    match read_bounded(cs, start, 4294967295u64) {
        Some(v) => Some(v as u32),
        None => None,
    }
}

/// The message for an entry with more than one `:`.
pub open spec fn too_many_msg(entry: Seq<char>) -> Seq<char> {
    "too many multiples in token '"@ + entry + "'"@
}

/// The message for a multiplier that is not a number.
pub open spec fn not_a_number_msg(m: Seq<char>) -> Seq<char> {
    "failed to parse '"@ + m + "' as a number"@
}

/// The tokens that one entry stands for, or the message that rejects it.
pub open spec fn entry_expansion(entry: Seq<char>) -> Result<Seq<Seq<char>>, Seq<char>> {
    let parts = split_on(entry, ':');
    if parts.len() == 1 {
        Ok(seq![entry])
    } else if parts.len() == 2 {
        match multiplier_of(parts[1]) {
            Some(n) => Ok(Seq::new(n, |i: int| parts[0])),
            None => Err(not_a_number_msg(parts[1])),
        }
    } else {
        Err(too_many_msg(entry))
    }
}

/// The expansion of the entries `es` in order; the first rejected entry decides the error.
pub open spec fn expand_entries(es: Seq<Seq<char>>) -> Result<Seq<Seq<char>>, Seq<char>>
    decreases es.len(),
{
    if es.len() == 0 {
        Ok(Seq::empty())
    } else {
        match expand_entries(es.drop_last()) {
            Err(m) => Err(m),
            Ok(acc) => match entry_expansion(es.last()) {
                Err(m) => Err(m),
                Ok(more) => Ok(acc + more),
            },
        }
    }
}

/// The expansion of a distribution string: its comma-separated entries, each
/// `TOKEN` once or `TOKEN:N` as `N` copies of `TOKEN`.
pub open spec fn expansion(s: Seq<char>) -> Result<Seq<Seq<char>>, Seq<char>> {
    expand_entries(split_on(s, ','))
}

/// Builds `pre + mid + post` as a string.
fn framed(pre: &str, mid: &Vec<char>, post: &str) -> (r: String)
    ensures
        r@ == pre@ + mid@ + post@,
{
    let mut s = String::from_str(pre);
    let m = string_from_chars(mid);
    s.append(m.as_str());
    s.append(post);
    s
}

/// Expands one entry onto `out`.
fn expand_entry(entry: &Vec<char>, out: &mut Vec<String>) -> (r: Result<(), ChumError>)
    ensures
        match entry_expansion(entry@) {
            Ok(more) => r is Ok && string_views(final(out)@) == string_views(old(out)@) + more,
            Err(m) => r is Err && r->Err_0@ == m,
        },
{
    let parts = split_chars(entry, ':');
    proof {
        assert(views_of(parts@).len() == parts@.len());
    }
    if parts.len() == 1 {
        out.push(string_from_chars(entry));
        assert(string_views(final(out)@) =~= string_views(old(out)@) + seq![entry@]);
        Ok(())
    } else if parts.len() == 2 {
        assert(views_of(parts@)[1] == parts@[1]@);
        assert(views_of(parts@)[0] == parts@[0]@);
        match parse_multiplier(&parts[1]) {
            Some(n) => {
                let tok = string_from_chars(&parts[0]);
                let mut k: u32 = 0;
                while k < n
                    invariant
                        k <= n,
                        parts@.len() == 2,
                        tok@ == parts@[0]@,
                        string_views(out@) == string_views(old(out)@) + Seq::new(
                            k as nat,
                            |i: int| parts@[0]@,
                        ),
                    decreases n - k,
                {
                    let ghost prev = string_views(out@);
                    out.push(tok.clone());
                    k += 1;
                    assert(string_views(out@) =~= prev.push(tok@));
                    assert(string_views(out@) =~= string_views(old(out)@) + Seq::new(
                        k as nat,
                        |i: int| parts@[0]@,
                    ));
                }
                Ok(())
            },
            None => {
                proof {
                    reveal_strlit("failed to parse '");
                    reveal_strlit("' as a number");
                }
                Err(ChumError::from_message(framed("failed to parse '", &parts[1], "' as a number")))
            },
        }
    } else {
        proof {
            reveal_strlit("too many multiples in token '");
            reveal_strlit("'");
        }
        Err(ChumError::from_message(framed("too many multiples in token '", entry, "'")))
    }
}

/// Expands a distribution string such as `1:3,2,3` into `[1, 1, 1, 2, 3]`.
pub fn expand_distribution(dstr: &str) -> (r: Result<Vec<String>, ChumError>)
    ensures
        match expansion(dstr@) {
            Ok(toks) => r is Ok && string_views(r->Ok_0@) == toks,
            Err(m) => r is Err && r->Err_0@ == m,
        },
{
    let cs = chars_of(dstr);
    let entries = split_chars(&cs, ',');
    let ghost es = split_on(dstr@, ',');
    let mut out: Vec<String> = Vec::new();
    let mut j: usize = 0;
    assert(es.subrange(0, 0) =~= Seq::<Seq<char>>::empty());
    assert(string_views(out@) =~= Seq::<Seq<char>>::empty());
    while j < entries.len()
        invariant
            j <= entries.len(),
            views_of(entries@) == es,
            es == split_on(dstr@, ','),
            expand_entries(es.subrange(0, j as int)) == Ok::<Seq<Seq<char>>, Seq<char>>(
                string_views(out@),
            ),
        decreases entries.len() - j,
    {
        assert(es.subrange(0, j as int + 1).drop_last() =~= es.subrange(0, j as int));
        assert(es[j as int] == entries@[j as int]@);
        let res = expand_entry(&entries[j], &mut out);
        if res.is_err() {
            proof {
                lemma_expand_err_extends(es, j as int + 1);
            }
            return Err(res.unwrap_err());
        }
        j += 1;
    }
    assert(es.subrange(0, j as int) =~= es);
    Ok(out)
}

/// Once a prefix of the entries is rejected, so is the whole list, with the same message.
proof fn lemma_expand_err_extends(es: Seq<Seq<char>>, k: int)
    requires
        0 <= k <= es.len(),
        expand_entries(es.subrange(0, k)) is Err,
    ensures
        expand_entries(es) == expand_entries(es.subrange(0, k)),
    decreases es.len() - k,
{
    if k < es.len() {
        assert(es.subrange(0, k + 1).drop_last() =~= es.subrange(0, k));
        lemma_expand_err_extends(es, k + 1);
    } else {
        assert(es.subrange(0, k) =~= es);
    }
}

/// The factor of a unit suffix (`k`, `m`, `g`, `t`, either case: 1024 to the
/// power 1 to 4); zero for any other character.
pub open spec fn unit_multiplier(c: char) -> nat {
    if c == 'k' || c == 'K' {
        1024
    } else if c == 'm' || c == 'M' {
        1048576
    } else if c == 'g' || c == 'G' {
        1073741824
    } else if c == 't' || c == 'T' {
        1099511627776
    } else {
        0
    }
}

/// Digits followed by one unit suffix.
pub open spec fn is_size_literal(s: Seq<char>) -> bool {
    &&& s.len() >= 2
    &&& all_digits(s.drop_last())
    &&& unit_multiplier(s.last()) > 0
}

/// The one message for every malformed size literal.
pub open spec fn size_syntax_msg() -> Seq<char> {
    "provided value must be a positive number with a unit suffix"@
}

/// The message for a size literal that does not fit in 64 bits.
pub open spec fn size_range_msg() -> Seq<char> {
    "provided value is too large"@
}

/// The number of bytes a human-sized literal stands for, or the message that rejects it.
pub open spec fn size_value(s: Seq<char>) -> Result<nat, Seq<char>> {
    if s == seq!['0'] {
        Ok(0)
    } else if !is_size_literal(s) {
        Err(size_syntax_msg())
    } else {
        let v = digits_value(s.drop_last()) * unit_multiplier(s.last());
        if v <= u64::MAX {
            Ok(v)
        } else {
            Err(size_range_msg())
        }
    }
}

fn unit_factor(c: char) -> (r: u64)
    ensures
        r == unit_multiplier(c),
{
    if c == 'k' || c == 'K' {
        1024
    } else if c == 'm' || c == 'M' {
        1048576
    } else if c == 'g' || c == 'G' {
        1073741824
    } else if c == 't' || c == 'T' {
        1099511627776
    } else {
        0
    }
}

fn are_digits(cs: &Vec<char>) -> (r: bool)
    ensures
        r == all_digits(cs@),
{
    let mut i: usize = 0;
    while i < cs.len()
        invariant
            i <= cs.len(),
            forall|j: int| 0 <= j < i ==> is_digit(#[trigger] cs@[j]),
        decreases cs.len() - i,
    {
        if !('0' <= cs[i] && cs[i] <= '9') {
            return false;
        }
        i += 1;
    }
    true
}

fn size_syntax_error() -> (r: ChumError)
    ensures
        r@ == size_syntax_msg(),
{
    ChumError::new("provided value must be a positive number with a unit suffix")
}

/// Converts a human-sized literal (`4k`, `1M`, `0`) to bytes.
pub fn parse_human(val: &str) -> (r: Result<u64, ChumError>)
    ensures
        match size_value(val@) {
            Ok(v) => r == Ok::<u64, ChumError>(v as u64),
            Err(m) => r is Err && r->Err_0@ == m,
        },
{
    let mut cs = chars_of(val);
    let n = cs.len();
    if n == 1 && cs[0] == '0' {
        assert(cs@ =~= seq!['0']);
        return Ok(0);
    }
    if n < 2 {
        return Err(size_syntax_error());
    }
    let last = cs[n - 1];
    let mult = unit_factor(last);
    let _ = cs.pop();
    assert(cs@ =~= val@.drop_last());
    if mult == 0 || !are_digits(&cs) {
        return Err(size_syntax_error());
    }
    let limit: u64 = 18446744073709551615u64 / mult;
    assert(cs@.subrange(0, cs.len() as int) =~= cs@);
    match read_bounded(&cs, 0, limit) {
        Some(v) => {
            assert(v * mult <= u64::MAX) by (nonlinear_arith)
                requires
                    v <= limit,
                    limit == 18446744073709551615u64 / mult,
                    mult > 0,
            ;
            Ok(v * mult)
        },
        None => {
            assert(digits_value(cs@) * mult > u64::MAX) by (nonlinear_arith)
                requires
                    digits_value(cs@) > limit,
                    limit == 18446744073709551615u64 / mult,
                    mult > 0,
            ;
            Err(ChumError::new("provided value is too large"))
        },
    }
}

/// Converts each token of an expanded distribution to bytes; the first
/// token that is not a size literal decides the error.
pub fn convert_numeric_distribution(dstr: Vec<String>) -> (r: Result<Vec<u64>, ChumError>)
    ensures
        match r {
            Ok(v) => v@.len() == dstr@.len() && forall|i: int|
                0 <= i < dstr@.len() ==> size_value(#[trigger] dstr@[i]@) == Ok::<nat, Seq<char>>(
                    v@[i] as nat,
                ),
            Err(e) => exists|k: int|
                0 <= k < dstr@.len() && (forall|i: int|
                    0 <= i < k ==> #[trigger] size_value(dstr@[i]@) is Ok) && size_value(dstr@[k]@)
                    == Err::<nat, Seq<char>>(e@),
        },
{
    let mut out: Vec<u64> = Vec::new();
    let mut i: usize = 0;
    while i < dstr.len()
        invariant
            i <= dstr@.len(),
            out@.len() == i,
            forall|j: int|
                0 <= j < i ==> size_value(#[trigger] dstr@[j]@) == Ok::<nat, Seq<char>>(
                    out@[j] as nat,
                ),
        decreases dstr.len() - i,
    {
        match parse_human(dstr[i].as_str()) {
            Ok(v) => out.push(v),
            Err(e) => {
                assert(forall|j: int| 0 <= j < i ==> #[trigger] size_value(dstr@[j]@) is Ok);
                return Err(e);
            },
        }
        i += 1;
    }
    Ok(out)
}

/// Converts each token of an expanded distribution to an `Operation`; the
/// first token that names none decides the error.
pub fn convert_operation_distribution(dstr: Vec<String>) -> (r: Result<Vec<Operation>, ChumError>)
    ensures
        match r {
            Ok(v) => v@.len() == dstr@.len() && forall|i: int|
                0 <= i < dstr@.len() ==> operation_of(#[trigger] dstr@[i]@) == Some(v@[i]),
            Err(e) => e@ == "invalid operation requested"@ && exists|k: int|
                0 <= k < dstr@.len() && (forall|i: int|
                    0 <= i < k ==> #[trigger] operation_of(dstr@[i]@) is Some) && operation_of(
                    dstr@[k]@,
                ) is None,
        },
{
    let mut out: Vec<Operation> = Vec::new();
    let mut i: usize = 0;
    while i < dstr.len()
        invariant
            i <= dstr@.len(),
            out@.len() == i,
            forall|j: int| 0 <= j < i ==> operation_of(#[trigger] dstr@[j]@) == Some(out@[j]),
        decreases dstr.len() - i,
    {
        match Operation::parse(dstr[i].as_str()) {
            Ok(op) => out.push(op),
            Err(e) => {
                assert(forall|j: int| 0 <= j < i ==> #[trigger] operation_of(dstr@[j]@) is Some);
                return Err(e);
            },
        }
        i += 1;
    }
    Ok(out)
}

} // verus!
