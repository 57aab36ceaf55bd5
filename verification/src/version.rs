use vstd::prelude::*;

use crate::text::chars_of;

verus! {

pub open spec fn is_digit(c: char) -> bool {
    '0' <= c && c <= '9'
}

pub open spec fn digit_value(c: char) -> nat {
    (c as int - '0' as int) as nat
}

/// The number that a sequence of decimal digits writes.
pub open spec fn digits_value(s: Seq<char>) -> nat
    decreases s.len(),
{
    if s.len() == 0 {
        0
    } else {
        digits_value(s.drop_last()) * 10 + digit_value(s.last())
    }
}

pub open spec fn all_digits(s: Seq<char>) -> bool {
    forall|i: int| 0 <= i < s.len() ==> is_digit(#[trigger] s[i])
}

/// What `str::parse::<u16>` accepts: an optional `+`, then at least one
/// decimal digit, and a value that fits in 16 bits.
pub open spec fn parse_u16(s: Seq<char>) -> Option<u16> {
    let d = if s.len() > 0 && s[0] == '+' { s.drop_first() } else { s };
    if d.len() > 0 && all_digits(d) && digits_value(d) <= u16::MAX {
        Some(digits_value(d) as u16)
    } else {
        None
    }
}

/// The pieces of `s` between the dots, as `str::split('.')` gives them.
pub open spec fn split_dots(s: Seq<char>) -> Seq<Seq<char>>
    decreases s.len(),
{
    if s.len() == 0 {
        seq![Seq::<char>::empty()]
    } else {
        let p = split_dots(s.drop_last());
        if s.last() == '.' {
            p.push(Seq::<char>::empty())
        } else {
            p.update(p.len() - 1, p.last().push(s.last()))
        }
    }
}

/// The `k`-th component of a version string: the piece parsed as `u16`,
/// or 0 where it is missing or does not parse.
pub open spec fn version_component(s: Seq<char>, k: int) -> u16 {
    let parts = split_dots(s);
    if 0 <= k < parts.len() {
        match parse_u16(parts[k]) {
            Some(v) => v,
            None => 0,
        }
    } else {
        0
    }
}

pub open spec fn version_triplet(s: Seq<char>) -> (u16, u16, u16) {
    (version_component(s, 0), version_component(s, 1), version_component(s, 2))
}

pub proof fn lemma_split_dots_nonempty(s: Seq<char>)
    ensures
        split_dots(s).len() >= 1,
    decreases s.len(),
{
    if s.len() > 0 {
        lemma_split_dots_nonempty(s.drop_last());
    }
}

proof fn lemma_digits_value_grows(s: Seq<char>, c: char)
    requires
        is_digit(c),
    ensures
        digits_value(s.push(c)) >= digits_value(s),
        digits_value(s.push(c)) == digits_value(s) * 10 + digit_value(c),
{
    assert(s.push(c).drop_last() =~= s);
}

/// Parses a piece of a version string as `str::parse::<u16>` does.
fn parse_piece(d: &Vec<char>) -> (r: Option<u16>)
    ensures
        r == parse_u16(d@),
{
    let mut start: usize = 0;
    if d.len() > 0 && d[0] == '+' {
        start = 1;
    }
    let ghost digits = if d@.len() > 0 && d@[0] == '+' { d@.drop_first() } else { d@ };
    proof {
        assert(digits =~= d@.skip(start as int));
    }
    if start >= d.len() {
        return None;
    }
    let mut value: u32 = 0;
    let mut i: usize = start;
    while i < d.len()
        invariant
            start <= i <= d.len(),
            start < d.len(),
            digits == d@.skip(start as int),
            digits == (if d@.len() > 0 && d@[0] == '+' { d@.drop_first() } else { d@ }),
            all_digits(d@.subrange(start as int, i as int)),
            value as nat == digits_value(d@.subrange(start as int, i as int)),
            value <= u16::MAX,
        decreases d.len() - i,
    {
        let c = d[i];
        if !('0' <= c && c <= '9') {
            proof {
                assert(digits[i - start] == c);
                assert(!is_digit(digits[i - start]));
                assert(!all_digits(digits));
            }
            return None;
        }
        let dv: u32 = (c as u32) - ('0' as u32);
        proof {
            assert(d@.subrange(start as int, i + 1) =~= d@.subrange(start as int, i as int).push(c));
            lemma_digits_value_grows(d@.subrange(start as int, i as int), c);
            assert(dv as nat == digit_value(c));
        }
        let next: u32 = value * 10 + dv;
        if next > 65535 {
            proof {
                // every further digit only makes the value larger
                assert(d@.subrange(start as int, d.len() as int) =~= digits);
                assert(digits.take(i + 1 - start) =~= d@.subrange(start as int, i + 1));
                if all_digits(digits) {
                    lemma_prefix_value_bound(digits, (i + 1 - start) as int);
                }
            }
            return None;
        }
        value = next;
        i = i + 1;
    }
    proof {
        assert(d@.subrange(start as int, d.len() as int) =~= digits);
    }
    Some(value as u16)
}

/// A number written with more digits is at least the number its first
/// `k` digits write.
proof fn lemma_prefix_value_bound(s: Seq<char>, k: int)
    requires
        0 <= k <= s.len(),
        all_digits(s),
    ensures
        digits_value(s) >= digits_value(s.take(k)),
    decreases s.len(),
{
    if s.len() > k {
        assert(s.drop_last().take(k) =~= s.take(k));
        lemma_prefix_value_bound(s.drop_last(), k);
        assert(is_digit(s[s.len() - 1]));
    } else {
        assert(s.take(k) =~= s);
    }
}

/// Splits a version string such as `"1.2.3"` into its three numeric parts.
/// A part that is missing or that is not a number counts as 0.
pub fn version_string_to_triplet(version: &str) -> (r: (u16, u16, u16))
    ensures
        r == version_triplet(version@),
{
    let cs = chars_of(version);
    let mut parts: Vec<Vec<char>> = Vec::new();
    parts.push(Vec::new());
    let mut i: usize = 0;
    proof {
        assert(cs@.take(0) =~= Seq::<char>::empty());
    }
    while i < cs.len()
        invariant
            i <= cs.len(),
            parts.len() >= 1,
            parts@.len() == split_dots(cs@.take(i as int)).len(),
            forall|k: int|
                0 <= k < parts@.len() ==> #[trigger] parts@[k]@ == split_dots(cs@.take(i as int))[k],
        decreases cs.len() - i,
    {
        let c = cs[i];
        let ghost before = cs@.take(i as int);
        proof {
            assert(cs@.take(i + 1).drop_last() =~= before);
            assert(cs@.take(i + 1).last() == c);
            lemma_split_dots_nonempty(before);
        }
        if c == '.' {
            parts.push(Vec::new());
        } else {
            let last = parts.len() - 1;
            let mut piece = parts.pop().unwrap();
            piece.push(c);
            parts.push(piece);
            proof {
                assert(parts@.len() == split_dots(cs@.take(i + 1)).len());
            }
        }
        i = i + 1;
    }
    proof {
        assert(cs@.take(cs.len() as int) =~= version@);
    }
    let mut r0: u16 = 0;
    let mut r1: u16 = 0;
    let mut r2: u16 = 0;
    if parts.len() > 0 {
        r0 = match parse_piece(&parts[0]) {
            Some(v) => v,
            None => 0,
        };
    }
    if parts.len() > 1 {
        r1 = match parse_piece(&parts[1]) {
            Some(v) => v,
            None => 0,
        };
    }
    if parts.len() > 2 {
        r2 = match parse_piece(&parts[2]) {
            Some(v) => v,
            None => 0,
        };
    }
    (r0, r1, r2)
}

/// The decimal digits of `n`, without leading zeros.
pub open spec fn decimal(n: nat) -> Seq<char>
    decreases n,
{
    if n < 10 {
        seq![digit_char(n)]
    } else {
        decimal(n / 10).push(digit_char(n % 10))
    }
}

pub open spec fn digit_char(d: nat) -> char {
    ((48 + d) as u32) as char
}

proof fn lemma_decimal(n: nat)
    ensures
        decimal(n).len() > 0,
        all_digits(decimal(n)),
        digits_value(decimal(n)) == n,
        decimal(n)[0] != '+',
        forall|i: int| 0 <= i < decimal(n).len() ==> #[trigger] decimal(n)[i] != '.',
    decreases n,
{
    if n < 10 {
        assert(digit_value(digit_char(n)) == n);
        assert(seq![digit_char(n)].drop_last() =~= Seq::<char>::empty());
        assert(decimal(n) == seq![digit_char(n)]);
        assert(digits_value(seq![digit_char(n)]) == digits_value(Seq::<char>::empty()) * 10 + digit_value(digit_char(n)));
    } else {
        lemma_decimal(n / 10);
        let d = decimal(n / 10);
        let c = digit_char(n % 10);
        assert(digit_value(c) == n % 10);
        assert(d.push(c).drop_last() =~= d);
        assert(digits_value(d.push(c)) == digits_value(d) * 10 + digit_value(c));
        assert((n / 10) * 10 + n % 10 == n) by (nonlinear_arith);
        assert(decimal(n) == d.push(c));
        assert forall|i: int| 0 <= i < d.push(c).len() implies is_digit(#[trigger] d.push(c)[i]) by {
            if i < d.len() {
                assert(d.push(c)[i] == d[i]);
            }
        }
        assert forall|i: int| 0 <= i < d.push(c).len() implies #[trigger] d.push(c)[i] != '.' by {
            if i < d.len() {
                assert(d.push(c)[i] == d[i]);
            }
        }
    }
}

proof fn lemma_split_append_plain(s: Seq<char>, d: Seq<char>)
    requires
        forall|i: int| 0 <= i < d.len() ==> #[trigger] d[i] != '.',
    ensures
        split_dots(s + d) == split_dots(s).update(
            split_dots(s).len() - 1,
            split_dots(s).last() + d,
        ),
        split_dots(s + d).len() == split_dots(s).len(),
    decreases d.len(),
{
    lemma_split_dots_nonempty(s);
    let p = split_dots(s);
    if d.len() == 0 {
        assert(s + d =~= s);
        assert(p.last() + d =~= p.last());
        assert(p.update(p.len() - 1, p.last() + d) =~= p);
    } else {
        let d0 = d.drop_last();
        lemma_split_append_plain(s, d0);
        assert((s + d).drop_last() =~= s + d0);
        assert((s + d).last() == d.last());
        let q = split_dots(s + d0);
        assert(q.last() == p.last() + d0);
        assert(q.last().push(d.last()) =~= p.last() + d);
        assert(q.update(q.len() - 1, q.last().push(d.last())) =~= p.update(p.len() - 1, p.last() + d));
    }
}

proof fn lemma_split_dot(s: Seq<char>)
    ensures
        split_dots(s.push('.')) == split_dots(s).push(Seq::<char>::empty()),
{
    assert(s.push('.').drop_last() =~= s);
}

/// Writing three numbers as `"a.b.c"` and reading the string back gives
/// the three numbers.
pub proof fn lemma_version_roundtrip(a: u16, b: u16, c: u16)
    ensures
        version_triplet(
            decimal(a as nat) + seq!['.'] + decimal(b as nat) + seq!['.'] + decimal(c as nat),
        ) == (a, b, c),
{
    let da = decimal(a as nat);
    let db = decimal(b as nat);
    let dc = decimal(c as nat);
    lemma_decimal(a as nat);
    lemma_decimal(b as nat);
    lemma_decimal(c as nat);
    let e = Seq::<char>::empty();
    assert(split_dots(e) == seq![e]);
    lemma_split_append_plain(e, da);
    assert(e + da =~= da);
    assert(split_dots(da) =~= seq![da]);
    let s1 = da.push('.');
    lemma_split_dot(da);
    assert(split_dots(s1) =~= seq![da, e]);
    lemma_split_append_plain(s1, db);
    let s2 = s1 + db;
    assert(split_dots(s2) =~= seq![da, db]);
    lemma_split_dot(s2);
    let s3 = s2.push('.');
    lemma_split_append_plain(s3, dc);
    let s4 = s3 + dc;
    assert(split_dots(s4) =~= seq![da, db, dc]);
    assert(s4 =~= da + seq!['.'] + db + seq!['.'] + dc);
    assert(parse_u16(da) == Some(a));
    assert(parse_u16(db) == Some(b));
    assert(parse_u16(dc) == Some(c));
}

} // verus!
