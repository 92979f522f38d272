//! Character-sequence operations used by the redaction rules.

use vstd::prelude::*;

verus! {

/// `s` begins with `p`.
pub open spec fn has_prefix(s: Seq<char>, p: Seq<char>) -> bool {
    p.len() <= s.len() && s.subrange(0, p.len() as int) == p
}

/// `p` occurs in `t` as a contiguous piece.
pub open spec fn occurs_in(t: Seq<char>, p: Seq<char>) -> bool {
    exists|i: int| 0 <= i && i + p.len() <= t.len() && #[trigger] t.subrange(i, i + p.len()) == p
}

/// Every occurrence of `p` in `t` replaced by `r`, scanning left to right without
/// overlap. An empty `p` occurs before every character and at the end.
pub open spec fn replaced(t: Seq<char>, p: Seq<char>, r: Seq<char>) -> Seq<char>
    decreases t.len(),
{
    if p.len() == 0 {
        if t.len() == 0 {
            r
        } else {
            r + seq![t[0]] + replaced(t.drop_first(), p, r)
        }
    } else if t.len() == 0 {
        t
    } else if has_prefix(t, p) {
        r + replaced(t.subrange(p.len() as int, t.len() as int), p, r)
    } else {
        seq![t[0]] + replaced(t.drop_first(), p, r)
    }
}

/// The decimal digit for `d < 10`.
pub open spec fn digit_char(d: nat) -> char {
    ((d + 48) as u32) as char
}

/// The decimal writing of `n`, without leading zeros.
pub open spec fn decimal(n: nat) -> Seq<char>
    decreases n,
{
    if n < 10 {
        seq![digit_char(n)]
    } else {
        decimal(n / 10).push(digit_char(n % 10))
    }
}

/// Relies on str::chars: it yields the characters of the string in order.
#[verifier::external_body]
pub(crate) fn chars_of(s: &str) -> (r: Vec<char>)
    ensures
        r@ == s@,
{
    s.chars().collect()
}

/// Relies on collecting characters into a String: the string holds them in order.
#[verifier::external_body]
pub(crate) fn string_of(v: &Vec<char>) -> (r: String)
    ensures
        r@ == v@,
{
    v.iter().collect()
}

/// Appends the characters of `s` to `out`.
pub fn push_all(out: &mut Vec<char>, s: &Vec<char>)
    ensures
        final(out)@ == old(out)@ + s@,
{
    let mut k: usize = 0;
    while k < s.len()
        invariant
            k <= s.len(),
            out@ == old(out)@ + s@.subrange(0, k as int),
        decreases s.len() - k,
    {
        out.push(s[k]);
        k = k + 1;
        assert(s@.subrange(0, k as int) =~= s@.subrange(0, k - 1 as int).push(s@[k - 1]));
    }
    assert(s@.subrange(0, s.len() as int) =~= s@);
}

/// Whether `p` occurs in `t` starting at position `i`.
pub fn matches_at(t: &Vec<char>, i: usize, p: &Vec<char>) -> (b: bool)
    requires
        i <= t.len(),
    ensures
        b == has_prefix(t@.subrange(i as int, t.len() as int), p@),
        b == (i + p.len() <= t.len() && t@.subrange(i as int, i + p.len()) == p@),
{
    if p.len() > t.len() - i {
        return false;
    }
    let mut k: usize = 0;
    while k < p.len()
        invariant
            k <= p.len(),
            i + p.len() <= t.len(),
            forall|m: int| 0 <= m < k ==> t@[i + m] == p@[m],
        decreases p.len() - k,
    {
        if t[i + k] != p[k] {
            assert(t@.subrange(i as int, i + p.len())[k as int] != p@[k as int]);
            assert(t@.subrange(i as int, t.len() as int).subrange(0, p.len() as int)[k as int]
                != p@[k as int]);
            return false;
        }
        k = k + 1;
    }
    assert(t@.subrange(i as int, i + p.len()) =~= p@);
    assert(t@.subrange(i as int, t.len() as int).subrange(0, p.len() as int) =~= p@);
    true
}

/// Whether `e` begins with `p`.
pub fn starts_with_chars(e: &Vec<char>, p: &Vec<char>) -> (b: bool)
    ensures
        b == has_prefix(e@, p@),
{
    let b = matches_at(e, 0, p);
    assert(e@.subrange(0, e.len() as int) =~= e@);
    b
}

/// Appends `t[from..to]` to `out`.
pub fn push_range(out: &mut Vec<char>, t: &Vec<char>, from: usize, to: usize)
    requires
        from <= to <= t.len(),
    ensures
        final(out)@ == old(out)@ + t@.subrange(from as int, to as int),
{
    let mut k: usize = from;
    while k < to
        invariant
            from <= k <= to <= t.len(),
            out@ == old(out)@ + t@.subrange(from as int, k as int),
        decreases to - k,
    {
        out.push(t[k]);
        k = k + 1;
        assert(out@ =~= old(out)@ + t@.subrange(from as int, k as int));
    }
}

/// Whether `p` occurs anywhere in `t`.
pub fn contains_chars(t: &Vec<char>, p: &Vec<char>) -> (b: bool)
    ensures
        b == occurs_in(t@, p@),
{
    if p.len() > t.len() {
        return false;
    }
    let last: usize = t.len() - p.len();
    let mut i: usize = 0;
    loop
        invariant
            p.len() <= t.len(),
            last == t.len() - p.len(),
            i <= last,
            forall|m: int| 0 <= m < i ==> #[trigger] t@.subrange(m, m + p.len()) != p@,
        ensures
            forall|m: int| 0 <= m <= last ==> #[trigger] t@.subrange(m, m + p.len()) != p@,
        decreases last - i,
    {
        if matches_at(t, i, p) {
            return true;
        }
        if i == last {
            break;
        }
        i = i + 1;
    }
    assert forall|m: int| 0 <= m && m + p.len() <= t.len() implies #[trigger] t@.subrange(
        m,
        m + p.len(),
    ) != p@ by {
        assert(m <= last);
    }
    false
}

/// Every occurrence of `p` in `t` replaced by `r`.
pub fn replace_chars(t: &Vec<char>, p: &Vec<char>, r: &Vec<char>) -> (out: Vec<char>)
    ensures
        out@ == replaced(t@, p@, r@),
{
    let mut out: Vec<char> = Vec::new();
    let mut i: usize = 0;
    assert(t@.subrange(0, t.len() as int) =~= t@);
    assert(out@ + replaced(t@, p@, r@) =~= replaced(t@, p@, r@));
    while i < t.len()
        invariant
            i <= t.len(),
            out@ + replaced(t@.subrange(i as int, t.len() as int), p@, r@) == replaced(t@, p@, r@),
        decreases t.len() - i,
    {
        let ghost rest = t@.subrange(i as int, t.len() as int);
        if p.len() > 0 && matches_at(t, i, p) {
            push_all(&mut out, r);
            assert(rest.subrange(p.len() as int, rest.len() as int) =~= t@.subrange(
                i + p.len(),
                t.len() as int,
            ));
            i = i + p.len();
        } else {
            if p.len() == 0 {
                push_all(&mut out, r);
            }
            out.push(t[i]);
            assert(rest.drop_first() =~= t@.subrange(i + 1, t.len() as int));
            i = i + 1;
        }
        assert(out@ + replaced(t@.subrange(i as int, t.len() as int), p@, r@) =~= replaced(t@, p@, r@));
    }
    if p.len() == 0 {
        push_all(&mut out, r);
    }
    assert(out@ =~= replaced(t@, p@, r@));
    out
}

/// The decimal writing of `n`.
pub fn decimal_chars(n: u64) -> (r: Vec<char>)
    ensures
        r@ == decimal(n as nat),
    decreases n,
{
    let d: u8 = (n % 10) as u8;
    let c: char = (d + 48) as char;
    if n < 10 {
        vec![c]
    } else {
        let mut v = decimal_chars(n / 10);
        v.push(c);
        v
    }
}

} // verus!
