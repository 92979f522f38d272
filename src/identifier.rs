//! Canonical identifiers derived from display names.

use vstd::prelude::*;

use crate::text::{chars_of, string_of};

verus! {

/// An ASCII letter or digit: the characters an identifier keeps.
pub open spec fn is_id_char(c: char) -> bool {
    ('a' <= c && c <= 'z') || ('A' <= c && c <= 'Z') || ('0' <= c && c <= '9')
}

/// ASCII lowercasing of one character; other characters are left as they are.
pub open spec fn lower_char(c: char) -> char {
    if 'A' <= c && c <= 'Z' {
        ((c as u32) + 32) as char
    } else {
        c
    }
}

/// The identifier of a name: its ASCII letters and digits, in order, lowercased.
pub open spec fn normalized(s: Seq<char>) -> Seq<char>
    decreases s.len(),
{
    if s.len() == 0 {
        Seq::empty()
    } else if is_id_char(s.last()) {
        normalized(s.drop_last()).push(lower_char(s.last()))
    } else {
        normalized(s.drop_last())
    }
}

fn lower(c: char) -> (r: char)
    ensures
        r == lower_char(c),
{
    if 'A' <= c && c <= 'Z' {
        ((c as u8) + 32) as char
    } else {
        c
    }
}

/// The identifier of a name given as characters.
pub fn normalize_chars(s: &Vec<char>) -> (r: Vec<char>)
    ensures
        r@ == normalized(s@),
{
    let mut out: Vec<char> = Vec::new();
    let mut i: usize = 0;
    while i < s.len()
        invariant
            i <= s.len(),
            out@ == normalized(s@.subrange(0, i as int)),
        decreases s.len() - i,
    {
        let c = s[i];
        assert(s@.subrange(0, i + 1).drop_last() =~= s@.subrange(0, i as int));
        if ('a' <= c && c <= 'z') || ('A' <= c && c <= 'Z') || ('0' <= c && c <= '9') {
            out.push(lower(c));
        }
        i = i + 1;
    }
    assert(s@.subrange(0, s.len() as int) =~= s@);
    out
}

/// The identifier of a display name: its ASCII letters and digits, lowercased.
pub fn to_id(s: &str) -> (r: String)
    ensures
        r@ == normalized(s@),
{
    let v = chars_of(s);
    string_of(&normalize_chars(&v))
}

/// Every character of an identifier is a lowercase ASCII letter or a digit.
pub open spec fn is_identifier(s: Seq<char>) -> bool {
    forall|k: int| 0 <= k < s.len() ==> is_id_char(#[trigger] s[k]) && lower_char(s[k]) == s[k]
}

proof fn lemma_normalized_is_identifier(s: Seq<char>)
    ensures
        is_identifier(normalized(s)),
    decreases s.len(),
{
    if s.len() > 0 {
        lemma_normalized_is_identifier(s.drop_last());
    }
}

proof fn lemma_identifier_fixed(s: Seq<char>)
    requires
        is_identifier(s),
    ensures
        normalized(s) == s,
    decreases s.len(),
{
    if s.len() > 0 {
        lemma_identifier_fixed(s.drop_last());
        assert(s.drop_last().push(s.last()) =~= s);
    }
}

/// Normalizing an identifier again leaves it unchanged.
pub proof fn lemma_normalize_idempotent(s: Seq<char>)
    ensures
        normalized(normalized(s)) == normalized(s),
{
    lemma_normalized_is_identifier(s);
    lemma_identifier_fixed(normalized(s));
}

} // verus!
