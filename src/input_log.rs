//! Redaction of the input log: player declarations get their pseudonym in the
//! `name` field, chat commands are dropped.

use vstd::prelude::*;

use crate::text::{chars_of, has_prefix, matches_at, push_all, starts_with_chars, string_of};

verus! {

/// `name":"`, the opening of the name field of a player declaration.
pub open spec fn name_open() -> Seq<char> {
    seq!['n', 'a', 'm', 'e', '"', ':', '"']
}

/// `",`, the close of a string field followed by another field.
pub open spec fn field_close() -> Seq<char> {
    seq!['"', ',']
}

/// `name":"` stands at position `i`.
pub open spec fn opens_at(t: Seq<char>, i: int) -> bool {
    0 <= i && i + 7 <= t.len() && t.subrange(i, i + 7) == name_open()
}

/// `",` stands at position `j`.
pub open spec fn closes_at(t: Seq<char>, j: int) -> bool {
    0 <= j && j + 2 <= t.len() && t[j] == '"' && t[j + 1] == ','
}

/// The position of the first line break at or after `k`, or the length of `t`.
pub open spec fn line_end(t: Seq<char>, k: int) -> int
    decreases t.len() - k,
{
    if k < 0 || k >= t.len() {
        t.len() as int
    } else if t[k] == '\n' {
        k
    } else {
        line_end(t, k + 1)
    }
}

/// The first position in `lo .. hi` where `",` stands, or -1.
pub open spec fn first_close(t: Seq<char>, lo: int, hi: int) -> int
    decreases hi - lo,
{
    if hi <= lo {
        -1
    } else if closes_at(t, lo) {
        lo
    } else {
        first_close(t, lo + 1, hi)
    }
}

/// Where the name field opened at `i` ends: at the first `",` after the opening
/// on the same line, or -1.
pub open spec fn field_end(t: Seq<char>, i: int) -> int {
    first_close(t, i + 7, line_end(t, i + 7))
}

/// The first position at or after `k` where a complete name field starts, or -1.
pub open spec fn first_field(t: Seq<char>, k: int) -> int
    decreases t.len() - k,
{
    if k < 0 || k >= t.len() {
        -1
    } else if opens_at(t, k) && field_end(t, k) >= 0 {
        k
    } else {
        first_field(t, k + 1)
    }
}

/// `t` with its first name field, value included, rewritten to hold `pseudo`.
pub open spec fn renamed(t: Seq<char>, pseudo: Seq<char>) -> Seq<char> {
    let i = first_field(t, 0);
    if i < 0 {
        t
    } else {
        t.subrange(0, i) + name_open() + pseudo + field_close() + t.subrange(
            field_end(t, i) + 2,
            t.len() as int,
        )
    }
}

/// `>player p1`
pub open spec fn player1_decl() -> Seq<char> {
    seq!['>', 'p', 'l', 'a', 'y', 'e', 'r', ' ', 'p', '1']
}

/// `>player p2`
pub open spec fn player2_decl() -> Seq<char> {
    seq!['>', 'p', 'l', 'a', 'y', 'e', 'r', ' ', 'p', '2']
}

/// `>chat `
pub open spec fn chat_command() -> Seq<char> {
    seq!['>', 'c', 'h', 'a', 't', ' ']
}

/// An input log entry is dropped when it is a chat command.
pub open spec fn input_dropped(e: Seq<char>) -> bool {
    !has_prefix(e, player1_decl()) && !has_prefix(e, player2_decl()) && has_prefix(
        e,
        chat_command(),
    )
}

/// What a kept input log entry becomes.
pub open spec fn input_rewritten(e: Seq<char>, p1: Seq<char>, p2: Seq<char>) -> Seq<char> {
    if has_prefix(e, player1_decl()) {
        renamed(e, p1)
    } else if has_prefix(e, player2_decl()) {
        renamed(e, p2)
    } else {
        e
    }
}

/// The redacted input log: chat commands left out, the others rewritten, in order.
pub open spec fn input_log_redacted(log: Seq<Seq<char>>, p1: Seq<char>, p2: Seq<char>) -> Seq<
    Seq<char>,
>
    decreases log.len(),
{
    if log.len() == 0 {
        log
    } else if input_dropped(log.last()) {
        input_log_redacted(log.drop_last(), p1, p2)
    } else {
        input_log_redacted(log.drop_last(), p1, p2).push(input_rewritten(log.last(), p1, p2))
    }
}

/// The views of a sequence of strings.
pub open spec fn views(v: Seq<String>) -> Seq<Seq<char>> {
    v.map_values(|s: String| s@)
}

fn find_line_end(t: &Vec<char>, k: usize) -> (r: usize)
    requires
        k <= t.len(),
    ensures
        r == line_end(t@, k as int),
        k <= r <= t.len(),
{
    let mut i: usize = k;
    while i < t.len() && t[i] != '\n'
        invariant
            k <= i <= t.len(),
            line_end(t@, i as int) == line_end(t@, k as int),
        decreases t.len() - i,
    {
        i = i + 1;
    }
    i
}

fn find_first_close(t: &Vec<char>, lo: usize, hi: usize) -> (r: Option<usize>)
    requires
        hi <= t.len(),
    ensures
        match r {
            Some(j) => j as int == first_close(t@, lo as int, hi as int),
            None => first_close(t@, lo as int, hi as int) == -1,
        },
{
    let mut l: usize = lo;
    while l < hi
        invariant
            lo <= l,
            hi <= t.len(),
            first_close(t@, l as int, hi as int) == first_close(t@, lo as int, hi as int),
        decreases hi - l,
    {
        if l + 1 < t.len() && t[l] == '"' && t[l + 1] == ',' {
            return Some(l);
        }
        l = l + 1;
    }
    None
}

fn find_field_end(t: &Vec<char>, i: usize) -> (r: Option<usize>)
    requires
        i + 7 <= t.len(),
    ensures
        match r {
            Some(j) => j as int == field_end(t@, i as int) && i + 7 <= j && j + 2 <= t.len(),
            None => field_end(t@, i as int) == -1,
        },
{
    let e = find_line_end(t, i + 7);
    let r = find_first_close(t, i + 7, e);
    proof {
        lemma_first_close_range(t@, (i + 7) as int, e as int);
    }
    r
}

proof fn lemma_first_close_range(t: Seq<char>, lo: int, hi: int)
    ensures
        first_close(t, lo, hi) == -1 || (lo <= first_close(t, lo, hi) < hi && closes_at(
            t,
            first_close(t, lo, hi),
        )),
    decreases hi - lo,
{
    if hi > lo && !closes_at(t, lo) {
        lemma_first_close_range(t, lo + 1, hi);
    }
}

/// Rewrites the first name field of `t` to hold `pseudo`.
pub fn rename_field(t: &Vec<char>, pseudo: &Vec<char>) -> (r: Vec<char>)
    ensures
        r@ == renamed(t@, pseudo@),
{
    let open: Vec<char> = vec!['n', 'a', 'm', 'e', '"', ':', '"'];
    let close: Vec<char> = vec!['"', ','];
    assert(open@ == name_open());
    assert(close@ == field_close());
    let mut i: usize = 0;
    while i < t.len()
        invariant
            i <= t.len(),
            open@ == name_open(),
            close@ == field_close(),
            first_field(t@, i as int) == first_field(t@, 0),
        decreases t.len() - i,
    {
        if 7 <= t.len() - i && matches_at(t, i, &open) {
            match find_field_end(t, i) {
                Some(j) => {
                    let mut out: Vec<char> = Vec::new();
                    let mut k: usize = 0;
                    while k < i
                        invariant
                            k <= i <= t.len(),
                            out@ == t@.subrange(0, k as int),
                        decreases i - k,
                    {
                        out.push(t[k]);
                        k = k + 1;
                        assert(out@ =~= t@.subrange(0, k as int));
                    }
                    push_all(&mut out, &open);
                    push_all(&mut out, pseudo);
                    push_all(&mut out, &close);
                    let mut m: usize = j + 2;
                    let ghost base = out@;
                    while m < t.len()
                        invariant
                            j + 2 <= m <= t.len(),
                            out@ == base + t@.subrange(j + 2, m as int),
                        decreases t.len() - m,
                    {
                        out.push(t[m]);
                        m = m + 1;
                        assert(out@ =~= base + t@.subrange(j + 2, m as int));
                    }
                    return out;
                },
                None => {},
            }
        }
        i = i + 1;
    }
    let mut out: Vec<char> = Vec::new();
    push_all(&mut out, t);
    assert(out@ =~= t@);
    out
}

/// The redacted input log: entries that declare player 1 or 2 get the player's
/// pseudonym in their name field, chat commands are left out, the rest is kept.
pub fn redact_input_log(log: &Vec<String>, p1_anon: &Vec<char>, p2_anon: &Vec<char>) -> (r: Vec<
    String,
>)
    ensures
        views(r@) == input_log_redacted(views(log@), p1_anon@, p2_anon@),
{
    let decl1: Vec<char> = vec!['>', 'p', 'l', 'a', 'y', 'e', 'r', ' ', 'p', '1'];
    let decl2: Vec<char> = vec!['>', 'p', 'l', 'a', 'y', 'e', 'r', ' ', 'p', '2'];
    let chat: Vec<char> = vec!['>', 'c', 'h', 'a', 't', ' '];
    let mut out: Vec<String> = Vec::new();
    let mut i: usize = 0;
    while i < log.len()
        invariant
            i <= log.len(),
            decl1@ == player1_decl(),
            decl2@ == player2_decl(),
            chat@ == chat_command(),
            views(out@) == input_log_redacted(views(log@).subrange(0, i as int), p1_anon@, p2_anon@),
        decreases log.len() - i,
    {
        let e = chars_of(log[i].as_str());
        let ghost prefix = views(log@).subrange(0, i + 1);
        assert(prefix.drop_last() =~= views(log@).subrange(0, i as int));
        assert(prefix.last() == e@);
        if starts_with_chars(&e, &decl1) {
            out.push(string_of(&rename_field(&e, p1_anon)));
        } else if starts_with_chars(&e, &decl2) {
            out.push(string_of(&rename_field(&e, p2_anon)));
        } else if !starts_with_chars(&e, &chat) {
            out.push(string_of(&e));
        }
        assert(views(out@) =~= input_log_redacted(prefix, p1_anon@, p2_anon@));
        i = i + 1;
    }
    assert(views(log@).subrange(0, log.len() as int) =~= views(log@));
    out
}

/// A chat command, wherever it stands in the input log, leaves no trace in the
/// redacted log: the result is that of the log without it.
pub proof fn lemma_input_chat_dropped(
    a: Seq<Seq<char>>,
    e: Seq<char>,
    b: Seq<Seq<char>>,
    p1: Seq<char>,
    p2: Seq<char>,
)
    requires
        has_prefix(e, chat_command()),
    ensures
        input_log_redacted(a + seq![e] + b, p1, p2) == input_log_redacted(a + b, p1, p2),
    decreases b.len(),
{
    let l = a + seq![e] + b;
    if b.len() == 0 {
        assert(e.subrange(0, 6)[1] == e[1]);
        if has_prefix(e, player1_decl()) {
            assert(e.subrange(0, 10)[1] == e[1]);
        }
        if has_prefix(e, player2_decl()) {
            assert(e.subrange(0, 10)[1] == e[1]);
        }
        assert(l.drop_last() =~= a);
        assert(a + b =~= a);
    } else {
        lemma_input_chat_dropped(a, e, b.drop_last(), p1, p2);
        assert(l.drop_last() =~= a + seq![e] + b.drop_last());
        assert((a + b).drop_last() =~= a + b.drop_last());
    }
}

proof fn lemma_first_field_opens(t: Seq<char>, k: int)
    requires
        k >= 0,
    ensures
        first_field(t, k) == -1 || (k <= first_field(t, k) && opens_at(t, first_field(t, k))),
    decreases t.len() - k,
{
    if k < t.len() && !(opens_at(t, k) && field_end(t, k) >= 0) {
        lemma_first_field_opens(t, k + 1);
    }
}

proof fn lemma_rewritten_not_chat(e: Seq<char>, p1: Seq<char>, p2: Seq<char>)
    requires
        !input_dropped(e),
    ensures
        !has_prefix(input_rewritten(e, p1, p2), chat_command()),
{
    let d = if has_prefix(e, player1_decl()) {
        player1_decl()
    } else {
        player2_decl()
    };
    if has_prefix(e, player1_decl()) || has_prefix(e, player2_decl()) {
        let p = if has_prefix(e, player1_decl()) {
            p1
        } else {
            p2
        };
        let r = input_rewritten(e, p1, p2);
        assert(r == renamed(e, p));
        lemma_first_field_opens(e, 0);
        let i = first_field(e, 0);
        if i >= 0 {
            assert(e.subrange(i, i + 7)[0] == e[i]);
            if i < 10 {
                assert(e.subrange(0, 10)[i] == e[i]);
                assert(d[i] != 'n');
            }
            assert(r[1] == e.subrange(0, i)[1]);
        }
        assert(e.subrange(0, 10)[1] == e[1]);
        if has_prefix(r, chat_command()) {
            assert(r.subrange(0, 6)[1] == r[1]);
        }
    }
}

/// No entry of the redacted input log is a chat command.
pub proof fn lemma_input_no_chat(log: Seq<Seq<char>>, p1: Seq<char>, p2: Seq<char>)
    ensures
        forall|k: int|
            0 <= k < input_log_redacted(log, p1, p2).len() ==> !has_prefix(
                #[trigger] input_log_redacted(log, p1, p2)[k],
                chat_command(),
            ),
    decreases log.len(),
{
    if log.len() > 0 {
        lemma_input_no_chat(log.drop_last(), p1, p2);
        if !input_dropped(log.last()) {
            lemma_rewritten_not_chat(log.last(), p1, p2);
            let prev = input_log_redacted(log.drop_last(), p1, p2);
            let out = input_log_redacted(log, p1, p2);
            assert forall|k: int| 0 <= k < out.len() implies !has_prefix(
                #[trigger] out[k],
                chat_command(),
            ) by {
                if k < prev.len() {
                    assert(out[k] == prev[k]);
                }
            }
        }
    }
}

} // verus!
