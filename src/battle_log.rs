//! Redaction of the battle log: chat and timer lines are dropped, player names
//! in the remaining lines are replaced by pseudonyms.

use vstd::prelude::*;

use crate::identifier::normalized;
use crate::input_log::views;
use crate::text::{
    chars_of, decimal, has_prefix, matches_at, push_all, push_range, replace_chars, replaced,
    starts_with_chars, string_of,
};

verus! {

/// What the battle log rewriting needs to know of the two players.
pub struct PlayerNames {
    /// Display name of player 1.
    pub p1: Vec<char>,
    /// Display name of player 2.
    pub p2: Vec<char>,
    /// Identifier of player 1.
    pub p1_id: Vec<char>,
    /// Identifier of player 2.
    pub p2_id: Vec<char>,
    /// Pseudonym of player 1.
    pub p1_anon: Vec<char>,
    /// Pseudonym of player 2.
    pub p2_anon: Vec<char>,
}

/// The entry kinds that are dropped: chat (`|c|`, `|c:|`) and timer (`|inactive|`) lines.
pub open spec fn log_dropped(e: Seq<char>) -> bool {
    has_prefix(e, seq!['|', 'c', '|']) || has_prefix(e, seq!['|', 'c', ':', '|']) || has_prefix(
        e,
        seq!['|', 'i', 'n', 'a', 'c', 't', 'i', 'v', 'e', '|'],
    )
}

/// The entry kinds whose names are replaced wherever they occur: joins, leaves,
/// renames, results, messages, raw HTML and player lines.
pub open spec fn log_plain(e: Seq<char>) -> bool {
    has_prefix(e, seq!['|', 'j', '|']) || has_prefix(e, seq!['|', 'J', '|']) || has_prefix(
        e,
        seq!['|', 'l', '|'],
    ) || has_prefix(e, seq!['|', 'L', '|']) || has_prefix(e, seq!['|', 'N', '|']) || has_prefix(
        e,
        seq!['|', 'n', '|'],
    ) || has_prefix(e, seq!['|', 'w', 'i', 'n', '|']) || has_prefix(
        e,
        seq!['|', 't', 'i', 'e', '|'],
    ) || has_prefix(e, seq!['|', '-', 'm', 'e', 's', 's', 'a', 'g', 'e', '|']) || has_prefix(
        e,
        seq!['|', 'r', 'a', 'w', '|'],
    ) || has_prefix(e, seq!['|', 'p', 'l', 'a', 'y', 'e', 'r', '|'])
}

impl PlayerNames {
    /// The identifiers are those of the display names.
    pub open spec fn consistent(&self) -> bool {
        self.p1_id@ == normalized(self.p1@) && self.p2_id@ == normalized(self.p2@)
    }
}

/// An ASCII letter.
pub open spec fn is_letter(c: char) -> bool {
    ('a' <= c && c <= 'z') || ('A' <= c && c <= 'Z')
}

/// Length of the position marker `|p<d>: ` or `|p<d><letter>: ` at the start of
/// `t`, or 0 where there is none.
pub open spec fn marker_len(t: Seq<char>, d: char) -> int {
    if t.len() >= 3 && t[0] == '|' && t[1] == 'p' && t[2] == d {
        if t.len() >= 6 && is_letter(t[3]) && t[4] == ':' && t[5] == ' ' {
            6
        } else if t.len() >= 5 && t[3] == ':' && t[4] == ' ' {
            5
        } else {
            0
        }
    } else {
        0
    }
}

/// `t` with the name or identifier that follows each position marker of player
/// `d` replaced by `pseudo`; the name is tried before the identifier, and the
/// scan goes on after each replacement.
pub open spec fn anchored(
    t: Seq<char>,
    d: char,
    name: Seq<char>,
    id: Seq<char>,
    pseudo: Seq<char>,
) -> Seq<char>
    decreases t.len(),
{
    if t.len() == 0 {
        t
    } else {
        let m = marker_len(t, d);
        let rest = t.subrange(m, t.len() as int);
        if m > 0 && has_prefix(rest, name) {
            t.subrange(0, m) + pseudo + anchored(
                rest.subrange(name.len() as int, rest.len() as int),
                d,
                name,
                id,
                pseudo,
            )
        } else if m > 0 && has_prefix(rest, id) {
            t.subrange(0, m) + pseudo + anchored(
                rest.subrange(id.len() as int, rest.len() as int),
                d,
                name,
                id,
                pseudo,
            )
        } else {
            seq![t[0]] + anchored(t.drop_first(), d, name, id, pseudo)
        }
    }
}

/// What a kept battle log entry becomes, for players `p1` and `p2` with
/// pseudonyms `a1` and `a2`.
pub open spec fn log_rewritten(
    e: Seq<char>,
    p1: Seq<char>,
    p2: Seq<char>,
    a1: Seq<char>,
    a2: Seq<char>,
) -> Seq<char> {
    if log_plain(e) {
        replaced(
            replaced(replaced(replaced(e, p1, a1), p2, a2), normalized(p1), a1),
            normalized(p2),
            a2,
        )
    } else {
        anchored(anchored(e, '1', p1, normalized(p1), a1), '2', p2, normalized(p2), a2)
    }
}

/// The redacted battle log: chat and timer lines left out, the others rewritten,
/// in order.
pub open spec fn battle_log_redacted(
    log: Seq<Seq<char>>,
    p1: Seq<char>,
    p2: Seq<char>,
    a1: Seq<char>,
    a2: Seq<char>,
) -> Seq<Seq<char>>
    decreases log.len(),
{
    if log.len() == 0 {
        log
    } else if log_dropped(log.last()) {
        battle_log_redacted(log.drop_last(), p1, p2, a1, a2)
    } else {
        battle_log_redacted(log.drop_last(), p1, p2, a1, a2).push(
            log_rewritten(log.last(), p1, p2, a1, a2),
        )
    }
}

fn marker_at(t: &Vec<char>, i: usize, d: char) -> (m: usize)
    requires
        i <= t.len(),
    ensures
        m == marker_len(t@.subrange(i as int, t.len() as int), d),
{
    let ghost s = t@.subrange(i as int, t.len() as int);
    let n = t.len() - i;
    if n >= 3 && t[i] == '|' && t[i + 1] == 'p' && t[i + 2] == d {
        assert(s[0] == t@[i as int] && s[1] == t@[i + 1] && s[2] == t@[i + 2]);
        if n >= 6 && (('a' <= t[i + 3] && t[i + 3] <= 'z') || ('A' <= t[i + 3] && t[i + 3] <= 'Z'))
            && t[i + 4] == ':' && t[i + 5] == ' ' {
            assert(s[3] == t@[i + 3] && s[4] == t@[i + 4] && s[5] == t@[i + 5]);
            6
        } else if n >= 5 && t[i + 3] == ':' && t[i + 4] == ' ' {
            assert(s[3] == t@[i + 3] && s[4] == t@[i + 4]);
            5
        } else {
            assert(n >= 4 ==> s[3] == t@[i + 3]);
            assert(n >= 5 ==> s[4] == t@[i + 4]);
            assert(n >= 6 ==> s[5] == t@[i + 5]);
            0
        }
    } else {
        assert(n >= 3 ==> s[0] == t@[i as int] && s[1] == t@[i + 1] && s[2] == t@[i + 2]);
        0
    }
}

/// Replaces the name or identifier after each position marker of player `d`.
pub fn replace_anchored(
    t: &Vec<char>,
    d: char,
    name: &Vec<char>,
    id: &Vec<char>,
    pseudo: &Vec<char>,
) -> (r: Vec<char>)
    ensures
        r@ == anchored(t@, d, name@, id@, pseudo@),
{
    let mut out: Vec<char> = Vec::new();
    let mut i: usize = 0;
    assert(t@.subrange(0, t.len() as int) =~= t@);
    assert(out@ + anchored(t@, d, name@, id@, pseudo@) =~= anchored(t@, d, name@, id@, pseudo@));
    while i < t.len()
        invariant
            i <= t.len(),
            out@ + anchored(t@.subrange(i as int, t.len() as int), d, name@, id@, pseudo@)
                == anchored(t@, d, name@, id@, pseudo@),
        decreases t.len() - i,
    {
        let ghost s = t@.subrange(i as int, t.len() as int);
        let m = marker_at(t, i, d);
        let ghost rest = s.subrange(m as int, s.len() as int);
        assert(rest =~= t@.subrange(i + m, t.len() as int));
        if m > 0 && matches_at(t, i + m, name) {
            push_range(&mut out, t, i, i + m);
            push_all(&mut out, pseudo);
            assert(rest.subrange(name.len() as int, rest.len() as int) =~= t@.subrange(
                i + m + name.len(),
                t.len() as int,
            ));
            assert(s.subrange(0, m as int) =~= t@.subrange(i as int, i + m));
            i = i + m + name.len();
        } else if m > 0 && matches_at(t, i + m, id) {
            push_range(&mut out, t, i, i + m);
            push_all(&mut out, pseudo);
            assert(rest.subrange(id.len() as int, rest.len() as int) =~= t@.subrange(
                i + m + id.len(),
                t.len() as int,
            ));
            assert(s.subrange(0, m as int) =~= t@.subrange(i as int, i + m));
            i = i + m + id.len();
        } else {
            out.push(t[i]);
            assert(s.drop_first() =~= t@.subrange(i + 1, t.len() as int));
            i = i + 1;
        }
        assert(out@ + anchored(t@.subrange(i as int, t.len() as int), d, name@, id@, pseudo@)
            =~= anchored(t@, d, name@, id@, pseudo@));
    }
    out
}

fn is_dropped_entry(e: &Vec<char>) -> (b: bool)
    ensures
        b == log_dropped(e@),
{
    let c1: Vec<char> = vec!['|', 'c', '|'];
    let c2: Vec<char> = vec!['|', 'c', ':', '|'];
    let c3: Vec<char> = vec!['|', 'i', 'n', 'a', 'c', 't', 'i', 'v', 'e', '|'];
    starts_with_chars(e, &c1) || starts_with_chars(e, &c2) || starts_with_chars(e, &c3)
}

fn is_plain_entry(e: &Vec<char>) -> (b: bool)
    ensures
        b == log_plain(e@),
{
    let k1: Vec<char> = vec!['|', 'j', '|'];
    let k2: Vec<char> = vec!['|', 'J', '|'];
    let k3: Vec<char> = vec!['|', 'l', '|'];
    let k4: Vec<char> = vec!['|', 'L', '|'];
    let k5: Vec<char> = vec!['|', 'N', '|'];
    let k6: Vec<char> = vec!['|', 'n', '|'];
    let k7: Vec<char> = vec!['|', 'w', 'i', 'n', '|'];
    let k8: Vec<char> = vec!['|', 't', 'i', 'e', '|'];
    let k9: Vec<char> = vec!['|', '-', 'm', 'e', 's', 's', 'a', 'g', 'e', '|'];
    let k10: Vec<char> = vec!['|', 'r', 'a', 'w', '|'];
    let k11: Vec<char> = vec!['|', 'p', 'l', 'a', 'y', 'e', 'r', '|'];
    starts_with_chars(e, &k1) || starts_with_chars(e, &k2) || starts_with_chars(e, &k3)
        || starts_with_chars(e, &k4) || starts_with_chars(e, &k5) || starts_with_chars(e, &k6)
        || starts_with_chars(e, &k7) || starts_with_chars(e, &k8) || starts_with_chars(e, &k9)
        || starts_with_chars(e, &k10) || starts_with_chars(e, &k11)
}

/// What one kept battle log entry becomes.
pub fn rewrite_log_entry(e: &Vec<char>, n: &PlayerNames) -> (r: Vec<char>)
    requires
        n.consistent(),
    ensures
        r@ == log_rewritten(e@, n.p1@, n.p2@, n.p1_anon@, n.p2_anon@),
{
    if is_plain_entry(e) {
        let a = replace_chars(e, &n.p1, &n.p1_anon);
        let b = replace_chars(&a, &n.p2, &n.p2_anon);
        let c = replace_chars(&b, &n.p1_id, &n.p1_anon);
        replace_chars(&c, &n.p2_id, &n.p2_anon)
    } else {
        let a = replace_anchored(e, '1', &n.p1, &n.p1_id, &n.p1_anon);
        replace_anchored(&a, '2', &n.p2, &n.p2_id, &n.p2_anon)
    }
}

/// The redacted battle log: chat and timer lines are left out, player names in
/// the other lines are replaced by pseudonyms.
pub fn redact_battle_log(log: &Vec<String>, n: &PlayerNames) -> (r: Vec<String>)
    requires
        n.consistent(),
    ensures
        views(r@) == battle_log_redacted(views(log@), n.p1@, n.p2@, n.p1_anon@, n.p2_anon@),
{
    let mut out: Vec<String> = Vec::new();
    let mut i: usize = 0;
    while i < log.len()
        invariant
            i <= log.len(),
            n.consistent(),
            views(out@) == battle_log_redacted(
                views(log@).subrange(0, i as int),
                n.p1@,
                n.p2@,
                n.p1_anon@,
                n.p2_anon@,
            ),
        decreases log.len() - i,
    {
        let e = chars_of(log[i].as_str());
        let ghost prefix = views(log@).subrange(0, i + 1);
        assert(prefix.drop_last() =~= views(log@).subrange(0, i as int));
        assert(prefix.last() == e@);
        if !is_dropped_entry(&e) {
            out.push(string_of(&rewrite_log_entry(&e, n)));
        }
        assert(views(out@) =~= battle_log_redacted(prefix, n.p1@, n.p2@, n.p1_anon@, n.p2_anon@));
        i = i + 1;
    }
    assert(views(log@).subrange(0, log.len() as int) =~= views(log@));
    out
}

/// A chat or timer line, wherever it stands in the battle log, leaves no trace
/// in the redacted log: the result is that of the log without it.
pub proof fn lemma_log_chat_dropped(
    a: Seq<Seq<char>>,
    e: Seq<char>,
    b: Seq<Seq<char>>,
    p1: Seq<char>,
    p2: Seq<char>,
    a1: Seq<char>,
    a2: Seq<char>,
)
    requires
        log_dropped(e),
    ensures
        battle_log_redacted(a + seq![e] + b, p1, p2, a1, a2) == battle_log_redacted(
            a + b,
            p1,
            p2,
            a1,
            a2,
        ),
    decreases b.len(),
{
    let l = a + seq![e] + b;
    if b.len() == 0 {
        assert(l.drop_last() =~= a);
        assert(a + b =~= a);
    } else {
        lemma_log_chat_dropped(a, e, b.drop_last(), p1, p2, a1, a2);
        assert(l.drop_last() =~= a + seq![e] + b.drop_last());
        assert((a + b).drop_last() =~= a + b.drop_last());
    }
}

/// A line that cannot begin like a chat or timer line: not `|` followed by `c` or `i`.
pub open spec fn no_chat_start(s: Seq<char>) -> bool {
    !(s.len() >= 2 && s[0] == '|' && (s[1] == 'c' || s[1] == 'i'))
}

/// `|p` stands at position `k`.
pub open spec fn marker_start(t: Seq<char>, k: int) -> bool {
    0 <= k && k + 1 < t.len() && t[k] == '|' && t[k + 1] == 'p'
}

proof fn lemma_replaced_first(t: Seq<char>, p: Seq<char>, r: Seq<char>)
    requires
        p.len() > 0,
        r.len() > 0,
        t.len() > 0,
    ensures
        replaced(t, p, r).len() > 0,
        replaced(t, p, r)[0] == t[0] || replaced(t, p, r)[0] == r[0],
{
}

proof fn lemma_replaced_keeps_start(s: Seq<char>, p: Seq<char>, r: Seq<char>)
    requires
        no_chat_start(s),
        r.len() > 0,
        r[0] != '|' && r[0] != 'c' && r[0] != 'i',
    ensures
        no_chat_start(replaced(s, p, r)),
{
    let o = replaced(s, p, r);
    if p.len() > 0 && s.len() > 0 && !has_prefix(s, p) {
        assert(o == seq![s[0]] + replaced(s.drop_first(), p, r));
        if s.len() >= 2 {
            lemma_replaced_first(s.drop_first(), p, r);
            assert(o[1] == replaced(s.drop_first(), p, r)[0]);
        } else {
            assert(s.drop_first().len() == 0);
        }
    }
}

proof fn lemma_anchored_keeps_prefix(
    t: Seq<char>,
    d: char,
    name: Seq<char>,
    id: Seq<char>,
    pseudo: Seq<char>,
    n: int,
)
    requires
        0 <= n <= t.len(),
        forall|k: int| 0 <= k && k + 2 < n ==> !marker_start(t, k),
    ensures
        anchored(t, d, name, id, pseudo).len() >= n,
        anchored(t, d, name, id, pseudo).subrange(0, n) == t.subrange(0, n),
    decreases t.len(),
{
    let o = anchored(t, d, name, id, pseudo);
    if t.len() > 0 {
        let m = marker_len(t, d);
        let rest = t.subrange(m, t.len() as int);
        if m > 0 && (has_prefix(rest, name) || has_prefix(rest, id)) {
            assert(marker_start(t, 0));
            assert(o.subrange(0, n) =~= t.subrange(0, n));
        } else if n > 0 {
            let t1 = t.drop_first();
            assert forall|k: int| 0 <= k && k + 2 < n - 1 implies !marker_start(t1, k) by {
                assert(!marker_start(t, k + 1));
            }
            lemma_anchored_keeps_prefix(t1, d, name, id, pseudo, n - 1);
            let a1 = anchored(t1, d, name, id, pseudo);
            assert(o == seq![t[0]] + a1);
            assert forall|i: int| 0 < i < n implies o[i] == t[i] by {
                assert(o[i] == a1[i - 1]);
                assert(a1.subrange(0, n - 1)[i - 1] == t1.subrange(0, n - 1)[i - 1]);
            }
            assert(o.subrange(0, n) =~= t.subrange(0, n));
        }
    }
}

proof fn lemma_anchored_unchanged(t: Seq<char>, d: char, name: Seq<char>, id: Seq<char>, pseudo: Seq<char>)
    requires
        forall|k: int| 0 <= k ==> !marker_start(t, k),
    ensures
        anchored(t, d, name, id, pseudo) == t,
    decreases t.len(),
{
    if t.len() > 0 {
        let t1 = t.drop_first();
        assert forall|k: int| 0 <= k implies !marker_start(t1, k) by {
            assert(!marker_start(t, k + 1));
        }
        assert(!marker_start(t, 0));
        lemma_anchored_unchanged(t1, d, name, id, pseudo);
        assert(seq![t[0]] + t1 =~= t);
    }
}

/// The first position at or after `k` where `|p` stands, or the length of `t`.
pub open spec fn first_marker(t: Seq<char>, k: int) -> int
    decreases t.len() - k,
{
    if k < 0 || k >= t.len() {
        t.len() as int
    } else if marker_start(t, k) {
        k
    } else {
        first_marker(t, k + 1)
    }
}

proof fn lemma_first_marker(t: Seq<char>, k: int)
    requires
        0 <= k <= t.len(),
    ensures
        k <= first_marker(t, k) <= t.len(),
        first_marker(t, k) < t.len() ==> marker_start(t, first_marker(t, k)),
        forall|i: int| k <= i < first_marker(t, k) ==> !marker_start(t, i),
    decreases t.len() - k,
{
    if k < t.len() && !marker_start(t, k) {
        lemma_first_marker(t, k + 1);
    }
}

proof fn lemma_prefix_char(e: Seq<char>, p: Seq<char>, i: int)
    requires
        has_prefix(e, p),
        0 <= i < p.len(),
    ensures
        e[i] == p[i],
{
    assert(e.subrange(0, p.len() as int)[i] == e[i]);
}

/// The first two characters of a dropped line.
proof fn lemma_dropped_start(e: Seq<char>)
    requires
        log_dropped(e),
    ensures
        !no_chat_start(e),
{
    if has_prefix(e, seq!['|', 'c', '|']) {
        lemma_prefix_char(e, seq!['|', 'c', '|'], 0);
        lemma_prefix_char(e, seq!['|', 'c', '|'], 1);
    } else if has_prefix(e, seq!['|', 'c', ':', '|']) {
        lemma_prefix_char(e, seq!['|', 'c', ':', '|'], 0);
        lemma_prefix_char(e, seq!['|', 'c', ':', '|'], 1);
    } else {
        lemma_prefix_char(e, seq!['|', 'i', 'n', 'a', 'c', 't', 'i', 'v', 'e', '|'], 0);
        lemma_prefix_char(e, seq!['|', 'i', 'n', 'a', 'c', 't', 'i', 'v', 'e', '|'], 1);
    }
}

proof fn lemma_plain_start(e: Seq<char>)
    requires
        log_plain(e),
    ensures
        no_chat_start(e),
{
    assert forall|p: Seq<char>| has_prefix(e, p) && p.len() >= 2 implies e[1] == p[1] by {
        lemma_prefix_char(e, p, 1);
    }
}

/// No chat prefix holds `|p`.
proof fn lemma_chat_prefix_no_marker(p: Seq<char>, j: int)
    requires
        p == seq!['|', 'c', '|'] || p == seq!['|', 'c', ':', '|'] || p == seq![
            '|',
            'i',
            'n',
            'a',
            'c',
            't',
            'i',
            'v',
            'e',
            '|',
        ],
        0 <= j && j + 1 < p.len(),
    ensures
        !(p[j] == '|' && p[j + 1] == 'p'),
{
}

proof fn lemma_anchored_not_dropped(
    e: Seq<char>,
    p1: Seq<char>,
    p2: Seq<char>,
    a1: Seq<char>,
    a2: Seq<char>,
)
    requires
        !log_dropped(e),
    ensures
        !log_dropped(anchored(anchored(e, '1', p1, normalized(p1), a1), '2', p2, normalized(p2), a2)),
{
    let o1 = anchored(e, '1', p1, normalized(p1), a1);
    let o = anchored(o1, '2', p2, normalized(p2), a2);
    if log_dropped(o) {
        let p = if has_prefix(o, seq!['|', 'c', '|']) {
            seq!['|', 'c', '|']
        } else if has_prefix(o, seq!['|', 'c', ':', '|']) {
            seq!['|', 'c', ':', '|']
        } else {
            seq!['|', 'i', 'n', 'a', 'c', 't', 'i', 'v', 'e', '|']
        };
        assert(has_prefix(o, p));
        let l = p.len() as int;
        lemma_first_marker(e, 0);
        let j = first_marker(e, 0);
        if j < e.len() && j + 2 < l {
            lemma_anchored_keeps_prefix(e, '1', p1, normalized(p1), a1, j + 2);
            assert forall|k: int| 0 <= k && k + 2 < j + 2 implies !marker_start(o1, k) by {
                assert(!marker_start(e, k));
                assert(o1.subrange(0, j + 2)[k] == e.subrange(0, j + 2)[k]);
                assert(o1.subrange(0, j + 2)[k + 1] == e.subrange(0, j + 2)[k + 1]);
            }
            lemma_anchored_keeps_prefix(o1, '2', p2, normalized(p2), a2, j + 2);
            assert(o.subrange(0, j + 2)[j] == e.subrange(0, j + 2)[j]);
            assert(o.subrange(0, j + 2)[j + 1] == e.subrange(0, j + 2)[j + 1]);
            lemma_prefix_char(o, p, j);
            lemma_prefix_char(o, p, j + 1);
            lemma_chat_prefix_no_marker(p, j);
        } else if e.len() >= l {
            lemma_anchored_keeps_prefix(e, '1', p1, normalized(p1), a1, l);
            assert forall|k: int| 0 <= k && k + 2 < l implies !marker_start(o1, k) by {
                assert(!marker_start(e, k));
                assert(o1.subrange(0, l)[k] == e.subrange(0, l)[k]);
                assert(o1.subrange(0, l)[k + 1] == e.subrange(0, l)[k + 1]);
            }
            lemma_anchored_keeps_prefix(o1, '2', p2, normalized(p2), a2, l);
            assert(e.subrange(0, l) == p);
        } else {
            assert forall|k: int| 0 <= k implies !marker_start(e, k) by {
                if marker_start(e, k) {
                    assert(k >= j);
                }
            }
            lemma_anchored_unchanged(e, '1', p1, normalized(p1), a1);
            lemma_anchored_unchanged(o1, '2', p2, normalized(p2), a2);
        }
    }
}

proof fn lemma_decimal_start(n: nat)
    ensures
        decimal(n).len() > 0,
        decimal(n)[0] != '|' && decimal(n)[0] != 'c' && decimal(n)[0] != 'i',
    decreases n,
{
    if n >= 10 {
        lemma_decimal_start(n / 10);
    }
}

proof fn lemma_rewritten_not_dropped(e: Seq<char>, p1: Seq<char>, p2: Seq<char>, n1: nat, n2: nat)
    requires
        !log_dropped(e),
    ensures
        !log_dropped(log_rewritten(e, p1, p2, decimal(n1), decimal(n2))),
{
    let a1 = decimal(n1);
    let a2 = decimal(n2);
    lemma_decimal_start(n1);
    lemma_decimal_start(n2);
    if log_plain(e) {
        lemma_plain_start(e);
        let s1 = replaced(e, p1, a1);
        lemma_replaced_keeps_start(e, p1, a1);
        let s2 = replaced(s1, p2, a2);
        lemma_replaced_keeps_start(s1, p2, a2);
        let s3 = replaced(s2, normalized(p1), a1);
        lemma_replaced_keeps_start(s2, normalized(p1), a1);
        lemma_replaced_keeps_start(s3, normalized(p2), a2);
        let o = replaced(s3, normalized(p2), a2);
        if log_dropped(o) {
            lemma_dropped_start(o);
        }
    } else {
        lemma_anchored_not_dropped(e, p1, p2, a1, a2);
    }
}

/// No line of the redacted battle log is a chat or timer line: none begins with
/// `|c|`, `|c:|` or `|inactive|`, whatever the names, for pseudonyms written in
/// decimal.
pub proof fn lemma_log_no_chat(log: Seq<Seq<char>>, p1: Seq<char>, p2: Seq<char>, n1: nat, n2: nat)
    ensures
        forall|k: int|
            0 <= k < battle_log_redacted(log, p1, p2, decimal(n1), decimal(n2)).len()
                ==> !log_dropped(
                #[trigger] battle_log_redacted(log, p1, p2, decimal(n1), decimal(n2))[k],
            ),
    decreases log.len(),
{
    if log.len() > 0 {
        lemma_log_no_chat(log.drop_last(), p1, p2, n1, n2);
        if !log_dropped(log.last()) {
            lemma_rewritten_not_dropped(log.last(), p1, p2, n1, n2);
            let prev = battle_log_redacted(log.drop_last(), p1, p2, decimal(n1), decimal(n2));
            let out = battle_log_redacted(log, p1, p2, decimal(n1), decimal(n2));
            assert forall|k: int| 0 <= k < out.len() implies !log_dropped(#[trigger] out[k]) by {
                if k < prev.len() {
                    assert(out[k] == prev[k]);
                }
            }
        }
    }
}

} // verus!
