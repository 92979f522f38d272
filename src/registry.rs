//! Sequential pseudonyms for display names, stable for the registry's lifetime.

use vstd::prelude::*;

use crate::text::{chars_of, decimal, decimal_chars, digit_char, string_of};

verus! {

/// Each distinct name appears once.
pub open spec fn distinct_names(names: Seq<Seq<char>>) -> bool {
    forall|i: int, j: int|
        0 <= i < names.len() && 0 <= j < names.len() && i != j ==> #[trigger] names[i]
            != #[trigger] names[j]
}

/// `name` is registered at position `k`: its pseudonym is the number `k + 1`.
pub open spec fn registered_at(names: Seq<Seq<char>>, name: Seq<char>, k: int) -> bool {
    0 <= k < names.len() && names[k] == name
}

/// The number that `name` gets from a registry holding `names`: the one it already
/// has, or the next one.
pub open spec fn number_for(names: Seq<Seq<char>>, name: Seq<char>) -> nat {
    if exists|k: int| registered_at(names, name, k) {
        (choose|k: int| registered_at(names, name, k)) as nat + 1
    } else {
        names.len() + 1
    }
}

/// The registered names after `name` has been looked up or added.
pub open spec fn names_after(names: Seq<Seq<char>>, name: Seq<char>) -> Seq<Seq<char>> {
    if exists|k: int| registered_at(names, name, k) {
        names
    } else {
        names.push(name)
    }
}

/// Mapping from display names to pseudonyms. The name at position `k` has the
/// pseudonym `k + 1`, written in decimal; names are only ever appended.
pub struct PlayerTracker {
    players: Vec<String>,
}

impl View for PlayerTracker {
    type V = Seq<Seq<char>>;

    closed spec fn view(&self) -> Seq<Seq<char>> {
        self.players@.map_values(|s: String| s@)
    }
}

impl PlayerTracker {
    /// Names are registered at most once.
    pub open spec fn wf(&self) -> bool {
        distinct_names(self@)
    }

    /// An empty registry.
    pub fn new() -> (r: PlayerTracker)
        ensures
            r.wf(),
            r@ == Seq::<Seq<char>>::empty(),
    {
        let r = PlayerTracker { players: Vec::new() };
        assert(r@ =~= Seq::<Seq<char>>::empty());
        r
    }

    /// How many names are registered.
    pub fn len(&self) -> (n: usize)
        ensures
            n == self@.len(),
    {
        self.players.len()
    }

    /// The pseudonym of `userid`: the one it already has, else a new one, one
    /// above the last that was handed out.
    pub fn anonymize(&mut self, userid: String) -> (r: String)
        requires
            old(self).wf(),
            old(self)@.len() < usize::MAX,
        ensures
            final(self).wf(),
            final(self)@ == names_after(old(self)@, userid@),
            r@ == decimal(number_for(old(self)@, userid@)),
    {
        let ghost names = self@;
        let mut k: usize = 0;
        while k < self.players.len()
            invariant
                k <= self.players.len(),
                self@ == names,
                distinct_names(names),
                names.len() == self.players.len(),
                forall|m: int| 0 <= m < k ==> names[m] != userid@,
            decreases self.players.len() - k,
        {
            assert(names[k as int] == self.players@[k as int]@);
            if self.players[k] == userid {
                assert(registered_at(names, userid@, k as int));
                let ghost c = choose|c: int| registered_at(names, userid@, c);
                assert(names[c] == names[k as int]);
                assert(c == k);
                return string_of(&decimal_chars((k + 1) as u64));
            }
            k = k + 1;
        }
        assert(!exists|m: int| registered_at(names, userid@, m));
        proof {
            lemma_register_new(names, userid@);
        }
        let n: usize = self.players.len() + 1;
        self.players.push(userid);
        assert(self@ =~= names.push(userid@));
        string_of(&decimal_chars(n as u64))
    }
}

/// Looking up a name twice gives one pseudonym, and two different names never
/// share one: after registering `a` and then `b`, their numbers agree exactly
/// when the names do.
pub proof fn lemma_pseudonyms_stable(names: Seq<Seq<char>>, a: Seq<char>, b: Seq<char>)
    requires
        distinct_names(names),
    ensures
        distinct_names(names_after(names, a)),
        (a == b) == (number_for(names, a) == number_for(names_after(names, a), b)),
{
    let s1 = names_after(names, a);
    if exists|k: int| registered_at(names, a, k) {
        assert(s1 == names);
        let ka = choose|k: int| registered_at(names, a, k);
        if a != b && exists|k: int| registered_at(s1, b, k) {
            let kb = choose|k: int| registered_at(s1, b, k);
            assert(kb != ka);
        }
    } else {
        lemma_register_new(names, a);
        assert(s1[names.len() as int] == a);
        assert(registered_at(s1, a, names.len() as int));
        if a == b {
            let kb = choose|k: int| registered_at(s1, b, k);
            assert(s1[kb] == s1[names.len() as int]);
            assert(kb == names.len());
        } else if exists|k: int| registered_at(s1, b, k) {
            let kb = choose|k: int| registered_at(s1, b, k);
            assert(kb < names.len());
        }
    }
}

proof fn lemma_register_new(names: Seq<Seq<char>>, name: Seq<char>)
    requires
        distinct_names(names),
        !exists|k: int| registered_at(names, name, k),
    ensures
        distinct_names(names.push(name)),
{
    let s = names.push(name);
    assert forall|i: int, j: int|
        0 <= i < s.len() && 0 <= j < s.len() && i != j implies #[trigger] s[i] != #[trigger] s[j] by {
        if i == names.len() {
            assert(!registered_at(names, name, j));
        } else if j == names.len() {
            assert(!registered_at(names, name, i));
        } else {
            assert(names[i] != names[j]);
        }
    }
}

/// The mapping is append-only: a registered name keeps its position, and with
/// it its pseudonym.
pub proof fn lemma_names_append_only(names: Seq<Seq<char>>, name: Seq<char>, k: int)
    requires
        0 <= k < names.len(),
    ensures
        names_after(names, name).len() >= names.len(),
        names_after(names, name)[k] == names[k],
{
}

/// The registered names after looking up each name of `seen` in turn, starting
/// from an empty registry.
pub open spec fn names_after_all(seen: Seq<Seq<char>>) -> Seq<Seq<char>>
    decreases seen.len(),
{
    if seen.len() == 0 {
        Seq::empty()
    } else {
        names_after(names_after_all(seen.drop_last()), seen.last())
    }
}

/// The names of `seen`, each once, in the order of their first appearance.
pub open spec fn first_appearances(seen: Seq<Seq<char>>) -> Seq<Seq<char>>
    decreases seen.len(),
{
    if seen.len() == 0 {
        Seq::empty()
    } else if first_appearances(seen.drop_last()).contains(seen.last()) {
        first_appearances(seen.drop_last())
    } else {
        first_appearances(seen.drop_last()).push(seen.last())
    }
}

/// Replaying the same names from a fresh registry gives the same pseudonyms:
/// the registry then holds the names seen, each once, in the order in which
/// they first appeared, so each name's pseudonym is fixed by that order alone.
pub proof fn lemma_replay_deterministic(seen: Seq<Seq<char>>)
    ensures
        names_after_all(seen) == first_appearances(seen),
        distinct_names(names_after_all(seen)),
    decreases seen.len(),
{
    if seen.len() > 0 {
        lemma_replay_deterministic(seen.drop_last());
        let prev = names_after_all(seen.drop_last());
        let n = seen.last();
        if prev.contains(n) {
            let k = choose|k: int| 0 <= k < prev.len() && prev[k] == n;
            assert(registered_at(prev, n, k));
        } else {
            assert(!exists|k: int| registered_at(prev, n, k)) by {
                if exists|k: int| registered_at(prev, n, k) {
                    let k = choose|k: int| registered_at(prev, n, k);
                    assert(prev.contains(n));
                }
            }
            lemma_register_new(prev, n);
        }
    }
}

/// A registered name keeps its pseudonym whatever is looked up next, so a name
/// gets the same pseudonym on every later call.
pub proof fn lemma_number_kept(names: Seq<Seq<char>>, name: Seq<char>, other: Seq<char>)
    requires
        distinct_names(names),
        names.contains(name),
    ensures
        distinct_names(names_after(names, other)),
        names_after(names, other).contains(name),
        number_for(names_after(names, other), name) == number_for(names, name),
{
    let k = choose|k: int| 0 <= k < names.len() && names[k] == name;
    assert(registered_at(names, name, k));
    let s1 = names_after(names, other);
    lemma_pseudonyms_stable(names, other, other);
    assert(s1[k] == name);
    assert(registered_at(s1, name, k));
    let c0 = choose|c: int| registered_at(names, name, c);
    let c1 = choose|c: int| registered_at(s1, name, c);
    assert(names[c0] == names[k]);
    assert(s1[c1] == s1[k]);
}

/// Different numbers are written differently.
pub proof fn lemma_decimal_injective(a: nat, b: nat)
    requires
        decimal(a) == decimal(b),
    ensures
        a == b,
    decreases a,
{
    lemma_decimal_len(a);
    lemma_decimal_len(b);
    if a >= 10 && b >= 10 {
        assert(decimal(a) == decimal(a / 10).push(digit_char(a % 10)));
        assert(decimal(b) == decimal(b / 10).push(digit_char(b % 10)));
        assert(decimal(a).last() == digit_char(a % 10));
        assert(decimal(b).last() == digit_char(b % 10));
        lemma_digit_injective(a % 10, b % 10);
        assert(decimal(a).drop_last() =~= decimal(a / 10));
        assert(decimal(b).drop_last() =~= decimal(b / 10));
        lemma_decimal_injective(a / 10, b / 10);
    } else if a < 10 && b < 10 {
        assert(decimal(a) == seq![digit_char(a)]);
        assert(decimal(b) == seq![digit_char(b)]);
        assert(decimal(a)[0] == digit_char(a));
        assert(decimal(b)[0] == digit_char(b));
        lemma_digit_injective(a, b);
    }
}

proof fn lemma_digit_injective(a: nat, b: nat)
    requires
        a < 10,
        b < 10,
        digit_char(a) == digit_char(b),
    ensures
        a == b,
{
    assert((digit_char(a) as u32) == (a + 48) as u32);
    assert((digit_char(b) as u32) == (b + 48) as u32);
}

proof fn lemma_decimal_len(n: nat)
    ensures
        n < 10 ==> decimal(n).len() == 1,
        n >= 10 ==> decimal(n).len() >= 2,
    decreases n,
{
    if n >= 10 {
        lemma_decimal_len(n / 10);
    }
}

} // verus!
