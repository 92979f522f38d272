//! Redaction of whole battle records, with pseudonyms kept across records.

use vstd::prelude::*;

use crate::battle_log::{battle_log_redacted, redact_battle_log, PlayerNames};
use crate::identifier::{normalize_chars, normalized};
use crate::input_log::{input_log_redacted, redact_input_log, views};
use crate::json::{
    entries, field, is_json_null, items_of, json_text, null_value, object_text, parse_object,
    parsed_entries, set_field, string_value, strings_value, text_of, texts, value_list, value_str,
};
use crate::registry::{names_after, number_for, PlayerTracker};
use crate::text::{chars_of, contains_chars, decimal, occurs_in, push_range, string_of};
use serde_json::Value;

verus! {

/// Why a record could not be redacted.
#[derive(Clone, Copy, Debug, PartialEq, Eq, Structural)]
pub enum AnonymizeError {
    /// The text is not a JSON object.
    ParseError,
    /// A field the redaction reads is missing or has the wrong type.
    SchemaError,
    /// The redacted text still holds a player's name or identifier, and the
    /// anonymizer is strict.
    LeakDetected,
}

/// The fields of a record that the redaction reads and rewrites.
pub struct BattleFields {
    /// Display name of player 1 (`p1`).
    pub p1: String,
    /// Display name of player 2 (`p2`).
    pub p2: String,
    /// Display name of the winner (`winner`).
    pub winner: String,
    /// When the battle ended (`timestamp`).
    pub timestamp: String,
    /// The commands sent to the battle (`inputLog`).
    pub input_log: Vec<String>,
    /// The protocol lines of the battle (`log`).
    pub log: Vec<String>,
}

/// The position of the first `:` at or after `k`, or the length of `s`.
pub open spec fn colon_from(s: Seq<char>, k: int) -> int
    decreases s.len() - k,
{
    if k < 0 || k >= s.len() {
        s.len() as int
    } else if s[k] == ':' {
        k
    } else {
        colon_from(s, k + 1)
    }
}

/// A timestamp cut at its first `:`, followed by `:XX`.
pub open spec fn truncated_timestamp(s: Seq<char>) -> Seq<char> {
    s.subrange(0, colon_from(s, 0)) + seq![':', 'X', 'X']
}

/// The text holds a name of one of the players or its identifier.
pub open spec fn leaks(text: Seq<char>, p1: Seq<char>, p2: Seq<char>) -> bool {
    occurs_in(text, p1) || occurs_in(text, normalized(p1)) || occurs_in(text, p2) || occurs_in(
        text,
        normalized(p2),
    )
}

/// The registered names after the two players and the winner of a record were looked up.
pub open spec fn names_after_record(
    names: Seq<Seq<char>>,
    p1: Seq<char>,
    p2: Seq<char>,
    winner: Seq<char>,
) -> Seq<Seq<char>> {
    names_after(names_after(names_after(names, p1), p2), winner)
}

proof fn lemma_colon_from_range(s: Seq<char>, k: int)
    requires
        0 <= k <= s.len(),
    ensures
        k <= colon_from(s, k) <= s.len(),
    decreases s.len() - k,
{
    if k < s.len() && s[k] != ':' {
        lemma_colon_from_range(s, k + 1);
    }
}

/// Keeps a timestamp up to its first `:` and appends `:XX`, dropping minutes and
/// seconds.
pub fn truncate_timestamp(s: &str) -> (r: String)
    ensures
        r@ == truncated_timestamp(s@),
{
    let t = chars_of(s);
    let mut k: usize = 0;
    while k < t.len() && t[k] != ':'
        invariant
            k <= t.len(),
            colon_from(t@, k as int) == colon_from(t@, 0),
        decreases t.len() - k,
    {
        k = k + 1;
    }
    let mut out: Vec<char> = Vec::new();
    push_range(&mut out, &t, 0, k);
    out.push(':');
    out.push('X');
    out.push('X');
    assert(out@ =~= truncated_timestamp(s@));
    string_of(&out)
}

/// Whether `text` still holds the name or identifier of either player.
pub fn find_leak(text: &str, p1: &str, p2: &str) -> (b: bool)
    ensures
        b == leaks(text@, p1@, p2@),
{
    let t = chars_of(text);
    let n1 = chars_of(p1);
    let n2 = chars_of(p2);
    let i1 = normalize_chars(&n1);
    let i2 = normalize_chars(&n2);
    contains_chars(&t, &n1) || contains_chars(&t, &i1) || contains_chars(&t, &n2) || contains_chars(
        &t,
        &i2,
    )
}

/// Redacts battle records one at a time. Pseudonyms are shared by all records
/// it handles, and each record it returns gets the next battle number.
pub struct Anonymizer {
    players: PlayerTracker,
    current_battle_number: u32,
    /// A leak is an error rather than a report.
    is_safe: bool,
    leak_found: bool,
    leak_room: Option<String>,
}

impl Anonymizer {
    /// The registered display names, in the order their pseudonyms were given.
    pub closed spec fn names(&self) -> Seq<Seq<char>> {
        self.players@
    }

    /// The number of the last record returned; 0 before the first.
    pub closed spec fn battle_number(&self) -> nat {
        self.current_battle_number as nat
    }

    /// Whether a leak is an error.
    pub closed spec fn is_strict(&self) -> bool {
        self.is_safe
    }

    /// Whether the last record returned still held a player's name or identifier.
    pub closed spec fn leak_reported(&self) -> bool {
        self.leak_found
    }

    /// Names are registered once; a room is kept only for a reported leak.
    pub closed spec fn wf(&self) -> bool {
        self.players.wf() && (!self.leak_found ==> self.leak_room.is_none())
    }

    /// An anonymizer that reports leaks and goes on.
    pub fn new() -> (r: Anonymizer)
        ensures
            r.wf(),
            r.names() == Seq::<Seq<char>>::empty(),
            r.battle_number() == 0,
            !r.is_strict(),
            !r.leak_reported(),
    {
        Anonymizer::with_safety(false)
    }

    /// An anonymizer for which a leak is an error when `is_safe` holds.
    pub fn with_safety(is_safe: bool) -> (r: Anonymizer)
        ensures
            r.wf(),
            r.names() == Seq::<Seq<char>>::empty(),
            r.battle_number() == 0,
            r.is_strict() == is_safe,
            !r.leak_reported(),
    {
        Anonymizer {
            players: PlayerTracker::new(),
            current_battle_number: 0,
            is_safe,
            leak_found: false,
            leak_room: None,
        }
    }

    /// How many display names have a pseudonym.
    pub fn known_players(&self) -> (n: usize)
        ensures
            n == self.names().len(),
    {
        self.players.len()
    }

    /// The number of the last record returned.
    pub fn battle_count(&self) -> (n: u32)
        ensures
            n == self.battle_number(),
    {
        self.current_battle_number
    }

    /// Whether the last record returned still held a player's name or identifier.
    pub fn last_leak(&self) -> (b: bool)
        ensures
            b == self.leak_reported(),
    {
        self.leak_found
    }

    /// The room id of the last record returned with a leak, where it was a string.
    pub fn last_leak_room(&self) -> (r: &Option<String>)
        requires
            self.wf(),
        ensures
            !self.leak_reported() ==> r.is_none(),
    {
        &self.leak_room
    }

    /// Rewrites the fields of one record: the players and the winner get their
    /// pseudonyms, the timestamp loses its minutes, and both logs are redacted
    /// with the players' pseudonyms.
    pub fn redact_fields(&mut self, f: &BattleFields) -> (r: BattleFields)
        requires
            old(self).wf(),
            old(self).names().len() + 3 <= usize::MAX,
        ensures
            final(self).wf(),
            final(self).names() == names_after_record(old(self).names(), f.p1@, f.p2@, f.winner@),
            final(self).battle_number() == old(self).battle_number(),
            final(self).is_strict() == old(self).is_strict(),
            final(self).leak_reported() == old(self).leak_reported(),
            r.p1@ == decimal(number_for(old(self).names(), f.p1@)),
            r.p2@ == decimal(number_for(names_after(old(self).names(), f.p1@), f.p2@)),
            r.winner@ == decimal(
                number_for(names_after(names_after(old(self).names(), f.p1@), f.p2@), f.winner@),
            ),
            r.timestamp@ == truncated_timestamp(f.timestamp@),
            views(r.input_log@) == input_log_redacted(views(f.input_log@), r.p1@, r.p2@),
            views(r.log@) == battle_log_redacted(views(f.log@), f.p1@, f.p2@, r.p1@, r.p2@),
    {
        let p1_anon = self.players.anonymize(f.p1.clone());
        let p2_anon = self.players.anonymize(f.p2.clone());
        let winner_anon = self.players.anonymize(f.winner.clone());
        let p1 = chars_of(f.p1.as_str());
        let p2 = chars_of(f.p2.as_str());
        let p1_id = normalize_chars(&p1);
        let p2_id = normalize_chars(&p2);
        let names = PlayerNames {
            p1,
            p2,
            p1_id,
            p2_id,
            p1_anon: chars_of(p1_anon.as_str()),
            p2_anon: chars_of(p2_anon.as_str()),
        };
        let input_log = redact_input_log(&f.input_log, &names.p1_anon, &names.p2_anon);
        let log = redact_battle_log(&f.log, &names);
        BattleFields {
            p1: p1_anon,
            p2: p2_anon,
            winner: winner_anon,
            timestamp: truncate_timestamp(f.timestamp.as_str()),
            input_log,
            log,
        }
    }
}

/// The text under key `k`, where it is a string.
pub open spec fn str_entry(e: Map<Seq<char>, Value>, k: Seq<char>) -> Option<Seq<char>> {
    if e.contains_key(k) {
        text_of(e[k])
    } else {
        None
    }
}

/// The texts under key `k`, where it is an array of strings.
pub open spec fn strs_entry(e: Map<Seq<char>, Value>, k: Seq<char>) -> Option<Seq<Seq<char>>> {
    if e.contains_key(k) && items_of(e[k]).is_some() {
        texts(items_of(e[k]).unwrap())
    } else {
        None
    }
}

pub open spec fn key_p1() -> Seq<char> {
    seq!['p', '1']
}

pub open spec fn key_p2() -> Seq<char> {
    seq!['p', '2']
}

pub open spec fn key_winner() -> Seq<char> {
    seq!['w', 'i', 'n', 'n', 'e', 'r']
}

pub open spec fn key_timestamp() -> Seq<char> {
    seq!['t', 'i', 'm', 'e', 's', 't', 'a', 'm', 'p']
}

pub open spec fn key_input_log() -> Seq<char> {
    seq!['i', 'n', 'p', 'u', 't', 'L', 'o', 'g']
}

pub open spec fn key_log() -> Seq<char> {
    seq!['l', 'o', 'g']
}

pub open spec fn key_p1rating() -> Seq<char> {
    seq!['p', '1', 'r', 'a', 't', 'i', 'n', 'g']
}

pub open spec fn key_p2rating() -> Seq<char> {
    seq!['p', '2', 'r', 'a', 't', 'i', 'n', 'g']
}

pub open spec fn key_roomid() -> Seq<char> {
    seq!['r', 'o', 'o', 'm', 'i', 'd']
}

/// The record holds the fields the redaction reads, each with its type.
pub open spec fn well_shaped(e: Map<Seq<char>, Value>) -> bool {
    &&& str_entry(e, key_p1()).is_some()
    &&& str_entry(e, key_p2()).is_some()
    &&& str_entry(e, key_winner()).is_some()
    &&& str_entry(e, key_timestamp()).is_some()
    &&& strs_entry(e, key_input_log()).is_some()
    &&& strs_entry(e, key_log()).is_some()
}

/// A key that the redaction rewrites.
pub open spec fn rewritten_key(k: Seq<char>) -> bool {
    k == key_p1() || k == key_p2() || k == key_winner() || k == key_timestamp() || k
        == key_input_log() || k == key_log() || k == key_p1rating() || k == key_p2rating() || k
        == key_roomid()
}

/// `out` is the redaction of the well-shaped record `e` against a registry
/// holding `names`: the players and the winner hold their pseudonyms, ratings
/// and room are null, the timestamp is truncated, both logs are redacted, and
/// every other field is kept.
pub open spec fn redacted_record(
    out: Map<Seq<char>, Value>,
    e: Map<Seq<char>, Value>,
    names: Seq<Seq<char>>,
) -> bool {
    let p1 = str_entry(e, key_p1()).unwrap();
    let p2 = str_entry(e, key_p2()).unwrap();
    let w = str_entry(e, key_winner()).unwrap();
    let a1 = decimal(number_for(names, p1));
    let a2 = decimal(number_for(names_after(names, p1), p2));
    let aw = decimal(number_for(names_after(names_after(names, p1), p2), w));
    &&& forall|k: Seq<char>|
        !rewritten_key(k) ==> (#[trigger] out.contains_key(k) == e.contains_key(k) && (
        e.contains_key(k) ==> out[k] == e[k]))
    &&& str_entry(out, key_p1()) == Some(a1)
    &&& str_entry(out, key_p2()) == Some(a2)
    &&& str_entry(out, key_winner()) == Some(aw)
    &&& out.contains_key(key_p1rating()) && is_json_null(out[key_p1rating()])
    &&& out.contains_key(key_p2rating()) && is_json_null(out[key_p2rating()])
    &&& out.contains_key(key_roomid()) && is_json_null(out[key_roomid()])
    &&& str_entry(out, key_timestamp()) == Some(
        truncated_timestamp(str_entry(e, key_timestamp()).unwrap()),
    )
    &&& strs_entry(out, key_input_log()) == Some(
        input_log_redacted(strs_entry(e, key_input_log()).unwrap(), a1, a2),
    )
    &&& strs_entry(out, key_log()) == Some(
        battle_log_redacted(strs_entry(e, key_log()).unwrap(), p1, p2, a1, a2),
    )
}

proof fn lemma_texts_none_extends(all: Seq<Value>, j: int)
    requires
        0 <= j <= all.len(),
        texts(all.subrange(0, j)).is_none(),
    ensures
        texts(all).is_none(),
    decreases all.len() - j,
{
    if j < all.len() {
        assert(all.subrange(0, j + 1).drop_last() =~= all.subrange(0, j));
        lemma_texts_none_extends(all, j + 1);
    } else {
        assert(all.subrange(0, j) =~= all);
    }
}

fn str_field(rec: &serde_json::Map<String, Value>, key: &str) -> (r: Option<String>)
    ensures
        match r {
            Some(s) => str_entry(entries(*rec), key@) == Some(s@),
            None => str_entry(entries(*rec), key@).is_none(),
        },
{
    match field(rec, key) {
        Some(v) => value_str(v),
        None => None,
    }
}

fn str_list_field(rec: &serde_json::Map<String, Value>, key: &str) -> (r: Option<Vec<String>>)
    ensures
        match r {
            Some(v) => strs_entry(entries(*rec), key@) == Some(views(v@)),
            None => strs_entry(entries(*rec), key@).is_none(),
        },
{
    let items = match field(rec, key) {
        Some(v) => match value_list(v) {
            Some(items) => items,
            None => {
                return None;
            },
        },
        None => {
            return None;
        },
    };
    let ghost all = items@;
    let mut out: Vec<String> = Vec::new();
    let mut i: usize = 0;
    assert(all.subrange(0, 0) =~= Seq::<Value>::empty());
    assert(views(out@) =~= Seq::<Seq<char>>::empty());
    assert(strs_entry(entries(*rec), key@) == texts(all));
    while i < items.len()
        invariant
            i <= items.len(),
            all == items@,
            strs_entry(entries(*rec), key@) == texts(all),
            texts(all.subrange(0, i as int)) == Some(views(out@)),
        decreases items.len() - i,
    {
        let ghost pre = all.subrange(0, i + 1);
        assert(pre.drop_last() =~= all.subrange(0, i as int));
        assert(pre.last() == all[i as int]);
        match value_str(&items[i]) {
            Some(s) => {
                let ghost ov = views(out@);
                out.push(s);
                assert(views(out@) =~= ov.push(s@));
            },
            None => {
                proof {
                    assert(texts(pre).is_none());
                    lemma_texts_none_extends(all, i + 1);
                    assert(texts(all).is_none());
                }
                return None;
            },
        }
        i = i + 1;
    }
    assert(all.subrange(0, items.len() as int) =~= all);
    Some(out)
}

/// The fields that the redaction reads, where each is present with its type.
fn read_fields(rec: &serde_json::Map<String, Value>) -> (r: Option<BattleFields>)
    ensures
        match r {
            Some(f) => {
                let e = entries(*rec);
                &&& well_shaped(e)
                &&& f.p1@ == str_entry(e, key_p1()).unwrap()
                &&& f.p2@ == str_entry(e, key_p2()).unwrap()
                &&& f.winner@ == str_entry(e, key_winner()).unwrap()
                &&& f.timestamp@ == str_entry(e, key_timestamp()).unwrap()
                &&& views(f.input_log@) == strs_entry(e, key_input_log()).unwrap()
                &&& views(f.log@) == strs_entry(e, key_log()).unwrap()
            },
            None => !well_shaped(entries(*rec)),
        },
{
    proof {
        reveal_strlit("p1");
        reveal_strlit("p2");
        reveal_strlit("winner");
        reveal_strlit("timestamp");
        reveal_strlit("inputLog");
        reveal_strlit("log");
    }
    assert("p1"@ =~= key_p1());
    assert("p2"@ =~= key_p2());
    assert("winner"@ =~= key_winner());
    assert("timestamp"@ =~= key_timestamp());
    assert("inputLog"@ =~= key_input_log());
    assert("log"@ =~= key_log());
    let p1 = str_field(rec, "p1")?;
    let p2 = str_field(rec, "p2")?;
    let winner = str_field(rec, "winner")?;
    let timestamp = str_field(rec, "timestamp")?;
    let input_log = str_list_field(rec, "inputLog")?;
    let log = str_list_field(rec, "log")?;
    Some(BattleFields { p1, p2, winner, timestamp, input_log, log })
}

impl Anonymizer {
    /// Redacts one record given as JSON text. Text that serde_json does not read
    /// as an object is a `ParseError`; a missing or mistyped field a
    /// `SchemaError`; neither changes the anonymizer. Otherwise the players and
    /// the winner get their pseudonyms and the record is redacted; where the
    /// redacted text still holds a player's name or identifier, a strict
    /// anonymizer fails with `LeakDetected`, and another reports the leak.
    /// The text is returned with its battle number, one above the last.
    pub fn anonymize(&mut self, raw: &str) -> (r: Result<(String, u32), AnonymizeError>)
        requires
            old(self).wf(),
            old(self).names().len() + 3 <= usize::MAX,
            old(self).battle_number() < u32::MAX,
        ensures
            final(self).wf(),
            final(self).is_strict() == old(self).is_strict(),
            match parsed_entries(raw@) {
                None => r == Err::<(String, u32), AnonymizeError>(AnonymizeError::ParseError)
                    && *final(self) == *old(self),
                Some(e) => if !well_shaped(e) {
                    r == Err::<(String, u32), AnonymizeError>(AnonymizeError::SchemaError)
                        && *final(self) == *old(self)
                } else {
                    let p1 = str_entry(e, key_p1()).unwrap();
                    let p2 = str_entry(e, key_p2()).unwrap();
                    let w = str_entry(e, key_winner()).unwrap();
                    &&& final(self).names() == names_after_record(old(self).names(), p1, p2, w)
                    &&& exists|m: serde_json::Map<String, Value>|
                        #[trigger] redacted_record(entries(m), e, old(self).names()) && match r {
                            Ok((text, n)) => {
                                &&& text@ == json_text(m)
                                &&& !(old(self).is_strict() && leaks(text@, p1, p2))
                                &&& final(self).leak_reported() == leaks(text@, p1, p2)
                                &&& n == old(self).battle_number() + 1
                                &&& final(self).battle_number() == n
                            },
                            Err(AnonymizeError::LeakDetected) => {
                                &&& old(self).is_strict()
                                &&& leaks(json_text(m), p1, p2)
                                &&& final(self).battle_number() == old(self).battle_number()
                            },
                            Err(_) => false,
                        }
                },
            },
    {
        proof {
            reveal_strlit("p1");
            reveal_strlit("p2");
            reveal_strlit("winner");
            reveal_strlit("timestamp");
            reveal_strlit("inputLog");
            reveal_strlit("log");
            reveal_strlit("p1rating");
            reveal_strlit("p2rating");
            reveal_strlit("roomid");
        }
        assert("p1"@ =~= key_p1());
        assert("p2"@ =~= key_p2());
        assert("winner"@ =~= key_winner());
        assert("timestamp"@ =~= key_timestamp());
        assert("inputLog"@ =~= key_input_log());
        assert("log"@ =~= key_log());
        assert("p1rating"@ =~= key_p1rating());
        assert("p2rating"@ =~= key_p2rating());
        assert("roomid"@ =~= key_roomid());
        let mut rec = match parse_object(raw) {
            Ok(rec) => rec,
            Err(_) => {
                return Err(AnonymizeError::ParseError);
            },
        };
        let ghost e = entries(rec);
        let fields = match read_fields(&rec) {
            Some(f) => f,
            None => {
                return Err(AnonymizeError::SchemaError);
            },
        };
        let room = str_field(&rec, "roomid");
        let ghost names = self.names();
        let out = self.redact_fields(&fields);
        set_field(&mut rec, "p1", string_value(out.p1));
        set_field(&mut rec, "p2", string_value(out.p2));
        set_field(&mut rec, "winner", string_value(out.winner));
        set_field(&mut rec, "p1rating", null_value());
        set_field(&mut rec, "p2rating", null_value());
        set_field(&mut rec, "roomid", null_value());
        set_field(&mut rec, "timestamp", string_value(out.timestamp));
        set_field(&mut rec, "inputLog", strings_value(out.input_log));
        set_field(&mut rec, "log", strings_value(out.log));
        proof {
            lemma_keys_distinct();
        }
        assert(redacted_record(entries(rec), e, names));
        let text = object_text(&rec);
        if find_leak(text.as_str(), fields.p1.as_str(), fields.p2.as_str()) {
            if self.is_safe {
                return Err(AnonymizeError::LeakDetected);
            }
            self.leak_found = true;
            self.leak_room = room;
        } else {
            self.leak_found = false;
            self.leak_room = None;
        }
        self.current_battle_number = self.current_battle_number + 1;
        Ok((text, self.current_battle_number))
    }
}

proof fn lemma_keys_distinct()
    ensures
        key_p1() != key_p2(),
        key_p1() != key_p1rating(),
        key_p2() != key_p2rating(),
        key_p1rating() != key_p2rating(),
        key_log() != key_input_log(),
        key_winner() != key_roomid(),
        key_timestamp() != key_input_log(),
{
    assert(key_p1()[1] != key_p2()[1]);
    assert(key_p1rating()[1] != key_p2rating()[1]);
    assert(key_p1().len() != key_p1rating().len());
    assert(key_p2().len() != key_p2rating().len());
    assert(key_log().len() != key_input_log().len());
    assert(key_winner()[0] != key_roomid()[0]);
    assert(key_timestamp().len() != key_input_log().len());
}

} // verus!
