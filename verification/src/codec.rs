//! The log's on-disk text: one canonical JSON object per line.
//!
//! The encoder renders an [`ActivitiesRecord`] as exactly one line of JSON
//! with the fields in a fixed order and no inter-token whitespace:
//!
//! ```text
//! {"timestamp":SECS.NNNNNNNNN,"record_date":"yyyy-mm-dd","activities":[
//!   {"name":"...","description":"...","minutes_spent":N,
//!    "minimum_minutes":N|null,"maximum_minutes":N|null}, ...]}
//! ```
//!
//! (shown wrapped; the encoder emits a single line).  The parsers accept
//! this JSON with whitespace permitted between any two tokens, each object's
//! fields in any order (each exactly once), a timestamp fraction of one to
//! nine digits (or none) scaled to nanoseconds, and the goals file in the
//! same shape, `{"activity_goals":[...]}`, with goal objects carrying the
//! same fields as an activity except `minutes_spent`.  Two strictures
//! remain, stated here and in each parser's contract: strings are taken
//! verbatim between their quotes — escape sequences are rejected, not
//! decoded — and an object may hold only its known keys, written literally.

use vstd::prelude::*;
use vstd::string::StrSliceExecFns;
use vstd::string::StringExecFns;

use crate::date::{ser_date, scan_date, spec_scan_date, Date};
use crate::records::{
    ActivitiesRecord, ActivitiesRecordV, ActivityGoal, ActivityGoalV, ActivityGoals,
    ActivityRecord, ActivityRecordV, Timestamp,
};
use crate::text::{
    dec_digits, digits_end, digits_val, expect_lit, json_plain, lemma_digits_end_bounds,
    lemma_pow10_add, lemma_plain_end_bounds, lemma_skip_ws_bounds, pad_digits, pow10, pow10_u64,
    scan_digits_end,
    scan_fixed, scan_string, scan_u64, skip_ws, spec_parse_lit, spec_scan_string, spec_scan_u64,
    spec_skip_ws, u32_to_padded_string, u64_to_string,
};

verus! {

/// A line (or file) that does not match the expected format.  Which inputs
/// parse is pinned down exactly by each parser's contract; the error itself
/// carries no further information.
#[derive(Clone, Copy, PartialEq, Eq, Structural, Debug)]
pub struct ParseError;

// ---------------------------------------------------------------------------
// The canonical literal tokens
// ---------------------------------------------------------------------------

pub open spec fn lit_ts() -> Seq<char> {
    seq!['{', '"', 't', 'i', 'm', 'e', 's', 't', 'a', 'm', 'p', '"', ':']
}

pub open spec fn lit_date() -> Seq<char> {
    seq![',', '"', 'r', 'e', 'c', 'o', 'r', 'd', '_', 'd', 'a', 't', 'e', '"', ':']
}

pub open spec fn lit_acts() -> Seq<char> {
    seq![',', '"', 'a', 'c', 't', 'i', 'v', 'i', 't', 'i', 'e', 's', '"', ':']
}

pub open spec fn lit_close() -> Seq<char> {
    seq![']', '}']
}

pub open spec fn lit_name() -> Seq<char> {
    seq!['{', '"', 'n', 'a', 'm', 'e', '"', ':']
}

pub open spec fn lit_desc() -> Seq<char> {
    seq![',', '"', 'd', 'e', 's', 'c', 'r', 'i', 'p', 't', 'i', 'o', 'n', '"', ':']
}

pub open spec fn lit_minutes() -> Seq<char> {
    seq![',', '"', 'm', 'i', 'n', 'u', 't', 'e', 's', '_', 's', 'p', 'e', 'n', 't', '"', ':']
}

pub open spec fn lit_min() -> Seq<char> {
    seq![',', '"', 'm', 'i', 'n', 'i', 'm', 'u', 'm', '_', 'm', 'i', 'n', 'u', 't', 'e', 's', '"', ':']
}

pub open spec fn lit_max() -> Seq<char> {
    seq![',', '"', 'm', 'a', 'x', 'i', 'm', 'u', 'm', '_', 'm', 'i', 'n', 'u', 't', 'e', 's', '"', ':']
}

pub open spec fn lit_rbrace() -> Seq<char> {
    seq!['}']
}

pub open spec fn lit_null() -> Seq<char> {
    seq!['n', 'u', 'l', 'l']
}

fn lit_ts_str() -> (r: &'static str)
    ensures
        r@ == lit_ts(),
{
    proof {
        reveal_strlit("{\"timestamp\":");
        assert("{\"timestamp\":"@ =~= lit_ts());
    }
    "{\"timestamp\":"
}

fn lit_date_str() -> (r: &'static str)
    ensures
        r@ == lit_date(),
{
    proof {
        reveal_strlit(",\"record_date\":");
        assert(",\"record_date\":"@ =~= lit_date());
    }
    ",\"record_date\":"
}

fn lit_acts_str() -> (r: &'static str)
    ensures
        r@ == lit_acts(),
{
    proof {
        reveal_strlit(",\"activities\":");
        assert(",\"activities\":"@ =~= lit_acts());
    }
    ",\"activities\":"
}

fn lit_close_str() -> (r: &'static str)
    ensures
        r@ == lit_close(),
{
    proof {
        reveal_strlit("]}");
        assert("]}"@ =~= lit_close());
    }
    "]}"
}

fn lit_name_str() -> (r: &'static str)
    ensures
        r@ == lit_name(),
{
    proof {
        reveal_strlit("{\"name\":");
        assert("{\"name\":"@ =~= lit_name());
    }
    "{\"name\":"
}

fn lit_desc_str() -> (r: &'static str)
    ensures
        r@ == lit_desc(),
{
    proof {
        reveal_strlit(",\"description\":");
        assert(",\"description\":"@ =~= lit_desc());
    }
    ",\"description\":"
}

fn lit_minutes_str() -> (r: &'static str)
    ensures
        r@ == lit_minutes(),
{
    proof {
        reveal_strlit(",\"minutes_spent\":");
        assert(",\"minutes_spent\":"@ =~= lit_minutes());
    }
    ",\"minutes_spent\":"
}

fn lit_min_str() -> (r: &'static str)
    ensures
        r@ == lit_min(),
{
    proof {
        reveal_strlit(",\"minimum_minutes\":");
        assert(",\"minimum_minutes\":"@ =~= lit_min());
    }
    ",\"minimum_minutes\":"
}

fn lit_max_str() -> (r: &'static str)
    ensures
        r@ == lit_max(),
{
    proof {
        reveal_strlit(",\"maximum_minutes\":");
        assert(",\"maximum_minutes\":"@ =~= lit_max());
    }
    ",\"maximum_minutes\":"
}

fn lit_rbrace_str() -> (r: &'static str)
    ensures
        r@ == lit_rbrace(),
{
    proof {
        reveal_strlit("}");
        assert("}"@ =~= lit_rbrace());
    }
    "}"
}

fn lit_null_str() -> (r: &'static str)
    ensures
        r@ == lit_null(),
{
    proof {
        reveal_strlit("null");
        assert("null"@ =~= lit_null());
    }
    "null"
}

// The quoted key tokens, for the parsers: each object key is one JSON
// string token, so whitespace may stand on either side of it.

pub open spec fn key_ts() -> Seq<char> {
    seq!['"', 't', 'i', 'm', 'e', 's', 't', 'a', 'm', 'p', '"']
}

pub open spec fn key_date() -> Seq<char> {
    seq!['"', 'r', 'e', 'c', 'o', 'r', 'd', '_', 'd', 'a', 't', 'e', '"']
}

pub open spec fn key_acts() -> Seq<char> {
    seq!['"', 'a', 'c', 't', 'i', 'v', 'i', 't', 'i', 'e', 's', '"']
}

pub open spec fn key_name() -> Seq<char> {
    seq!['"', 'n', 'a', 'm', 'e', '"']
}

pub open spec fn key_desc() -> Seq<char> {
    seq!['"', 'd', 'e', 's', 'c', 'r', 'i', 'p', 't', 'i', 'o', 'n', '"']
}

pub open spec fn key_minutes() -> Seq<char> {
    seq!['"', 'm', 'i', 'n', 'u', 't', 'e', 's', '_', 's', 'p', 'e', 'n', 't', '"']
}

pub open spec fn key_min() -> Seq<char> {
    seq!['"', 'm', 'i', 'n', 'i', 'm', 'u', 'm', '_', 'm', 'i', 'n', 'u', 't', 'e', 's', '"']
}

pub open spec fn key_max() -> Seq<char> {
    seq!['"', 'm', 'a', 'x', 'i', 'm', 'u', 'm', '_', 'm', 'i', 'n', 'u', 't', 'e', 's', '"']
}

pub open spec fn key_goals() -> Seq<char> {
    seq!['"', 'a', 'c', 't', 'i', 'v', 'i', 't', 'y', '_', 'g', 'o', 'a', 'l', 's', '"']
}

fn key_ts_str() -> (r: &'static str)
    ensures
        r@ == key_ts(),
{
    proof {
        reveal_strlit("\"timestamp\"");
        assert("\"timestamp\""@ =~= key_ts());
    }
    "\"timestamp\""
}

fn key_date_str() -> (r: &'static str)
    ensures
        r@ == key_date(),
{
    proof {
        reveal_strlit("\"record_date\"");
        assert("\"record_date\""@ =~= key_date());
    }
    "\"record_date\""
}

fn key_acts_str() -> (r: &'static str)
    ensures
        r@ == key_acts(),
{
    proof {
        reveal_strlit("\"activities\"");
        assert("\"activities\""@ =~= key_acts());
    }
    "\"activities\""
}

fn key_name_str() -> (r: &'static str)
    ensures
        r@ == key_name(),
{
    proof {
        reveal_strlit("\"name\"");
        assert("\"name\""@ =~= key_name());
    }
    "\"name\""
}

fn key_desc_str() -> (r: &'static str)
    ensures
        r@ == key_desc(),
{
    proof {
        reveal_strlit("\"description\"");
        assert("\"description\""@ =~= key_desc());
    }
    "\"description\""
}

fn key_minutes_str() -> (r: &'static str)
    ensures
        r@ == key_minutes(),
{
    proof {
        reveal_strlit("\"minutes_spent\"");
        assert("\"minutes_spent\""@ =~= key_minutes());
    }
    "\"minutes_spent\""
}

fn key_min_str() -> (r: &'static str)
    ensures
        r@ == key_min(),
{
    proof {
        reveal_strlit("\"minimum_minutes\"");
        assert("\"minimum_minutes\""@ =~= key_min());
    }
    "\"minimum_minutes\""
}

fn key_max_str() -> (r: &'static str)
    ensures
        r@ == key_max(),
{
    proof {
        reveal_strlit("\"maximum_minutes\"");
        assert("\"maximum_minutes\""@ =~= key_max());
    }
    "\"maximum_minutes\""
}

fn key_goals_str() -> (r: &'static str)
    ensures
        r@ == key_goals(),
{
    proof {
        reveal_strlit("\"activity_goals\"");
        assert("\"activity_goals\""@ =~= key_goals());
    }
    "\"activity_goals\""
}

// ---------------------------------------------------------------------------
// The canonical rendering, as a specification
// ---------------------------------------------------------------------------

/// A text inside its JSON quotes.
pub open spec fn quoted(s: Seq<char>) -> Seq<char> {
    seq!['"'] + s + seq!['"']
}

/// An optional minute target: a bare numeral or `null`.
pub open spec fn ser_opt_u16(o: Option<u16>) -> Seq<char> {
    match o {
        None => lit_null(),
        Some(v) => dec_digits(v as nat),
    }
}

/// The timestamp as a decimal `secs.nanos` number with nine fractional
/// digits.
pub open spec fn ser_ts(t: Timestamp) -> Seq<char> {
    dec_digits(t.secs as nat) + seq!['.'] + pad_digits(t.nanos as nat, 9)
}

/// One activity object.
pub open spec fn ser_activity(a: ActivityRecordV) -> Seq<char> {
    lit_name() + quoted(a.name) + lit_desc() + quoted(a.description) + lit_minutes() + dec_digits(
        a.minutes_spent as nat,
    ) + lit_min() + ser_opt_u16(a.minimum_minutes) + lit_max() + ser_opt_u16(a.maximum_minutes)
        + lit_rbrace()
}

/// A comma-separated run of activity objects.
pub open spec fn ser_acts(s: Seq<ActivityRecordV>) -> Seq<char>
    decreases s.len(),
{
    if s.len() == 0 {
        Seq::empty()
    } else if s.len() == 1 {
        ser_activity(s[0])
    } else {
        ser_activity(s[0]) + seq![','] + ser_acts(s.subrange(1, s.len() as int))
    }
}

/// One full day's record as its canonical JSON line (without the trailing
/// newline).
pub open spec fn ser_record(r: ActivitiesRecordV) -> Seq<char> {
    lit_ts() + ser_ts(r.timestamp) + lit_date() + quoted(ser_date(r.record_date)) + lit_acts()
        + seq!['['] + ser_acts(r.activities) + lit_close()
}

// ---------------------------------------------------------------------------
// The executable encoder
// ---------------------------------------------------------------------------

/// Renders an optional minute target.
fn encode_opt_u16(o: &Option<u16>) -> (r: String)
    ensures
        r@ == ser_opt_u16(*o),
{
    match o {
        None => lit_null_str().to_owned(),
        Some(v) => u64_to_string(*v as u64),
    }
}

/// Renders one activity object.
fn encode_activity(a: &ActivityRecord) -> (r: String)
    ensures
        r@ == ser_activity(a@),
{
    let mut s = lit_name_str().to_owned();
    s.append("\"");
    s.append(a.name.as_str());
    s.append("\"");
    s.append(lit_desc_str());
    s.append("\"");
    s.append(a.description.as_str());
    s.append("\"");
    s.append(lit_minutes_str());
    let m = u64_to_string(a.minutes_spent as u64);
    s.append(m.as_str());
    s.append(lit_min_str());
    let mn = encode_opt_u16(&a.minimum_minutes);
    s.append(mn.as_str());
    s.append(lit_max_str());
    let mx = encode_opt_u16(&a.maximum_minutes);
    s.append(mx.as_str());
    s.append(lit_rbrace_str());
    proof {
        reveal_strlit("\"");
        assert(s@ =~= ser_activity(a@));
    }
    s
}

/// Map a run of concrete activities to their mathematical images.
pub open spec fn views_of_acts(s: Seq<ActivityRecord>) -> Seq<ActivityRecordV> {
    s.map_values(|a: ActivityRecord| a@)
}

/// Renders the activities from index `i` on, comma separated.
fn encode_acts_from(v: &Vec<ActivityRecord>, i: usize) -> (r: String)
    requires
        i <= v@.len(),
    ensures
        r@ == ser_acts(views_of_acts(v@).subrange(i as int, v@.len() as int)),
    decreases v@.len() - i,
{
    let ghost tail = views_of_acts(v@).subrange(i as int, v@.len() as int);
    if i == v.len() {
        proof {
            assert(tail.len() == 0);
        }
        String::new()
    } else {
        let mut s = encode_activity(&v[i]);
        proof {
            assert(tail[0] == v@[i as int]@);
        }
        if i + 1 < v.len() {
            s.append(",");
            let rest = encode_acts_from(v, i + 1);
            s.append(rest.as_str());
            proof {
                reveal_strlit(",");
                assert(","@ =~= seq![',']);
                assert(views_of_acts(v@).subrange(i + 1, v@.len() as int) =~= tail.subrange(
                    1,
                    tail.len() as int,
                ));
                assert(s@ =~= ser_acts(tail));
            }
        } else {
            proof {
                assert(tail.len() == 1);
                assert(s@ =~= ser_acts(tail));
            }
        }
        s
    }
}

/// Renders one day's record as its canonical JSON line.  The record must be
/// well formed (texts unescaped-plain, a valid date, sub-second nanoseconds):
/// only then is the line one newline-free, independently parseable JSON
/// object, as the log's invariant demands.
pub fn encode_log_line(rec: &ActivitiesRecord) -> (r: String)
    requires
        rec@.wf(),
    ensures
        r@ == ser_record(rec@),
{
    let mut s = lit_ts_str().to_owned();
    let secs = u64_to_string(rec.timestamp.secs);
    s.append(secs.as_str());
    s.append(".");
    let nanos = u32_to_padded_string(rec.timestamp.nanos, 9);
    s.append(nanos.as_str());
    s.append(lit_date_str());
    s.append("\"");
    let date = rec.record_date.format_ymd();
    s.append(date.as_str());
    s.append("\"");
    s.append(lit_acts_str());
    s.append("[");
    let acts = encode_acts_from(&rec.activities, 0);
    s.append(acts.as_str());
    s.append(lit_close_str());
    proof {
        reveal_strlit(".");
        reveal_strlit("\"");
        reveal_strlit("[");
        assert("."@ =~= seq!['.']);
        assert("["@ =~= seq!['[']);
        assert(views_of_acts(rec.activities@).subrange(0, rec.activities@.len() as int)
            =~= views_of_acts(rec.activities@));
        assert(s@ =~= ser_record(rec@));
    }
    s
}

// ---------------------------------------------------------------------------
// The parser, as a specification
// ---------------------------------------------------------------------------

/// The next token is the single character `c`: whitespace, then exactly `c`.
pub open spec fn spec_ch(s: Seq<char>, i: int, c: char) -> Option<int> {
    let j = spec_skip_ws(s, i);
    if j < s.len() && s[j] == c {
        Some(j + 1)
    } else {
        None
    }
}

/// The next tokens are the object key `key` and its colon, each with
/// whitespace allowed before it.
pub open spec fn spec_scan_key(s: Seq<char>, i: int, key: Seq<char>) -> Option<int> {
    match spec_parse_lit(s, spec_skip_ws(s, i), key) {
        None => None,
        Some(j) => spec_ch(s, j, ':'),
    }
}

/// An optional minute target: `null`, or a numeral of value at most
/// `u16::MAX`.
pub open spec fn spec_scan_opt_u16(s: Seq<char>, i: int) -> Option<(Option<u16>, int)> {
    if spec_parse_lit(s, i, lit_null()) is Some {
        Some((None, i + 4))
    } else {
        match spec_scan_u64(s, i) {
            Some((v, j)) => if v <= u16::MAX {
                Some((Some(v as u16), j))
            } else {
                None
            },
            None => None,
        }
    }
}

/// A bare numeral of value at most `u16::MAX`.
pub open spec fn spec_scan_u16(s: Seq<char>, i: int) -> Option<(u16, int)> {
    match spec_scan_u64(s, i) {
        Some((v, j)) => if v <= u16::MAX {
            Some((v as u16, j))
        } else {
            None
        },
        None => None,
    }
}

/// The timestamp: a maximal digit run, optionally followed by a dot and one
/// to nine fractional digits, which are scaled to nanoseconds.
pub open spec fn spec_scan_ts(s: Seq<char>, i: int) -> Option<(Timestamp, int)> {
    match spec_scan_u64(s, i) {
        Some((secs, j)) => if j < s.len() && s[j] == '.' {
            let e = digits_end(s, j + 1);
            let w = e - (j + 1);
            if 1 <= w <= 9 {
                Some(
                    (
                        Timestamp {
                            secs,
                            nanos: (digits_val(s, j + 1, e) * pow10((9 - w) as nat)) as u32,
                        },
                        e,
                    ),
                )
            } else {
                None
            }
        } else {
            Some((Timestamp { secs, nanos: 0 }, j))
        },
        None => None,
    }
}

pub proof fn lemma_spec_ch_bounds(s: Seq<char>, i: int, c: char)
    requires
        0 <= i <= s.len(),
        spec_ch(s, i, c) is Some,
    ensures
        i < spec_ch(s, i, c)->Some_0 <= s.len(),
{
    lemma_skip_ws_bounds(s, i);
}

pub proof fn lemma_spec_key_bounds(s: Seq<char>, i: int, key: Seq<char>)
    requires
        0 <= i <= s.len(),
        spec_scan_key(s, i, key) is Some,
    ensures
        i < spec_scan_key(s, i, key)->Some_0 <= s.len(),
{
    lemma_skip_ws_bounds(s, i);
    let j = spec_parse_lit(s, spec_skip_ws(s, i), key)->Some_0;
    lemma_spec_ch_bounds(s, j, ':');
}

proof fn lemma_tok_string_bounds(s: Seq<char>, i: int)
    requires
        0 <= i <= s.len(),
        spec_scan_string(s, spec_skip_ws(s, i)) is Some,
    ensures
        i < spec_scan_string(s, spec_skip_ws(s, i))->Some_0.1 <= s.len(),
{
    lemma_skip_ws_bounds(s, i);
    lemma_plain_end_bounds(s, spec_skip_ws(s, i) + 1);
}

proof fn lemma_tok_u16_bounds(s: Seq<char>, i: int)
    requires
        0 <= i <= s.len(),
        spec_scan_u16(s, spec_skip_ws(s, i)) is Some,
    ensures
        i < spec_scan_u16(s, spec_skip_ws(s, i))->Some_0.1 <= s.len(),
{
    lemma_skip_ws_bounds(s, i);
    lemma_digits_end_bounds(s, spec_skip_ws(s, i));
}

proof fn lemma_tok_opt_u16_bounds(s: Seq<char>, i: int)
    requires
        0 <= i <= s.len(),
        spec_scan_opt_u16(s, spec_skip_ws(s, i)) is Some,
    ensures
        i < spec_scan_opt_u16(s, spec_skip_ws(s, i))->Some_0.1 <= s.len(),
{
    lemma_skip_ws_bounds(s, i);
    lemma_digits_end_bounds(s, spec_skip_ws(s, i));
}

/// The fields of an activity object gathered so far, each at most once.
pub struct ActFieldsAcc {
    pub name: Option<Seq<char>>,
    pub description: Option<Seq<char>>,
    pub minutes_spent: Option<u16>,
    pub minimum_minutes: Option<Option<u16>>,
    pub maximum_minutes: Option<Option<u16>>,
}

pub open spec fn act_acc_empty() -> ActFieldsAcc {
    ActFieldsAcc {
        name: None,
        description: None,
        minutes_spent: None,
        minimum_minutes: None,
        maximum_minutes: None,
    }
}

/// The gathered texts can stand unescaped inside JSON strings.
pub open spec fn act_acc_wf(acc: ActFieldsAcc) -> bool {
    &&& (acc.name is Some ==> json_plain(acc.name->Some_0))
    &&& (acc.description is Some ==> json_plain(acc.description->Some_0))
}

/// One field of an activity object: one of the five known keys, its colon,
/// and its value.  A repeated or unknown key fails the scan.
pub open spec fn spec_scan_act_field(s: Seq<char>, i: int, acc: ActFieldsAcc) -> Option<
    (ActFieldsAcc, int),
> {
    if spec_scan_key(s, i, key_name()) is Some {
        let j = spec_scan_key(s, i, key_name())->Some_0;
        if acc.name is Some {
            None
        } else {
            match spec_scan_string(s, spec_skip_ws(s, j)) {
                Some((v, e)) => Some((ActFieldsAcc { name: Some(v), ..acc }, e)),
                None => None,
            }
        }
    } else if spec_scan_key(s, i, key_desc()) is Some {
        let j = spec_scan_key(s, i, key_desc())->Some_0;
        if acc.description is Some {
            None
        } else {
            match spec_scan_string(s, spec_skip_ws(s, j)) {
                Some((v, e)) => Some((ActFieldsAcc { description: Some(v), ..acc }, e)),
                None => None,
            }
        }
    } else if spec_scan_key(s, i, key_minutes()) is Some {
        let j = spec_scan_key(s, i, key_minutes())->Some_0;
        if acc.minutes_spent is Some {
            None
        } else {
            match spec_scan_u16(s, spec_skip_ws(s, j)) {
                Some((v, e)) => Some((ActFieldsAcc { minutes_spent: Some(v), ..acc }, e)),
                None => None,
            }
        }
    } else if spec_scan_key(s, i, key_min()) is Some {
        let j = spec_scan_key(s, i, key_min())->Some_0;
        if acc.minimum_minutes is Some {
            None
        } else {
            match spec_scan_opt_u16(s, spec_skip_ws(s, j)) {
                Some((v, e)) => Some((ActFieldsAcc { minimum_minutes: Some(v), ..acc }, e)),
                None => None,
            }
        }
    } else if spec_scan_key(s, i, key_max()) is Some {
        let j = spec_scan_key(s, i, key_max())->Some_0;
        if acc.maximum_minutes is Some {
            None
        } else {
            match spec_scan_opt_u16(s, spec_skip_ws(s, j)) {
                Some((v, e)) => Some((ActFieldsAcc { maximum_minutes: Some(v), ..acc }, e)),
                None => None,
            }
        }
    } else {
        None
    }
}

proof fn lemma_scan_act_field_advances(s: Seq<char>, i: int, acc: ActFieldsAcc)
    requires
        0 <= i <= s.len(),
        spec_scan_act_field(s, i, acc) is Some,
    ensures
        i < spec_scan_act_field(s, i, acc)->Some_0.1 <= s.len(),
{
    if spec_scan_key(s, i, key_name()) is Some {
        lemma_spec_key_bounds(s, i, key_name());
        lemma_tok_string_bounds(s, spec_scan_key(s, i, key_name())->Some_0);
    } else if spec_scan_key(s, i, key_desc()) is Some {
        lemma_spec_key_bounds(s, i, key_desc());
        lemma_tok_string_bounds(s, spec_scan_key(s, i, key_desc())->Some_0);
    } else if spec_scan_key(s, i, key_minutes()) is Some {
        lemma_spec_key_bounds(s, i, key_minutes());
        lemma_tok_u16_bounds(s, spec_scan_key(s, i, key_minutes())->Some_0);
    } else if spec_scan_key(s, i, key_min()) is Some {
        lemma_spec_key_bounds(s, i, key_min());
        lemma_tok_opt_u16_bounds(s, spec_scan_key(s, i, key_min())->Some_0);
    } else if spec_scan_key(s, i, key_max()) is Some {
        lemma_spec_key_bounds(s, i, key_max());
        lemma_tok_opt_u16_bounds(s, spec_scan_key(s, i, key_max())->Some_0);
    }
}

/// One or more comma-separated activity fields.
pub open spec fn spec_scan_act_fields(s: Seq<char>, i: int, acc: ActFieldsAcc) -> Option<
    (ActFieldsAcc, int),
>
    decreases s.len() - i,
    when 0 <= i <= s.len()
    via spec_scan_act_fields_decreases
{
    match spec_scan_act_field(s, i, acc) {
        None => None,
        Some((acc2, j)) => {
            let j1 = spec_skip_ws(s, j);
            if j1 < s.len() && s[j1] == ',' {
                spec_scan_act_fields(s, j1 + 1, acc2)
            } else {
                Some((acc2, j))
            }
        },
    }
}

#[via_fn]
proof fn spec_scan_act_fields_decreases(s: Seq<char>, i: int, acc: ActFieldsAcc) {
    if spec_scan_act_field(s, i, acc) is Some {
        lemma_scan_act_field_advances(s, i, acc);
        lemma_skip_ws_bounds(s, spec_scan_act_field(s, i, acc)->Some_0.1);
    }
}

/// One activity object: its five fields, each exactly once, in any order,
/// whitespace allowed between any two tokens.
pub open spec fn spec_scan_activity(s: Seq<char>, i: int) -> Option<(ActivityRecordV, int)> {
    match spec_ch(s, i, '{') {
        None => None,
        Some(j0) => match spec_scan_act_fields(s, j0, act_acc_empty()) {
            None => None,
            Some((acc, j)) => match spec_ch(s, j, '}') {
                None => None,
                Some(e) => if acc.name is Some && acc.description is Some && acc.minutes_spent
                    is Some && acc.minimum_minutes is Some && acc.maximum_minutes is Some {
                    Some(
                        (
                            ActivityRecordV {
                                name: acc.name->Some_0,
                                description: acc.description->Some_0,
                                minutes_spent: acc.minutes_spent->Some_0,
                                minimum_minutes: acc.minimum_minutes->Some_0,
                                maximum_minutes: acc.maximum_minutes->Some_0,
                            },
                            e,
                        ),
                    )
                } else {
                    None
                },
            },
        },
    }
}

proof fn lemma_scan_act_fields_bounds(s: Seq<char>, i: int, acc: ActFieldsAcc)
    requires
        0 <= i <= s.len(),
        spec_scan_act_fields(s, i, acc) is Some,
    ensures
        i < spec_scan_act_fields(s, i, acc)->Some_0.1 <= s.len(),
    decreases s.len() - i,
{
    lemma_scan_act_field_advances(s, i, acc);
    let (acc2, j) = spec_scan_act_field(s, i, acc)->Some_0;
    lemma_skip_ws_bounds(s, j);
    let j1 = spec_skip_ws(s, j);
    if j1 < s.len() && s[j1] == ',' {
        lemma_scan_act_fields_bounds(s, j1 + 1, acc2);
    }
}

/// A successful activity scan moves forward and stays within the text.
pub proof fn lemma_scan_activity_advances(s: Seq<char>, i: int)
    requires
        0 <= i <= s.len(),
        spec_scan_activity(s, i) is Some,
    ensures
        i < spec_scan_activity(s, i)->Some_0.1 <= s.len(),
{
    lemma_spec_ch_bounds(s, i, '{');
    let j0 = spec_ch(s, i, '{')->Some_0;
    lemma_scan_act_fields_bounds(s, j0, act_acc_empty());
    let (acc, j) = spec_scan_act_fields(s, j0, act_acc_empty())->Some_0;
    lemma_spec_ch_bounds(s, j, '}');
}

/// One or more comma-separated activity objects; stops before the first
/// token after an object that is not a comma.
pub open spec fn spec_scan_acts_items(s: Seq<char>, i: int) -> Option<(Seq<ActivityRecordV>, int)>
    decreases s.len() - i,
    when 0 <= i <= s.len()
    via spec_scan_acts_items_decreases
{
    match spec_scan_activity(s, i) {
        None => None,
        Some((a, j)) => {
            let j1 = spec_skip_ws(s, j);
            if j1 < s.len() && s[j1] == ',' {
                match spec_scan_acts_items(s, j1 + 1) {
                    None => None,
                    Some((rest, e)) => Some((seq![a] + rest, e)),
                }
            } else {
                Some((seq![a], j))
            }
        },
    }
}

#[via_fn]
proof fn spec_scan_acts_items_decreases(s: Seq<char>, i: int) {
    if spec_scan_activity(s, i) is Some {
        lemma_scan_activity_advances(s, i);
        lemma_skip_ws_bounds(s, spec_scan_activity(s, i)->Some_0.1);
    }
}

/// The fields of a record object gathered so far, each at most once.
pub struct RecFieldsAcc {
    pub timestamp: Option<Timestamp>,
    pub record_date: Option<Date>,
    pub activities: Option<Seq<ActivityRecordV>>,
}

pub open spec fn rec_acc_empty() -> RecFieldsAcc {
    RecFieldsAcc { timestamp: None, record_date: None, activities: None }
}

/// The gathered field values are well formed.
pub open spec fn rec_acc_wf(acc: RecFieldsAcc) -> bool {
    &&& (acc.timestamp is Some ==> acc.timestamp->Some_0.wf())
    &&& (acc.record_date is Some ==> acc.record_date->Some_0.wf())
    &&& (acc.activities is Some ==> forall|k: int|
        0 <= k < acc.activities->Some_0.len() ==> (#[trigger] acc.activities->Some_0[k]).wf())
}

/// One field of a record object: one of the three known keys, its colon,
/// and its value.  A repeated or unknown key fails the scan.
pub open spec fn spec_scan_rec_field(s: Seq<char>, i: int, acc: RecFieldsAcc) -> Option<
    (RecFieldsAcc, int),
> {
    if spec_scan_key(s, i, key_ts()) is Some {
        let j = spec_scan_key(s, i, key_ts())->Some_0;
        if acc.timestamp is Some {
            None
        } else {
            match spec_scan_ts(s, spec_skip_ws(s, j)) {
                Some((v, e)) => Some((RecFieldsAcc { timestamp: Some(v), ..acc }, e)),
                None => None,
            }
        }
    } else if spec_scan_key(s, i, key_date()) is Some {
        let j = spec_scan_key(s, i, key_date())->Some_0;
        if acc.record_date is Some {
            None
        } else {
            let q = spec_skip_ws(s, j);
            if q < s.len() && s[q] == '"' {
                match spec_scan_date(s, q + 1) {
                    Some((d, j6)) => if j6 < s.len() && s[j6] == '"' {
                        Some((RecFieldsAcc { record_date: Some(d), ..acc }, j6 + 1))
                    } else {
                        None
                    },
                    None => None,
                }
            } else {
                None
            }
        }
    } else if spec_scan_key(s, i, key_acts()) is Some {
        let j = spec_scan_key(s, i, key_acts())->Some_0;
        if acc.activities is Some {
            None
        } else {
            match spec_ch(s, j, '[') {
                None => None,
                Some(j9) => match spec_ch(s, j9, ']') {
                    Some(j10) => Some((RecFieldsAcc { activities: Some(Seq::empty()), ..acc }, j10)),
                    None => match spec_scan_acts_items(s, j9) {
                        None => None,
                        Some((items, j10)) => match spec_ch(s, j10, ']') {
                            None => None,
                            Some(j11) => Some(
                                (RecFieldsAcc { activities: Some(items), ..acc }, j11),
                            ),
                        },
                    },
                },
            }
        }
    } else {
        None
    }
}

proof fn lemma_scan_acts_items_bounds(s: Seq<char>, i: int)
    requires
        0 <= i <= s.len(),
        spec_scan_acts_items(s, i) is Some,
    ensures
        i < spec_scan_acts_items(s, i)->Some_0.1 <= s.len(),
    decreases s.len() - i,
{
    lemma_scan_activity_advances(s, i);
    let (a, j) = spec_scan_activity(s, i)->Some_0;
    lemma_skip_ws_bounds(s, j);
    let j1 = spec_skip_ws(s, j);
    if j1 < s.len() && s[j1] == ',' {
        lemma_scan_acts_items_bounds(s, j1 + 1);
    }
}

proof fn lemma_scan_rec_field_advances(s: Seq<char>, i: int, acc: RecFieldsAcc)
    requires
        0 <= i <= s.len(),
        spec_scan_rec_field(s, i, acc) is Some,
    ensures
        i < spec_scan_rec_field(s, i, acc)->Some_0.1 <= s.len(),
{
    if spec_scan_key(s, i, key_ts()) is Some {
        lemma_spec_key_bounds(s, i, key_ts());
        let j = spec_scan_key(s, i, key_ts())->Some_0;
        lemma_skip_ws_bounds(s, j);
        let k = spec_skip_ws(s, j);
        lemma_digits_end_bounds(s, k);
        if spec_scan_u64(s, k) is Some {
            let p = spec_scan_u64(s, k)->Some_0.1;
            if p < s.len() && s[p] == '.' {
                lemma_digits_end_bounds(s, p + 1);
            }
        }
    } else if spec_scan_key(s, i, key_date()) is Some {
        lemma_spec_key_bounds(s, i, key_date());
        let j = spec_scan_key(s, i, key_date())->Some_0;
        lemma_skip_ws_bounds(s, j);
    } else if spec_scan_key(s, i, key_acts()) is Some {
        lemma_spec_key_bounds(s, i, key_acts());
        let j = spec_scan_key(s, i, key_acts())->Some_0;
        if spec_ch(s, j, '[') is Some {
            lemma_spec_ch_bounds(s, j, '[');
            let j9 = spec_ch(s, j, '[')->Some_0;
            if spec_ch(s, j9, ']') is Some {
                lemma_spec_ch_bounds(s, j9, ']');
            } else if spec_scan_acts_items(s, j9) is Some {
                lemma_scan_acts_items_bounds(s, j9);
                let j10 = spec_scan_acts_items(s, j9)->Some_0.1;
                if spec_ch(s, j10, ']') is Some {
                    lemma_spec_ch_bounds(s, j10, ']');
                }
            }
        }
    }
}

/// One or more comma-separated record fields.
pub open spec fn spec_scan_rec_fields(s: Seq<char>, i: int, acc: RecFieldsAcc) -> Option<
    (RecFieldsAcc, int),
>
    decreases s.len() - i,
    when 0 <= i <= s.len()
    via spec_scan_rec_fields_decreases
{
    match spec_scan_rec_field(s, i, acc) {
        None => None,
        Some((acc2, j)) => {
            let j1 = spec_skip_ws(s, j);
            if j1 < s.len() && s[j1] == ',' {
                spec_scan_rec_fields(s, j1 + 1, acc2)
            } else {
                Some((acc2, j))
            }
        },
    }
}

#[via_fn]
proof fn spec_scan_rec_fields_decreases(s: Seq<char>, i: int, acc: RecFieldsAcc) {
    if spec_scan_rec_field(s, i, acc) is Some {
        lemma_scan_rec_field_advances(s, i, acc);
        lemma_skip_ws_bounds(s, spec_scan_rec_field(s, i, acc)->Some_0.1);
    }
}

/// One full day's record: its three fields, each exactly once, in any
/// order, whitespace allowed between any two tokens.
pub open spec fn spec_scan_record(s: Seq<char>, i: int) -> Option<(ActivitiesRecordV, int)> {
    match spec_ch(s, i, '{') {
        None => None,
        Some(j0) => match spec_scan_rec_fields(s, j0, rec_acc_empty()) {
            None => None,
            Some((acc, j)) => match spec_ch(s, j, '}') {
                None => None,
                Some(e) => if acc.timestamp is Some && acc.record_date is Some && acc.activities
                    is Some {
                    Some(
                        (
                            ActivitiesRecordV {
                                timestamp: acc.timestamp->Some_0,
                                record_date: acc.record_date->Some_0,
                                activities: acc.activities->Some_0,
                            },
                            e,
                        ),
                    )
                } else {
                    None
                },
            },
        },
    }
}

/// A whole log line: the record with nothing but whitespace after it.
pub open spec fn spec_parse_line(s: Seq<char>) -> Option<ActivitiesRecordV> {
    match spec_scan_record(s, 0) {
        None => None,
        Some((v, j)) => if 0 <= j <= s.len() && spec_skip_ws(s, j) == s.len() {
            Some(v)
        } else {
            None
        },
    }
}

/// The fields of a goal object gathered so far, each at most once.
pub struct GoalFieldsAcc {
    pub name: Option<Seq<char>>,
    pub description: Option<Seq<char>>,
    pub minimum_minutes: Option<Option<u16>>,
    pub maximum_minutes: Option<Option<u16>>,
}

pub open spec fn goal_acc_empty() -> GoalFieldsAcc {
    GoalFieldsAcc { name: None, description: None, minimum_minutes: None, maximum_minutes: None }
}

/// The gathered texts can stand unescaped inside JSON strings.
pub open spec fn goal_acc_wf(acc: GoalFieldsAcc) -> bool {
    &&& (acc.name is Some ==> json_plain(acc.name->Some_0))
    &&& (acc.description is Some ==> json_plain(acc.description->Some_0))
}

/// One field of a goal object: one of the four known keys, its colon, and
/// its value.  A repeated or unknown key fails the scan.
pub open spec fn spec_scan_goal_field(s: Seq<char>, i: int, acc: GoalFieldsAcc) -> Option<
    (GoalFieldsAcc, int),
> {
    if spec_scan_key(s, i, key_name()) is Some {
        let j = spec_scan_key(s, i, key_name())->Some_0;
        if acc.name is Some {
            None
        } else {
            match spec_scan_string(s, spec_skip_ws(s, j)) {
                Some((v, e)) => Some((GoalFieldsAcc { name: Some(v), ..acc }, e)),
                None => None,
            }
        }
    } else if spec_scan_key(s, i, key_desc()) is Some {
        let j = spec_scan_key(s, i, key_desc())->Some_0;
        if acc.description is Some {
            None
        } else {
            match spec_scan_string(s, spec_skip_ws(s, j)) {
                Some((v, e)) => Some((GoalFieldsAcc { description: Some(v), ..acc }, e)),
                None => None,
            }
        }
    } else if spec_scan_key(s, i, key_min()) is Some {
        let j = spec_scan_key(s, i, key_min())->Some_0;
        if acc.minimum_minutes is Some {
            None
        } else {
            match spec_scan_opt_u16(s, spec_skip_ws(s, j)) {
                Some((v, e)) => Some((GoalFieldsAcc { minimum_minutes: Some(v), ..acc }, e)),
                None => None,
            }
        }
    } else if spec_scan_key(s, i, key_max()) is Some {
        let j = spec_scan_key(s, i, key_max())->Some_0;
        if acc.maximum_minutes is Some {
            None
        } else {
            match spec_scan_opt_u16(s, spec_skip_ws(s, j)) {
                Some((v, e)) => Some((GoalFieldsAcc { maximum_minutes: Some(v), ..acc }, e)),
                None => None,
            }
        }
    } else {
        None
    }
}

proof fn lemma_scan_goal_field_advances(s: Seq<char>, i: int, acc: GoalFieldsAcc)
    requires
        0 <= i <= s.len(),
        spec_scan_goal_field(s, i, acc) is Some,
    ensures
        i < spec_scan_goal_field(s, i, acc)->Some_0.1 <= s.len(),
{
    if spec_scan_key(s, i, key_name()) is Some {
        lemma_spec_key_bounds(s, i, key_name());
        lemma_tok_string_bounds(s, spec_scan_key(s, i, key_name())->Some_0);
    } else if spec_scan_key(s, i, key_desc()) is Some {
        lemma_spec_key_bounds(s, i, key_desc());
        lemma_tok_string_bounds(s, spec_scan_key(s, i, key_desc())->Some_0);
    } else if spec_scan_key(s, i, key_min()) is Some {
        lemma_spec_key_bounds(s, i, key_min());
        lemma_tok_opt_u16_bounds(s, spec_scan_key(s, i, key_min())->Some_0);
    } else if spec_scan_key(s, i, key_max()) is Some {
        lemma_spec_key_bounds(s, i, key_max());
        lemma_tok_opt_u16_bounds(s, spec_scan_key(s, i, key_max())->Some_0);
    }
}

/// One or more comma-separated goal fields.
pub open spec fn spec_scan_goal_fields(s: Seq<char>, i: int, acc: GoalFieldsAcc) -> Option<
    (GoalFieldsAcc, int),
>
    decreases s.len() - i,
    when 0 <= i <= s.len()
    via spec_scan_goal_fields_decreases
{
    match spec_scan_goal_field(s, i, acc) {
        None => None,
        Some((acc2, j)) => {
            let j1 = spec_skip_ws(s, j);
            if j1 < s.len() && s[j1] == ',' {
                spec_scan_goal_fields(s, j1 + 1, acc2)
            } else {
                Some((acc2, j))
            }
        },
    }
}

#[via_fn]
proof fn spec_scan_goal_fields_decreases(s: Seq<char>, i: int, acc: GoalFieldsAcc) {
    if spec_scan_goal_field(s, i, acc) is Some {
        lemma_scan_goal_field_advances(s, i, acc);
        lemma_skip_ws_bounds(s, spec_scan_goal_field(s, i, acc)->Some_0.1);
    }
}

/// One goal object: its four fields, each exactly once, in any order,
/// whitespace allowed between any two tokens.
pub open spec fn spec_scan_goal(s: Seq<char>, i: int) -> Option<(ActivityGoalV, int)> {
    match spec_ch(s, i, '{') {
        None => None,
        Some(j0) => match spec_scan_goal_fields(s, j0, goal_acc_empty()) {
            None => None,
            Some((acc, j)) => match spec_ch(s, j, '}') {
                None => None,
                Some(e) => if acc.name is Some && acc.description is Some && acc.minimum_minutes
                    is Some && acc.maximum_minutes is Some {
                    Some(
                        (
                            ActivityGoalV {
                                name: acc.name->Some_0,
                                description: acc.description->Some_0,
                                minimum_minutes: acc.minimum_minutes->Some_0,
                                maximum_minutes: acc.maximum_minutes->Some_0,
                            },
                            e,
                        ),
                    )
                } else {
                    None
                },
            },
        },
    }
}

proof fn lemma_scan_goal_fields_bounds(s: Seq<char>, i: int, acc: GoalFieldsAcc)
    requires
        0 <= i <= s.len(),
        spec_scan_goal_fields(s, i, acc) is Some,
    ensures
        i < spec_scan_goal_fields(s, i, acc)->Some_0.1 <= s.len(),
    decreases s.len() - i,
{
    lemma_scan_goal_field_advances(s, i, acc);
    let (acc2, j) = spec_scan_goal_field(s, i, acc)->Some_0;
    lemma_skip_ws_bounds(s, j);
    let j1 = spec_skip_ws(s, j);
    if j1 < s.len() && s[j1] == ',' {
        lemma_scan_goal_fields_bounds(s, j1 + 1, acc2);
    }
}

/// A successful goal scan moves forward and stays within the text.
pub proof fn lemma_scan_goal_advances(s: Seq<char>, i: int)
    requires
        0 <= i <= s.len(),
        spec_scan_goal(s, i) is Some,
    ensures
        i < spec_scan_goal(s, i)->Some_0.1 <= s.len(),
{
    lemma_spec_ch_bounds(s, i, '{');
    let j0 = spec_ch(s, i, '{')->Some_0;
    lemma_scan_goal_fields_bounds(s, j0, goal_acc_empty());
    let (acc, j) = spec_scan_goal_fields(s, j0, goal_acc_empty())->Some_0;
    lemma_spec_ch_bounds(s, j, '}');
}

/// One or more comma-separated goal objects.
pub open spec fn spec_scan_goal_items(s: Seq<char>, i: int) -> Option<(Seq<ActivityGoalV>, int)>
    decreases s.len() - i,
    when 0 <= i <= s.len()
    via spec_scan_goal_items_decreases
{
    match spec_scan_goal(s, i) {
        None => None,
        Some((g, j)) => {
            let j1 = spec_skip_ws(s, j);
            if j1 < s.len() && s[j1] == ',' {
                match spec_scan_goal_items(s, j1 + 1) {
                    None => None,
                    Some((rest, e)) => Some((seq![g] + rest, e)),
                }
            } else {
                Some((seq![g], j))
            }
        },
    }
}

#[via_fn]
proof fn spec_scan_goal_items_decreases(s: Seq<char>, i: int) {
    if spec_scan_goal(s, i) is Some {
        lemma_scan_goal_advances(s, i);
        lemma_skip_ws_bounds(s, spec_scan_goal(s, i)->Some_0.1);
    }
}

/// A whole goals file: `{"activity_goals":[...]}` with whitespace allowed
/// between any two tokens and around the document.
pub open spec fn spec_parse_goals(s: Seq<char>) -> Option<Seq<ActivityGoalV>> {
    match spec_ch(s, 0, '{') {
        None => None,
        Some(j0) => match spec_scan_key(s, j0, key_goals()) {
            None => None,
            Some(j1) => match spec_ch(s, j1, '[') {
                None => None,
                Some(j2) => match spec_ch(s, j2, ']') {
                    Some(j3) => match spec_ch(s, j3, '}') {
                        None => None,
                        Some(e) => if 0 <= e <= s.len() && spec_skip_ws(s, e) == s.len() {
                            Some(Seq::empty())
                        } else {
                            None
                        },
                    },
                    None => match spec_scan_goal_items(s, j2) {
                        None => None,
                        Some((goals, j3)) => match spec_ch(s, j3, ']') {
                            None => None,
                            Some(j4) => match spec_ch(s, j4, '}') {
                                None => None,
                                Some(e) => if 0 <= e <= s.len() && spec_skip_ws(s, e) == s.len() {
                                    Some(goals)
                                } else {
                                    None
                                },
                            },
                        },
                    },
                },
            },
        },
    }
}

// ---------------------------------------------------------------------------
// The executable parser
// ---------------------------------------------------------------------------

/// Scans the single-character token `c`.
fn scan_ch(s: &str, i: usize, c: char) -> (r: Option<usize>)
    requires
        i <= s@.len(),
    ensures
        match r {
            Some(j) => {
                &&& spec_ch(s@, i as int, c) == Some(j as int)
                &&& i < j <= s@.len()
            },
            None => spec_ch(s@, i as int, c) is None,
        },
{
    let j = skip_ws(s, i);
    if j < s.unicode_len() && s.get_char(j) == c {
        Some(j + 1)
    } else {
        None
    }
}

/// Scans an object key and its colon.
fn scan_key(s: &str, i: usize, key: &str) -> (r: Option<usize>)
    requires
        i <= s@.len(),
    ensures
        match r {
            Some(j) => {
                &&& spec_scan_key(s@, i as int, key@) == Some(j as int)
                &&& i < j <= s@.len()
            },
            None => spec_scan_key(s@, i as int, key@) is None,
        },
{
    let j = skip_ws(s, i);
    match expect_lit(s, j, key) {
        None => None,
        Some(j2) => scan_ch(s, j2, ':'),
    }
}

/// Scans an optional minute target.
fn scan_opt_u16(s: &str, i: usize) -> (r: Option<(Option<u16>, usize)>)
    requires
        i <= s@.len(),
    ensures
        match r {
            Some(p) => {
                &&& spec_scan_opt_u16(s@, i as int) == Some((p.0, p.1 as int))
                &&& i < p.1 <= s@.len()
            },
            None => spec_scan_opt_u16(s@, i as int) is None,
        },
{
    match expect_lit(s, i, lit_null_str()) {
        Some(j) => Some((None, j)),
        None => match scan_u64(s, i) {
            Some((v, j)) => if v <= 65535 {
                Some((Some(v as u16), j))
            } else {
                None
            },
            None => None,
        },
    }
}

/// Scans a bare numeral of value at most `u16::MAX`.
fn scan_u16(s: &str, i: usize) -> (r: Option<(u16, usize)>)
    requires
        i <= s@.len(),
    ensures
        match r {
            Some(p) => {
                &&& spec_scan_u16(s@, i as int) == Some((p.0, p.1 as int))
                &&& i < p.1 <= s@.len()
            },
            None => spec_scan_u16(s@, i as int) is None,
        },
{
    match scan_u64(s, i) {
        Some((v, j)) => if v <= 65535 {
            Some((v as u16, j))
        } else {
            None
        },
        None => None,
    }
}

/// Scans the timestamp.
fn scan_ts(s: &str, i: usize) -> (r: Option<(Timestamp, usize)>)
    requires
        i <= s@.len(),
    ensures
        match r {
            Some(p) => {
                &&& spec_scan_ts(s@, i as int) == Some((p.0, p.1 as int))
                &&& i < p.1 <= s@.len()
                &&& p.0.wf()
            },
            None => spec_scan_ts(s@, i as int) is None,
        },
{
    let n = s.unicode_len();
    let (secs, j) = match scan_u64(s, i) {
        Some(p) => p,
        None => {
            return None;
        },
    };
    if j >= n || s.get_char(j) != '.' {
        return Some((Timestamp { secs, nanos: 0 }, j));
    }
    let e = scan_digits_end(s, j + 1);
    proof {
        lemma_digits_end_bounds(s@, j + 1);
    }
    let w = e - (j + 1);
    if w < 1 || w > 9 {
        return None;
    }
    let v = match scan_fixed(s, j + 1, w) {
        Some(v) => v,
        None => {
            proof {
                assert(false);
            }
            return None;
        },
    };
    let p = pow10_u64(9 - w as u64);
    proof {
        lemma_pow10_add(w as nat, (9 - w) as nat);
        assert(pow10(9) == 1_000_000_000) by {
            reveal_with_fuel(pow10, 10);
        }
        assert((v as nat) * (p as nat) < pow10(w as nat) * pow10((9 - w) as nat))
            by (nonlinear_arith)
            requires
                (v as nat) < pow10(w as nat),
                (p as nat) == pow10((9 - w) as nat),
                p >= 1,
        ;
    }
    Some((Timestamp { secs, nanos: (v * p) as u32 }, e))
}

/// The fields of an activity object gathered so far, while scanning.
struct ActFieldsBuf {
    name: Option<String>,
    description: Option<String>,
    minutes_spent: Option<u16>,
    minimum_minutes: Option<Option<u16>>,
    maximum_minutes: Option<Option<u16>>,
}

impl View for ActFieldsBuf {
    type V = ActFieldsAcc;

    closed spec fn view(&self) -> ActFieldsAcc {
        ActFieldsAcc {
            name: match self.name {
                Some(v) => Some(v@),
                None => None,
            },
            description: match self.description {
                Some(v) => Some(v@),
                None => None,
            },
            minutes_spent: self.minutes_spent,
            minimum_minutes: self.minimum_minutes,
            maximum_minutes: self.maximum_minutes,
        }
    }
}

/// Scans one field of an activity object.
fn scan_act_field(s: &str, i: usize, buf: ActFieldsBuf) -> (r: Option<(ActFieldsBuf, usize)>)
    requires
        i <= s@.len(),
        act_acc_wf(buf@),
    ensures
        match r {
            Some(p) => {
                &&& spec_scan_act_field(s@, i as int, buf@) == Some((p.0@, p.1 as int))
                &&& i < p.1 <= s@.len()
                &&& act_acc_wf(p.0@)
            },
            None => spec_scan_act_field(s@, i as int, buf@) is None,
        },
{
    let mut buf = buf;
    if let Some(j) = scan_key(s, i, key_name_str()) {
        if buf.name.is_some() {
            return None;
        }
        let k = skip_ws(s, j);
        match scan_string(s, k) {
            Some((v, e)) => {
                buf.name = Some(v);
                Some((buf, e))
            },
            None => None,
        }
    } else if let Some(j) = scan_key(s, i, key_desc_str()) {
        if buf.description.is_some() {
            return None;
        }
        let k = skip_ws(s, j);
        match scan_string(s, k) {
            Some((v, e)) => {
                buf.description = Some(v);
                Some((buf, e))
            },
            None => None,
        }
    } else if let Some(j) = scan_key(s, i, key_minutes_str()) {
        if buf.minutes_spent.is_some() {
            return None;
        }
        let k = skip_ws(s, j);
        match scan_u16(s, k) {
            Some((v, e)) => {
                buf.minutes_spent = Some(v);
                Some((buf, e))
            },
            None => None,
        }
    } else if let Some(j) = scan_key(s, i, key_min_str()) {
        if buf.minimum_minutes.is_some() {
            return None;
        }
        let k = skip_ws(s, j);
        match scan_opt_u16(s, k) {
            Some((v, e)) => {
                buf.minimum_minutes = Some(v);
                Some((buf, e))
            },
            None => None,
        }
    } else if let Some(j) = scan_key(s, i, key_max_str()) {
        if buf.maximum_minutes.is_some() {
            return None;
        }
        let k = skip_ws(s, j);
        match scan_opt_u16(s, k) {
            Some((v, e)) => {
                buf.maximum_minutes = Some(v);
                Some((buf, e))
            },
            None => None,
        }
    } else {
        None
    }
}

/// Scans one or more comma-separated activity fields.
fn scan_act_fields(s: &str, i: usize, buf: ActFieldsBuf) -> (r: Option<(ActFieldsBuf, usize)>)
    requires
        i <= s@.len(),
        act_acc_wf(buf@),
    ensures
        match r {
            Some(p) => {
                &&& spec_scan_act_fields(s@, i as int, buf@) == Some((p.0@, p.1 as int))
                &&& i < p.1 <= s@.len()
                &&& act_acc_wf(p.0@)
            },
            None => spec_scan_act_fields(s@, i as int, buf@) is None,
        },
    decreases s@.len() - i,
{
    let n = s.unicode_len();
    let (buf2, j) = match scan_act_field(s, i, buf) {
        Some(p) => p,
        None => {
            return None;
        },
    };
    let j1 = skip_ws(s, j);
    if j1 < n && s.get_char(j1) == ',' {
        scan_act_fields(s, j1 + 1, buf2)
    } else {
        Some((buf2, j))
    }
}

/// Scans one activity object.
fn scan_activity(s: &str, i: usize) -> (r: Option<(ActivityRecord, usize)>)
    requires
        i <= s@.len(),
    ensures
        match r {
            Some(p) => {
                &&& spec_scan_activity(s@, i as int) == Some((p.0@, p.1 as int))
                &&& i < p.1 <= s@.len()
                &&& p.0@.wf()
            },
            None => spec_scan_activity(s@, i as int) is None,
        },
{
    let j0 = match scan_ch(s, i, '{') {
        Some(j) => j,
        None => {
            return None;
        },
    };
    let empty = ActFieldsBuf {
        name: None,
        description: None,
        minutes_spent: None,
        minimum_minutes: None,
        maximum_minutes: None,
    };
    proof {
        assert(empty@ == act_acc_empty());
    }
    let (buf, j) = match scan_act_fields(s, j0, empty) {
        Some(p) => p,
        None => {
            return None;
        },
    };
    let e = match scan_ch(s, j, '}') {
        Some(j2) => j2,
        None => {
            return None;
        },
    };
    match (buf.name, buf.description, buf.minutes_spent, buf.minimum_minutes, buf.maximum_minutes) {
        (Some(name), Some(description), Some(minutes_spent), Some(minimum_minutes), Some(
            maximum_minutes,
        )) => {
            let rec = ActivityRecord {
                name,
                description,
                minutes_spent,
                minimum_minutes,
                maximum_minutes,
            };
            Some((rec, e))
        },
        _ => None,
    }
}

/// Scans one or more comma-separated activity objects.
fn scan_acts_items(s: &str, i: usize) -> (r: Option<(Vec<ActivityRecord>, usize)>)
    requires
        i <= s@.len(),
    ensures
        match r {
            Some(p) => {
                &&& spec_scan_acts_items(s@, i as int) == Some((views_of_acts(p.0@), p.1 as int))
                &&& i < p.1 <= s@.len()
                &&& forall|k: int| 0 <= k < p.0@.len() ==> (#[trigger] p.0@[k])@.wf()
            },
            None => spec_scan_acts_items(s@, i as int) is None,
        },
    decreases s@.len() - i,
{
    let n = s.unicode_len();
    let (a, j) = match scan_activity(s, i) {
        Some(p) => p,
        None => {
            return None;
        },
    };
    let j1 = skip_ws(s, j);
    if j1 < n && s.get_char(j1) == ',' {
        match scan_acts_items(s, j1 + 1) {
            None => None,
            Some((mut rest, e)) => {
                let ghost rest0 = rest@;
                rest.insert(0, a);
                proof {
                    assert(views_of_acts(rest@) =~= seq![a@] + views_of_acts(rest0));
                }
                Some((rest, e))
            },
        }
    } else {
        let items = vec![a];
        proof {
            assert(views_of_acts(items@) =~= seq![a@]);
        }
        Some((items, j))
    }
}

/// The fields of a record object gathered so far, while scanning.
struct RecFieldsBuf {
    timestamp: Option<Timestamp>,
    record_date: Option<Date>,
    activities: Option<Vec<ActivityRecord>>,
}

impl View for RecFieldsBuf {
    type V = RecFieldsAcc;

    closed spec fn view(&self) -> RecFieldsAcc {
        RecFieldsAcc {
            timestamp: self.timestamp,
            record_date: self.record_date,
            activities: match self.activities {
                Some(v) => Some(views_of_acts(v@)),
                None => None,
            },
        }
    }
}

/// Scans one field of a record object.
fn scan_rec_field(s: &str, i: usize, buf: RecFieldsBuf) -> (r: Option<(RecFieldsBuf, usize)>)
    requires
        i <= s@.len(),
        rec_acc_wf(buf@),
    ensures
        match r {
            Some(p) => {
                &&& spec_scan_rec_field(s@, i as int, buf@) == Some((p.0@, p.1 as int))
                &&& i < p.1 <= s@.len()
                &&& rec_acc_wf(p.0@)
            },
            None => spec_scan_rec_field(s@, i as int, buf@) is None,
        },
{
    let n = s.unicode_len();
    let mut buf = buf;
    if let Some(j) = scan_key(s, i, key_ts_str()) {
        if buf.timestamp.is_some() {
            return None;
        }
        let k = skip_ws(s, j);
        match scan_ts(s, k) {
            Some((v, e)) => {
                buf.timestamp = Some(v);
                Some((buf, e))
            },
            None => None,
        }
    } else if let Some(j) = scan_key(s, i, key_date_str()) {
        if buf.record_date.is_some() {
            return None;
        }
        let q = skip_ws(s, j);
        if q >= n || s.get_char(q) != '"' {
            return None;
        }
        let (d, j6) = match scan_date(s, q + 1) {
            Some(p) => p,
            None => {
                return None;
            },
        };
        if j6 >= n || s.get_char(j6) != '"' {
            return None;
        }
        buf.record_date = Some(d);
        Some((buf, j6 + 1))
    } else if let Some(j) = scan_key(s, i, key_acts_str()) {
        if buf.activities.is_some() {
            return None;
        }
        let j9 = match scan_ch(s, j, '[') {
            Some(j2) => j2,
            None => {
                return None;
            },
        };
        match scan_ch(s, j9, ']') {
            Some(j10) => {
                let items: Vec<ActivityRecord> = Vec::new();
                proof {
                    assert(views_of_acts(items@) =~= Seq::<ActivityRecordV>::empty());
                }
                buf.activities = Some(items);
                Some((buf, j10))
            },
            None => {
                let (items, j10) = match scan_acts_items(s, j9) {
                    Some(p) => p,
                    None => {
                        return None;
                    },
                };
                let j11 = match scan_ch(s, j10, ']') {
                    Some(j2) => j2,
                    None => {
                        return None;
                    },
                };
                buf.activities = Some(items);
                Some((buf, j11))
            },
        }
    } else {
        None
    }
}

/// Scans one or more comma-separated record fields.
fn scan_rec_fields(s: &str, i: usize, buf: RecFieldsBuf) -> (r: Option<(RecFieldsBuf, usize)>)
    requires
        i <= s@.len(),
        rec_acc_wf(buf@),
    ensures
        match r {
            Some(p) => {
                &&& spec_scan_rec_fields(s@, i as int, buf@) == Some((p.0@, p.1 as int))
                &&& i < p.1 <= s@.len()
                &&& rec_acc_wf(p.0@)
            },
            None => spec_scan_rec_fields(s@, i as int, buf@) is None,
        },
    decreases s@.len() - i,
{
    let n = s.unicode_len();
    let (buf2, j) = match scan_rec_field(s, i, buf) {
        Some(p) => p,
        None => {
            return None;
        },
    };
    let j1 = skip_ws(s, j);
    if j1 < n && s.get_char(j1) == ',' {
        scan_rec_fields(s, j1 + 1, buf2)
    } else {
        Some((buf2, j))
    }
}

/// Scans one full day's record.
fn scan_record(s: &str, i: usize) -> (r: Option<(ActivitiesRecord, usize)>)
    requires
        i <= s@.len(),
    ensures
        match r {
            Some(p) => {
                &&& spec_scan_record(s@, i as int) == Some((p.0@, p.1 as int))
                &&& i < p.1 <= s@.len()
                &&& p.0@.wf()
            },
            None => spec_scan_record(s@, i as int) is None,
        },
{
    let j0 = match scan_ch(s, i, '{') {
        Some(j) => j,
        None => {
            return None;
        },
    };
    let empty = RecFieldsBuf { timestamp: None, record_date: None, activities: None };
    proof {
        assert(empty@ == rec_acc_empty());
    }
    let (buf, j) = match scan_rec_fields(s, j0, empty) {
        Some(p) => p,
        None => {
            return None;
        },
    };
    let e = match scan_ch(s, j, '}') {
        Some(j2) => j2,
        None => {
            return None;
        },
    };
    match (buf.timestamp, buf.record_date, buf.activities) {
        (Some(timestamp), Some(record_date), Some(activities)) => {
            let rec = ActivitiesRecord { timestamp, record_date, activities };
            Some((rec, e))
        },
        _ => None,
    }
}

/// Parses one log line as a record.  Succeeds exactly on a record object
/// with its fields in any order (each exactly once), whitespace permitted
/// between tokens and around the line, strings taken verbatim (escapes
/// rejected), and at most nine fractional timestamp digits.
pub fn parse_line(line: String) -> (r: Result<ActivitiesRecord, ParseError>)
    ensures
        match r {
            Ok(rec) => {
                &&& spec_parse_line(line@) == Some(rec@)
                &&& rec@.wf()
            },
            Err(_) => spec_parse_line(line@) is None,
        },
{
    let s = line.as_str();
    match scan_record(s, 0) {
        None => Err(ParseError),
        Some((rec, j)) => {
            let e = skip_ws(s, j);
            if e == s.unicode_len() {
                Ok(rec)
            } else {
                Err(ParseError)
            }
        },
    }
}

/// Map a run of concrete goals to their mathematical images.
pub open spec fn views_of_goals(s: Seq<ActivityGoal>) -> Seq<ActivityGoalV> {
    s.map_values(|g: ActivityGoal| g@)
}

/// The fields of a goal object gathered so far, while scanning.
struct GoalFieldsBuf {
    name: Option<String>,
    description: Option<String>,
    minimum_minutes: Option<Option<u16>>,
    maximum_minutes: Option<Option<u16>>,
}

impl View for GoalFieldsBuf {
    type V = GoalFieldsAcc;

    closed spec fn view(&self) -> GoalFieldsAcc {
        GoalFieldsAcc {
            name: match self.name {
                Some(v) => Some(v@),
                None => None,
            },
            description: match self.description {
                Some(v) => Some(v@),
                None => None,
            },
            minimum_minutes: self.minimum_minutes,
            maximum_minutes: self.maximum_minutes,
        }
    }
}

/// Scans one field of a goal object.
fn scan_goal_field(s: &str, i: usize, buf: GoalFieldsBuf) -> (r: Option<(GoalFieldsBuf, usize)>)
    requires
        i <= s@.len(),
        goal_acc_wf(buf@),
    ensures
        match r {
            Some(p) => {
                &&& spec_scan_goal_field(s@, i as int, buf@) == Some((p.0@, p.1 as int))
                &&& i < p.1 <= s@.len()
                &&& goal_acc_wf(p.0@)
            },
            None => spec_scan_goal_field(s@, i as int, buf@) is None,
        },
{
    let mut buf = buf;
    if let Some(j) = scan_key(s, i, key_name_str()) {
        if buf.name.is_some() {
            return None;
        }
        let k = skip_ws(s, j);
        match scan_string(s, k) {
            Some((v, e)) => {
                buf.name = Some(v);
                Some((buf, e))
            },
            None => None,
        }
    } else if let Some(j) = scan_key(s, i, key_desc_str()) {
        if buf.description.is_some() {
            return None;
        }
        let k = skip_ws(s, j);
        match scan_string(s, k) {
            Some((v, e)) => {
                buf.description = Some(v);
                Some((buf, e))
            },
            None => None,
        }
    } else if let Some(j) = scan_key(s, i, key_min_str()) {
        if buf.minimum_minutes.is_some() {
            return None;
        }
        let k = skip_ws(s, j);
        match scan_opt_u16(s, k) {
            Some((v, e)) => {
                buf.minimum_minutes = Some(v);
                Some((buf, e))
            },
            None => None,
        }
    } else if let Some(j) = scan_key(s, i, key_max_str()) {
        if buf.maximum_minutes.is_some() {
            return None;
        }
        let k = skip_ws(s, j);
        match scan_opt_u16(s, k) {
            Some((v, e)) => {
                buf.maximum_minutes = Some(v);
                Some((buf, e))
            },
            None => None,
        }
    } else {
        None
    }
}

/// Scans one or more comma-separated goal fields.
fn scan_goal_fields(s: &str, i: usize, buf: GoalFieldsBuf) -> (r: Option<(GoalFieldsBuf, usize)>)
    requires
        i <= s@.len(),
        goal_acc_wf(buf@),
    ensures
        match r {
            Some(p) => {
                &&& spec_scan_goal_fields(s@, i as int, buf@) == Some((p.0@, p.1 as int))
                &&& i < p.1 <= s@.len()
                &&& goal_acc_wf(p.0@)
            },
            None => spec_scan_goal_fields(s@, i as int, buf@) is None,
        },
    decreases s@.len() - i,
{
    let n = s.unicode_len();
    let (buf2, j) = match scan_goal_field(s, i, buf) {
        Some(p) => p,
        None => {
            return None;
        },
    };
    let j1 = skip_ws(s, j);
    if j1 < n && s.get_char(j1) == ',' {
        scan_goal_fields(s, j1 + 1, buf2)
    } else {
        Some((buf2, j))
    }
}

/// Scans one goal object.
fn scan_goal(s: &str, i: usize) -> (r: Option<(ActivityGoal, usize)>)
    requires
        i <= s@.len(),
    ensures
        match r {
            Some(p) => {
                &&& spec_scan_goal(s@, i as int) == Some((p.0@, p.1 as int))
                &&& i < p.1 <= s@.len()
                &&& p.0@.wf()
            },
            None => spec_scan_goal(s@, i as int) is None,
        },
{
    let j0 = match scan_ch(s, i, '{') {
        Some(j) => j,
        None => {
            return None;
        },
    };
    let empty = GoalFieldsBuf {
        name: None,
        description: None,
        minimum_minutes: None,
        maximum_minutes: None,
    };
    proof {
        assert(empty@ == goal_acc_empty());
    }
    let (buf, j) = match scan_goal_fields(s, j0, empty) {
        Some(p) => p,
        None => {
            return None;
        },
    };
    let e = match scan_ch(s, j, '}') {
        Some(j2) => j2,
        None => {
            return None;
        },
    };
    match (buf.name, buf.description, buf.minimum_minutes, buf.maximum_minutes) {
        (Some(name), Some(description), Some(minimum_minutes), Some(maximum_minutes)) => {
            let goal = ActivityGoal { name, description, minimum_minutes, maximum_minutes };
            Some((goal, e))
        },
        _ => None,
    }
}

/// Scans one or more comma-separated goal objects.
fn scan_goal_items(s: &str, i: usize) -> (r: Option<(Vec<ActivityGoal>, usize)>)
    requires
        i <= s@.len(),
    ensures
        match r {
            Some(p) => {
                &&& spec_scan_goal_items(s@, i as int) == Some((views_of_goals(p.0@), p.1 as int))
                &&& i < p.1 <= s@.len()
                &&& forall|k: int| 0 <= k < p.0@.len() ==> (#[trigger] p.0@[k])@.wf()
            },
            None => spec_scan_goal_items(s@, i as int) is None,
        },
    decreases s@.len() - i,
{
    let n = s.unicode_len();
    let (g, j) = match scan_goal(s, i) {
        Some(p) => p,
        None => {
            return None;
        },
    };
    let j1 = skip_ws(s, j);
    if j1 < n && s.get_char(j1) == ',' {
        match scan_goal_items(s, j1 + 1) {
            None => None,
            Some((mut rest, e)) => {
                let ghost rest0 = rest@;
                rest.insert(0, g);
                proof {
                    assert(views_of_goals(rest@) =~= seq![g@] + views_of_goals(rest0));
                }
                Some((rest, e))
            },
        }
    } else {
        let items = vec![g];
        proof {
            assert(views_of_goals(items@) =~= seq![g@]);
        }
        Some((items, j))
    }
}

/// Parses the goals file's text.  Succeeds exactly on a
/// `{"activity_goals":[...]}` object whose goals carry their fields in any
/// order (each exactly once), with whitespace permitted between tokens and
/// around the document, and strings taken verbatim (escapes rejected).
pub fn parse_activity_goals(content: &str) -> (r: Result<ActivityGoals, ParseError>)
    ensures
        match r {
            Ok(goals) => {
                &&& spec_parse_goals(content@) == Some(goals@)
                &&& forall|k: int| 0 <= k < goals@.len() ==> (#[trigger] goals@[k]).wf()
            },
            Err(_) => spec_parse_goals(content@) is None,
        },
{
    let s = content;
    let n = s.unicode_len();
    let j0 = match scan_ch(s, 0, '{') {
        Some(j) => j,
        None => {
            return Err(ParseError);
        },
    };
    let j1 = match scan_key(s, j0, key_goals_str()) {
        Some(j) => j,
        None => {
            return Err(ParseError);
        },
    };
    let j2 = match scan_ch(s, j1, '[') {
        Some(j) => j,
        None => {
            return Err(ParseError);
        },
    };
    match scan_ch(s, j2, ']') {
        Some(j3) => {
            let e = match scan_ch(s, j3, '}') {
                Some(j) => j,
                None => {
                    return Err(ParseError);
                },
            };
            if skip_ws(s, e) == n {
                let goals = ActivityGoals { activity_goals: Vec::new() };
                proof {
                    assert(goals@ =~= Seq::<ActivityGoalV>::empty());
                }
                Ok(goals)
            } else {
                Err(ParseError)
            }
        },
        None => {
            let (items, j3) = match scan_goal_items(s, j2) {
                Some(p) => p,
                None => {
                    return Err(ParseError);
                },
            };
            let j4 = match scan_ch(s, j3, ']') {
                Some(j) => j,
                None => {
                    return Err(ParseError);
                },
            };
            let e = match scan_ch(s, j4, '}') {
                Some(j) => j,
                None => {
                    return Err(ParseError);
                },
            };
            if skip_ws(s, e) == n {
                Ok(ActivityGoals { activity_goals: items })
            } else {
                Err(ParseError)
            }
        },
    }
}

/// Parses the minutes answer of a survey prompt: a bare decimal numeral of
/// value at most `u16::MAX`, nothing else.
pub fn parse_minutes(s: &str) -> (r: Result<u16, ParseError>)
    ensures
        match r {
            Ok(v) => spec_scan_u16(s@, 0) == Some((v, s@.len() as int)),
            Err(_) => !(exists|v: u16| spec_scan_u16(s@, 0) == Some((v, s@.len() as int))),
        },
{
    match scan_u16(s, 0) {
        Some((v, j)) => if j == s.unicode_len() {
            Ok(v)
        } else {
            Err(ParseError)
        },
        None => Err(ParseError),
    }
}

/// Parses the date answer of a survey prompt: exactly `yyyy-mm-dd`, a
/// calendar-valid date.
pub fn parse_date(s: &str) -> (r: Result<Date, ParseError>)
    ensures
        match r {
            Ok(d) => {
                &&& spec_scan_date(s@, 0) == Some((d, s@.len() as int))
                &&& d.wf()
            },
            Err(_) => !(exists|d: Date| spec_scan_date(s@, 0) == Some((d, s@.len() as int))),
        },
{
    match scan_date(s, 0) {
        Some((d, j)) => if j == s.unicode_len() {
            Ok(d)
        } else {
            Err(ParseError)
        },
        None => Err(ParseError),
    }
}

// ---------------------------------------------------------------------------
// The log as a whole: lines
// ---------------------------------------------------------------------------

/// First position at or after `i` that holds a newline, or the end.
pub open spec fn nl_end(s: Seq<char>, i: int) -> int
    decreases s.len() - i,
    when 0 <= i <= s.len()
{
    if i < s.len() && s[i] != '\n' {
        nl_end(s, i + 1)
    } else {
        i
    }
}

pub proof fn lemma_nl_end_bounds(s: Seq<char>, i: int)
    requires
        0 <= i <= s.len(),
    ensures
        i <= nl_end(s, i) <= s.len(),
        forall|k: int| i <= k < nl_end(s, i) ==> s[k] != '\n',
        nl_end(s, i) < s.len() ==> s[nl_end(s, i)] == '\n',
    decreases s.len() - i,
{
    if i < s.len() && s[i] != '\n' {
        lemma_nl_end_bounds(s, i + 1);
    }
}

/// The text split at newlines, the way a buffered line reader yields it: the
/// final newline, if any, ends the last line rather than opening an empty
/// one.
pub open spec fn spec_split_from(s: Seq<char>, i: int) -> Seq<Seq<char>>
    decreases s.len() - i,
    when 0 <= i <= s.len()
    via spec_split_from_decreases
{
    if i == s.len() {
        Seq::empty()
    } else {
        let e = nl_end(s, i);
        if e == s.len() {
            seq![s.subrange(i, e)]
        } else {
            seq![s.subrange(i, e)] + spec_split_from(s, e + 1)
        }
    }
}

#[via_fn]
proof fn spec_split_from_decreases(s: Seq<char>, i: int) {
    if 0 <= i < s.len() {
        lemma_nl_end_bounds(s, i);
    }
}

pub open spec fn spec_split_lines(s: Seq<char>) -> Seq<Seq<char>> {
    spec_split_from(s, 0)
}

/// First newline position at or after `i`, or the end.
fn scan_nl_end(s: &str, i: usize) -> (e: usize)
    requires
        i <= s@.len(),
    ensures
        e == nl_end(s@, i as int),
        i <= e <= s@.len(),
    decreases s@.len() - i,
{
    let n = s.unicode_len();
    if i < n {
        if s.get_char(i) != '\n' {
            scan_nl_end(s, i + 1)
        } else {
            i
        }
    } else {
        i
    }
}

/// Splits the text into its lines.
fn split_from(s: &str, i: usize) -> (r: Vec<String>)
    requires
        i <= s@.len(),
    ensures
        r@.map_values(|t: String| t@) == spec_split_from(s@, i as int),
    decreases s@.len() - i,
{
    let n = s.unicode_len();
    if i == n {
        let r = Vec::<String>::new();
        proof {
            assert(r@.map_values(|t: String| t@) =~= spec_split_from(s@, i as int));
        }
        r
    } else {
        let e = scan_nl_end(s, i);
        let line = s.substring_char(i, e).to_owned();
        if e == n {
            let mut r = Vec::<String>::new();
            r.push(line);
            proof {
                assert(r@.map_values(|t: String| t@) =~= spec_split_from(s@, i as int));
            }
            r
        } else {
            let mut rest = split_from(s, e + 1);
            let ghost rest0 = rest@;
            rest.insert(0, line);
            proof {
                assert(rest@.map_values(|t: String| t@) =~= seq![line@] + rest0.map_values(
                    |t: String| t@,
                ));
                assert(rest@.map_values(|t: String| t@) =~= spec_split_from(s@, i as int));
            }
            rest
        }
    }
}

/// Reads a whole log text: one parse attempt per line, independently, so a
/// malformed line yields one error and its neighbours still parse.
pub fn parse_activity_log(content: &str) -> (r: Vec<Result<ActivitiesRecord, ParseError>>)
    ensures
        r@.len() == spec_split_lines(content@).len(),
        forall|k: int|
            0 <= k < r@.len() ==> match #[trigger] r@[k] {
                Ok(rec) => {
                    &&& spec_parse_line(spec_split_lines(content@)[k]) == Some(rec@)
                    &&& rec@.wf()
                },
                Err(_) => spec_parse_line(spec_split_lines(content@)[k]) is None,
            },
{
    let lines = split_from(content, 0);
    let ghost line_views = lines@.map_values(|t: String| t@);
    let mut r: Vec<Result<ActivitiesRecord, ParseError>> = Vec::new();
    let mut k: usize = 0;
    while k < lines.len()
        invariant
            k <= lines.len(),
            r@.len() == k,
            line_views == spec_split_lines(content@),
            line_views == lines@.map_values(|t: String| t@),
            forall|t: int|
                0 <= t < k ==> match #[trigger] r@[t] {
                    Ok(rec) => {
                        &&& spec_parse_line(line_views[t]) == Some(rec@)
                        &&& rec@.wf()
                    },
                    Err(_) => spec_parse_line(line_views[t]) is None,
                },
        decreases lines.len() - k,
    {
        let line = lines[k].clone();
        proof {
            assert(line@ == line_views[k as int]);
        }
        r.push(parse_line(line));
        k = k + 1;
    }
    r
}

} // verus!
