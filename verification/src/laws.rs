//! The format's guarantees, stated and proved: a well-formed record's
//! canonical line parses back to the same record (round trip), and a log of
//! `n` encoded lines splits back into exactly those `n` lines, in order
//! (append-only structure with per-line failure isolation).

use vstd::prelude::*;

use crate::codec::{
    act_acc_empty, key_acts, key_date, key_desc, key_max, key_min, key_minutes, key_name, key_ts,
    lit_acts, lit_close, lit_date, lit_desc, lit_max, lit_min, lit_minutes, lit_name, lit_null,
    lit_rbrace, lit_ts, nl_end, quoted, rec_acc_empty, ser_acts, ser_activity, ser_opt_u16,
    ser_record, ser_ts, spec_ch, spec_parse_line, spec_scan_act_field, spec_scan_act_fields,
    spec_scan_acts_items, spec_scan_activity, spec_scan_key, spec_scan_opt_u16,
    spec_scan_rec_field, spec_scan_rec_fields, spec_scan_record, spec_scan_ts, spec_scan_u16,
    spec_split_from, spec_split_lines, ActFieldsAcc, RecFieldsAcc,
};
use crate::date::{lemma_scan_ser_date, ser_date, spec_scan_date};
use crate::records::{ActivitiesRecordV, ActivityRecordV, Timestamp};
use crate::text::{
    dec_digits, digits_val, is_digit_char, is_ws_char, json_plain, json_plain_char,
    lemma_dec_digits_shape, lemma_digits_end_at, lemma_digits_val_of_dec, lemma_digits_val_of_pad,
    lemma_pad_digits_shape, lemma_plain_end_at, pad_digits, pow10, spec_parse_lit,
    spec_scan_string, spec_scan_u64, spec_skip_ws,
};

verus! {

// ---------------------------------------------------------------------------
// A rendered piece, standing inside a larger text, scans back to its value
// ---------------------------------------------------------------------------

/// The shortest numeral, with no digit following it, scans back to its
/// value.
proof fn lemma_scan_dec_u64(s: Seq<char>, i: int, n: u64)
    requires
        0 <= i,
        i + dec_digits(n as nat).len() <= s.len(),
        s.subrange(i, i + dec_digits(n as nat).len() as int) == dec_digits(n as nat),
        i + dec_digits(n as nat).len() < s.len() ==> !is_digit_char(
            s[i + dec_digits(n as nat).len()],
        ),
    ensures
        spec_scan_u64(s, i) == Some((n, i + dec_digits(n as nat).len() as int)),
{
    let j = i + dec_digits(n as nat).len() as int;
    lemma_digits_val_of_dec(s, i, j, n as nat);
    lemma_digits_end_at(s, i, j);
}

/// A quoted plain text scans back to its body.
proof fn lemma_scan_quoted(s: Seq<char>, i: int, t: Seq<char>)
    requires
        0 <= i,
        i + t.len() + 2 <= s.len(),
        json_plain(t),
        s.subrange(i, i + t.len() + 2) == quoted(t),
    ensures
        spec_scan_string(s, i) == Some((t, i + t.len() + 2)),
{
    let e = i + 1 + t.len() as int;
    assert forall|k: int| 0 <= k < t.len() + 2 implies s[i + k] == #[trigger] quoted(t)[k] by {
        assert(s.subrange(i, i + t.len() + 2)[k] == quoted(t)[k]);
    }
    assert(s[i] == quoted(t)[0]);
    assert(s[e] == quoted(t)[t.len() as int + 1]);
    assert forall|k: int| i + 1 <= k < e implies json_plain_char(#[trigger] s[k]) by {
        assert(s[k] == quoted(t)[k - i]);
        assert(quoted(t)[k - i] == t[k - i - 1]);
    }
    lemma_plain_end_at(s, i + 1, e);
    assert(s.subrange(i + 1, e) =~= t) by {
        assert forall|k: int| 0 <= k < t.len() implies (#[trigger] s.subrange(i + 1, e)[k]) == t[k] by {
            assert(s[i + 1 + k] == quoted(t)[1 + k]);
        }
    }
}

/// An optional minute target, rendered, scans back to its value.
proof fn lemma_scan_ser_opt(s: Seq<char>, i: int, o: Option<u16>)
    requires
        0 <= i,
        i + ser_opt_u16(o).len() <= s.len(),
        s.subrange(i, i + ser_opt_u16(o).len() as int) == ser_opt_u16(o),
        i + ser_opt_u16(o).len() < s.len() ==> !is_digit_char(s[i + ser_opt_u16(o).len()]),
    ensures
        spec_scan_opt_u16(s, i) == Some((o, i + ser_opt_u16(o).len() as int)),
{
    match o {
        None => {
            assert(ser_opt_u16(o) == lit_null());
        },
        Some(v) => {
            let d = dec_digits(v as nat);
            lemma_dec_digits_shape(v as nat);
            assert(s[i] == d[0]) by {
                assert(s.subrange(i, i + d.len() as int)[0] == d[0]);
            }
            assert(is_digit_char(s[i]));
            if spec_parse_lit(s, i, lit_null()) is Some {
                assert(s.subrange(i, i + 4) == lit_null());
                assert(s[i] == lit_null()[0]) by {
                    assert(s.subrange(i, i + 4)[0] == lit_null()[0]);
                }
                assert(s[i] == 'n');
                assert(false);
            }
            lemma_scan_dec_u64(s, i, v as u64);
        },
    }
}

/// Skipping whitespace before a non-whitespace character stays put.
proof fn lemma_skip_id(s: Seq<char>, i: int)
    requires
        0 <= i < s.len(),
        !is_ws_char(s[i]),
    ensures
        spec_skip_ws(s, i) == i,
{
}

/// A digit is not whitespace.
proof fn lemma_digit_not_ws(c: char)
    requires
        is_digit_char(c),
    ensures
        !is_ws_char(c),
{
}

/// A single-character token standing right here scans to the next position.
proof fn lemma_tok_ch(s: Seq<char>, i: int, c: char)
    requires
        0 <= i < s.len(),
        s[i] == c,
        !is_ws_char(c),
    ensures
        spec_ch(s, i, c) == Some(i + 1),
{
    lemma_skip_id(s, i);
}

/// An object key standing right here, with its colon right after, scans to
/// the position past the colon.
proof fn lemma_tok_key(s: Seq<char>, i: int, key: Seq<char>)
    requires
        0 <= i,
        key.len() > 0,
        key[0] == '"',
        i + key.len() + 1 <= s.len(),
        s.subrange(i, i + key.len() as int) == key,
        s[i + key.len()] == ':',
    ensures
        spec_scan_key(s, i, key) == Some(i + key.len() + 1),
{
    assert(s[i] == key[0]) by {
        assert(s.subrange(i, i + key.len() as int)[0] == key[0]);
    }
    assert(!is_ws_char('"'));
    lemma_skip_id(s, i);
    assert(spec_parse_lit(s, i, key) == Some(i + key.len() as int));
    assert(!is_ws_char(':'));
    lemma_tok_ch(s, i + key.len() as int, ':');
}

/// A region `c` + key + `:` of the rendering scans as the two tokens `c` and
/// the key with its colon.
proof fn lemma_key_at(s: Seq<char>, p: int, lit: Seq<char>, key: Seq<char>, c: char)
    requires
        0 <= p,
        p + lit.len() <= s.len(),
        s.subrange(p, p + lit.len() as int) == lit,
        lit == seq![c] + key + seq![':'],
        key.len() > 0,
        key[0] == '"',
        !is_ws_char(c),
    ensures
        s[p] == c,
        spec_ch(s, p, c) == Some(p + 1),
        spec_scan_key(s, p + 1, key) == Some(p + lit.len() as int),
{
    assert forall|k: int| 0 <= k < lit.len() implies s[p + k] == #[trigger] lit[k] by {
        assert(s.subrange(p, p + lit.len() as int)[k] == lit[k]);
    }
    assert(lit.len() == key.len() + 2);
    assert(lit[0] == c);
    lemma_tok_ch(s, p, c);
    assert(s.subrange(p + 1, p + 1 + key.len() as int) =~= key) by {
        assert forall|k: int|
            0 <= k < key.len() implies (#[trigger] s.subrange(p + 1, p + 1 + key.len() as int)[k])
            == key[k] by {
            assert(s[p + (1 + k)] == lit[1 + k]);
            assert(lit[1 + k] == key[k]);
        }
    }
    assert(s[p + (key.len() + 1)] == lit[key.len() as int + 1]);
    assert(lit[key.len() as int + 1] == ':');
    lemma_tok_key(s, p + 1, key);
}

/// A key that differs from `other` at some index is not scanned as `other`.
proof fn lemma_key_differs(s: Seq<char>, q: int, other: Seq<char>, idx: int)
    requires
        0 <= q < s.len(),
        !is_ws_char(s[q]),
        0 <= idx < other.len(),
        q + idx < s.len(),
        s[q + idx] != other[idx],
    ensures
        spec_scan_key(s, q, other) is None,
{
    lemma_skip_id(s, q);
    if spec_parse_lit(s, q, other) is Some {
        assert(s.subrange(q, q + other.len() as int) == other);
        assert(s.subrange(q, q + other.len() as int)[idx] == other[idx]);
        assert(false);
    }
}

/// A rendered timestamp, with no digit following it, scans back to its
/// value.
proof fn lemma_scan_ser_ts(s: Seq<char>, i: int, t: Timestamp)
    requires
        t.wf(),
        0 <= i,
        i + ser_ts(t).len() <= s.len(),
        s.subrange(i, i + ser_ts(t).len() as int) == ser_ts(t),
        i + ser_ts(t).len() < s.len() ==> !is_digit_char(s[i + ser_ts(t).len()]),
    ensures
        spec_scan_ts(s, i) == Some((t, i + ser_ts(t).len() as int)),
{
    let d = dec_digits(t.secs as nat);
    let p = pad_digits(t.nanos as nat, 9);
    lemma_dec_digits_shape(t.secs as nat);
    lemma_pad_digits_shape(t.nanos as nat, 9);
    let w = ser_ts(t);
    assert(w =~= d + seq!['.'] + p);
    let j = i + d.len() as int;
    assert forall|k: int| 0 <= k < w.len() implies s[i + k] == #[trigger] w[k] by {
        assert(s.subrange(i, i + w.len() as int)[k] == w[k]);
    }
    assert(s.subrange(i, j) =~= d) by {
        assert forall|k: int| 0 <= k < d.len() implies (#[trigger] s.subrange(i, j)[k]) == d[k] by {
            assert(s[i + k] == w[k]);
            assert(w[k] == d[k]);
        }
    }
    assert(s[j] == w[d.len() as int]);
    assert(s[j] == '.');
    assert(!is_digit_char('.'));
    lemma_scan_dec_u64(s, i, t.secs);
    assert(s.subrange(j + 1, j + 10) =~= p) by {
        assert forall|k: int| 0 <= k < 9 implies (#[trigger] s.subrange(j + 1, j + 10)[k]) == p[k] by {
            assert(s[i + (d.len() + 1 + k)] == w[d.len() + 1 + k]);
            assert(w[d.len() + 1 + k] == p[k]);
        }
    }
    assert(pow10(9) == 1_000_000_000 && pow10(0) == 1) by {
        reveal_with_fuel(pow10, 10);
    }
    lemma_digits_val_of_pad(s, j + 1, 9, t.nanos as nat);
    lemma_digits_end_at(s, j + 1, j + 10);
    assert(digits_val(s, j + 1, j + 10) * pow10(0) == t.nanos as nat);
}

/// The facts about a rendered activity object's last two fields and closing
/// brace: key matches and mismatches, value scans, and the token positions.
spec fn act_mid(s: Seq<char>, i: int, a: ActivityRecordV) -> bool {
    let p6 = i + 44 + a.name.len() + a.description.len() + dec_digits(
        a.minutes_spent as nat,
    ).len();
    let p7 = p6 + 19;
    let p8 = p7 + ser_opt_u16(a.minimum_minutes).len();
    let p9 = p8 + 19;
    let p10 = p9 + ser_opt_u16(a.maximum_minutes).len();
    &&& spec_skip_ws(s, p6) == p6
    &&& p6 < s.len() && s[p6] == ','
    &&& spec_scan_key(s, p6 + 1, key_name()) is None
    &&& spec_scan_key(s, p6 + 1, key_desc()) is None
    &&& spec_scan_key(s, p6 + 1, key_minutes()) is None
    &&& spec_scan_key(s, p6 + 1, key_min()) == Some(p7)
    &&& spec_skip_ws(s, p7) == p7
    &&& spec_scan_opt_u16(s, p7) == Some((a.minimum_minutes, p8))
    &&& spec_skip_ws(s, p8) == p8
    &&& p8 < s.len() && s[p8] == ','
    &&& spec_scan_key(s, p8 + 1, key_name()) is None
    &&& spec_scan_key(s, p8 + 1, key_desc()) is None
    &&& spec_scan_key(s, p8 + 1, key_minutes()) is None
    &&& spec_scan_key(s, p8 + 1, key_min()) is None
    &&& spec_scan_key(s, p8 + 1, key_max()) == Some(p9)
    &&& spec_skip_ws(s, p9) == p9
    &&& spec_scan_opt_u16(s, p9) == Some((a.maximum_minutes, p10))
    &&& spec_skip_ws(s, p10) == p10
    &&& spec_ch(s, p10, '}') == Some(p10 + 1)
}

/// The tokens of a rendered activity object scan back to the object's
/// fields, and none of the other keys matches at any field.
#[verifier::rlimit(100)]
proof fn lemma_scan_ser_activity_tokens(s: Seq<char>, i: int, a: ActivityRecordV)
    requires
        a.wf(),
        0 <= i,
        i + ser_activity(a).len() <= s.len(),
        s.subrange(i, i + ser_activity(a).len() as int) == ser_activity(a),
    ensures
        ser_activity(a).len() == 83 + a.name.len() + a.description.len() + dec_digits(
            a.minutes_spent as nat,
        ).len() + ser_opt_u16(a.minimum_minutes).len() + ser_opt_u16(a.maximum_minutes).len(),
        spec_ch(s, i, '{') == Some(i + 1),
        spec_scan_key(s, i + 1, key_name()) == Some(i + 8),
        spec_skip_ws(s, i + 8) == i + 8,
        spec_scan_string(s, i + 8) == Some((a.name, i + 10 + a.name.len())),
        spec_skip_ws(s, i + 10 + a.name.len()) == i + 10 + a.name.len(),
        i + 10 + a.name.len() < s.len() && s[i + 10 + a.name.len()] == ',',
        spec_scan_key(s, i + 11 + a.name.len(), key_name()) is None,
        spec_scan_key(s, i + 11 + a.name.len(), key_desc()) == Some(i + 25 + a.name.len()),
        spec_skip_ws(s, i + 25 + a.name.len()) == i + 25 + a.name.len(),
        spec_scan_string(s, i + 25 + a.name.len()) == Some(
            (a.description, i + 27 + a.name.len() + a.description.len()),
        ),
        spec_skip_ws(s, i + 27 + a.name.len() + a.description.len()) == i + 27 + a.name.len()
            + a.description.len(),
        i + 27 + a.name.len() + a.description.len() < s.len() && s[i + 27 + a.name.len()
            + a.description.len()] == ',',
        spec_scan_key(s, i + 28 + a.name.len() + a.description.len(), key_name()) is None,
        spec_scan_key(s, i + 28 + a.name.len() + a.description.len(), key_desc()) is None,
        spec_scan_key(s, i + 28 + a.name.len() + a.description.len(), key_minutes()) == Some(
            i + 44 + a.name.len() + a.description.len(),
        ),
        spec_skip_ws(s, i + 44 + a.name.len() + a.description.len()) == i + 44 + a.name.len()
            + a.description.len(),
        spec_scan_u16(s, i + 44 + a.name.len() + a.description.len()) == Some(
            (
                a.minutes_spent,
                i + 44 + a.name.len() + a.description.len() + dec_digits(
                    a.minutes_spent as nat,
                ).len(),
            ),
        ),
        act_mid(s, i, a),
{
    let t = ser_activity(a);
    let d = dec_digits(a.minutes_spent as nat);
    let o1 = ser_opt_u16(a.minimum_minutes);
    let o2 = ser_opt_u16(a.maximum_minutes);
    lemma_dec_digits_shape(a.minutes_spent as nat);
    let p1 = lit_name().len() as int;
    let p2 = p1 + a.name.len() + 2;
    let p3 = p2 + lit_desc().len() as int;
    let p4 = p3 + a.description.len() + 2;
    let p5 = p4 + lit_minutes().len() as int;
    let p6 = p5 + d.len() as int;
    let p7 = p6 + lit_min().len() as int;
    let p8 = p7 + o1.len() as int;
    let p9 = p8 + lit_max().len() as int;
    let p10 = p9 + o2.len() as int;
    let p11 = p10 + 1;
    assert(t.len() == p11);
    assert forall|k: int| 0 <= k < t.len() implies s[i + k] == #[trigger] t[k] by {
        assert(s.subrange(i, i + t.len() as int)[k] == t[k]);
    }
    // the opening brace and the name key
    assert(s.subrange(i, i + p1) =~= lit_name()) by {
        assert forall|k: int| 0 <= k < p1 implies (#[trigger] s.subrange(i, i + p1)[k])
            == lit_name()[k] by {
            assert(s[i + k] == t[k]);
            assert(t[k] == lit_name()[k]);
        }
    }
    assert(lit_name() =~= seq!['{'] + key_name() + seq![':']);
    lemma_key_at(s, i, lit_name(), key_name(), '{');
    // the quoted name
    assert(s.subrange(i + p1, i + p2) =~= quoted(a.name)) by {
        assert forall|k: int| 0 <= k < p2 - p1 implies (#[trigger] s.subrange(i + p1, i + p2)[k])
            == quoted(a.name)[k] by {
            assert(s[i + (p1 + k)] == t[p1 + k]);
            assert(t[p1 + k] == quoted(a.name)[k]);
        }
    }
    assert(s[i + p1] == t[p1] && t[p1] == quoted(a.name)[0]);
    lemma_skip_id(s, i + p1);
    lemma_scan_quoted(s, i + p1, a.name);
    // the comma and the description key
    assert(s.subrange(i + p2, i + p3) =~= lit_desc()) by {
        assert forall|k: int| 0 <= k < p3 - p2 implies (#[trigger] s.subrange(i + p2, i + p3)[k])
            == lit_desc()[k] by {
            assert(s[i + (p2 + k)] == t[p2 + k]);
            assert(t[p2 + k] == lit_desc()[k]);
        }
    }
    assert(lit_desc() =~= seq![','] + key_desc() + seq![':']);
    lemma_key_at(s, i + p2, lit_desc(), key_desc(), ',');
    // the quoted description
    assert(s.subrange(i + p3, i + p4) =~= quoted(a.description)) by {
        assert forall|k: int| 0 <= k < p4 - p3 implies (#[trigger] s.subrange(i + p3, i + p4)[k])
            == quoted(a.description)[k] by {
            assert(s[i + (p3 + k)] == t[p3 + k]);
            assert(t[p3 + k] == quoted(a.description)[k]);
        }
    }
    assert(s[i + p3] == t[p3] && t[p3] == quoted(a.description)[0]);
    lemma_skip_id(s, i + p3);
    lemma_scan_quoted(s, i + p3, a.description);
    // the comma and the minutes key
    assert(s.subrange(i + p4, i + p5) =~= lit_minutes()) by {
        assert forall|k: int| 0 <= k < p5 - p4 implies (#[trigger] s.subrange(i + p4, i + p5)[k])
            == lit_minutes()[k] by {
            assert(s[i + (p4 + k)] == t[p4 + k]);
            assert(t[p4 + k] == lit_minutes()[k]);
        }
    }
    assert(lit_minutes() =~= seq![','] + key_minutes() + seq![':']);
    lemma_key_at(s, i + p4, lit_minutes(), key_minutes(), ',');
    // the minutes numeral, bounded on the right by the next literal's comma
    assert(s.subrange(i + p5, i + p6) =~= d) by {
        assert forall|k: int| 0 <= k < p6 - p5 implies (#[trigger] s.subrange(i + p5, i + p6)[k])
            == d[k] by {
            assert(s[i + (p5 + k)] == t[p5 + k]);
            assert(t[p5 + k] == d[k]);
        }
    }
    assert(s[i + p5] == t[p5] && t[p5] == d[0]);
    lemma_digit_not_ws(d[0]);
    lemma_skip_id(s, i + p5);
    assert(s[i + p6] == t[p6]);
    assert(t[p6] == lit_min()[0]);
    assert(!is_digit_char(','));
    lemma_scan_dec_u64(s, i + p5, a.minutes_spent as u64);
    assert(spec_scan_u16(s, i + p5) == Some((a.minutes_spent, i + p6)));
    // the comma and the minimum key
    assert(s.subrange(i + p6, i + p7) =~= lit_min()) by {
        assert forall|k: int| 0 <= k < p7 - p6 implies (#[trigger] s.subrange(i + p6, i + p7)[k])
            == lit_min()[k] by {
            assert(s[i + (p6 + k)] == t[p6 + k]);
            assert(t[p6 + k] == lit_min()[k]);
        }
    }
    assert(lit_min() =~= seq![','] + key_min() + seq![':']);
    lemma_key_at(s, i + p6, lit_min(), key_min(), ',');
    // the minimum value, bounded on the right by the next literal's comma
    assert(s.subrange(i + p7, i + p8) =~= o1) by {
        assert forall|k: int| 0 <= k < p8 - p7 implies (#[trigger] s.subrange(i + p7, i + p8)[k])
            == o1[k] by {
            assert(s[i + (p7 + k)] == t[p7 + k]);
            assert(t[p7 + k] == o1[k]);
        }
    }
    assert(s[i + p7] == t[p7] && t[p7] == o1[0]);
    match a.minimum_minutes {
        None => {
            assert(o1[0] == 'n');
            assert(!is_ws_char(s[i + p7]));
        },
        Some(v) => {
            lemma_dec_digits_shape(v as nat);
            lemma_digit_not_ws(o1[0]);
        },
    }
    lemma_skip_id(s, i + p7);
    assert(s[i + p8] == t[p8]);
    assert(t[p8] == lit_max()[0]);
    lemma_scan_ser_opt(s, i + p7, a.minimum_minutes);
    // the comma and the maximum key
    assert(s.subrange(i + p8, i + p9) =~= lit_max()) by {
        assert forall|k: int| 0 <= k < p9 - p8 implies (#[trigger] s.subrange(i + p8, i + p9)[k])
            == lit_max()[k] by {
            assert(s[i + (p8 + k)] == t[p8 + k]);
            assert(t[p8 + k] == lit_max()[k]);
        }
    }
    assert(lit_max() =~= seq![','] + key_max() + seq![':']);
    lemma_key_at(s, i + p8, lit_max(), key_max(), ',');
    // the maximum value, bounded on the right by the closing brace
    assert(s.subrange(i + p9, i + p10) =~= o2) by {
        assert forall|k: int| 0 <= k < p10 - p9 implies (#[trigger] s.subrange(i + p9, i + p10)[k])
            == o2[k] by {
            assert(s[i + (p9 + k)] == t[p9 + k]);
            assert(t[p9 + k] == o2[k]);
        }
    }
    assert(s[i + p9] == t[p9] && t[p9] == o2[0]);
    match a.maximum_minutes {
        None => {
            assert(o2[0] == 'n');
            assert(!is_ws_char(s[i + p9]));
        },
        Some(v) => {
            lemma_dec_digits_shape(v as nat);
            lemma_digit_not_ws(o2[0]);
        },
    }
    lemma_skip_id(s, i + p9);
    assert(s[i + p10] == t[p10]);
    assert(t[p10] == lit_rbrace()[0]);
    assert(!is_digit_char('}'));
    lemma_scan_ser_opt(s, i + p9, a.maximum_minutes);
    // the closing brace
    assert(!is_ws_char('}'));
    lemma_tok_ch(s, i + p10, '}');
    // at each later field, the keys of the earlier branches do not match
    let q2 = i + p2 + 1;
    assert(s[q2] == t[p2 + 1] && t[p2 + 1] == lit_desc()[1]);
    assert(s[q2 + 1] == t[p2 + 2] && t[p2 + 2] == lit_desc()[2]);
    lemma_key_differs(s, q2, key_name(), 1);
    let q3 = i + p4 + 1;
    assert(s[q3] == t[p4 + 1] && t[p4 + 1] == lit_minutes()[1]);
    assert(s[q3 + 1] == t[p4 + 2] && t[p4 + 2] == lit_minutes()[2]);
    lemma_key_differs(s, q3, key_name(), 1);
    lemma_key_differs(s, q3, key_desc(), 1);
    let q4 = i + p6 + 1;
    assert(s[q4] == t[p6 + 1] && t[p6 + 1] == lit_min()[1]);
    assert(s[q4 + 1] == t[p6 + 2] && t[p6 + 2] == lit_min()[2]);
    assert(s[q4 + 4] == t[p6 + 5] && t[p6 + 5] == lit_min()[5]);
    lemma_key_differs(s, q4, key_name(), 1);
    lemma_key_differs(s, q4, key_desc(), 1);
    lemma_key_differs(s, q4, key_minutes(), 4);
    let q5 = i + p8 + 1;
    assert(s[q5] == t[p8 + 1] && t[p8 + 1] == lit_max()[1]);
    assert(s[q5 + 1] == t[p8 + 2] && t[p8 + 2] == lit_max()[2]);
    assert(s[q5 + 2] == t[p8 + 3] && t[p8 + 3] == lit_max()[3]);
    lemma_key_differs(s, q5, key_name(), 1);
    lemma_key_differs(s, q5, key_desc(), 1);
    lemma_key_differs(s, q5, key_minutes(), 2);
    lemma_key_differs(s, q5, key_min(), 2);
    // the separating commas stand right after each value
    assert(!is_ws_char(','));
    lemma_skip_id(s, i + p2);
    lemma_skip_id(s, i + p4);
    lemma_skip_id(s, i + p6);
    lemma_skip_id(s, i + p8);
    assert(act_mid(s, i, a)) by {
        assert(s[i + p6] == t[p6] && t[p6] == lit_min()[0]);
    }
}

/// The activity fields gathered after the first `k` canonical fields.
spec fn act_acc_upto(a: ActivityRecordV, k: int) -> ActFieldsAcc {
    ActFieldsAcc {
        name: if k >= 1 {
            Some(a.name)
        } else {
            None
        },
        description: if k >= 2 {
            Some(a.description)
        } else {
            None
        },
        minutes_spent: if k >= 3 {
            Some(a.minutes_spent)
        } else {
            None
        },
        minimum_minutes: if k >= 4 {
            Some(a.minimum_minutes)
        } else {
            None
        },
        maximum_minutes: if k >= 5 {
            Some(a.maximum_minutes)
        } else {
            None
        },
    }
}

/// Each canonical field of a rendered activity object steps the field scan
/// one slot further.
#[verifier::rlimit(100)]
proof fn lemma_scan_ser_activity_steps(s: Seq<char>, i: int, a: ActivityRecordV)
    requires
        a.wf(),
        0 <= i,
        i + ser_activity(a).len() <= s.len(),
        s.subrange(i, i + ser_activity(a).len() as int) == ser_activity(a),
    ensures
        spec_scan_act_field(s, i + 1, act_acc_upto(a, 0)) == Some(
            (act_acc_upto(a, 1), i + 10 + a.name.len()),
        ),
        spec_scan_act_field(s, i + 11 + a.name.len(), act_acc_upto(a, 1)) == Some(
            (act_acc_upto(a, 2), i + 27 + a.name.len() + a.description.len()),
        ),
        spec_scan_act_field(s, i + 28 + a.name.len() + a.description.len(), act_acc_upto(a, 2))
            == Some(
            (
                act_acc_upto(a, 3),
                i + 44 + a.name.len() + a.description.len() + dec_digits(
                    a.minutes_spent as nat,
                ).len(),
            ),
        ),
        spec_scan_act_field(
            s,
            i + 45 + a.name.len() + a.description.len() + dec_digits(a.minutes_spent as nat).len(),
            act_acc_upto(a, 3),
        ) == Some(
            (
                act_acc_upto(a, 4),
                i + 63 + a.name.len() + a.description.len() + dec_digits(
                    a.minutes_spent as nat,
                ).len() + ser_opt_u16(a.minimum_minutes).len(),
            ),
        ),
        spec_scan_act_field(
            s,
            i + 64 + a.name.len() + a.description.len() + dec_digits(a.minutes_spent as nat).len()
                + ser_opt_u16(a.minimum_minutes).len(),
            act_acc_upto(a, 4),
        ) == Some(
            (
                act_acc_upto(a, 5),
                i + 82 + a.name.len() + a.description.len() + dec_digits(
                    a.minutes_spent as nat,
                ).len() + ser_opt_u16(a.minimum_minutes).len() + ser_opt_u16(
                    a.maximum_minutes,
                ).len(),
            ),
        ),
{
    lemma_scan_ser_activity_tokens(s, i, a);
}

/// A rendered activity object scans back to its value.
#[verifier::rlimit(100)]
proof fn lemma_scan_ser_activity(s: Seq<char>, i: int, a: ActivityRecordV)
    requires
        a.wf(),
        0 <= i,
        i + ser_activity(a).len() <= s.len(),
        s.subrange(i, i + ser_activity(a).len() as int) == ser_activity(a),
    ensures
        spec_scan_activity(s, i) == Some((a, i + ser_activity(a).len() as int)),
{
    lemma_scan_ser_activity_tokens(s, i, a);
    lemma_scan_ser_activity_steps(s, i, a);
    let p2 = 10 + a.name.len() as int;
    let p4 = 27 + a.name.len() + a.description.len() as int;
    let p5 = p4 + 17;
    let p6 = p5 + dec_digits(a.minutes_spent as nat).len() as int;
    let p7 = p6 + 19;
    let p8 = p7 + ser_opt_u16(a.minimum_minutes).len() as int;
    let p9 = p8 + 19;
    let p10 = p9 + ser_opt_u16(a.maximum_minutes).len() as int;
    let p11 = p10 + 1;
    let q2 = i + p2 + 1;
    let q3 = i + p4 + 1;
    let q4 = i + p6 + 1;
    let q5 = i + p8 + 1;
    // the five fields, threaded through the field loop in canonical order
    assert(spec_scan_act_fields(s, q5, act_acc_upto(a, 4)) == Some((act_acc_upto(a, 5), i + p10)));
    assert(spec_scan_act_fields(s, q4, act_acc_upto(a, 3)) == Some((act_acc_upto(a, 5), i + p10)));
    assert(spec_scan_act_fields(s, q3, act_acc_upto(a, 2)) == Some((act_acc_upto(a, 5), i + p10)));
    assert(spec_scan_act_fields(s, q2, act_acc_upto(a, 1)) == Some((act_acc_upto(a, 5), i + p10)));
    assert(spec_scan_act_fields(s, i + 1, act_acc_upto(a, 0)) == Some(
        (act_acc_upto(a, 5), i + p10),
    ));
    assert(act_acc_upto(a, 0) == act_acc_empty());
    assert(spec_scan_activity(s, i) == Some(
        (
            ActivityRecordV {
                name: a.name,
                description: a.description,
                minutes_spent: a.minutes_spent,
                minimum_minutes: a.minimum_minutes,
                maximum_minutes: a.maximum_minutes,
            },
            i + p11,
        ),
    ));
}

/// A rendered, comma-separated run of activity objects, bounded on the right
/// by the closing bracket, scans back to its items.
#[verifier::rlimit(100)]
proof fn lemma_scan_ser_acts(s: Seq<char>, i: int, acts: Seq<ActivityRecordV>)
    requires
        acts.len() >= 1,
        forall|k: int| 0 <= k < acts.len() ==> (#[trigger] acts[k]).wf(),
        0 <= i,
        i + ser_acts(acts).len() < s.len(),
        s.subrange(i, i + ser_acts(acts).len() as int) == ser_acts(acts),
        s[i + ser_acts(acts).len()] == ']',
    ensures
        spec_scan_acts_items(s, i) == Some((acts, i + ser_acts(acts).len() as int)),
    decreases acts.len(),
{
    let t = ser_acts(acts);
    let a0 = ser_activity(acts[0]);
    assert forall|k: int| 0 <= k < t.len() implies s[i + k] == #[trigger] t[k] by {
        assert(s.subrange(i, i + t.len() as int)[k] == t[k]);
    }
    if acts.len() == 1 {
        assert(t == a0);
        lemma_scan_ser_activity(s, i, acts[0]);
        let j = i + a0.len() as int;
        assert(s[j] == ']');
        assert(!is_ws_char(']'));
        lemma_skip_id(s, j);
        assert(seq![acts[0]] =~= acts);
    } else {
        let rest = acts.subrange(1, acts.len() as int);
        assert(t =~= a0 + seq![','] + ser_acts(rest));
        assert(s.subrange(i, i + a0.len() as int) =~= a0) by {
            assert forall|k: int| 0 <= k < a0.len() implies (#[trigger] s.subrange(
                i,
                i + a0.len() as int,
            )[k]) == a0[k] by {
                assert(s[i + k] == t[k]);
                assert(t[k] == a0[k]);
            }
        }
        lemma_scan_ser_activity(s, i, acts[0]);
        let j = i + a0.len() as int;
        assert(s[j] == t[a0.len() as int]);
        assert(s[j] == ',');
        assert(!is_ws_char(','));
        lemma_skip_id(s, j);
        let ri = j + 1;
        let rl = ser_acts(rest).len() as int;
        assert(s.subrange(ri, ri + rl) =~= ser_acts(rest)) by {
            assert forall|k: int| 0 <= k < rl implies (#[trigger] s.subrange(ri, ri + rl)[k])
                == ser_acts(rest)[k] by {
                assert(s[i + (a0.len() + 1 + k)] == t[a0.len() + 1 + k]);
                assert(t[a0.len() + 1 + k] == ser_acts(rest)[k]);
            }
        }
        assert(ri + rl == i + t.len());
        lemma_scan_ser_acts(s, ri, rest);
        assert(seq![acts[0]] + rest =~= acts);
    }
}

/// The tokens of a rendered record, before the activities list, scan back
/// to the record's fields.
#[verifier::rlimit(100)]
proof fn lemma_scan_ser_record_front(s: Seq<char>, i: int, v: ActivitiesRecordV)
    requires
        v.wf(),
        0 <= i,
        i + ser_record(v).len() <= s.len(),
        s.subrange(i, i + ser_record(v).len() as int) == ser_record(v),
    ensures
        spec_ch(s, i, '{') == Some(i + 1),
        spec_scan_key(s, i + 1, key_ts()) == Some(i + 13),
        spec_skip_ws(s, i + 13) == i + 13,
        spec_scan_ts(s, i + 13) == Some((v.timestamp, i + 13 + ser_ts(v.timestamp).len())),
        spec_ch(s, i + 13 + ser_ts(v.timestamp).len(), ',') == Some(
            i + 14 + ser_ts(v.timestamp).len(),
        ),
        spec_scan_key(s, i + 14 + ser_ts(v.timestamp).len(), key_date()) == Some(
            i + 28 + ser_ts(v.timestamp).len(),
        ),
        spec_skip_ws(s, i + 28 + ser_ts(v.timestamp).len()) == i + 28 + ser_ts(v.timestamp).len(),
        i + 28 + ser_ts(v.timestamp).len() < s.len(),
        s[i + 28 + ser_ts(v.timestamp).len()] == '"',
        spec_scan_date(s, i + 29 + ser_ts(v.timestamp).len()) == Some(
            (v.record_date, i + 39 + ser_ts(v.timestamp).len()),
        ),
        i + 39 + ser_ts(v.timestamp).len() < s.len(),
        s[i + 39 + ser_ts(v.timestamp).len()] == '"',
        spec_ch(s, i + 40 + ser_ts(v.timestamp).len(), ',') == Some(
            i + 41 + ser_ts(v.timestamp).len(),
        ),
        spec_scan_key(s, i + 41 + ser_ts(v.timestamp).len(), key_acts()) == Some(
            i + 54 + ser_ts(v.timestamp).len(),
        ),
        spec_ch(s, i + 54 + ser_ts(v.timestamp).len(), '[') == Some(
            i + 55 + ser_ts(v.timestamp).len(),
        ),
        ser_record(v).len() == 57 + ser_ts(v.timestamp).len() + ser_acts(v.activities).len(),
{
    let t = ser_record(v);
    let ts = ser_ts(v.timestamp);
    let dt = ser_date(v.record_date);
    let ac = ser_acts(v.activities);
    let p1 = lit_ts().len() as int;
    let p2 = p1 + ts.len() as int;
    let p3 = p2 + lit_date().len() as int;
    let p4 = p3 + 12;
    let p5 = p4 + lit_acts().len() as int;
    let p6 = p5 + 1;
    let p7 = p6 + ac.len() as int;
    let p8 = p7 + 2;
    assert(quoted(dt).len() == 12) by {
        lemma_pad_digits_shape(v.record_date.year as nat, 4);
        lemma_pad_digits_shape(v.record_date.month as nat, 2);
        lemma_pad_digits_shape(v.record_date.day as nat, 2);
    }
    assert(t.len() == p8);
    assert forall|k: int| 0 <= k < t.len() implies s[i + k] == #[trigger] t[k] by {
        assert(s.subrange(i, i + t.len() as int)[k] == t[k]);
    }
    // the opening brace and the timestamp key
    assert(s.subrange(i, i + p1) =~= lit_ts()) by {
        assert forall|k: int| 0 <= k < p1 implies (#[trigger] s.subrange(i, i + p1)[k])
            == lit_ts()[k] by {
            assert(s[i + k] == t[k]);
            assert(t[k] == lit_ts()[k]);
        }
    }
    assert(lit_ts() =~= seq!['{'] + key_ts() + seq![':']);
    lemma_key_at(s, i, lit_ts(), key_ts(), '{');
    // the timestamp, bounded on the right by the next literal's comma
    assert(s.subrange(i + p1, i + p2) =~= ts) by {
        assert forall|k: int| 0 <= k < p2 - p1 implies (#[trigger] s.subrange(i + p1, i + p2)[k])
            == ts[k] by {
            assert(s[i + (p1 + k)] == t[p1 + k]);
            assert(t[p1 + k] == ts[k]);
        }
    }
    assert(s[i + p1] == t[p1] && t[p1] == ts[0]);
    assert(ts[0] == dec_digits(v.timestamp.secs as nat)[0]);
    lemma_dec_digits_shape(v.timestamp.secs as nat);
    lemma_digit_not_ws(ts[0]);
    lemma_skip_id(s, i + p1);
    assert(s[i + p2] == t[p2]);
    assert(t[p2] == lit_date()[0]);
    assert(!is_digit_char(','));
    lemma_scan_ser_ts(s, i + p1, v.timestamp);
    // the comma and the date key
    assert(s.subrange(i + p2, i + p3) =~= lit_date()) by {
        assert forall|k: int| 0 <= k < p3 - p2 implies (#[trigger] s.subrange(i + p2, i + p3)[k])
            == lit_date()[k] by {
            assert(s[i + (p2 + k)] == t[p2 + k]);
            assert(t[p2 + k] == lit_date()[k]);
        }
    }
    assert(lit_date() =~= seq![','] + key_date() + seq![':']);
    lemma_key_at(s, i + p2, lit_date(), key_date(), ',');
    // the quoted date
    assert(s[i + p3] == t[p3]);
    assert(t[p3] == quoted(dt)[0]);
    assert(s[i + p3] == '"');
    assert(!is_ws_char('"'));
    lemma_skip_id(s, i + p3);
    assert(s.subrange(i + p3 + 1, i + p3 + 11) =~= dt) by {
        assert forall|k: int|
            0 <= k < 10 implies (#[trigger] s.subrange(i + p3 + 1, i + p3 + 11)[k]) == dt[k] by {
            assert(s[i + (p3 + 1 + k)] == t[p3 + 1 + k]);
            assert(t[p3 + 1 + k] == quoted(dt)[1 + k]);
            assert(quoted(dt)[1 + k] == dt[k]);
        }
    }
    lemma_scan_ser_date(s, i + p3 + 1, v.record_date);
    assert(s[i + p3 + 11] == t[p3 + 11]);
    assert(t[p3 + 11] == quoted(dt)[11]);
    assert(s[i + p3 + 11] == '"');
    // the comma and the activities key
    assert(s.subrange(i + p4, i + p5) =~= lit_acts()) by {
        assert forall|k: int| 0 <= k < p5 - p4 implies (#[trigger] s.subrange(i + p4, i + p5)[k])
            == lit_acts()[k] by {
            assert(s[i + (p4 + k)] == t[p4 + k]);
            assert(t[p4 + k] == lit_acts()[k]);
        }
    }
    assert(lit_acts() =~= seq![','] + key_acts() + seq![':']);
    lemma_key_at(s, i + p4, lit_acts(), key_acts(), ',');
    // the opening bracket
    assert(s[i + p5] == t[p5]);
    assert(t[p5] == '[');
    assert(!is_ws_char('['));
    lemma_tok_ch(s, i + p5, '[');
}

/// The facts about a rendered record's separators, key mismatches and
/// activities value.
spec fn rec_mid(s: Seq<char>, i: int, v: ActivitiesRecordV) -> bool {
    let tl = ser_ts(v.timestamp).len() as int;
    let p6 = i + 55 + tl;
    let p7 = p6 + ser_acts(v.activities).len();
    &&& spec_skip_ws(s, i + 13 + tl) == i + 13 + tl
    &&& i + 13 + tl < s.len() && s[i + 13 + tl] == ','
    &&& spec_scan_key(s, i + 14 + tl, key_ts()) is None
    &&& spec_skip_ws(s, i + 40 + tl) == i + 40 + tl
    &&& i + 40 + tl < s.len() && s[i + 40 + tl] == ','
    &&& spec_scan_key(s, i + 41 + tl, key_ts()) is None
    &&& spec_scan_key(s, i + 41 + tl, key_date()) is None
    &&& (v.activities.len() == 0 ==> spec_ch(s, p6, ']') == Some(p6 + 1))
    &&& (v.activities.len() > 0 ==> spec_ch(s, p6, ']') is None)
    &&& (v.activities.len() > 0 ==> spec_scan_acts_items(s, p6) == Some((v.activities, p7)))
    &&& (v.activities.len() > 0 ==> spec_ch(s, p7, ']') == Some(p7 + 1))
    &&& spec_skip_ws(s, p7 + 1) == p7 + 1
    &&& spec_ch(s, p7 + 1, '}') == Some(p7 + 2)
}

/// The separators, key mismatches and activities value of a rendered record
/// scan as `rec_mid` says.
#[verifier::rlimit(100)]
proof fn lemma_scan_ser_record_mid(s: Seq<char>, i: int, v: ActivitiesRecordV)
    requires
        v.wf(),
        0 <= i,
        i + ser_record(v).len() <= s.len(),
        s.subrange(i, i + ser_record(v).len() as int) == ser_record(v),
    ensures
        rec_mid(s, i, v),
{
    let t = ser_record(v);
    let ts = ser_ts(v.timestamp);
    let ac = ser_acts(v.activities);
    let p6 = i + 55 + ts.len() as int;
    let p7 = p6 + ac.len() as int;
    let p8 = p7 + 2;
    lemma_scan_ser_record_front(s, i, v);
    assert(t.len() == 57 + ts.len() + ac.len());
    assert forall|k: int| 0 <= k < t.len() implies s[i + k] == #[trigger] t[k] by {
        assert(s.subrange(i, i + t.len() as int)[k] == t[k]);
    }
    // the closing bracket and brace
    assert(s[p7] == t[p7 - i]);
    assert(t[p7 - i] == lit_close()[0]);
    assert(s[p7 + 1] == t[p7 + 1 - i]);
    assert(t[p7 + 1 - i] == lit_close()[1]);
    assert(!is_ws_char(']') && !is_ws_char('}'));
    lemma_tok_ch(s, p7, ']');
    lemma_tok_ch(s, p7 + 1, '}');
    lemma_skip_id(s, p7 + 1);
    if v.activities.len() == 0 {
        assert(ac.len() == 0);
        assert(p6 == p7);
        assert(spec_ch(s, p6, ']') == Some(p6 + 1));
    } else {
        // the empty branch is not taken: an object begins here, not `]`
        assert(s[p6] == t[p6 - i]);
        assert(t[p6 - i] == ac[0]);
        assert(ac[0] == ser_activity(v.activities[0])[0]) by {
            if v.activities.len() > 1 {
                assert(ac[0] == (ser_activity(v.activities[0]) + seq![','] + ser_acts(
                    v.activities.subrange(1, v.activities.len() as int),
                ))[0]);
            }
        }
        assert(ser_activity(v.activities[0])[0] == lit_name()[0]);
        assert(s[p6] == '{');
        assert(!is_ws_char('{'));
        lemma_skip_id(s, p6);
        assert(spec_ch(s, p6, ']') is None);
        assert(s.subrange(p6, p7) =~= ac) by {
            assert forall|k: int| 0 <= k < p7 - p6 implies (#[trigger] s.subrange(p6, p7)[k])
                == ac[k] by {
                assert(s[i + (55 + ts.len() + k)] == t[55 + ts.len() + k]);
                assert(t[55 + ts.len() + k] == ac[k]);
            }
        }
        lemma_scan_ser_acts(s, p6, v.activities);
    }
    // at each later field, the keys of the earlier branches do not match
    let q2 = i + 14 + ts.len() as int;
    assert(s[q2] == t[14 + ts.len() as int] && t[14 + ts.len() as int] == lit_date()[1]);
    assert(s[q2 + 1] == t[15 + ts.len() as int] && t[15 + ts.len() as int] == lit_date()[2]);
    lemma_key_differs(s, q2, key_ts(), 1);
    let q3 = i + 41 + ts.len() as int;
    assert(s[q3] == t[41 + ts.len() as int] && t[41 + ts.len() as int] == lit_acts()[1]);
    assert(s[q3 + 1] == t[42 + ts.len() as int] && t[42 + ts.len() as int] == lit_acts()[2]);
    lemma_key_differs(s, q3, key_ts(), 1);
    lemma_key_differs(s, q3, key_date(), 1);
    // the separating commas stand right after each value
    assert(!is_ws_char(','));
    assert(s[i + 13 + ts.len() as int] == t[13 + ts.len() as int] && t[13 + ts.len() as int]
        == lit_date()[0]);
    lemma_skip_id(s, i + 13 + ts.len() as int);
    assert(s[i + 40 + ts.len() as int] == t[40 + ts.len() as int] && t[40 + ts.len() as int]
        == lit_acts()[0]);
    lemma_skip_id(s, i + 40 + ts.len() as int);
}

/// A rendered record scans back to its value.
#[verifier::rlimit(100)]
proof fn lemma_scan_ser_record(s: Seq<char>, i: int, v: ActivitiesRecordV)
    requires
        v.wf(),
        0 <= i,
        i + ser_record(v).len() <= s.len(),
        s.subrange(i, i + ser_record(v).len() as int) == ser_record(v),
    ensures
        spec_scan_record(s, i) == Some((v, i + ser_record(v).len() as int)),
{
    let tl = ser_ts(v.timestamp).len() as int;
    let p6 = i + 55 + tl;
    let p7 = p6 + ser_acts(v.activities).len() as int;
    let p8 = p7 + 2;
    lemma_scan_ser_record_front(s, i, v);
    lemma_scan_ser_record_mid(s, i, v);
    let q2 = i + 14 + tl;
    let q3 = i + 41 + tl;
    // the three fields, threaded through the field loop in canonical order
    let r0 = rec_acc_empty();
    let r1 = RecFieldsAcc { timestamp: Some(v.timestamp), ..r0 };
    let r2 = RecFieldsAcc { record_date: Some(v.record_date), ..r1 };
    let r3 = RecFieldsAcc { activities: Some(v.activities), ..r2 };
    assert(spec_scan_rec_field(s, i + 1, r0) == Some((r1, i + 13 + tl)));
    assert(spec_scan_rec_field(s, q2, r1) == Some((r2, i + 40 + tl)));
    if v.activities.len() == 0 {
        assert(v.activities =~= Seq::<ActivityRecordV>::empty());
        assert(p6 == p7);
        assert(spec_scan_rec_field(s, q3, r2) == Some((r3, p7 + 1)));
    } else {
        assert(spec_scan_rec_field(s, q3, r2) == Some((r3, p7 + 1)));
    }
    assert(spec_scan_rec_fields(s, q3, r2) == Some((r3, p7 + 1)));
    assert(spec_scan_rec_fields(s, q2, r1) == Some((r3, p7 + 1)));
    assert(spec_scan_rec_fields(s, i + 1, r0) == Some((r3, p7 + 1)));
    assert(spec_scan_record(s, i) == Some(
        (
            ActivitiesRecordV {
                timestamp: v.timestamp,
                record_date: v.record_date,
                activities: v.activities,
            },
            i + ser_record(v).len() as int,
        ),
    ));
}

// ---------------------------------------------------------------------------
// Round trip
// ---------------------------------------------------------------------------

/// Round trip: a well-formed record, rendered as its canonical log line,
/// parses back to exactly the same record.
#[verifier::rlimit(100)]
pub proof fn lemma_round_trip(v: ActivitiesRecordV)
    requires
        v.wf(),
    ensures
        spec_parse_line(ser_record(v)) == Some(v),
{
    let s = ser_record(v);
    assert(s[0] == lit_ts()[0]);
    assert(!crate::text::is_ws_char('{'));
    assert(spec_skip_ws(s, 0) == 0);
    assert(s.subrange(0, s.len() as int) =~= s);
    lemma_scan_ser_record(s, 0, v);
    assert(spec_skip_ws(s, s.len() as int) == s.len() as int);
}

// ---------------------------------------------------------------------------
// The log as a whole: append-only line structure
// ---------------------------------------------------------------------------

/// A text that can stand as one line of the log: it holds no newline.
pub open spec fn line_clean(s: Seq<char>) -> bool {
    forall|k: int| 0 <= k < s.len() ==> s[k] != '\n'
}

/// The log text holding the given records in order: each record's canonical
/// line followed by one newline, appended one after another.
pub open spec fn spec_log(vs: Seq<ActivitiesRecordV>) -> Seq<char>
    decreases vs.len(),
{
    if vs.len() == 0 {
        Seq::empty()
    } else {
        ser_record(vs[0]) + seq!['\n'] + spec_log(vs.subrange(1, vs.len() as int))
    }
}

proof fn lemma_clean_concat(a: Seq<char>, b: Seq<char>)
    requires
        line_clean(a),
        line_clean(b),
    ensures
        line_clean(a + b),
{
    assert forall|k: int| 0 <= k < (a + b).len() implies (#[trigger] (a + b)[k]) != '\n' by {
        if k < a.len() {
            assert((a + b)[k] == a[k]);
        } else {
            assert((a + b)[k] == b[k - a.len()]);
        }
    }
}

proof fn lemma_clean_digits(s: Seq<char>)
    requires
        forall|k: int| 0 <= k < s.len() ==> is_digit_char(s[k]),
    ensures
        line_clean(s),
{
    assert forall|k: int| 0 <= k < s.len() implies (#[trigger] s[k]) != '\n' by {
        assert(is_digit_char(s[k]));
        assert('\n' as u32 == 10);
    }
}

proof fn lemma_clean_quoted(t: Seq<char>)
    requires
        json_plain(t),
    ensures
        line_clean(quoted(t)),
{
    assert forall|k: int| 0 <= k < quoted(t).len() implies (#[trigger] quoted(t)[k]) != '\n' by {
        if 1 <= k < t.len() + 1 {
            assert(quoted(t)[k] == t[k - 1]);
            assert(json_plain_char(t[k - 1]));
            assert('\n' as u32 == 10);
        }
    }
}

proof fn lemma_clean_opt(o: Option<u16>)
    ensures
        line_clean(ser_opt_u16(o)),
{
    match o {
        None => {
            assert(line_clean(lit_null()));
        },
        Some(v) => {
            lemma_dec_digits_shape(v as nat);
            lemma_clean_digits(dec_digits(v as nat));
        },
    }
}

/// A well-formed record's canonical line holds no newline.
proof fn lemma_clean_activity(a: ActivityRecordV)
    requires
        a.wf(),
    ensures
        line_clean(ser_activity(a)),
{
    lemma_clean_quoted(a.name);
    lemma_clean_quoted(a.description);
    lemma_dec_digits_shape(a.minutes_spent as nat);
    lemma_clean_digits(dec_digits(a.minutes_spent as nat));
    lemma_clean_opt(a.minimum_minutes);
    lemma_clean_opt(a.maximum_minutes);
    assert(line_clean(lit_name()));
    assert(line_clean(lit_desc()));
    assert(line_clean(lit_minutes()));
    assert(line_clean(lit_min()));
    assert(line_clean(lit_max()));
    assert(line_clean(lit_rbrace()));
    lemma_clean_concat(lit_name(), quoted(a.name));
    lemma_clean_concat(lit_name() + quoted(a.name), lit_desc());
    lemma_clean_concat(lit_name() + quoted(a.name) + lit_desc(), quoted(a.description));
    let c4 = lit_name() + quoted(a.name) + lit_desc() + quoted(a.description);
    lemma_clean_concat(c4, lit_minutes());
    lemma_clean_concat(c4 + lit_minutes(), dec_digits(a.minutes_spent as nat));
    let c6 = c4 + lit_minutes() + dec_digits(a.minutes_spent as nat);
    lemma_clean_concat(c6, lit_min());
    lemma_clean_concat(c6 + lit_min(), ser_opt_u16(a.minimum_minutes));
    let c8 = c6 + lit_min() + ser_opt_u16(a.minimum_minutes);
    lemma_clean_concat(c8, lit_max());
    lemma_clean_concat(c8 + lit_max(), ser_opt_u16(a.maximum_minutes));
    lemma_clean_concat(c8 + lit_max() + ser_opt_u16(a.maximum_minutes), lit_rbrace());
}

proof fn lemma_clean_acts(acts: Seq<ActivityRecordV>)
    requires
        forall|k: int| 0 <= k < acts.len() ==> (#[trigger] acts[k]).wf(),
    ensures
        line_clean(ser_acts(acts)),
    decreases acts.len(),
{
    if acts.len() == 0 {
        assert(line_clean(Seq::<char>::empty()));
    } else if acts.len() == 1 {
        lemma_clean_activity(acts[0]);
    } else {
        lemma_clean_activity(acts[0]);
        lemma_clean_acts(acts.subrange(1, acts.len() as int));
        assert(line_clean(seq![',']));
        lemma_clean_concat(ser_activity(acts[0]), seq![',']);
        lemma_clean_concat(
            ser_activity(acts[0]) + seq![','],
            ser_acts(acts.subrange(1, acts.len() as int)),
        );
    }
}

proof fn lemma_clean_record(v: ActivitiesRecordV)
    requires
        v.wf(),
    ensures
        line_clean(ser_record(v)),
{
    lemma_dec_digits_shape(v.timestamp.secs as nat);
    lemma_clean_digits(dec_digits(v.timestamp.secs as nat));
    lemma_pad_digits_shape(v.timestamp.nanos as nat, 9);
    lemma_clean_digits(pad_digits(v.timestamp.nanos as nat, 9));
    assert(line_clean(seq!['.']));
    lemma_clean_concat(dec_digits(v.timestamp.secs as nat), seq!['.']);
    lemma_clean_concat(
        dec_digits(v.timestamp.secs as nat) + seq!['.'],
        pad_digits(v.timestamp.nanos as nat, 9),
    );
    assert(line_clean(ser_ts(v.timestamp)));
    lemma_pad_digits_shape(v.record_date.year as nat, 4);
    lemma_clean_digits(pad_digits(v.record_date.year as nat, 4));
    lemma_pad_digits_shape(v.record_date.month as nat, 2);
    lemma_clean_digits(pad_digits(v.record_date.month as nat, 2));
    lemma_pad_digits_shape(v.record_date.day as nat, 2);
    lemma_clean_digits(pad_digits(v.record_date.day as nat, 2));
    assert(line_clean(seq!['-']));
    lemma_clean_concat(pad_digits(v.record_date.year as nat, 4), seq!['-']);
    lemma_clean_concat(
        pad_digits(v.record_date.year as nat, 4) + seq!['-'],
        pad_digits(v.record_date.month as nat, 2),
    );
    let dfront = pad_digits(v.record_date.year as nat, 4) + seq!['-'] + pad_digits(
        v.record_date.month as nat,
        2,
    );
    lemma_clean_concat(dfront, seq!['-']);
    lemma_clean_concat(dfront + seq!['-'], pad_digits(v.record_date.day as nat, 2));
    assert(line_clean(ser_date(v.record_date)));
    assert(line_clean(seq!['"']));
    lemma_clean_concat(seq!['"'], ser_date(v.record_date));
    lemma_clean_concat(seq!['"'] + ser_date(v.record_date), seq!['"']);
    assert(line_clean(quoted(ser_date(v.record_date))));
    lemma_clean_acts(v.activities);
    assert(line_clean(lit_ts()));
    assert(line_clean(lit_date()));
    assert(line_clean(lit_acts()));
    assert(line_clean(lit_close()));
    assert(line_clean(seq!['[']));
    lemma_clean_concat(lit_ts(), ser_ts(v.timestamp));
    lemma_clean_concat(lit_ts() + ser_ts(v.timestamp), lit_date());
    let r3 = lit_ts() + ser_ts(v.timestamp) + lit_date();
    lemma_clean_concat(r3, quoted(ser_date(v.record_date)));
    let r4 = r3 + quoted(ser_date(v.record_date));
    lemma_clean_concat(r4, lit_acts());
    lemma_clean_concat(r4 + lit_acts(), seq!['[']);
    let r6 = r4 + lit_acts() + seq!['['];
    lemma_clean_concat(r6, ser_acts(v.activities));
    lemma_clean_concat(r6 + ser_acts(v.activities), lit_close());
}

/// A run without newlines, bounded on the right by a newline or the end,
/// scans exactly to its right end.
proof fn lemma_nl_end_at(s: Seq<char>, i: int, j: int)
    requires
        0 <= i <= j <= s.len(),
        forall|k: int| i <= k < j ==> s[k] != '\n',
        j < s.len() ==> s[j] == '\n',
    ensures
        nl_end(s, i) == j,
    decreases j - i,
{
    if i < j {
        lemma_nl_end_at(s, i + 1, j);
    }
}

/// Scanning for a newline in a suffix matches scanning in the whole text.
proof fn lemma_nl_end_shift(s: Seq<char>, i: int, j: int)
    requires
        0 <= i <= j <= s.len(),
    ensures
        nl_end(s.subrange(i, s.len() as int), j - i) == nl_end(s, j) - i,
    decreases s.len() - j,
{
    let t = s.subrange(i, s.len() as int);
    if j < s.len() {
        assert(t[j - i] == s[j]);
        if s[j] != '\n' {
            lemma_nl_end_shift(s, i, j + 1);
        }
    }
}

/// Splitting a suffix into lines matches splitting the whole text from that
/// position on.
proof fn lemma_split_from_shift(s: Seq<char>, i: int, j: int)
    requires
        0 <= i <= j <= s.len(),
    ensures
        spec_split_from(s, j) == spec_split_from(s.subrange(i, s.len() as int), j - i),
    decreases s.len() - j,
{
    let t = s.subrange(i, s.len() as int);
    if j == s.len() {
        assert(spec_split_from(s, j) =~= spec_split_from(t, j - i));
    } else {
        let e = nl_end(s, j);
        lemma_nl_end_bounds_here(s, j);
        lemma_nl_end_shift(s, i, j);
        assert(s.subrange(j, e) =~= t.subrange(j - i, e - i)) by {
            assert forall|k: int| 0 <= k < e - j implies (#[trigger] s.subrange(j, e)[k])
                == t.subrange(j - i, e - i)[k] by {
                assert(t[j - i + k] == s[j + k]);
            }
        }
        if e == s.len() {
            assert(spec_split_from(s, j) =~= spec_split_from(t, j - i));
        } else {
            lemma_split_from_shift(s, i, e + 1);
            assert(spec_split_from(s, j) =~= spec_split_from(t, j - i));
        }
    }
}

proof fn lemma_nl_end_bounds_here(s: Seq<char>, i: int)
    requires
        0 <= i <= s.len(),
    ensures
        i <= nl_end(s, i) <= s.len(),
        nl_end(s, i) < s.len() ==> s[nl_end(s, i)] == '\n',
    decreases s.len() - i,
{
    if i < s.len() && s[i] != '\n' {
        lemma_nl_end_bounds_here(s, i + 1);
    }
}

/// The log of `n` well-formed records splits back into exactly `n` lines,
/// the `k`-th being record `k`'s canonical line.
proof fn lemma_log_lines(vs: Seq<ActivitiesRecordV>)
    requires
        forall|k: int| 0 <= k < vs.len() ==> (#[trigger] vs[k]).wf(),
    ensures
        spec_split_lines(spec_log(vs)).len() == vs.len(),
        forall|k: int|
            0 <= k < vs.len() ==> #[trigger] spec_split_lines(spec_log(vs))[k] == ser_record(vs[k]),
    decreases vs.len(),
{
    let s = spec_log(vs);
    if vs.len() == 0 {
        assert(spec_split_from(s, 0) =~= Seq::<Seq<char>>::empty());
    } else {
        let rest = vs.subrange(1, vs.len() as int);
        let r0 = ser_record(vs[0]);
        let l0 = r0.len() as int;
        assert(s == r0 + seq!['\n'] + spec_log(rest));
        assert(s.len() == l0 + 1 + spec_log(rest).len());
        lemma_clean_record(vs[0]);
        assert forall|k: int| 0 <= k < l0 implies s[k] != '\n' by {
            assert(s[k] == r0[k]);
        }
        assert(s[l0] == '\n');
        lemma_nl_end_at(s, 0, l0);
        assert(s.subrange(0, l0) =~= r0);
        lemma_split_from_shift(s, l0 + 1, l0 + 1);
        assert(s.subrange(l0 + 1, s.len() as int) =~= spec_log(rest));
        lemma_log_lines(rest);
        assert(spec_split_from(s, 0) == seq![r0] + spec_split_lines(spec_log(rest)));
        assert forall|k: int|
            0 <= k < vs.len() implies #[trigger] spec_split_lines(s)[k] == ser_record(vs[k]) by {
            if k > 0 {
                assert(spec_split_lines(s)[k] == spec_split_lines(spec_log(rest))[k - 1]);
                assert(rest[k - 1] == vs[k]);
            }
        }
    }
}

/// Append-only: the log holding `n` well-formed records, one canonical line
/// and one newline per record in write order, splits into exactly `n` lines,
/// and line `k` parses back to record `k` — so every line stays
/// independently parseable, whatever is appended after it.
pub proof fn lemma_append_only(vs: Seq<ActivitiesRecordV>)
    requires
        forall|k: int| 0 <= k < vs.len() ==> (#[trigger] vs[k]).wf(),
    ensures
        spec_split_lines(spec_log(vs)).len() == vs.len(),
        forall|k: int|
            0 <= k < vs.len() ==> #[trigger] spec_split_lines(spec_log(vs))[k] == ser_record(vs[k]),
        forall|k: int|
            0 <= k < vs.len() ==> spec_parse_line(#[trigger] spec_split_lines(spec_log(vs))[k])
                == Some(vs[k]),
{
    lemma_log_lines(vs);
    assert forall|k: int|
        0 <= k < vs.len() implies spec_parse_line(#[trigger] spec_split_lines(spec_log(vs))[k])
        == Some(vs[k]) by {
        lemma_round_trip(vs[k]);
    }
}

} // verus!
