//! The persistence format of the store: a plain text encoding of the event
//! mapping (identifier, pattern, text, optional tag), written after every
//! mutation and read back at startup, with a proved round trip: decoding an
//! encoded store reproduces it exactly.
//!
//! Numbers are decimal followed by one space; strings are length-prefixed
//! (in characters) and followed by one space, so their content is free; a
//! unit value is `e` for a wildcard or `o` and the number; the store is the
//! event count followed by the events in identifier order.

use vstd::prelude::*;

use crate::agenda::{ids_sorted, AgendaState};
use crate::cron::{CronColumn, CronValue, Cronline};
use crate::event::AgendaEvent;
use crate::textfmt::{
    all_digits, chars_of, dec_digits, digit_run, digit_run_chars, digits_val, digits_value_chars,
    u64_to_string,
};

verus! {

/// One event as its mathematical content: identifier, pattern, text, tag.
pub open spec fn event_view(p: (u64, AgendaEvent)) -> (u64, Cronline, Seq<char>, Option<
    Seq<char>,
>) {
    (
        p.0,
        p.1.cronline,
        p.1.text@,
        match p.1.tag {
            Option::Some(t) => Some(t@),
            Option::None => None,
        },
    )
}

/// The store as its mathematical content.
pub open spec fn store_view(s: Seq<(u64, AgendaEvent)>) -> Seq<
    (u64, Cronline, Seq<char>, Option<Seq<char>>),
> {
    Seq::new(s.len(), |i: int| event_view(s[i]))
}

/// A number: its decimal digits and one space.
pub open spec fn enc_num(n: int) -> Seq<char> {
    dec_digits(n) + seq![' ']
}

/// A unit value: `e` for a wildcard, `o` and the number for a fixed value.
pub open spec fn enc_cv(v: CronValue) -> Seq<char> {
    match v {
        CronValue::Every => seq!['e', ' '],
        CronValue::On(n) => seq!['o'] + enc_num(n as int),
    }
}

/// A string: its length in characters, its characters, and one space.
pub open spec fn enc_chars(t: Seq<char>) -> Seq<char> {
    enc_num(t.len() as int) + t + seq![' ']
}

/// An optional tag: `n` for none, `t` and the string for one.
pub open spec fn enc_tag(o: Option<Seq<char>>) -> Seq<char> {
    match o {
        Option::None => seq!['n', ' '],
        Option::Some(t) => seq!['t', ' '] + enc_chars(t),
    }
}

/// One event: identifier, the five unit values in significance order, the
/// tag and the text.
pub open spec fn enc_event(e: (u64, Cronline, Seq<char>, Option<Seq<char>>)) -> Seq<char> {
    enc_num(e.0 as int) + enc_cv(e.1.spec_get(CronColumn::Minute)) + enc_cv(
        e.1.spec_get(CronColumn::Hour),
    ) + enc_cv(e.1.spec_get(CronColumn::Day)) + enc_cv(e.1.spec_get(CronColumn::Month)) + enc_cv(
        e.1.spec_get(CronColumn::Year),
    ) + enc_tag(e.3) + enc_chars(e.2)
}

/// The events from `i` on, encoded one after the other.
pub open spec fn enc_events(vs: Seq<(u64, Cronline, Seq<char>, Option<Seq<char>>)>, i: int) -> Seq<
    char,
>
    decreases vs.len() - i,
{
    if i < 0 || i >= vs.len() {
        Seq::empty()
    } else {
        enc_event(vs[i]) + enc_events(vs, i + 1)
    }
}

/// The whole store: the event count, then the events.
pub open spec fn enc_store(vs: Seq<(u64, Cronline, Seq<char>, Option<Seq<char>>)>) -> Seq<char> {
    enc_num(vs.len() as int) + enc_events(vs, 0)
}

/// Reads a number: a nonempty digit run that fits an identifier, followed
/// by one space.
pub open spec fn dec_num(s: Seq<char>, i: int) -> Option<(u64, int)> {
    let k = digit_run(s, i);
    if i >= 0 && k >= 1 && digits_val(s.subrange(i, i + k)) <= u64::MAX && i + k < s.len() && s[i
        + k] == ' ' {
        Some((digits_val(s.subrange(i, i + k)) as u64, i + k + 1))
    } else {
        None
    }
}

/// Reads a unit value.
pub open spec fn dec_cv(s: Seq<char>, i: int) -> Option<(CronValue, int)> {
    if 0 <= i && i + 2 <= s.len() && s[i] == 'e' && s[i + 1] == ' ' {
        Some((CronValue::Every, i + 2))
    } else if 0 <= i && i < s.len() && s[i] == 'o' {
        match dec_num(s, i + 1) {
            Option::Some((n, j)) => Some((CronValue::On(n), j)),
            Option::None => None,
        }
    } else {
        None
    }
}

/// Reads a string: its length, its characters, one space.
pub open spec fn dec_chars(s: Seq<char>, i: int) -> Option<(Seq<char>, int)> {
    match dec_num(s, i) {
        Option::None => None,
        Option::Some((n, j)) => {
            if j + n < s.len() && s[j + n] == ' ' {
                Some((s.subrange(j, j + n), j + n + 1))
            } else {
                None
            }
        },
    }
}

/// Reads an optional tag.
pub open spec fn dec_tag(s: Seq<char>, i: int) -> Option<(Option<Seq<char>>, int)> {
    if 0 <= i && i + 2 <= s.len() && s[i] == 'n' && s[i + 1] == ' ' {
        Some((None, i + 2))
    } else if 0 <= i && i + 2 <= s.len() && s[i] == 't' && s[i + 1] == ' ' {
        match dec_chars(s, i + 2) {
            Option::Some((t, j)) => Some((Some(t), j)),
            Option::None => None,
        }
    } else {
        None
    }
}

/// Reads one event.
pub open spec fn dec_event(s: Seq<char>, i: int) -> Option<
    ((u64, Cronline, Seq<char>, Option<Seq<char>>), int),
> {
    match dec_num(s, i) {
        Option::None => None,
        Option::Some((id, j0)) => match dec_cv(s, j0) {
            Option::None => None,
            Option::Some((v0, j1)) => match dec_cv(s, j1) {
                Option::None => None,
                Option::Some((v1, j2)) => match dec_cv(s, j2) {
                    Option::None => None,
                    Option::Some((v2, j3)) => match dec_cv(s, j3) {
                        Option::None => None,
                        Option::Some((v3, j4)) => match dec_cv(s, j4) {
                            Option::None => None,
                            Option::Some((v4, j5)) => match dec_tag(s, j5) {
                                Option::None => None,
                                Option::Some((tag, j6)) => match dec_chars(s, j6) {
                                    Option::None => None,
                                    Option::Some((text, j7)) => Some(
                                        (
                                            (
                                                id,
                                                Cronline { line: [v0, v1, v2, v3, v4] },
                                                text,
                                                tag,
                                            ),
                                            j7,
                                        ),
                                    ),
                                },
                            },
                        },
                    },
                },
            },
        },
    }
}

/// Reads `count` events one after the other.
pub open spec fn dec_events(s: Seq<char>, i: int, count: nat) -> Option<
    (Seq<(u64, Cronline, Seq<char>, Option<Seq<char>>)>, int),
>
    decreases count,
{
    if count == 0 {
        Some((Seq::empty(), i))
    } else {
        match dec_event(s, i) {
            Option::None => None,
            Option::Some((e, j)) => match dec_events(s, j, (count - 1) as nat) {
                Option::None => None,
                Option::Some((rest, k)) => Some((seq![e] + rest, k)),
            },
        }
    }
}

/// Identifiers strictly increase along a decoded store.
pub open spec fn view_ids_sorted(vs: Seq<(u64, Cronline, Seq<char>, Option<Seq<char>>)>) -> bool {
    forall|i: int, j: int| 0 <= i < j < vs.len() ==> (#[trigger] vs[i]).0 < (#[trigger] vs[j]).0
}

/// Reads a whole store: the count, the events, nothing left over, and the
/// identifiers in strictly increasing order — anything else is corruption.
pub open spec fn dec_store(s: Seq<char>) -> Option<
    Seq<(u64, Cronline, Seq<char>, Option<Seq<char>>)>,
> {
    match dec_num(s, 0) {
        Option::None => None,
        Option::Some((count, j)) => match dec_events(s, j, count as nat) {
            Option::None => None,
            Option::Some((vs, k)) => if k == s.len() && view_ids_sorted(vs) {
                Some(vs)
            } else {
                None
            },
        },
    }
}

/// Whether the encoding `e` stands in `s` at position `i`.
pub open spec fn matches_at(s: Seq<char>, i: int, e: Seq<char>) -> bool {
    0 <= i && i + e.len() <= s.len() && s.subrange(i, i + e.len()) == e
}

/// A concatenation stands at a position exactly when its parts stand one
/// after the other.
proof fn lemma_split(s: Seq<char>, i: int, a: Seq<char>, b: Seq<char>)
    requires
        matches_at(s, i, a + b),
    ensures
        matches_at(s, i, a),
        matches_at(s, i + a.len(), b),
{
    assert(s.subrange(i, i + a.len()) =~= a) by {
        assert forall|k: int| 0 <= k < a.len() implies s.subrange(i, i + a.len())[k] == a[k] by {
            assert(s.subrange(i, i + (a + b).len())[k] == (a + b)[k]);
        }
    }
    assert(s.subrange(i + a.len(), i + a.len() + b.len()) =~= b) by {
        assert forall|k: int| 0 <= k < b.len() implies s.subrange(
            i + a.len(),
            i + a.len() + b.len(),
        )[k] == b[k] by {
            assert(s.subrange(i, i + (a + b).len())[a.len() + k] == (a + b)[a.len() + k]);
        }
    }
}

/// The decimal digits of a number are digits and read back as the number.
proof fn lemma_dec_digits_val(n: int)
    requires
        n >= 0,
    ensures
        all_digits(dec_digits(n)),
        digits_val(dec_digits(n)) == n,
        dec_digits(n).len() >= 1,
    decreases n,
{
    if n < 10 {
        assert(dec_digits(n) =~= seq![crate::textfmt::digit_char(n)]);
        let w = seq![crate::textfmt::digit_char(n)];
        assert(w.drop_last() =~= Seq::<char>::empty());
        assert(digits_val(Seq::<char>::empty()) == 0);
        assert(digits_val(w) == digits_val(w.drop_last()) * 10 + crate::textfmt::digit_of(
            w.last(),
        ));
        assert(crate::textfmt::digit_of(crate::textfmt::digit_char(n)) == n);
    } else {
        lemma_dec_digits_val(n / 10);
        let d = dec_digits(n / 10);
        let w = dec_digits(n);
        assert(w == d.push(crate::textfmt::digit_char(n % 10)));
        assert(w.drop_last() =~= d);
        assert forall|k: int| 0 <= k < w.len() implies crate::textfmt::is_digit(
            #[trigger] w[k],
        ) by {
            if k < d.len() {
                assert(w[k] == d[k]);
            }
        }
        assert(digits_val(w) == digits_val(d) * 10 + crate::textfmt::digit_of(w.last()));
        vstd::arithmetic::div_mod::lemma_fundamental_div_mod(n, 10);
    }
}

/// A maximal digit run has exactly the length of its all-digit span.
proof fn lemma_digit_run_exact(s: Seq<char>, i: int, k: int)
    requires
        0 <= i,
        k >= 0,
        i + k <= s.len(),
        all_digits(s.subrange(i, i + k)),
        i + k == s.len() || !crate::textfmt::is_digit(s[i + k]),
    ensures
        digit_run(s, i) == k,
    decreases k,
{
    if k == 0 {
    } else {
        assert(crate::textfmt::is_digit(s[i])) by {
            assert(s.subrange(i, i + k)[0] == s[i]);
        }
        assert(all_digits(s.subrange(i + 1, i + k))) by {
            assert forall|w: int| 0 <= w < k - 1 implies crate::textfmt::is_digit(
                #[trigger] s.subrange(i + 1, i + k)[w],
            ) by {
                assert(s.subrange(i + 1, i + k)[w] == s.subrange(i, i + k)[w + 1]);
            }
        }
        lemma_digit_run_exact(s, i + 1, k - 1);
    }
}

/// A number reads back from where its encoding stands.
proof fn lemma_dec_num_rt(s: Seq<char>, i: int, n: u64)
    requires
        matches_at(s, i, enc_num(n as int)),
    ensures
        dec_num(s, i) == Some((n, i + enc_num(n as int).len())),
{
    let d = dec_digits(n as int);
    lemma_dec_digits_val(n as int);
    lemma_split(s, i, d, seq![' ']);
    assert(s.subrange(i, i + d.len()) == d);
    assert(s[i + d.len()] == ' ') by {
        assert(s.subrange(i + d.len(), i + d.len() + 1)[0] == s[i + d.len()]);
    }
    assert(!crate::textfmt::is_digit(' '));
    lemma_digit_run_exact(s, i, d.len() as int);
    assert(digits_val(s.subrange(i, i + d.len())) == n);
}

/// A unit value reads back from where its encoding stands.
proof fn lemma_dec_cv_rt(s: Seq<char>, i: int, v: CronValue)
    requires
        matches_at(s, i, enc_cv(v)),
    ensures
        dec_cv(s, i) == Some((v, i + enc_cv(v).len())),
{
    match v {
        CronValue::Every => {
            assert(s[i] == 'e' && s[i + 1] == ' ') by {
                assert(s.subrange(i, i + 2)[0] == s[i]);
                assert(s.subrange(i, i + 2)[1] == s[i + 1]);
            }
        },
        CronValue::On(n) => {
            lemma_split(s, i, seq!['o'], enc_num(n as int));
            assert(s[i] == 'o') by {
                assert(s.subrange(i, i + 1)[0] == s[i]);
            }
            lemma_dec_num_rt(s, i + 1, n);
        },
    }
}

/// A string reads back from where its encoding stands.
proof fn lemma_dec_chars_rt(s: Seq<char>, i: int, t: Seq<char>)
    requires
        matches_at(s, i, enc_chars(t)),
        t.len() <= u64::MAX,
    ensures
        dec_chars(s, i) == Some((t, i + enc_chars(t).len())),
{
    assert(enc_chars(t) =~= enc_num(t.len() as int) + (t + seq![' ']));
    lemma_split(s, i, enc_num(t.len() as int), t + seq![' ']);
    lemma_dec_num_rt(s, i, t.len() as u64);
    let j = i + enc_num(t.len() as int).len();
    lemma_split(s, j, t, seq![' ']);
    assert(s[j + t.len()] == ' ') by {
        assert(s.subrange(j + t.len(), j + t.len() + 1)[0] == s[j + t.len()]);
    }
    assert(s.subrange(j, j + t.len()) == t);
}

/// A tag reads back from where its encoding stands.
proof fn lemma_dec_tag_rt(s: Seq<char>, i: int, o: Option<Seq<char>>)
    requires
        matches_at(s, i, enc_tag(o)),
        o is Some ==> o->Some_0.len() <= u64::MAX,
    ensures
        dec_tag(s, i) == Some((o, i + enc_tag(o).len())),
{
    match o {
        Option::None => {
            assert(s[i] == 'n' && s[i + 1] == ' ') by {
                assert(s.subrange(i, i + 2)[0] == s[i]);
                assert(s.subrange(i, i + 2)[1] == s[i + 1]);
            }
        },
        Option::Some(t) => {
            lemma_split(s, i, seq!['t', ' '], enc_chars(t));
            assert(s[i] == 't' && s[i + 1] == ' ') by {
                assert(s.subrange(i, i + 2)[0] == s[i]);
                assert(s.subrange(i, i + 2)[1] == s[i + 1]);
            }
            lemma_dec_chars_rt(s, i + 2, t);
        },
    }
}

/// The pieces of an encoded event stand one after the other.
#[verifier::rlimit(100)]
#[verifier::spinoff_prover]
proof fn lemma_event_pieces(s: Seq<char>, i: int, e: (u64, Cronline, Seq<char>, Option<Seq<char>>))
    requires
        matches_at(s, i, enc_event(e)),
    ensures
        ({
            let p0 = enc_num(e.0 as int);
            let p1 = enc_cv(e.1.spec_get(CronColumn::Minute));
            let p2 = enc_cv(e.1.spec_get(CronColumn::Hour));
            let p3 = enc_cv(e.1.spec_get(CronColumn::Day));
            let p4 = enc_cv(e.1.spec_get(CronColumn::Month));
            let p5 = enc_cv(e.1.spec_get(CronColumn::Year));
            let p6 = enc_tag(e.3);
            let p7 = enc_chars(e.2);
            &&& matches_at(s, i, p0)
            &&& matches_at(s, i + p0.len(), p1)
            &&& matches_at(s, i + p0.len() + p1.len(), p2)
            &&& matches_at(s, i + p0.len() + p1.len() + p2.len(), p3)
            &&& matches_at(s, i + p0.len() + p1.len() + p2.len() + p3.len(), p4)
            &&& matches_at(s, i + p0.len() + p1.len() + p2.len() + p3.len() + p4.len(), p5)
            &&& matches_at(
                s,
                i + p0.len() + p1.len() + p2.len() + p3.len() + p4.len() + p5.len(),
                p6,
            )
            &&& matches_at(
                s,
                i + p0.len() + p1.len() + p2.len() + p3.len() + p4.len() + p5.len() + p6.len(),
                p7,
            )
        }),
{
    let p0 = enc_num(e.0 as int);
    let p1 = enc_cv(e.1.spec_get(CronColumn::Minute));
    let p2 = enc_cv(e.1.spec_get(CronColumn::Hour));
    let p3 = enc_cv(e.1.spec_get(CronColumn::Day));
    let p4 = enc_cv(e.1.spec_get(CronColumn::Month));
    let p5 = enc_cv(e.1.spec_get(CronColumn::Year));
    let p6 = enc_tag(e.3);
    let p7 = enc_chars(e.2);
    let a1 = p0 + p1;
    let a2 = a1 + p2;
    let a3 = a2 + p3;
    let a4 = a3 + p4;
    let a5 = a4 + p5;
    let a6 = a5 + p6;
    assert(enc_event(e) == a6 + p7);
    lemma_split(s, i, a6, p7);
    lemma_split(s, i, a5, p6);
    lemma_split(s, i, a4, p5);
    lemma_split(s, i, a3, p4);
    lemma_split(s, i, a2, p3);
    lemma_split(s, i, a1, p2);
    lemma_split(s, i, p0, p1);
}

/// An event reads back from where its encoding stands.
#[verifier::rlimit(100)]
#[verifier::spinoff_prover]
proof fn lemma_dec_event_rt(s: Seq<char>, i: int, e: (u64, Cronline, Seq<char>, Option<Seq<char>>))
    requires
        matches_at(s, i, enc_event(e)),
        e.2.len() <= u64::MAX,
        e.3 is Some ==> e.3->Some_0.len() <= u64::MAX,
    ensures
        dec_event(s, i) == Some((e, i + enc_event(e).len())),
{
    let p0 = enc_num(e.0 as int);
    let p1 = enc_cv(e.1.spec_get(CronColumn::Minute));
    let p2 = enc_cv(e.1.spec_get(CronColumn::Hour));
    let p3 = enc_cv(e.1.spec_get(CronColumn::Day));
    let p4 = enc_cv(e.1.spec_get(CronColumn::Month));
    let p5 = enc_cv(e.1.spec_get(CronColumn::Year));
    let p6 = enc_tag(e.3);
    let p7 = enc_chars(e.2);
    lemma_event_pieces(s, i, e);
    let i1 = i + p0.len();
    let i2 = i1 + p1.len();
    let i3 = i2 + p2.len();
    let i4 = i3 + p3.len();
    let i5 = i4 + p4.len();
    let i6 = i5 + p5.len();
    let i7 = i6 + p6.len();
    lemma_dec_num_rt(s, i, e.0);
    lemma_dec_cv_rt(s, i1, e.1.spec_get(CronColumn::Minute));
    lemma_dec_cv_rt(s, i2, e.1.spec_get(CronColumn::Hour));
    lemma_dec_cv_rt(s, i3, e.1.spec_get(CronColumn::Day));
    lemma_dec_cv_rt(s, i4, e.1.spec_get(CronColumn::Month));
    lemma_dec_cv_rt(s, i5, e.1.spec_get(CronColumn::Year));
    lemma_dec_tag_rt(s, i6, e.3);
    lemma_dec_chars_rt(s, i7, e.2);
    let rebuilt = Cronline {
        line: [
            e.1.spec_get(CronColumn::Minute),
            e.1.spec_get(CronColumn::Hour),
            e.1.spec_get(CronColumn::Day),
            e.1.spec_get(CronColumn::Month),
            e.1.spec_get(CronColumn::Year),
        ],
    };
    assert(rebuilt.line =~= e.1.line);
    assert(i + enc_event(e).len() == i7 + p7.len());
    assert(dec_event(s, i) == Some((e, i7 + p7.len())));
}

/// A run of encoded events reads back from where it stands.
proof fn lemma_dec_events_rt(
    s: Seq<char>,
    i: int,
    vs: Seq<(u64, Cronline, Seq<char>, Option<Seq<char>>)>,
    idx: int,
)
    requires
        0 <= idx <= vs.len(),
        matches_at(s, i, enc_events(vs, idx)),
        forall|k: int|
            0 <= k < vs.len() ==> (#[trigger] vs[k]).2.len() <= u64::MAX && (vs[k].3 is Some
                ==> vs[k].3->Some_0.len() <= u64::MAX),
    ensures
        dec_events(s, i, (vs.len() - idx) as nat) == Some(
            (vs.skip(idx), i + enc_events(vs, idx).len()),
        ),
    decreases vs.len() - idx,
{
    if idx == vs.len() {
        assert(vs.skip(idx) =~= Seq::<(u64, Cronline, Seq<char>, Option<Seq<char>>)>::empty());
    } else {
        lemma_split(s, i, enc_event(vs[idx]), enc_events(vs, idx + 1));
        lemma_dec_event_rt(s, i, vs[idx]);
        let j = i + enc_event(vs[idx]).len();
        lemma_dec_events_rt(s, j, vs, idx + 1);
        assert(seq![vs[idx]] + vs.skip(idx + 1) =~= vs.skip(idx));
    }
}

/// The round trip: decoding an encoded store reproduces it exactly, event
/// for event. The bounds only say that each text fits the length prefix.
pub proof fn lemma_store_round_trip(evs: Seq<(u64, AgendaEvent)>)
    requires
        ids_sorted(evs),
        evs.len() <= u64::MAX,
        forall|k: int|
            0 <= k < evs.len() ==> (#[trigger] evs[k]).1.text@.len() <= u64::MAX && (evs[k].1.tag
                is Some ==> evs[k].1.tag->Some_0@.len() <= u64::MAX),
    ensures
        dec_store(enc_store(store_view(evs))) == Some(store_view(evs)),
{
    let vs = store_view(evs);
    let s = enc_store(vs);
    assert(s =~= enc_num(vs.len() as int) + enc_events(vs, 0));
    assert(matches_at(s, 0, enc_num(vs.len() as int) + enc_events(vs, 0))) by {
        assert(s.subrange(0, s.len() as int) =~= s);
    }
    lemma_split(s, 0, enc_num(vs.len() as int), enc_events(vs, 0));
    lemma_dec_num_rt(s, 0, vs.len() as u64);
    let j = enc_num(vs.len() as int).len() as int;
    assert forall|k: int|
        0 <= k < vs.len() implies (#[trigger] vs[k]).2.len() <= u64::MAX && (vs[k].3 is Some
        ==> vs[k].3->Some_0.len() <= u64::MAX) by {
        assert(vs[k] == event_view(evs[k]));
    }
    lemma_dec_events_rt(s, j, vs, 0);
    assert(vs.skip(0) =~= vs);
    assert(view_ids_sorted(vs)) by {
        assert forall|a: int, b: int| 0 <= a < b < vs.len() implies (#[trigger] vs[a]).0 < (
        #[trigger] vs[b]).0 by {
            assert(vs[a] == event_view(evs[a]) && vs[b] == event_view(evs[b]));
        }
    }
    assert(j + enc_events(vs, 0).len() == s.len());
}

/// Appends one encoded unit value.
fn push_cv(out: &mut String, v: CronValue)
    ensures
        final(out)@ == old(out)@ + enc_cv(v),
{
    proof {
        reveal_strlit("e ");
        reveal_strlit("o");
        reveal_strlit(" ");
    }
    match v {
        CronValue::Every => {
            out.append("e ");
            assert(final(out)@ =~= old(out)@ + enc_cv(v));
        },
        CronValue::On(n) => {
            out.append("o");
            let d = u64_to_string(n);
            out.append(d.as_str());
            out.append(" ");
            assert(final(out)@ =~= old(out)@ + enc_cv(v));
        },
    }
}

/// Appends one encoded number.
fn push_num(out: &mut String, n: u64)
    ensures
        final(out)@ == old(out)@ + enc_num(n as int),
{
    proof {
        reveal_strlit(" ");
    }
    let d = u64_to_string(n);
    out.append(d.as_str());
    out.append(" ");
    assert(final(out)@ =~= old(out)@ + enc_num(n as int));
}

/// Appends one encoded string.
fn push_chars(out: &mut String, t: &String)
    ensures
        final(out)@ == old(out)@ + enc_chars(t@),
{
    proof {
        reveal_strlit(" ");
    }
    let n = t.as_str().unicode_len();
    push_num(out, n as u64);
    out.append(t.as_str());
    out.append(" ");
    assert(final(out)@ =~= old(out)@ + enc_chars(t@));
}

/// Serializes the store: the event count, then each event in identifier
/// order as its identifier, pattern, tag and text.
#[verifier::rlimit(100)]
pub fn encode_store(st: &AgendaState) -> (r: String)
    ensures
        r@ == enc_store(store_view(st.events@)),
{
    proof {
        reveal_strlit("n ");
        reveal_strlit("t ");
    }
    let ghost vs = store_view(st.events@);
    let mut out = String::new();
    push_num(&mut out, st.events.len() as u64);
    assert(out@ =~= enc_num(vs.len() as int));
    let mut i: usize = 0;
    while i < st.events.len()
        invariant
            0 <= i <= st.events@.len(),
            vs == store_view(st.events@),
            out@ + enc_events(vs, i as int) == enc_store(vs),
        decreases st.events@.len() - i,
    {
        proof {
            reveal_strlit("n ");
            reveal_strlit("t ");
        }
        let ghost before = out@;
        let ev = &st.events[i];
        push_num(&mut out, ev.0);
        push_cv(&mut out, ev.1.cronline.get(CronColumn::Minute));
        push_cv(&mut out, ev.1.cronline.get(CronColumn::Hour));
        push_cv(&mut out, ev.1.cronline.get(CronColumn::Day));
        push_cv(&mut out, ev.1.cronline.get(CronColumn::Month));
        push_cv(&mut out, ev.1.cronline.get(CronColumn::Year));
        match &ev.1.tag {
            Option::None => {
                out.append("n ");
            },
            Option::Some(t) => {
                out.append("t ");
                push_chars(&mut out, t);
            },
        }
        push_chars(&mut out, &ev.1.text);
        proof {
            assert(vs[i as int] == event_view(st.events@[i as int]));
            assert(out@ =~= before + enc_event(vs[i as int]));
            assert(before + (enc_event(vs[i as int]) + enc_events(vs, i + 1 as int)) =~= out@
                + enc_events(vs, i + 1 as int));
        }
        i = i + 1;
    }
    proof {
        assert(out@ + enc_events(vs, i as int) =~= out@);
    }
    out
}

/// Reads a number.
fn dec_num_exec(cs: &Vec<char>, i: usize) -> (r: Option<(u64, usize)>)
    requires
        i <= cs@.len(),
    ensures
        r is Some <==> dec_num(cs@, i as int) is Some,
        r is Some ==> Some((r->Some_0.0, r->Some_0.1 as int)) == dec_num(cs@, i as int),
        r is Some ==> i < r->Some_0.1 <= cs@.len(),
{
    let k = digit_run_chars(cs, i);
    proof {
        crate::textfmt::lemma_digit_run_facts(cs@, i as int);
    }
    if k == 0 {
        return None;
    }
    let clen = cs.len();
    assert(i + k <= clen);
    let v = match digits_value_chars(cs, i, i + k) {
        Option::Some(v) => v,
        Option::None => {
            return None;
        },
    };
    if i + k < cs.len() && cs[i + k] == ' ' {
        Some((v, i + k + 1))
    } else {
        None
    }
}

/// Reads a unit value.
fn dec_cv_exec(cs: &Vec<char>, i: usize) -> (r: Option<(CronValue, usize)>)
    requires
        i <= cs@.len(),
    ensures
        r is Some <==> dec_cv(cs@, i as int) is Some,
        r is Some ==> Some((r->Some_0.0, r->Some_0.1 as int)) == dec_cv(cs@, i as int),
        r is Some ==> i < r->Some_0.1 <= cs@.len(),
{
    let n = cs.len();
    if n - i >= 2 && cs[i] == 'e' && cs[i + 1] == ' ' {
        Some((CronValue::Every, i + 2))
    } else if i < n && cs[i] == 'o' {
        match dec_num_exec(cs, i + 1) {
            Option::Some((v, j)) => Some((CronValue::On(v), j)),
            Option::None => None,
        }
    } else {
        None
    }
}

/// Reads a string's span: where its characters start and end, and where
/// reading goes on.
fn dec_chars_exec(cs: &Vec<char>, i: usize) -> (r: Option<(usize, usize, usize)>)
    requires
        i <= cs@.len(),
    ensures
        r is Some <==> dec_chars(cs@, i as int) is Some,
        r is Some ==> ({
            let (from, to, next) = r->Some_0;
            &&& from <= to <= cs@.len()
            &&& dec_chars(cs@, i as int) == Some((cs@.subrange(from as int, to as int), next as int))
            &&& i < next <= cs@.len()
        }),
{
    let (len_val, j) = match dec_num_exec(cs, i) {
        Option::Some(p) => p,
        Option::None => {
            return None;
        },
    };
    let rem = cs.len() - j;
    if len_val >= rem as u64 {
        return None;
    }
    let n_us = len_val as usize;
    if cs[j + n_us] == ' ' {
        Some((j, j + n_us, j + n_us + 1))
    } else {
        None
    }
}

/// Reads an optional tag's span.
fn dec_tag_exec(cs: &Vec<char>, i: usize) -> (r: Option<(Option<(usize, usize)>, usize)>)
    requires
        i <= cs@.len(),
    ensures
        r is Some <==> dec_tag(cs@, i as int) is Some,
        r is Some ==> ({
            let (span, next) = r->Some_0;
            &&& (match span {
                Option::None => dec_tag(cs@, i as int) == Some(
                    (Option::<Seq<char>>::None, next as int),
                ),
                Option::Some((from, to)) => from <= to <= cs@.len() && dec_tag(cs@, i as int)
                    == Some((Some(cs@.subrange(from as int, to as int)), next as int)),
            })
            &&& i < next <= cs@.len()
        }),
{
    let n = cs.len();
    if n - i >= 2 && cs[i] == 'n' && cs[i + 1] == ' ' {
        Some((None, i + 2))
    } else if n - i >= 2 && cs[i] == 't' && cs[i + 1] == ' ' {
        match dec_chars_exec(cs, i + 2) {
            Option::Some((from, to, next)) => Some((Some((from, to)), next)),
            Option::None => None,
        }
    } else {
        None
    }
}

/// Reads one event.
fn dec_event_exec(input: &str, cs: &Vec<char>, i: usize) -> (r: Option<((u64, AgendaEvent), usize)>)
    requires
        cs@ == input@,
        i <= cs@.len(),
    ensures
        r is Some <==> dec_event(cs@, i as int) is Some,
        r is Some ==> ({
            let ((id, ev), next) = r->Some_0;
            &&& dec_event(cs@, i as int) == Some((event_view((id, ev)), next as int))
            &&& i < next <= cs@.len()
        }),
{
    let (id, j0) = match dec_num_exec(cs, i) {
        Option::Some(p) => p,
        Option::None => {
            return None;
        },
    };
    let (v0, j1) = match dec_cv_exec(cs, j0) {
        Option::Some(p) => p,
        Option::None => {
            return None;
        },
    };
    let (v1, j2) = match dec_cv_exec(cs, j1) {
        Option::Some(p) => p,
        Option::None => {
            return None;
        },
    };
    let (v2, j3) = match dec_cv_exec(cs, j2) {
        Option::Some(p) => p,
        Option::None => {
            return None;
        },
    };
    let (v3, j4) = match dec_cv_exec(cs, j3) {
        Option::Some(p) => p,
        Option::None => {
            return None;
        },
    };
    let (v4, j5) = match dec_cv_exec(cs, j4) {
        Option::Some(p) => p,
        Option::None => {
            return None;
        },
    };
    let (tag_span, j6) = match dec_tag_exec(cs, j5) {
        Option::Some(p) => p,
        Option::None => {
            return None;
        },
    };
    let (t_from, t_to, j7) = match dec_chars_exec(cs, j6) {
        Option::Some(p) => p,
        Option::None => {
            return None;
        },
    };
    let tag: Option<String> = match tag_span {
        Option::None => None,
        Option::Some((from, to)) => Some(input.substring_char(from, to).to_owned()),
    };
    let text = input.substring_char(t_from, t_to).to_owned();
    let line = Cronline::from_values([v0, v1, v2, v3, v4]);
    let ev = AgendaEvent { cronline: line, text, tag };
    proof {
        assert(dec_event(cs@, i as int) == Some((event_view((id, ev)), j7 as int)));
    }
    Some(((id, ev), j7))
}

/// Deserializes a store from its persisted text: the event count, then the
/// events, which must fill the whole text and carry strictly increasing
/// identifiers — anything else is treated as corruption.
pub fn decode_store(input: &str) -> (r: Option<AgendaState>)
    ensures
        r is Some <==> dec_store(input@) is Some,
        r is Some ==> store_view(r->Some_0.events@) == dec_store(input@)->Some_0
            && r->Some_0.wf(),
{
    let cs = chars_of(input);
    let (count, j0) = match dec_num_exec(&cs, 0) {
        Option::Some(p) => p,
        Option::None => {
            return None;
        },
    };
    let mut events: Vec<(u64, AgendaEvent)> = Vec::new();
    let mut pos = j0;
    let mut done: u64 = 0;
    while done < count
        invariant
            cs@ == input@,
            0 <= done <= count,
            pos <= cs@.len(),
            dec_num(cs@, 0) == Some((count, j0 as int)),
            ({
                let full = dec_events(cs@, j0 as int, count as nat);
                match dec_events(cs@, pos as int, (count - done) as nat) {
                    Option::Some((rest, end)) => full == Some(
                        (store_view(events@) + rest, end),
                    ),
                    Option::None => full is None,
                }
            }),
        decreases count - done,
    {
        let (pair, next) = match dec_event_exec(input, &cs, pos) {
            Option::Some(p) => p,
            Option::None => {
                proof {
                    assert(dec_events(cs@, pos as int, (count - done) as nat) is None);
                }
                return None;
            },
        };
        let ghost pre = store_view(events@);
        events.push(pair);
        proof {
            let e = event_view(pair);
            assert(store_view(events@) =~~= pre + seq![e]);
            match dec_events(cs@, next as int, (count - done - 1) as nat) {
                Option::Some((rest, end)) => {
                    assert((pre + seq![e]) + rest =~~= pre + (seq![e] + rest));
                },
                Option::None => {},
            }
        }
        pos = next;
        done = done + 1;
    }
    proof {
        assert(dec_events(cs@, pos as int, 0) == Some(
            (Seq::<(u64, Cronline, Seq<char>, Option<Seq<char>>)>::empty(), pos as int),
        ));
        assert(store_view(events@) + Seq::<
            (u64, Cronline, Seq<char>, Option<Seq<char>>),
        >::empty() =~~= store_view(events@));
    }
    if pos != cs.len() {
        return None;
    }
    // Strictly increasing identifiers: adjacent order suffices.
    let mut sorted_ok = true;
    let mut k: usize = 1;
    while k < events.len()
        invariant_except_break
            1 <= k <= events@.len() || events@.len() == 0,
            sorted_ok,
            forall|a: int| 0 < a < k ==> (#[trigger] events@[a]).0 > events@[a - 1].0,
        ensures
            sorted_ok ==> forall|a: int|
                0 < a < events@.len() ==> (#[trigger] events@[a]).0 > events@[a - 1].0,
            !sorted_ok ==> exists|a: int|
                0 < a < events@.len() && (#[trigger] events@[a]).0 <= events@[a - 1].0,
        decreases events@.len() - k,
    {
        if events[k].0 <= events[k - 1].0 {
            sorted_ok = false;
            break ;
        }
        k = k + 1;
    }
    if !sorted_ok {
        proof {
            let vs = store_view(events@);
            let a = choose|a: int|
                0 < a < events@.len() && (#[trigger] events@[a]).0 <= events@[a - 1].0;
            assert(vs[a].0 == events@[a].0 && vs[a - 1].0 == events@[a - 1].0);
            assert(!view_ids_sorted(vs));
        }
        return None;
    }
    proof {
        let vs = store_view(events@);
        assert forall|a: int, b: int| 0 <= a < b < vs.len() implies (#[trigger] vs[a]).0 < (
        #[trigger] vs[b]).0 by {
            lemma_adjacent_sorted(events@, a, b);
            assert(vs[a].0 == events@[a].0 && vs[b].0 == events@[b].0);
        }
        assert(ids_sorted(events@)) by {
            assert forall|a: int, b: int| 0 <= a < b < events@.len() implies (
            #[trigger] events@[a]).0 < (#[trigger] events@[b]).0 by {
                lemma_adjacent_sorted(events@, a, b);
            }
        }
    }
    Some(AgendaState { events })
}

/// Adjacent increase gives pairwise increase.
proof fn lemma_adjacent_sorted(s: Seq<(u64, AgendaEvent)>, a: int, b: int)
    requires
        forall|x: int| 0 < x < s.len() ==> (#[trigger] s[x]).0 > s[x - 1].0,
        0 <= a < b < s.len(),
    ensures
        s[a].0 < s[b].0,
    decreases b - a,
{
    if b == a + 1 {
        assert(s[b].0 > s[b - 1].0);
    } else {
        lemma_adjacent_sorted(s, a, b - 1);
        assert(s[b].0 > s[b - 1].0);
    }
}

} // verus!
