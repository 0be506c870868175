//! The persistence codec. A store is written as text: first the task
//! count, then each task's five fields in order. Every number is a
//! decimal numeral terminated by a newline; every text field is its
//! character count followed by exactly that many characters, so no
//! escaping is ever needed and decoding inverts encoding exactly.

use vstd::prelude::*;

use crate::digits::{
    dec_rep, dec_val, digit_of_char, is_digit, is_digit_char, lemma_dec_rep_digits,
    lemma_dec_val_of_rep, lemma_dec_val_snoc, lemma_rep_of_dec_val, push_dec,
};
use crate::store::TaskStore;
use crate::task::{
    lemma_status_code_round_trip, lemma_status_of_code_inverse, spec_status_code,
    spec_status_of_code, status_code, status_of_code, Task, TaskView,
};
use crate::text::{chars_to_string, str_to_chars};
use vstd::string::StrSliceExecFns;

verus! {

/// A number: its decimal numeral, then a newline.
pub open spec fn encode_num(n: nat) -> Seq<char> {
    dec_rep(n) + seq!['\n']
}

/// A text field: its character count, then its characters.
pub open spec fn encode_text(t: Seq<char>) -> Seq<char> {
    encode_num(t.len()) + t
}

/// One task record: creation stamp, duration in seconds, title,
/// description, status tag, in that order.
pub open spec fn encode_task(t: TaskView) -> Seq<char> {
    encode_text(t.created) + encode_num(t.duration_secs as nat) + encode_text(t.title)
        + encode_text(t.description) + encode_num(spec_status_code(t.status))
}

/// The records of a task sequence, in order.
pub open spec fn encode_tasks(ts: Seq<TaskView>) -> Seq<char>
    decreases ts.len(),
{
    if ts.len() == 0 {
        Seq::empty()
    } else {
        encode_task(ts.first()) + encode_tasks(ts.drop_first())
    }
}

/// The whole persisted form: the task count, then the records.
pub open spec fn encode_store_spec(ts: Seq<TaskView>) -> Seq<char> {
    encode_num(ts.len()) + encode_tasks(ts)
}

/// The first position at or after `i` that holds no digit.
pub open spec fn digits_end(s: Seq<char>, i: int) -> int
    recommends
        0 <= i <= s.len(),
    decreases s.len() - i,
{
    if i < s.len() && is_digit_char(s[i]) {
        digits_end(s, i + 1)
    } else {
        i
    }
}

/// Reads a number at `i`: one or more digits, then a newline, exactly
/// as the encoder writes one — so a leading zero on a longer numeral
/// is refused. Yields the value and the position after the newline.
/// Values above the machine word are refused, as decoding could not
/// hold them.
pub open spec fn parse_num(s: Seq<char>, i: int) -> Option<(nat, int)> {
    let j = digits_end(s, i);
    if j == i {
        None
    } else if j < s.len() && s[j] == '\n' && (s[i] != '0' || j == i + 1) && dec_val(
        s.subrange(i, j),
    ) <= u64::MAX {
        Some((dec_val(s.subrange(i, j)), j + 1))
    } else {
        None
    }
}

/// Reads a text field at `i`: a count, then that many characters.
pub open spec fn parse_text(s: Seq<char>, i: int) -> Option<(Seq<char>, int)> {
    match parse_num(s, i) {
        None => None,
        Some((n, j)) => if j + n <= s.len() {
            Some((s.subrange(j, j + n), j + n))
        } else {
            None
        },
    }
}

/// Reads one task record at `i`.
pub open spec fn parse_task(s: Seq<char>, i: int) -> Option<(TaskView, int)> {
    match parse_text(s, i) {
        None => None,
        Some((created, i1)) => match parse_num(s, i1) {
            None => None,
            Some((dur, i2)) => match parse_text(s, i2) {
                None => None,
                Some((title, i3)) => match parse_text(s, i3) {
                    None => None,
                    Some((description, i4)) => match parse_num(s, i4) {
                        None => None,
                        Some((code, i5)) => match spec_status_of_code(code) {
                            None => None,
                            Some(status) => Some(
                                (
                                    TaskView {
                                        created,
                                        duration_secs: dur as u64,
                                        title,
                                        description,
                                        status,
                                    },
                                    i5,
                                ),
                            ),
                        },
                    },
                },
            },
        },
    }
}

/// Reads `k` task records starting at `i`.
pub open spec fn parse_tasks(s: Seq<char>, i: int, k: nat) -> Option<(Seq<TaskView>, int)>
    decreases k,
{
    if k == 0 {
        Some((Seq::empty(), i))
    } else {
        match parse_task(s, i) {
            None => None,
            Some((t, j)) => match parse_tasks(s, j, (k - 1) as nat) {
                None => None,
                Some((ts, e)) => Some((seq![t] + ts, e)),
            },
        }
    }
}

/// Decodes a whole persisted form: the count, then exactly that many
/// records, with nothing left over.
pub open spec fn spec_decode(s: Seq<char>) -> Option<Seq<TaskView>> {
    match parse_num(s, 0) {
        None => None,
        Some((k, i)) => match parse_tasks(s, i, k) {
            None => None,
            Some((ts, e)) => if e == s.len() {
                Some(ts)
            } else {
                None
            },
        },
    }
}

/// The machine bounds under which a task can be written out: each text
/// field's length must fit the count word.
pub open spec fn task_fits(t: TaskView) -> bool {
    t.created.len() <= u64::MAX && t.title.len() <= u64::MAX && t.description.len() <= u64::MAX
}

/// Scanning stops exactly at the first non-digit.
proof fn lemma_digits_end_at(s: Seq<char>, i: int, j: int)
    requires
        0 <= i <= j <= s.len(),
        forall|m: int| i <= m < j ==> is_digit_char(s[m]),
        j == s.len() || !is_digit_char(s[j]),
    ensures
        digits_end(s, i) == j,
    decreases j - i,
{
    if i < j {
        lemma_digits_end_at(s, i + 1, j);
    }
}

/// What scanning from `i` yields: digits up to the stop, which is the
/// end or a non-digit.
proof fn lemma_digits_end_props(s: Seq<char>, i: int)
    requires
        0 <= i <= s.len(),
    ensures
        i <= digits_end(s, i) <= s.len(),
        forall|m: int| i <= m < digits_end(s, i) ==> is_digit_char(s[m]),
        digits_end(s, i) == s.len() || !is_digit_char(s[digits_end(s, i)]),
    decreases s.len() - i,
{
    if i < s.len() && is_digit_char(s[i]) {
        lemma_digits_end_props(s, i + 1);
    }
}

/// A window of `s` equal to a concatenation splits into two windows.
proof fn lemma_window_split(s: Seq<char>, i: int, a: Seq<char>, b: Seq<char>)
    requires
        0 <= i,
        i + a.len() + b.len() <= s.len(),
        s.subrange(i, i + a.len() + b.len()) == a + b,
    ensures
        s.subrange(i, i + a.len()) == a,
        s.subrange(i + a.len(), i + a.len() + b.len()) == b,
{
    let w = s.subrange(i, i + a.len() + b.len());
    assert forall|m: int| 0 <= m < a.len() implies s.subrange(i, i + a.len())[m] == a[m] by {
        assert(w[m] == s[i + m]);
    }
    assert(s.subrange(i, i + a.len()) =~= a);
    assert forall|m: int| 0 <= m < b.len() implies s.subrange(
        i + a.len(),
        i + a.len() + b.len(),
    )[m] == b[m] by {
        assert(w[a.len() + m] == s[i + a.len() + m]);
    }
    assert(s.subrange(i + a.len(), i + a.len() + b.len()) =~= b);
}

/// Where a window of `s` holds the encoding of a number, parsing at
/// that position yields exactly that number and stops after it.
proof fn lemma_parse_num_at(s: Seq<char>, i: int, n: nat)
    requires
        n <= u64::MAX,
        0 <= i,
        i + encode_num(n).len() <= s.len(),
        s.subrange(i, i + encode_num(n).len()) == encode_num(n),
    ensures
        parse_num(s, i) == Some((n, i + encode_num(n).len())),
{
    let d = dec_rep(n);
    let w = s.subrange(i, i + encode_num(n).len());
    lemma_dec_rep_digits(n);
    assert forall|m: int| i <= m < i + d.len() implies is_digit_char(s[m]) by {
        assert(w[m - i] == s[m]);
        assert(w[m - i] == d[m - i]);
    }
    assert(s[i + d.len()] == w[d.len() as int]);
    assert(s[i + d.len()] == '\n');
    assert(!is_digit_char('\n')) by {
        assert('\n' as int == 10);
    }
    lemma_digits_end_at(s, i, i + d.len());
    assert(s.subrange(i, i + d.len()) =~= d) by {
        assert forall|m: int| 0 <= m < d.len() implies s.subrange(i, i + d.len())[m] == d[m] by {
            assert(w[m] == s[i + m]);
        }
    }
    if d.len() > 1 {
        assert(s[i] == s.subrange(i, i + d.len())[0]);
        assert(s[i] != '0');
    }
    lemma_dec_val_of_rep(n);
}

/// Where a window of `s` holds the encoding of a text field, parsing
/// at that position yields exactly that text and stops after it.
proof fn lemma_parse_text_at(s: Seq<char>, i: int, t: Seq<char>)
    requires
        t.len() <= u64::MAX,
        0 <= i,
        i + encode_text(t).len() <= s.len(),
        s.subrange(i, i + encode_text(t).len()) == encode_text(t),
    ensures
        parse_text(s, i) == Some((t, i + encode_text(t).len())),
{
    let a = encode_num(t.len());
    lemma_window_split(s, i, a, t);
    lemma_parse_num_at(s, i, t.len());
}

/// Where a window of `s` holds the encoding of a task, parsing at that
/// position yields exactly that task and stops after it.
proof fn lemma_parse_task_at(s: Seq<char>, i: int, t: TaskView)
    requires
        task_fits(t),
        0 <= i,
        i + encode_task(t).len() <= s.len(),
        s.subrange(i, i + encode_task(t).len()) == encode_task(t),
    ensures
        parse_task(s, i) == Some((t, i + encode_task(t).len())),
{
    let a = encode_text(t.created);
    let b = encode_num(t.duration_secs as nat);
    let c = encode_text(t.title);
    let d = encode_text(t.description);
    let e = encode_num(spec_status_code(t.status));
    assert(encode_task(t) =~= a + (b + (c + (d + e))));
    lemma_window_split(s, i, a, b + (c + (d + e)));
    let i1 = i + a.len();
    lemma_window_split(s, i1, b, c + (d + e));
    let i2 = i1 + b.len();
    lemma_window_split(s, i2, c, d + e);
    let i3 = i2 + c.len();
    lemma_window_split(s, i3, d, e);
    let i4 = i3 + d.len();
    lemma_parse_text_at(s, i, t.created);
    lemma_parse_num_at(s, i1, t.duration_secs as nat);
    lemma_parse_text_at(s, i2, t.title);
    lemma_parse_text_at(s, i3, t.description);
    lemma_parse_num_at(s, i4, spec_status_code(t.status));
    lemma_status_code_round_trip(t.status);
    let i5 = i4 + e.len();
    assert(parse_task(s, i) matches Some(p) && p.0 =~= t && p.1 == i5);
}

/// Where a window of `s` holds the encoding of a task sequence,
/// parsing that many records yields exactly those tasks.
proof fn lemma_parse_tasks_at(s: Seq<char>, i: int, ts: Seq<TaskView>)
    requires
        forall|m: int| 0 <= m < ts.len() ==> task_fits(ts[m]),
        0 <= i,
        i + encode_tasks(ts).len() <= s.len(),
        s.subrange(i, i + encode_tasks(ts).len()) == encode_tasks(ts),
    ensures
        parse_tasks(s, i, ts.len()) == Some((ts, i + encode_tasks(ts).len())),
    decreases ts.len(),
{
    if ts.len() == 0 {
        assert(parse_tasks(s, i, 0) matches Some(p) && p.0 =~= ts && p.1 == i);
    } else {
        let a = encode_task(ts.first());
        let b = encode_tasks(ts.drop_first());
        lemma_window_split(s, i, a, b);
        lemma_parse_task_at(s, i, ts.first());
        let j = i + a.len();
        lemma_parse_tasks_at(s, j, ts.drop_first());
        assert(parse_tasks(s, i, ts.len()) matches Some(p) && p.0 =~= ts && p.1 == i
            + encode_tasks(ts).len());
    }
}

/// Round trip: decoding the encoding of any task sequence whose fields
/// fit the machine bounds yields exactly that sequence.
pub proof fn lemma_decode_of_encode(ts: Seq<TaskView>)
    requires
        ts.len() <= u64::MAX,
        forall|m: int| 0 <= m < ts.len() ==> task_fits(ts[m]),
    ensures
        spec_decode(encode_store_spec(ts)) == Some(ts),
{
    let s = encode_store_spec(ts);
    let a = encode_num(ts.len());
    let b = encode_tasks(ts);
    assert(s.subrange(0, a.len() + b.len() as int) =~= a + b);
    lemma_window_split(s, 0, a, b);
    lemma_parse_num_at(s, 0, ts.len());
    lemma_parse_tasks_at(s, a.len() as int, ts);
}

/// What a successful number parse consumed: exactly the encoding of
/// its value.
proof fn lemma_parse_num_sound(s: Seq<char>, i: int)
    requires
        0 <= i <= s.len(),
    ensures
        parse_num(s, i) matches Some(p) ==> {
            &&& p.0 <= u64::MAX
            &&& i < p.1 <= s.len()
            &&& p.1 - i == encode_num(p.0).len()
            &&& s.subrange(i, p.1) == encode_num(p.0)
        },
{
    lemma_digits_end_props(s, i);
    let j = digits_end(s, i);
    if parse_num(s, i) is Some {
        let w = s.subrange(i, j);
        assert(w.len() >= 1);
        assert(forall|m: int| 0 <= m < w.len() ==> is_digit_char(w[m]));
        assert(w.len() > 1 ==> w[0] != '0') by {
            assert(w[0] == s[i]);
        }
        lemma_rep_of_dec_val(w);
        assert(s.subrange(i, j + 1) =~= w + seq!['\n']);
        assert(s.subrange(i, j + 1) == encode_num(dec_val(w)));
    }
}

/// What a successful text parse consumed: exactly the encoding of its
/// text.
proof fn lemma_parse_text_sound(s: Seq<char>, i: int)
    requires
        0 <= i <= s.len(),
    ensures
        parse_text(s, i) matches Some(p) ==> {
            &&& p.0.len() <= u64::MAX
            &&& i < p.1 <= s.len()
            &&& p.1 - i == encode_text(p.0).len()
            &&& s.subrange(i, p.1) == encode_text(p.0)
        },
{
    lemma_parse_num_sound(s, i);
    if parse_text(s, i) is Some {
        let (n, j) = parse_num(s, i).unwrap();
        let t = s.subrange(j, j + n);
        assert(s.subrange(i, j + n) =~= s.subrange(i, j) + t);
        assert(s.subrange(i, j + n) == encode_text(t));
    }
}

/// What a successful task parse consumed: exactly the encoding of its
/// task, whose fields fit the machine bounds.
proof fn lemma_parse_task_sound(s: Seq<char>, i: int)
    requires
        0 <= i <= s.len(),
    ensures
        parse_task(s, i) matches Some(p) ==> {
            &&& task_fits(p.0)
            &&& i < p.1 <= s.len()
            &&& p.1 - i == encode_task(p.0).len()
            &&& s.subrange(i, p.1) == encode_task(p.0)
        },
{
    if parse_task(s, i) is Some {
        let (created, i1) = parse_text(s, i).unwrap();
        let (dur, i2) = parse_num(s, i1).unwrap();
        let (title, i3) = parse_text(s, i2).unwrap();
        let (description, i4) = parse_text(s, i3).unwrap();
        let (code, i5) = parse_num(s, i4).unwrap();
        lemma_parse_text_sound(s, i);
        lemma_parse_num_sound(s, i1);
        lemma_parse_text_sound(s, i2);
        lemma_parse_text_sound(s, i3);
        lemma_parse_num_sound(s, i4);
        lemma_status_of_code_inverse(code);
        let t = parse_task(s, i).unwrap().0;
        assert(s.subrange(i, i5) =~= s.subrange(i, i1) + s.subrange(i1, i2) + s.subrange(i2, i3)
            + s.subrange(i3, i4) + s.subrange(i4, i5));
        assert(s.subrange(i, i5) == encode_task(t));
    }
}

/// What a successful parse of `k` records consumed: exactly the
/// encoding of the tasks it yielded, which number `k`.
proof fn lemma_parse_tasks_sound(s: Seq<char>, i: int, k: nat)
    requires
        0 <= i <= s.len(),
    ensures
        parse_tasks(s, i, k) matches Some(p) ==> {
            &&& p.0.len() == k
            &&& forall|m: int| 0 <= m < p.0.len() ==> task_fits(#[trigger] p.0[m])
            &&& i <= p.1 <= s.len()
            &&& p.1 - i == encode_tasks(p.0).len()
            &&& s.subrange(i, p.1) == encode_tasks(p.0)
        },
    decreases k,
{
    if k == 0 {
        assert(s.subrange(i, i) =~= Seq::<char>::empty());
        assert(encode_tasks(Seq::<TaskView>::empty()) == Seq::<char>::empty());
    } else if parse_tasks(s, i, k) is Some {
        let (t, j) = parse_task(s, i).unwrap();
        lemma_parse_task_sound(s, i);
        lemma_parse_tasks_sound(s, j, (k - 1) as nat);
        let (rest, e) = parse_tasks(s, j, (k - 1) as nat).unwrap();
        let ts = parse_tasks(s, i, k).unwrap().0;
        assert(ts == seq![t] + rest);
        assert(ts.first() == t);
        assert(ts.drop_first() =~= rest);
        assert(s.subrange(i, e) =~= s.subrange(i, j) + s.subrange(j, e));
        assert(encode_tasks(ts) == encode_task(t) + encode_tasks(rest));
        assert(s.subrange(i, e) == encode_tasks(ts));
    }
}

/// The converse of the round trip: whatever decodes at all is the
/// exact encoding of what it decodes to. No text but a store's own
/// persisted form is ever accepted.
pub proof fn lemma_encode_of_decode(s: Seq<char>)
    ensures
        spec_decode(s) matches Some(ts) ==> {
            &&& ts.len() <= u64::MAX
            &&& forall|m: int| 0 <= m < ts.len() ==> task_fits(#[trigger] ts[m])
            &&& s == encode_store_spec(ts)
        },
{
    if spec_decode(s) is Some {
        let (k, i) = parse_num(s, 0).unwrap();
        lemma_parse_num_sound(s, 0);
        lemma_parse_tasks_sound(s, i, k);
        let ts = spec_decode(s).unwrap();
        assert(s =~= s.subrange(0, i) + s.subrange(i, s.len() as int));
        assert(s == encode_store_spec(ts));
    }
}

/// Appending one task extends the records by one encoding.
proof fn lemma_encode_tasks_snoc(u: Seq<TaskView>, x: TaskView)
    ensures
        encode_tasks(u.push(x)) == encode_tasks(u) + encode_task(x),
    decreases u.len(),
{
    if u.len() == 0 {
        assert(u.push(x).first() == x);
        assert(u.push(x).drop_first() =~= Seq::<TaskView>::empty());
        assert(encode_tasks(Seq::<TaskView>::empty()) == Seq::<char>::empty());
        assert(encode_tasks(u.push(x)) == encode_task(x) + Seq::<char>::empty());
        assert(encode_task(x) + Seq::<char>::empty() =~= Seq::<char>::empty() + encode_task(x));
    } else {
        assert(u.push(x).first() == u.first());
        assert(u.push(x).drop_first() =~= u.drop_first().push(x));
        lemma_encode_tasks_snoc(u.drop_first(), x);
        assert(encode_tasks(u.push(x)) == encode_task(u.first()) + (encode_tasks(u.drop_first())
            + encode_task(x)));
        assert(encode_task(u.first()) + (encode_tasks(u.drop_first()) + encode_task(x)) =~= (
        encode_task(u.first()) + encode_tasks(u.drop_first())) + encode_task(x));
    }
}

/// Appends the encoding of a number.
fn push_num(out: &mut Vec<char>, n: u64)
    ensures
        final(out)@ == old(out)@ + encode_num(n as nat),
{
    push_dec(out, n);
    out.push('\n');
    proof {
        assert(out@ =~= old(out)@ + encode_num(n as nat));
    }
}

/// Appends the encoding of a text field.
fn push_text(out: &mut Vec<char>, t: &str)
    ensures
        final(out)@ == old(out)@ + encode_text(t@),
        t@.len() <= u64::MAX,
{
    let n = t.unicode_len();
    push_num(out, n as u64);
    let mut i: usize = 0;
    while i < n
        invariant
            i <= n,
            n == t@.len(),
            out@ == old(out)@ + encode_num(n as nat) + t@.subrange(0, i as int),
        decreases n - i,
    {
        out.push(t.get_char(i));
        proof {
            assert(out@ =~= old(out)@ + encode_num(n as nat) + t@.subrange(0, i as int + 1));
        }
        i = i + 1;
    }
    proof {
        assert(t@.subrange(0, n as int) =~= t@);
        assert(out@ =~= old(out)@ + encode_text(t@));
    }
}

/// Appends the encoding of one task record.
fn push_task(out: &mut Vec<char>, t: &Task)
    ensures
        final(out)@ == old(out)@ + encode_task(t@),
        task_fits(t@),
{
    push_text(out, t.created.as_str());
    push_num(out, t.duration_secs);
    push_text(out, t.title.as_str());
    push_text(out, t.description.as_str());
    push_num(out, status_code(t.status));
    proof {
        assert(out@ =~= old(out)@ + encode_task(t@));
    }
}

/// Writes a store out as text. The result is the exact encoding of the
/// store's model, and decoding it yields that model back: saving then
/// loading reproduces every task, field for field, in the same order.
pub fn encode_store(st: &TaskStore) -> (r: String)
    ensures
        r@ == encode_store_spec(st@),
        spec_decode(r@) == Some(st@),
{
    let mut out: Vec<char> = Vec::new();
    let k = st.tasks.len();
    push_num(&mut out, k as u64);
    let mut m: usize = 0;
    while m < k
        invariant
            m <= k,
            k == st@.len(),
            out@ == encode_num(k as nat) + encode_tasks(st@.take(m as int)),
            forall|q: int| 0 <= q < m ==> task_fits(st@[q]),
        decreases k - m,
    {
        push_task(&mut out, &st.tasks[m]);
        proof {
            assert(st@[m as int] == st.tasks[m as int]@);
            assert(st@.take(m as int + 1) =~= st@.take(m as int).push(st@[m as int]));
            lemma_encode_tasks_snoc(st@.take(m as int), st@[m as int]);
            assert(out@ =~= encode_num(k as nat) + encode_tasks(st@.take(m as int + 1)));
        }
        m = m + 1;
    }
    proof {
        assert(st@.take(k as int) =~= st@);
        lemma_decode_of_encode(st@);
    }
    chars_to_string(&out)
}

/// Scans forward from `i` over decimal digits.
fn scan_digits(s: &Vec<char>, i: usize) -> (j: usize)
    requires
        i <= s@.len(),
    ensures
        i <= j <= s@.len(),
        j as int == digits_end(s@, i as int),
{
    let mut j = i;
    while j < s.len() && is_digit(s[j])
        invariant
            i <= j <= s@.len(),
            digits_end(s@, i as int) == digits_end(s@, j as int),
        decreases s@.len() - j,
    {
        j = j + 1;
    }
    j
}

/// Reads a number at `i` of the character sequence, as the format
/// defines one; yields the value and the position after its newline.
fn parse_num_exec(s: &Vec<char>, i: usize) -> (r: Option<(u64, usize)>)
    requires
        i <= s@.len(),
    ensures
        r is None ==> parse_num(s@, i as int) is None,
        r matches Some(p) ==> parse_num(s@, i as int) == Some((p.0 as nat, p.1 as int)) && i < p.1
            <= s@.len(),
{
    let j = scan_digits(s, i);
    proof {
        lemma_digits_end_props(s@, i as int);
    }
    if j == i {
        return None;
    }
    if j == s.len() {
        return None;
    }
    if s[j] != '\n' {
        return None;
    }
    if s[i] == '0' && j > i + 1 {
        return None;
    }
    let mut acc: u64 = 0;
    let mut overflow = false;
    let mut m = i;
    while m < j
        invariant
            i <= m <= j <= s@.len(),
            forall|q: int| i <= q < j ==> is_digit_char(s@[q]),
            !overflow ==> acc as nat == dec_val(s@.subrange(i as int, m as int)),
            overflow ==> dec_val(s@.subrange(i as int, m as int)) > u64::MAX,
        decreases j - m,
    {
        let c = s[m];
        let d = digit_of_char(c);
        proof {
            assert(s@.subrange(i as int, m as int + 1) =~= s@.subrange(i as int, m as int).push(
                c,
            ));
            lemma_dec_val_snoc(s@.subrange(i as int, m as int), c);
        }
        if !overflow {
            match acc.checked_mul(10) {
                Some(a10) => match a10.checked_add(d) {
                    Some(v) => {
                        acc = v;
                    },
                    None => {
                        overflow = true;
                    },
                },
                None => {
                    overflow = true;
                },
            }
        }
        m = m + 1;
    }
    if overflow {
        return None;
    }
    proof {
        assert(parse_num(s@, i as int) == Some((acc as nat, j as int + 1)));
    }
    Some((acc, j + 1))
}

/// Reads a text field at `i`; yields the text and the position after it.
fn parse_text_exec(s: &Vec<char>, i: usize) -> (r: Option<(String, usize)>)
    requires
        i <= s@.len(),
    ensures
        r is None ==> parse_text(s@, i as int) is None,
        r matches Some(p) ==> parse_text(s@, i as int) == Some((p.0@, p.1 as int)) && i < p.1
            <= s@.len(),
{
    let (n, j) = match parse_num_exec(s, i) {
        None => {
            return None;
        },
        Some(x) => x,
    };
    if n > (s.len() - j) as u64 {
        return None;
    }
    let len = n as usize;
    let end = j + len;
    let mut v: Vec<char> = Vec::new();
    let mut m = j;
    while m < end
        invariant
            j <= m <= end <= s@.len(),
            v@ == s@.subrange(j as int, m as int),
        decreases end - m,
    {
        v.push(s[m]);
        proof {
            assert(v@ =~= s@.subrange(j as int, m as int + 1));
        }
        m = m + 1;
    }
    let text = chars_to_string(&v);
    proof {
        assert(parse_text(s@, i as int) == Some((text@, end as int)));
    }
    Some((text, end))
}

/// Reads one task record at `i`; yields the task and the position
/// after it.
fn parse_task_exec(s: &Vec<char>, i: usize) -> (r: Option<(Task, usize)>)
    requires
        i <= s@.len(),
    ensures
        r is None ==> parse_task(s@, i as int) is None,
        r matches Some(p) ==> parse_task(s@, i as int) == Some((p.0@, p.1 as int)) && i < p.1
            <= s@.len(),
{
    let (created, i1) = match parse_text_exec(s, i) {
        None => {
            return None;
        },
        Some(x) => x,
    };
    let (dur, i2) = match parse_num_exec(s, i1) {
        None => {
            return None;
        },
        Some(x) => x,
    };
    let (title, i3) = match parse_text_exec(s, i2) {
        None => {
            return None;
        },
        Some(x) => x,
    };
    let (description, i4) = match parse_text_exec(s, i3) {
        None => {
            return None;
        },
        Some(x) => x,
    };
    let (code, i5) = match parse_num_exec(s, i4) {
        None => {
            return None;
        },
        Some(x) => x,
    };
    let status = match status_of_code(code) {
        None => {
            return None;
        },
        Some(st) => st,
    };
    let t = Task { created, duration_secs: dur, title, description, status };
    proof {
        assert(parse_task(s@, i as int) matches Some(p) && p.0 =~= t@ && p.1 == i5 as int);
    }
    Some((t, i5))
}

/// Reads a whole persisted form back into a store. Yields the store
/// whose model the text encodes, and nothing on any text that is not
/// exactly such an encoding.
pub fn decode_store(s: &str) -> (r: Option<TaskStore>)
    ensures
        r is None ==> spec_decode(s@) is None,
        r matches Some(st) ==> spec_decode(s@) == Some(st@),
{
    let chars = str_to_chars(s);
    let (k, i0) = match parse_num_exec(&chars, 0) {
        None => {
            return None;
        },
        Some(x) => x,
    };
    let mut store = TaskStore::new();
    let mut cur = i0;
    let mut m: u64 = 0;
    while m < k
        invariant
            chars@ == s@,
            m <= k,
            cur <= s@.len(),
            parse_num(s@, 0) == Some((k as nat, i0 as int)),
            parse_tasks(s@, i0 as int, k as nat) == (match parse_tasks(
                s@,
                cur as int,
                (k - m) as nat,
            ) {
                None => None::<(Seq<TaskView>, int)>,
                Some(p) => Some((store@ + p.0, p.1)),
            }),
        decreases k - m,
    {
        let ghost pre = store@;
        let (t, j) = match parse_task_exec(&chars, cur) {
            None => {
                return None;
            },
            Some(x) => x,
        };
        store.append(t);
        proof {
            match parse_tasks(s@, j as int, (k - m - 1) as nat) {
                Some(p) => {
                    assert(pre.push(t@) + p.0 =~= pre + (seq![t@] + p.0));
                },
                None => {},
            }
        }
        cur = j;
        m = m + 1;
    }
    proof {
        assert(parse_tasks(s@, cur as int, 0) == Some((Seq::<TaskView>::empty(), cur as int)));
        assert(store@ + Seq::<TaskView>::empty() =~= store@);
    }
    if cur != chars.len() {
        return None;
    }
    Some(store)
}

/// How loading a persisted file can fail: the file was there but its
/// content is not an encoding of a store.
#[derive(Clone, Copy, Debug, PartialEq, Eq, Structural)]
pub enum LoadError {
    Malformed,
}

/// Builds the store a run starts from. An absent file (`None`) is the
/// first-run case and yields an empty store, never an error; a present
/// file must hold an exact encoding, and anything else is refused so
/// that corrupt data is never silently overwritten.
pub fn load_store(content: Option<&str>) -> (r: Result<TaskStore, LoadError>)
    ensures
        content is None ==> (r matches Ok(st) && st@ == Seq::<TaskView>::empty()),
        content matches Some(text) ==> match spec_decode(text@) {
            None => r == Err::<TaskStore, LoadError>(LoadError::Malformed),
            Some(ts) => r matches Ok(st) && st@ == ts,
        },
{
    match content {
        None => Ok(TaskStore::new()),
        Some(text) => match decode_store(text) {
            None => Err(LoadError::Malformed),
            Some(st) => Ok(st),
        },
    }
}

} // verus!
