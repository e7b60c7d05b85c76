//! The round-trip law: the persisted text the writer produces is read back
//! to exactly the store it came from.

use vstd::prelude::*;
use crate::digits::{
    dec_digits, is_digit, dval, val_of, lemma_dec_digits_shape, lemma_val_of_dec_digits,
    lemma_digit_char_val,
};
use crate::store::{Task, TodoList};
use crate::codec::{
    list_model, models, task_model, esc, esc_char, hex_char, ser_task, ser_more, ser_tasks,
    ser_list, lit_open, lit_id, lit_desc, lit_completed, lit_next, lit_true, lit_false,
};
use crate::parse::{
    sp_lit, sp_char, pn_loop, sp_nat, sp_string_body, sp_bool, sp_task, sp_tasks_ne, sp_tasks,
    sp_list, unesc1, is_hex, hval, is_ws, ws_len, skip_ws, tok_tasks, tok_id, tok_desc,
    tok_completed, tok_next,
};

verus! {

/// Ten to the power `k`.
pub open spec fn pow10(k: nat) -> nat
    decreases k,
{
    if k == 0 {
        1
    } else {
        10 * pow10((k - 1) as nat)
    }
}

proof fn lemma_pow10_pos(k: nat)
    ensures
        pow10(k) >= 1,
    decreases k,
{
    if k > 0 {
        lemma_pow10_pos((k - 1) as nat);
    }
}

/// A known stretch of `s` can be read off piecewise.
proof fn lemma_subrange_nested(s: Seq<char>, i: int, t: Seq<char>, p: int, q: int)
    requires
        0 <= i,
        i + t.len() <= s.len(),
        s.subrange(i, i + t.len()) == t,
        0 <= p <= q <= t.len(),
    ensures
        s.subrange(i + p, i + q) == t.subrange(p, q),
{
    assert forall|k: int| 0 <= k < q - p implies s.subrange(i + p, i + q)[k] == t.subrange(p, q)[
        k
    ] by {
        assert(s.subrange(i, i + t.len())[p + k] == s[i + p + k]);
    }
    assert(s.subrange(i + p, i + q) =~= t.subrange(p, q));
}

/// A known stretch of `s` fixes the characters inside it.
proof fn lemma_subrange_index(s: Seq<char>, i: int, t: Seq<char>, k: int)
    requires
        0 <= i,
        i + t.len() <= s.len(),
        s.subrange(i, i + t.len()) == t,
        0 <= k < t.len(),
    ensures
        s[i + k] == t[k],
{
    assert(s.subrange(i, i + t.len())[k] == s[i + k]);
}

/// Splitting a decimal value off at its most significant digit.
proof fn lemma_val_of_first(d: Seq<char>)
    requires
        d.len() >= 1,
    ensures
        val_of(d) == dval(d[0]) * pow10((d.len() - 1) as nat) + val_of(d.skip(1)),
    decreases d.len(),
{
    vstd::arithmetic::mul::lemma_mul_nonnegative(
        dval(d[0]) as int,
        pow10((d.len() - 1) as nat) as int,
    );
    if d.len() == 1 {
        assert(d.drop_last() =~= Seq::<char>::empty());
        assert(d.skip(1) =~= Seq::<char>::empty());
        assert(val_of(Seq::<char>::empty()) == 0);
        assert(pow10(0) == 1);
        vstd::arithmetic::mul::lemma_mul_basics(dval(d[0]) as int);
        assert(d[0] == d.last());
    } else {
        let dd = d.drop_last();
        lemma_val_of_first(dd);
        assert(d.skip(1).len() >= 1);
        assert(d.skip(1).drop_last() =~= dd.skip(1));
        assert(d.skip(1).last() == d.last());
        assert(dd[0] == d[0]);
        let a = dval(d[0]);
        let q = pow10((d.len() - 2) as nat);
        assert(pow10((d.len() - 1) as nat) == 10 * q);
        assert((a * q) * 10 == a * (10 * q)) by (nonlinear_arith);
        assert(val_of(d) == val_of(dd) * 10 + dval(d.last()));
        assert(val_of(d.skip(1)) == val_of(dd.skip(1)) * 10 + dval(d.last()));
        assert((a * q + val_of(dd.skip(1))) * 10 == (a * q) * 10 + val_of(dd.skip(1)) * 10)
            by (nonlinear_arith);
    }
}

/// Reading a stretch of digits folds them into the accumulator.
proof fn lemma_pn_loop_digits(s: Seq<char>, i: int, d: Seq<char>, acc: nat)
    requires
        0 <= i,
        i + d.len() <= s.len(),
        s.subrange(i, i + d.len()) == d,
        forall|k: int| 0 <= k < d.len() ==> is_digit(#[trigger] d[k]),
        i + d.len() == s.len() || !is_digit(s[i + d.len()]),
        acc * pow10(d.len()) + val_of(d) <= usize::MAX,
    ensures
        pn_loop(s, i, acc) == Some(
            ((acc * pow10(d.len()) + val_of(d)) as nat, i + d.len()),
        ),
    decreases d.len(),
{
    vstd::arithmetic::mul::lemma_mul_nonnegative(acc as int, pow10(d.len()) as int);
    if d.len() == 0 {
        assert(val_of(d) == 0);
        assert(pow10(0) == 1);
        vstd::arithmetic::mul::lemma_mul_basics(acc as int);
        if i < s.len() {
            assert(!is_digit(s[i]));
        }
    } else {
        lemma_subrange_index(s, i, d, 0);
        assert(is_digit(s[i]));
        let a2 = (acc * 10 + dval(d[0])) as nat;
        let p = pow10((d.len() - 1) as nat);
        let v = val_of(d.skip(1));
        lemma_val_of_first(d);
        lemma_pow10_pos((d.len() - 1) as nat);
        assert(pow10(d.len()) == 10 * p);
        assert(acc * (10 * p) == (acc * 10) * p) by (nonlinear_arith);
        assert((acc * 10) * p + dval(d[0]) * p == (acc * 10 + dval(d[0])) * p)
            by (nonlinear_arith);
        vstd::arithmetic::mul::lemma_mul_nonnegative(a2 as int, p as int);
        assert(a2 * p + v == acc * pow10(d.len()) + val_of(d));
        assert(a2 * p >= a2) by (nonlinear_arith)
            requires
                p >= 1,
                a2 >= 0,
        ;
        assert(a2 <= usize::MAX);
        lemma_subrange_nested(s, i, d, 1, d.len() as int);
        assert(s.subrange(i + 1, i + d.len()) == d.subrange(1, d.len() as int));
        assert(d.subrange(1, d.len() as int) =~= d.skip(1));
        assert forall|k: int| 0 <= k < d.skip(1).len() implies is_digit(#[trigger] d.skip(1)[k])
            by {
            assert(d.skip(1)[k] == d[k + 1]);
        }
        lemma_pn_loop_digits(s, i + 1, d.skip(1), a2);
    }
}

/// Reading back the decimal rendering of `n` yields `n`.
proof fn lemma_sp_nat_at(s: Seq<char>, i: int, n: nat)
    requires
        0 <= i,
        n <= usize::MAX,
        i + dec_digits(n).len() <= s.len(),
        s.subrange(i, i + dec_digits(n).len()) == dec_digits(n),
        i + dec_digits(n).len() == s.len() || !is_digit(s[i + dec_digits(n).len()]),
    ensures
        sp_nat(s, i) == Some((n, i + dec_digits(n).len())),
{
    lemma_dec_digits_shape(n);
    lemma_val_of_dec_digits(n);
    lemma_subrange_index(s, i, dec_digits(n), 0);
    assert(is_digit(s[i]));
    lemma_pow10_pos(dec_digits(n).len() as nat);
    assert(0 * pow10(dec_digits(n).len() as nat) == 0) by (nonlinear_arith);
    lemma_pn_loop_digits(s, i, dec_digits(n), 0);
}

/// Reading back the escaped form of `d`, up to the closing quote, yields `d`.
proof fn lemma_sp_string_at(s: Seq<char>, i: int, d: Seq<char>)
    requires
        0 <= i,
        i + esc(d).len() < s.len(),
        s.subrange(i, i + esc(d).len()) == esc(d),
        s[i + esc(d).len()] == '"',
    ensures
        sp_string_body(s, i) == Some((d, i + esc(d).len() + 1)),
    decreases d.len(),
{
    if d.len() == 0 {
        assert(esc(d).len() == 0);
        assert(s[i] == '"');
    } else {
        let c = d[0];
        let e0 = esc_char(c);
        let tail = esc(d.skip(1));
        assert(esc(d) == e0 + tail);
        let l0 = e0.len() as int;
        lemma_subrange_nested(s, i, esc(d), 0, l0);
        assert(esc(d).subrange(0, l0) =~= e0);
        lemma_subrange_nested(s, i, esc(d), l0, esc(d).len() as int);
        assert(esc(d).subrange(l0, esc(d).len() as int) =~= tail);
        if c == '"' || c == '\\' || c == '\n' || c == '\r' || c == '\t' {
            lemma_subrange_index(s, i, esc(d), 0);
            lemma_subrange_index(s, i, esc(d), 1);
            assert(s[i] == '\\');
            assert(unesc1(s[i + 1]) == c);
            lemma_sp_string_at(s, i + 2, d.skip(1));
            assert(seq![c] + d.skip(1) =~= d);
        } else if (c as u32) < 32 {
            lemma_subrange_index(s, i, esc(d), 0);
            lemma_subrange_index(s, i, esc(d), 1);
            lemma_subrange_index(s, i, esc(d), 2);
            lemma_subrange_index(s, i, esc(d), 3);
            lemma_subrange_index(s, i, esc(d), 4);
            lemma_subrange_index(s, i, esc(d), 5);
            assert(s[i] == '\\');
            assert(s[i + 1] == 'u');
            assert(s[i + 2] == '0');
            assert(s[i + 3] == '0');
            let hi = (c as u32 / 16) as nat;
            let lo = (c as u32 % 16) as nat;
            lemma_hex_char_val_local(hi);
            lemma_hex_char_val_local(lo);
            assert(s[i + 4] == hex_char(hi));
            assert(s[i + 5] == hex_char(lo));
            let code = hval(s[i + 4]) * 16 + hval(s[i + 5]);
            assert(code == c as u32);
            lemma_char_id(c);
            assert((code as u32) as char == c);
            lemma_sp_string_at(s, i + 6, d.skip(1));
            assert(seq![c] + d.skip(1) =~= d);
        } else {
            lemma_subrange_index(s, i, esc(d), 0);
            assert(e0 =~= seq![c]);
            assert(s[i] == c);
            lemma_sp_string_at(s, i + 1, d.skip(1));
            assert(seq![c] + d.skip(1) =~= d);
        }
    }
}

/// A character code below the surrogate range casts back to the same
/// character.
proof fn lemma_char_id(c: char)
    requires
        (c as u32) < 32,
    ensures
        ((c as u32) as char) == c,
{
}

/// The hexadecimal digit characters carry their values.
proof fn lemma_hex_char_val_local(k: nat)
    requires
        k < 16,
    ensures
        is_hex(hex_char(k)),
        hval(hex_char(k)) == k,
{
    if k < 10 {
        lemma_digit_char_val(k);
    } else {
        assert(((87 + k) as u32) as char as u32 == 87 + k);
    }
}

/// Skipping whitespace at a non-whitespace position stays put.
proof fn lemma_skip_ws_noop(s: Seq<char>, i: int)
    requires
        i >= s.len() || !is_ws(s[i]),
    ensures
        skip_ws(s, i) == i,
{
    assert(ws_len(s, i) == 0);
}

/// A decimal digit is not whitespace.
proof fn lemma_digit_not_ws(c: char)
    requires
        is_digit(c),
    ensures
        !is_ws(c),
{
    if c == ' ' {
        assert(c as u32 == 32);
    }
    if c == '\t' {
        assert(c as u32 == 9);
    }
    if c == '\n' {
        assert(c as u32 == 10);
    }
    if c == '\r' {
        assert(c as u32 == 13);
    }
}

/// Reading back the serialized form of one task yields its content.
#[verifier::rlimit(100)]
proof fn lemma_sp_task_at(s: Seq<char>, i: int, t: Task)
    requires
        0 <= i,
        i + ser_task(t).len() <= s.len(),
        s.subrange(i, i + ser_task(t).len()) == ser_task(t),
    ensures
        sp_task(s, i) == Some((task_model(t), i + ser_task(t).len())),
{
    reveal(sp_task);
    let total = ser_task(t);
    let bdig = dec_digits(t.id as nat);
    let besc = esc(t.description@);
    let gbool = if t.completed {
        lit_true()
    } else {
        lit_false()
    };
    let o1 = 6int;
    let o2 = o1 + bdig.len();
    let o3 = o2 + 16;
    let o4 = o3 + besc.len();
    let o5 = o4 + 1;
    let o6 = o5 + 13;
    let o7 = o6 + gbool.len();
    let o8 = o7 + 1;
    assert(total.len() == o8);
    assert(total.subrange(0, o1) =~= lit_id());
    assert(total.subrange(o1, o2) =~= bdig);
    assert(total.subrange(o2, o3) =~= lit_desc());
    assert(total.subrange(o3, o4) =~= besc);
    assert(total.subrange(o4, o5) =~= seq!['"']);
    assert(total.subrange(o5, o6) =~= lit_completed());
    assert(total.subrange(o6, o7) =~= gbool);
    assert(total.subrange(o7, o8) =~= seq!['}']);
    lemma_subrange_nested(s, i, total, 0, o1);
    lemma_subrange_nested(s, i, total, o1, o2);
    lemma_subrange_nested(s, i, total, o2, o3);
    lemma_subrange_nested(s, i, total, o3, o4);
    lemma_subrange_nested(s, i, total, o4, o5);
    lemma_subrange_nested(s, i, total, o5, o6);
    lemma_subrange_nested(s, i, total, o6, o7);
    // the id field: "{", then "id", a colon, and the digits
    lemma_subrange_index(s, i, total, 0);
    assert(s[i] == '{');
    assert(sp_char(s, i, '{') == Some(i + 1));
    lemma_subrange_index(s, i, total, 1);
    assert(s[i + 1] == '"');
    lemma_skip_ws_noop(s, i + 1);
    lemma_subrange_nested(s, i, total, 1, 5);
    assert(total.subrange(1, 5) =~= tok_id());
    assert(sp_lit(s, i + 1, tok_id()) == Some(i + 5));
    lemma_subrange_index(s, i, total, 5);
    assert(s[i + 5] == ':');
    lemma_skip_ws_noop(s, i + 5);
    assert(sp_char(s, i + 5, ':') == Some(i + o1));
    lemma_dec_digits_shape(t.id as nat);
    lemma_subrange_index(s, i + o1, bdig, 0);
    lemma_digit_not_ws(s[i + o1]);
    lemma_skip_ws_noop(s, i + o1);
    lemma_subrange_index(s, i + o2, lit_desc(), 0);
    assert(s[i + o2] == ',');
    assert(!is_digit(','));
    lemma_sp_nat_at(s, i + o1, t.id as nat);
    // the description field: a comma, "description", a colon, the quoted body
    lemma_skip_ws_noop(s, i + o2);
    assert(sp_char(s, i + o2, ',') == Some(i + o2 + 1));
    lemma_subrange_index(s, i + o2, lit_desc(), 1);
    assert(s[i + o2 + 1] == '"');
    lemma_skip_ws_noop(s, i + o2 + 1);
    lemma_subrange_nested(s, i + o2, lit_desc(), 1, 14);
    assert(lit_desc().subrange(1, 14) =~= tok_desc());
    assert(sp_lit(s, i + o2 + 1, tok_desc()) == Some(i + o2 + 14));
    lemma_subrange_index(s, i + o2, lit_desc(), 14);
    assert(s[i + o2 + 14] == ':');
    lemma_skip_ws_noop(s, i + o2 + 14);
    assert(sp_char(s, i + o2 + 14, ':') == Some(i + o2 + 15));
    lemma_subrange_index(s, i + o2, lit_desc(), 15);
    assert(s[i + o2 + 15] == '"');
    lemma_skip_ws_noop(s, i + o2 + 15);
    assert(sp_char(s, i + o2 + 15, '"') == Some(i + o3));
    lemma_subrange_index(s, i + o4, seq!['"'], 0);
    assert(s[i + o4] == '"');
    lemma_sp_string_at(s, i + o3, t.description@);
    // the completed field: a comma, "completed", a colon, the flag
    lemma_subrange_index(s, i + o5, lit_completed(), 0);
    assert(s[i + o5] == ',');
    lemma_skip_ws_noop(s, i + o5);
    assert(sp_char(s, i + o5, ',') == Some(i + o5 + 1));
    lemma_subrange_index(s, i + o5, lit_completed(), 1);
    assert(s[i + o5 + 1] == '"');
    lemma_skip_ws_noop(s, i + o5 + 1);
    lemma_subrange_nested(s, i + o5, lit_completed(), 1, 12);
    assert(lit_completed().subrange(1, 12) =~= tok_completed());
    assert(sp_lit(s, i + o5 + 1, tok_completed()) == Some(i + o5 + 12));
    lemma_subrange_index(s, i + o5, lit_completed(), 12);
    assert(s[i + o5 + 12] == ':');
    lemma_skip_ws_noop(s, i + o5 + 12);
    assert(sp_char(s, i + o5 + 12, ':') == Some(i + o6));
    lemma_subrange_index(s, i + o6, gbool, 0);
    lemma_skip_ws_noop(s, i + o6);
    if t.completed {
        assert(sp_lit(s, i + o6, lit_true()) == Some(i + o6 + 4));
        assert(sp_bool(s, i + o6) == Some((true, i + o7)));
    } else {
        assert(s[i + o6] == 'f');
        if sp_lit(s, i + o6, lit_true()) is Some {
            assert(s.subrange(i + o6, i + o6 + 4) == lit_true());
            assert(s.subrange(i + o6, i + o6 + 4)[0] == s[i + o6]);
            assert(false);
        }
        assert(sp_lit(s, i + o6, lit_false()) == Some(i + o6 + 5));
        assert(sp_bool(s, i + o6) == Some((false, i + o7)));
    }
    // the closing brace
    lemma_subrange_index(s, i, total, o7);
    assert(s[i + o7] == '}');
    lemma_skip_ws_noop(s, i + o7);
    assert(sp_char(s, i + o7, '}') == Some(i + o8));
}

/// Reading back a non-empty serialized task list, with its closing bracket,
/// yields the tasks' contents.
#[verifier::rlimit(100)]
proof fn lemma_sp_tasks_ne_at(s: Seq<char>, i: int, ts: Seq<Task>)
    requires
        ts.len() >= 1,
        0 <= i,
        i + ser_tasks(ts).len() < s.len(),
        s.subrange(i, i + ser_tasks(ts).len()) == ser_tasks(ts),
        s[i + ser_tasks(ts).len()] == ']',
    ensures
        sp_tasks_ne(s, i) == Some((models(ts), i + ser_tasks(ts).len() + 1)),
    decreases ts.len(),
{
    let t0 = ts[0];
    let head = ser_task(t0);
    let more = ser_more(ts.skip(1));
    assert(ser_tasks(ts) == head + more);
    lemma_subrange_nested(s, i, ser_tasks(ts), 0, head.len() as int);
    assert(ser_tasks(ts).subrange(0, head.len() as int) =~= head);
    lemma_sp_task_at(s, i, t0);
    let j = i + head.len();
    if ts.len() == 1 {
        assert(ts.skip(1) =~= Seq::<Task>::empty());
        assert(more =~= Seq::<char>::empty());
        assert(j == i + ser_tasks(ts).len());
        assert(s[j] == ']');
        lemma_skip_ws_noop(s, j);
        assert(models(ts) =~= seq![task_model(t0)]);
    } else {
        assert(ts.skip(1).len() >= 1);
        let rest = ser_tasks(ts.skip(1));
        assert(ser_tasks(ts.skip(1)) == ser_task(ts.skip(1)[0]) + ser_more(ts.skip(1).skip(1)));
        assert(more =~= seq![','] + rest);
        assert(ser_tasks(ts) =~= head + seq![','] + rest);
        lemma_subrange_index(s, i, ser_tasks(ts), head.len() as int);
        assert(s[j] == ',');
        lemma_skip_ws_noop(s, j);
        lemma_subrange_nested(s, i, ser_tasks(ts), head.len() as int + 1, ser_tasks(ts).len() as int);
        assert(ser_tasks(ts).subrange(head.len() as int + 1, ser_tasks(ts).len() as int) =~= rest);
        assert(s.subrange(j + 1, j + 1 + rest.len()) == rest);
        lemma_subrange_index(s, j + 1, rest, 0);
        assert(rest[0] == ser_task(ts.skip(1)[0])[0]);
        assert(ser_task(ts.skip(1)[0])[0] == lit_id()[0]);
        assert(s[j + 1] == '{');
        lemma_skip_ws_noop(s, j + 1);
        assert(s[j + 1 + rest.len()] == ']');
        lemma_sp_tasks_ne_at(s, j + 1, ts.skip(1));
        assert(seq![task_model(t0)] + models(ts.skip(1)) =~= models(ts));
    }
}

/// The serialized store splits into its six stretches.
proof fn lemma_ser_list_parts(l: TodoList)
    ensures
        ser_list(l).len() == 10 + ser_tasks(l.tasks@).len() + 1 + 11 + dec_digits(
            l.next_id as nat,
        ).len() + 1,
        ser_list(l).subrange(0, 10int) == lit_open(),
        ser_list(l).subrange(10, 10int + ser_tasks(l.tasks@).len()) == ser_tasks(l.tasks@),
        ser_list(l).subrange(
            10int + ser_tasks(l.tasks@).len(),
            11int + ser_tasks(l.tasks@).len(),
        ) == seq![']'],
        ser_list(l).subrange(
            11int + ser_tasks(l.tasks@).len(),
            22int + ser_tasks(l.tasks@).len(),
        ) == lit_next(),
        ser_list(l).subrange(
            22int + ser_tasks(l.tasks@).len(),
            22int + ser_tasks(l.tasks@).len() + dec_digits(l.next_id as nat).len(),
        ) == dec_digits(l.next_id as nat),
        ser_list(l).subrange(
            22int + ser_tasks(l.tasks@).len() + dec_digits(l.next_id as nat).len(),
            23int + ser_tasks(l.tasks@).len() + dec_digits(l.next_id as nat).len(),
        ) == seq!['}'],
{
    let s = ser_list(l);
    let tb = ser_tasks(l.tasks@);
    let nd = dec_digits(l.next_id as nat);
    let o1 = 10int;
    let o2 = o1 + tb.len();
    let o3 = o2 + 1;
    let o4 = o3 + 11;
    let o5 = o4 + nd.len();
    let o6 = o5 + 1;
    assert(s.subrange(0, o1) =~= lit_open());
    assert(s.subrange(o1, o2) =~= tb);
    assert(s.subrange(o2, o3) =~= seq![']']);
    assert(s.subrange(o3, o4) =~= lit_next());
    assert(s.subrange(o4, o5) =~= nd);
    assert(s.subrange(o5, o6) =~= seq!['}']);
}

/// Reading back the task array inside the serialized store yields the
/// tasks' contents.
#[verifier::rlimit(100)]
proof fn lemma_list_tasks_part(l: TodoList)
    ensures
        sp_tasks(ser_list(l), 10) == Some(
            (models(l.tasks@), 11int + ser_tasks(l.tasks@).len()),
        ),
{
    let s = ser_list(l);
    let tb = ser_tasks(l.tasks@);
    let o1 = 10int;
    let o2 = o1 + tb.len();
    lemma_ser_list_parts(l);
    if l.tasks@.len() == 0 {
        assert(tb =~= Seq::<char>::empty());
        lemma_subrange_index(s, o2, seq![']'], 0);
        assert(s[o1] == ']');
        lemma_skip_ws_noop(s, o1);
        assert(sp_tasks(s, o1) == Some((Seq::<crate::codec::TaskModel>::empty(), o2 + 1)));
        assert(models(l.tasks@) =~= Seq::<crate::codec::TaskModel>::empty());
    } else {
        assert(tb == ser_task(l.tasks@[0]) + ser_more(l.tasks@.skip(1)));
        assert(tb[0] == ser_task(l.tasks@[0])[0]);
        assert(ser_task(l.tasks@[0])[0] == lit_id()[0]);
        lemma_subrange_index(s, o1, tb, 0);
        assert(s[o1] == '{');
        lemma_skip_ws_noop(s, o1);
        lemma_subrange_index(s, o2, seq![']'], 0);
        assert(s[o2] == ']');
        lemma_sp_tasks_ne_at(s, o1, l.tasks@);
        assert(sp_tasks(s, o1) == Some((models(l.tasks@), o2 + 1)));
    }
}

/// The law of persistence: writing any store and reading the text back
/// restores exactly the same tasks — same order, ids, descriptions and
/// completion flags — and the same counter.
#[verifier::rlimit(100)]
pub proof fn lemma_save_load_round_trip(l: TodoList)
    ensures
        sp_list(ser_list(l)) == Some(list_model(l)),
{
    let s = ser_list(l);
    let tb = ser_tasks(l.tasks@);
    let nd = dec_digits(l.next_id as nat);
    let o1 = 10int;
    let o2 = o1 + tb.len();
    let o3 = o2 + 1;
    let o4 = o3 + 11;
    let o5 = o4 + nd.len();
    let o6 = o5 + 1;
    lemma_ser_list_parts(l);
    assert(s.len() == o6);
    // the opening brace and the "tasks" field up to "["
    lemma_subrange_index(s, 0, lit_open(), 0);
    assert(s[0] == '{');
    lemma_skip_ws_noop(s, 0);
    assert(sp_char(s, 0, '{') == Some(1int));
    lemma_subrange_index(s, 0, lit_open(), 1);
    assert(s[1] == '"');
    lemma_skip_ws_noop(s, 1);
    lemma_subrange_nested(s, 0, lit_open(), 1, 8);
    assert(lit_open().subrange(1, 8) =~= tok_tasks());
    assert(sp_lit(s, 1, tok_tasks()) == Some(8int));
    lemma_subrange_index(s, 0, lit_open(), 8);
    assert(s[8] == ':');
    lemma_skip_ws_noop(s, 8);
    assert(sp_char(s, 8, ':') == Some(9int));
    lemma_subrange_index(s, 0, lit_open(), 9);
    assert(s[9] == '[');
    lemma_skip_ws_noop(s, 9);
    assert(sp_char(s, 9, '[') == Some(o1));
    // the task array
    lemma_list_tasks_part(l);
    assert(sp_tasks(s, o1) == Some((models(l.tasks@), o3)));
    // the "next_id" field and the closing brace
    lemma_subrange_index(s, o3, lit_next(), 0);
    assert(s[o3] == ',');
    lemma_skip_ws_noop(s, o3);
    assert(sp_char(s, o3, ',') == Some(o3 + 1));
    lemma_subrange_index(s, o3, lit_next(), 1);
    assert(s[o3 + 1] == '"');
    lemma_skip_ws_noop(s, o3 + 1);
    lemma_subrange_nested(s, o3, lit_next(), 1, 10);
    assert(lit_next().subrange(1, 10) =~= tok_next());
    assert(sp_lit(s, o3 + 1, tok_next()) == Some(o3 + 10));
    lemma_subrange_index(s, o3, lit_next(), 10);
    assert(s[o3 + 10] == ':');
    lemma_skip_ws_noop(s, o3 + 10);
    assert(sp_char(s, o3 + 10, ':') == Some(o4));
    lemma_dec_digits_shape(l.next_id as nat);
    lemma_subrange_index(s, o4, nd, 0);
    lemma_digit_not_ws(s[o4]);
    lemma_skip_ws_noop(s, o4);
    lemma_subrange_index(s, o5, seq!['}'], 0);
    assert(s[o5] == '}');
    assert(!is_digit('}'));
    lemma_sp_nat_at(s, o4, l.next_id as nat);
    lemma_skip_ws_noop(s, o5);
    assert(sp_char(s, o5, '}') == Some(o6));
    lemma_skip_ws_noop(s, o6);
    assert(skip_ws(s, o6) == s.len());
    assert(sp_list(s) == Some(list_model(l)));
}

} // verus!
