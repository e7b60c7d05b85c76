//! The reader for the persisted form: a mathematical parser that fixes the
//! accepted text exactly, an executable parser proved to agree with it, and
//! the load step that falls back to a fresh store when no usable state is
//! found.

use vstd::prelude::*;
use crate::digits::{is_digit, dval};
use crate::store::{Task, TodoList};
use crate::text::{chars_vec, string_from_chars};
use crate::codec::{
    TaskModel, ListModel, task_model, models, list_model, lit_true, lit_false,
};

verus! {

/// Whether `c` is insignificant whitespace between tokens.
pub open spec fn is_ws(c: char) -> bool {
    c == ' ' || c == '\t' || c == '\n' || c == '\r'
}

/// The number of whitespace characters standing at position `i`.
pub open spec fn ws_len(s: Seq<char>, i: int) -> nat
    decreases s.len() - i,
{
    if 0 <= i < s.len() && is_ws(s[i]) {
        1 + ws_len(s, i + 1)
    } else {
        0
    }
}

/// The position of the next non-whitespace character at or after `i`.
pub open spec fn skip_ws(s: Seq<char>, i: int) -> int {
    i + ws_len(s, i)
}

/// Recognizes the single character `c` at position `i`.
pub open spec fn sp_char(s: Seq<char>, i: int, c: char) -> Option<int> {
    if 0 <= i < s.len() && s[i] == c {
        Some(i + 1)
    } else {
        None
    }
}

// The quoted field-name tokens of the persisted form.

pub open spec fn tok_tasks() -> Seq<char> {
    seq!['"', 't', 'a', 's', 'k', 's', '"']
}

pub open spec fn tok_id() -> Seq<char> {
    seq!['"', 'i', 'd', '"']
}

pub open spec fn tok_desc() -> Seq<char> {
    seq!['"', 'd', 'e', 's', 'c', 'r', 'i', 'p', 't', 'i', 'o', 'n', '"']
}

pub open spec fn tok_completed() -> Seq<char> {
    seq!['"', 'c', 'o', 'm', 'p', 'l', 'e', 't', 'e', 'd', '"']
}

pub open spec fn tok_next() -> Seq<char> {
    seq!['"', 'n', 'e', 'x', 't', '_', 'i', 'd', '"']
}

/// Recognizes the fixed token `lit` at position `i`.
pub open spec fn sp_lit(s: Seq<char>, i: int, lit: Seq<char>) -> Option<int> {
    if 0 <= i && i + lit.len() <= s.len() && s.subrange(i, i + lit.len()) == lit {
        Some(i + lit.len())
    } else {
        None
    }
}

/// Consumes decimal digits, folding them into `acc`; stops at the first
/// non-digit. A value that would not fit a machine word is rejected.
pub open spec fn pn_loop(s: Seq<char>, i: int, acc: nat) -> Option<(nat, int)>
    decreases s.len() - i,
{
    if 0 <= i < s.len() && is_digit(s[i]) {
        if acc * 10 + dval(s[i]) > usize::MAX {
            None
        } else {
            pn_loop(s, i + 1, (acc * 10 + dval(s[i])) as nat)
        }
    } else {
        Some((acc, i))
    }
}

/// Reads a decimal number: at least one digit, greedily consumed.
pub open spec fn sp_nat(s: Seq<char>, i: int) -> Option<(nat, int)> {
    if 0 <= i < s.len() && is_digit(s[i]) {
        pn_loop(s, i, 0)
    } else {
        None
    }
}

/// The character a simple two-character escape stands for.
pub open spec fn unesc1(e: char) -> char {
    if e == 'n' {
        '\n'
    } else if e == 'r' {
        '\r'
    } else if e == 't' {
        '\t'
    } else {
        e
    }
}

/// Whether `c` is a lower-case hexadecimal digit.
pub open spec fn is_hex(c: char) -> bool {
    is_digit(c) || 97 <= c as u32 <= 102
}

/// The numeric value of a lower-case hexadecimal digit.
pub open spec fn hval(c: char) -> nat {
    if is_digit(c) {
        dval(c)
    } else {
        (c as u32 - 87) as nat
    }
}

/// Reads a string body up to and including its closing quote, undoing the
/// writer's escapes.
pub open spec fn sp_string_body(s: Seq<char>, i: int) -> Option<(Seq<char>, int)>
    decreases s.len() - i,
{
    if !(0 <= i < s.len()) {
        None
    } else if s[i] == '"' {
        Some((Seq::empty(), i + 1))
    } else if s[i] == '\\' {
        if i + 1 < s.len() && (s[i + 1] == '"' || s[i + 1] == '\\' || s[i + 1] == 'n' || s[i + 1]
            == 'r' || s[i + 1] == 't') {
            match sp_string_body(s, i + 2) {
                Some(p) => Some((seq![unesc1(s[i + 1])] + p.0, p.1)),
                None => None,
            }
        } else if i + 5 < s.len() && s[i + 1] == 'u' && s[i + 2] == '0' && s[i + 3] == '0'
            && is_hex(s[i + 4]) && is_hex(s[i + 5]) {
            match sp_string_body(s, i + 6) {
                Some(p) => Some(
                    (seq![(((hval(s[i + 4]) * 16 + hval(s[i + 5])) as u32) as char)] + p.0, p.1),
                ),
                None => None,
            }
        } else {
            None
        }
    } else {
        match sp_string_body(s, i + 1) {
            Some(p) => Some((seq![s[i]] + p.0, p.1)),
            None => None,
        }
    }
}

/// Reads `true` or `false`.
pub open spec fn sp_bool(s: Seq<char>, i: int) -> Option<(bool, int)> {
    if sp_lit(s, i, lit_true()) is Some {
        Some((true, i + 4))
    } else if sp_lit(s, i, lit_false()) is Some {
        Some((false, i + 5))
    } else {
        None
    }
}

/// Reads one task object, whitespace admitted between tokens: an opening
/// brace, the id field, the description field, the completed field, a
/// closing brace.
#[verifier::opaque]
pub open spec fn sp_task(s: Seq<char>, i: int) -> Option<(TaskModel, int)> {
    match sp_char(s, i, '{') {
        None => None,
        Some(j1) => match sp_lit(s, skip_ws(s, j1), tok_id()) {
            None => None,
            Some(j2) => match sp_char(s, skip_ws(s, j2), ':') {
                None => None,
                Some(j3) => match sp_nat(s, skip_ws(s, j3)) {
                    None => None,
                    Some((n, j4)) => match sp_char(s, skip_ws(s, j4), ',') {
                        None => None,
                        Some(j5) => match sp_lit(s, skip_ws(s, j5), tok_desc()) {
                            None => None,
                            Some(j6) => match sp_char(s, skip_ws(s, j6), ':') {
                                None => None,
                                Some(j7) => match sp_char(s, skip_ws(s, j7), '"') {
                                    None => None,
                                    Some(j8) => match sp_string_body(s, j8) {
                                        None => None,
                                        Some((d, j9)) => match sp_char(s, skip_ws(s, j9), ',') {
                                            None => None,
                                            Some(j10) => match sp_lit(
                                                s,
                                                skip_ws(s, j10),
                                                tok_completed(),
                                            ) {
                                                None => None,
                                                Some(j11) => match sp_char(
                                                    s,
                                                    skip_ws(s, j11),
                                                    ':',
                                                ) {
                                                    None => None,
                                                    Some(j12) => match sp_bool(
                                                        s,
                                                        skip_ws(s, j12),
                                                    ) {
                                                        None => None,
                                                        Some((b, j13)) => match sp_char(
                                                            s,
                                                            skip_ws(s, j13),
                                                            '}',
                                                        ) {
                                                            None => None,
                                                            Some(j14) => Some(
                                                                (
                                                                    TaskModel {
                                                                        id: n,
                                                                        description: d,
                                                                        completed: b,
                                                                    },
                                                                    j14,
                                                                ),
                                                            ),
                                                        },
                                                    },
                                                },
                                            },
                                        },
                                    },
                                },
                            },
                        },
                    },
                },
            },
        },
    }
}

/// Reads a non-empty task list up to and including the closing bracket,
/// whitespace admitted around the separators.
pub open spec fn sp_tasks_ne(s: Seq<char>, i: int) -> Option<(Seq<TaskModel>, int)>
    decreases s.len() - i,
{
    match sp_task(s, i) {
        None => None,
        Some((t, j)) => {
            let j2 = skip_ws(s, j);
            if i < j2 && j2 < s.len() && s[j2] == ',' {
                let j3 = skip_ws(s, j2 + 1);
                if i < j3 && j3 <= s.len() {
                    match sp_tasks_ne(s, j3) {
                        None => None,
                        Some((ts, k)) => Some((seq![t] + ts, k)),
                    }
                } else {
                    None
                }
            } else if j2 < s.len() && s[j2] == ']' {
                Some((seq![t], j2 + 1))
            } else {
                None
            }
        },
    }
}

/// Reads the task list up to and including the closing bracket.
pub open spec fn sp_tasks(s: Seq<char>, i: int) -> Option<(Seq<TaskModel>, int)> {
    let j = skip_ws(s, i);
    if 0 <= j < s.len() && s[j] == ']' {
        Some((Seq::empty(), j + 1))
    } else {
        sp_tasks_ne(s, j)
    }
}

/// Reads a whole store, whitespace admitted between tokens; the input must
/// hold nothing but the store.
pub open spec fn sp_list(s: Seq<char>) -> Option<ListModel> {
    match sp_char(s, skip_ws(s, 0), '{') {
        None => None,
        Some(j1) => match sp_lit(s, skip_ws(s, j1), tok_tasks()) {
            None => None,
            Some(j2) => match sp_char(s, skip_ws(s, j2), ':') {
                None => None,
                Some(j3) => match sp_char(s, skip_ws(s, j3), '[') {
                    None => None,
                    Some(j4) => match sp_tasks(s, j4) {
                        None => None,
                        Some((ts, j5)) => match sp_char(s, skip_ws(s, j5), ',') {
                            None => None,
                            Some(j6) => match sp_lit(s, skip_ws(s, j6), tok_next()) {
                                None => None,
                                Some(j7) => match sp_char(s, skip_ws(s, j7), ':') {
                                    None => None,
                                    Some(j8) => match sp_nat(s, skip_ws(s, j8)) {
                                        None => None,
                                        Some((n, j9)) => match sp_char(s, skip_ws(s, j9), '}') {
                                            None => None,
                                            Some(j10) => if skip_ws(s, j10) == s.len() {
                                                Some(ListModel { tasks: ts, next_id: n })
                                            } else {
                                                None
                                            },
                                        },
                                    },
                                },
                            },
                        },
                    },
                },
            },
        },
    }
}

// The executable parser, proved to agree with the mathematical one.

fn tok_tasks_vec() -> (r: Vec<char>)
    ensures
        r@ == tok_tasks(),
{
    let mut v: Vec<char> = Vec::new();
    v.push('"');
    v.push('t');
    v.push('a');
    v.push('s');
    v.push('k');
    v.push('s');
    v.push('"');
    proof {
        assert(v@ =~= tok_tasks());
    }
    v
}

fn tok_id_vec() -> (r: Vec<char>)
    ensures
        r@ == tok_id(),
{
    let mut v: Vec<char> = Vec::new();
    v.push('"');
    v.push('i');
    v.push('d');
    v.push('"');
    proof {
        assert(v@ =~= tok_id());
    }
    v
}

fn tok_desc_vec() -> (r: Vec<char>)
    ensures
        r@ == tok_desc(),
{
    let mut v: Vec<char> = Vec::new();
    v.push('"');
    v.push('d');
    v.push('e');
    v.push('s');
    v.push('c');
    v.push('r');
    v.push('i');
    v.push('p');
    v.push('t');
    v.push('i');
    v.push('o');
    v.push('n');
    v.push('"');
    proof {
        assert(v@ =~= tok_desc());
    }
    v
}

fn tok_completed_vec() -> (r: Vec<char>)
    ensures
        r@ == tok_completed(),
{
    let mut v: Vec<char> = Vec::new();
    v.push('"');
    v.push('c');
    v.push('o');
    v.push('m');
    v.push('p');
    v.push('l');
    v.push('e');
    v.push('t');
    v.push('e');
    v.push('d');
    v.push('"');
    proof {
        assert(v@ =~= tok_completed());
    }
    v
}

fn tok_next_vec() -> (r: Vec<char>)
    ensures
        r@ == tok_next(),
{
    let mut v: Vec<char> = Vec::new();
    v.push('"');
    v.push('n');
    v.push('e');
    v.push('x');
    v.push('t');
    v.push('_');
    v.push('i');
    v.push('d');
    v.push('"');
    proof {
        assert(v@ =~= tok_next());
    }
    v
}

fn ex_skip_ws(v: &Vec<char>, i: usize) -> (r: usize)
    requires
        i <= v@.len(),
    ensures
        r as int == skip_ws(v@, i as int),
        i <= r <= v@.len(),
    decreases v@.len() - i,
{
    if i < v.len() {
        let c = v[i];
        if c == ' ' || c == '\t' || c == '\n' || c == '\r' {
            return ex_skip_ws(v, i + 1);
        }
    }
    i
}

fn ex_char(v: &Vec<char>, i: usize, c: char) -> (r: Option<usize>)
    requires
        i <= v@.len(),
    ensures
        (match r {
            Some(j) => sp_char(v@, i as int, c) == Some(j as int) && j <= v@.len(),
            None => sp_char(v@, i as int, c) is None,
        }),
{
    if i < v.len() && v[i] == c {
        Some(i + 1)
    } else {
        None
    }
}

fn lit_true_vec() -> (r: Vec<char>)
    ensures
        r@ == lit_true(),
{
    let mut v: Vec<char> = Vec::new();
    v.push('t');
    v.push('r');
    v.push('u');
    v.push('e');
    proof {
        assert(v@ =~= lit_true());
    }
    v
}

fn lit_false_vec() -> (r: Vec<char>)
    ensures
        r@ == lit_false(),
{
    let mut v: Vec<char> = Vec::new();
    v.push('f');
    v.push('a');
    v.push('l');
    v.push('s');
    v.push('e');
    proof {
        assert(v@ =~= lit_false());
    }
    v
}

fn ex_lit(v: &Vec<char>, i: usize, lit: &Vec<char>) -> (r: Option<usize>)
    requires
        i <= v@.len(),
    ensures
        (match r {
            Some(j) => sp_lit(v@, i as int, lit@) == Some(j as int) && i <= j <= v@.len(),
            None => sp_lit(v@, i as int, lit@) is None,
        }),
{
    let m = lit.len();
    let n = v.len();
    if n - i < m {
        return None;
    }
    let mut j: usize = 0;
    while j < m
        invariant
            m == lit@.len(),
            n == v@.len(),
            i + m <= n,
            0 <= j <= m,
            forall|jj: int| 0 <= jj < j ==> v@[i + jj] == lit@[jj],
        decreases m - j,
    {
        if v[i + j] != lit[j] {
            proof {
                assert(v@.subrange(i as int, i + lit@.len())[j as int] == v@[i + j]);
            }
            return None;
        }
        j += 1;
    }
    proof {
        assert(v@.subrange(i as int, i + lit@.len()) =~= lit@);
    }
    Some(i + m)
}

fn ex_nat_loop(v: &Vec<char>, i: usize, acc: usize) -> (r: Option<(usize, usize)>)
    requires
        i <= v@.len(),
    ensures
        (match r {
            Some(p) => pn_loop(v@, i as int, acc as nat) == Some((p.0 as nat, p.1 as int)) && i
                <= p.1 <= v@.len(),
            None => pn_loop(v@, i as int, acc as nat) is None,
        }),
    decreases v@.len() - i,
{
    if i < v.len() {
        let u = v[i] as u32;
        if 48 <= u && u <= 57 {
            let d = (u - 48) as usize;
            let wide: u128 = (acc as u128) * 10 + (d as u128);
            if wide > usize::MAX as u128 {
                return None;
            }
            return ex_nat_loop(v, i + 1, wide as usize);
        }
    }
    Some((acc, i))
}

fn ex_nat(v: &Vec<char>, i: usize) -> (r: Option<(usize, usize)>)
    requires
        i <= v@.len(),
    ensures
        (match r {
            Some(p) => sp_nat(v@, i as int) == Some((p.0 as nat, p.1 as int)) && i <= p.1
                <= v@.len(),
            None => sp_nat(v@, i as int) is None,
        }),
{
    if i < v.len() {
        let u = v[i] as u32;
        if 48 <= u && u <= 57 {
            return ex_nat_loop(v, i, 0);
        }
    }
    None
}

fn ex_string_body(v: &Vec<char>, i: usize) -> (r: Option<(Vec<char>, usize)>)
    requires
        i <= v@.len(),
    ensures
        (match r {
            Some(p) => sp_string_body(v@, i as int) == Some((p.0@, p.1 as int)) && i <= p.1
                <= v@.len(),
            None => sp_string_body(v@, i as int) is None,
        }),
    decreases v@.len() - i,
{
    if i >= v.len() {
        return None;
    }
    let c = v[i];
    if c == '"' {
        let d: Vec<char> = Vec::new();
        proof {
            assert(d@ =~= Seq::<char>::empty());
        }
        return Some((d, i + 1));
    }
    if c == '\\' {
        let rem = v.len() - i;
        if rem > 1 {
            let e = v[i + 1];
            if e == '"' || e == '\\' || e == 'n' || e == 'r' || e == 't' {
                let c2 = if e == 'n' {
                    '\n'
                } else if e == 'r' {
                    '\r'
                } else if e == 't' {
                    '\t'
                } else {
                    e
                };
                match ex_string_body(v, i + 2) {
                    Some(p) => {
                        let (mut d, j) = p;
                        let ghost rest = d@;
                        d.insert(0, c2);
                        proof {
                            assert(d@ =~= seq![unesc1(v@[i + 1])] + rest);
                        }
                        return Some((d, j));
                    },
                    None => {
                        return None;
                    },
                }
            } else if e == 'u' && rem > 5 {
                let c2 = v[i + 2];
                let c3 = v[i + 3];
                let u4 = v[i + 4] as u32;
                let u5 = v[i + 5] as u32;
                let hex4 = (48 <= u4 && u4 <= 57) || (97 <= u4 && u4 <= 102);
                let hex5 = (48 <= u5 && u5 <= 57) || (97 <= u5 && u5 <= 102);
                if c2 == '0' && c3 == '0' && hex4 && hex5 {
                    let h4 = if u4 <= 57 {
                        u4 - 48
                    } else {
                        u4 - 87
                    };
                    let h5 = if u5 <= 57 {
                        u5 - 48
                    } else {
                        u5 - 87
                    };
                    let code = (h4 * 16 + h5) as u8;
                    let ch = code as char;
                    proof {
                        assert(ch == (((hval(v@[i + 4]) * 16 + hval(v@[i + 5])) as u32) as char));
                    }
                    match ex_string_body(v, i + 6) {
                        Some(p) => {
                            let (mut d, j) = p;
                            let ghost rest = d@;
                            d.insert(0, ch);
                            proof {
                                assert(d@ =~= seq![
                                    (((hval(v@[i + 4]) * 16 + hval(v@[i + 5])) as u32) as char),
                                ] + rest);
                            }
                            return Some((d, j));
                        },
                        None => {
                            return None;
                        },
                    }
                } else {
                    return None;
                }
            } else {
                return None;
            }
        } else {
            return None;
        }
    }
    match ex_string_body(v, i + 1) {
        Some(p) => {
            let (mut d, j) = p;
            let ghost rest = d@;
            d.insert(0, c);
            proof {
                assert(d@ =~= seq![v@[i as int]] + rest);
            }
            Some((d, j))
        },
        None => None,
    }
}

fn ex_bool(v: &Vec<char>, i: usize) -> (r: Option<(bool, usize)>)
    requires
        i <= v@.len(),
    ensures
        (match r {
            Some(p) => sp_bool(v@, i as int) == Some((p.0, p.1 as int)) && i <= p.1 <= v@.len(),
            None => sp_bool(v@, i as int) is None,
        }),
{
    let tlit = lit_true_vec();
    match ex_lit(v, i, &tlit) {
        Some(j) => {
            return Some((true, j));
        },
        None => {},
    }
    let flit = lit_false_vec();
    match ex_lit(v, i, &flit) {
        Some(j) => Some((false, j)),
        None => None,
    }
}

fn ex_task(v: &Vec<char>, i: usize) -> (r: Option<(Task, usize)>)
    requires
        i <= v@.len(),
    ensures
        (match r {
            Some(p) => sp_task(v@, i as int) == Some((task_model(p.0), p.1 as int)) && i <= p.1
                <= v@.len(),
            None => sp_task(v@, i as int) is None,
        }),
{
    proof {
        reveal(sp_task);
    }
    let j1 = match ex_char(v, i, '{') {
        Some(j) => j,
        None => {
            return None;
        },
    };
    let idtok = tok_id_vec();
    let j2 = match ex_lit(v, ex_skip_ws(v, j1), &idtok) {
        Some(j) => j,
        None => {
            return None;
        },
    };
    let j3 = match ex_char(v, ex_skip_ws(v, j2), ':') {
        Some(j) => j,
        None => {
            return None;
        },
    };
    let (id, j4) = match ex_nat(v, ex_skip_ws(v, j3)) {
        Some(p) => p,
        None => {
            return None;
        },
    };
    let j5 = match ex_char(v, ex_skip_ws(v, j4), ',') {
        Some(j) => j,
        None => {
            return None;
        },
    };
    let desctok = tok_desc_vec();
    let j6 = match ex_lit(v, ex_skip_ws(v, j5), &desctok) {
        Some(j) => j,
        None => {
            return None;
        },
    };
    let j7 = match ex_char(v, ex_skip_ws(v, j6), ':') {
        Some(j) => j,
        None => {
            return None;
        },
    };
    let j8 = match ex_char(v, ex_skip_ws(v, j7), '"') {
        Some(j) => j,
        None => {
            return None;
        },
    };
    let (d, j9) = match ex_string_body(v, j8) {
        Some(p) => p,
        None => {
            return None;
        },
    };
    let j10 = match ex_char(v, ex_skip_ws(v, j9), ',') {
        Some(j) => j,
        None => {
            return None;
        },
    };
    let comptok = tok_completed_vec();
    let j11 = match ex_lit(v, ex_skip_ws(v, j10), &comptok) {
        Some(j) => j,
        None => {
            return None;
        },
    };
    let j12 = match ex_char(v, ex_skip_ws(v, j11), ':') {
        Some(j) => j,
        None => {
            return None;
        },
    };
    let (b, j13) = match ex_bool(v, ex_skip_ws(v, j12)) {
        Some(p) => p,
        None => {
            return None;
        },
    };
    let j14 = match ex_char(v, ex_skip_ws(v, j13), '}') {
        Some(j) => j,
        None => {
            return None;
        },
    };
    let t = Task { id, description: string_from_chars(&d), completed: b };
    Some((t, j14))
}

fn ex_tasks_ne(v: &Vec<char>, i: usize) -> (r: Option<(Vec<Task>, usize)>)
    requires
        i <= v@.len(),
    ensures
        (match r {
            Some(p) => sp_tasks_ne(v@, i as int) == Some((models(p.0@), p.1 as int)) && i <= p.1
                <= v@.len(),
            None => sp_tasks_ne(v@, i as int) is None,
        }),
    decreases v@.len() - i,
{
    let (t, j) = match ex_task(v, i) {
        Some(p) => p,
        None => {
            return None;
        },
    };
    let j2 = ex_skip_ws(v, j);
    if i < j2 && j2 < v.len() && v[j2] == ',' {
        let j3 = ex_skip_ws(v, j2 + 1);
        if i < j3 {
            match ex_tasks_ne(v, j3) {
                Some(p) => {
                    let (mut ts, k2) = p;
                    let ghost rest = ts@;
                    ts.insert(0, t);
                    proof {
                        assert(ts@ =~= seq![t] + rest);
                        assert(models(ts@) =~= seq![task_model(t)] + models(rest));
                    }
                    Some((ts, k2))
                },
                None => None,
            }
        } else {
            None
        }
    } else if j2 < v.len() && v[j2] == ']' {
        let mut ts: Vec<Task> = Vec::new();
        ts.push(t);
        proof {
            assert(models(ts@) =~= seq![task_model(t)]);
        }
        Some((ts, j2 + 1))
    } else {
        None
    }
}

fn ex_tasks(v: &Vec<char>, i: usize) -> (r: Option<(Vec<Task>, usize)>)
    requires
        i <= v@.len(),
    ensures
        (match r {
            Some(p) => sp_tasks(v@, i as int) == Some((models(p.0@), p.1 as int)) && i <= p.1
                <= v@.len(),
            None => sp_tasks(v@, i as int) is None,
        }),
{
    let j = ex_skip_ws(v, i);
    if j < v.len() && v[j] == ']' {
        let ts: Vec<Task> = Vec::new();
        proof {
            assert(models(ts@) =~= Seq::<TaskModel>::empty());
        }
        Some((ts, j + 1))
    } else {
        ex_tasks_ne(v, j)
    }
}

fn ex_list(v: &Vec<char>) -> (r: Option<TodoList>)
    ensures
        (match r {
            Some(l) => sp_list(v@) == Some(list_model(l)),
            None => sp_list(v@) is None,
        }),
{
    let j1 = match ex_char(v, ex_skip_ws(v, 0), '{') {
        Some(j) => j,
        None => {
            return None;
        },
    };
    let tstok = tok_tasks_vec();
    let j2 = match ex_lit(v, ex_skip_ws(v, j1), &tstok) {
        Some(j) => j,
        None => {
            return None;
        },
    };
    let j3 = match ex_char(v, ex_skip_ws(v, j2), ':') {
        Some(j) => j,
        None => {
            return None;
        },
    };
    let j4 = match ex_char(v, ex_skip_ws(v, j3), '[') {
        Some(j) => j,
        None => {
            return None;
        },
    };
    let (ts, j5) = match ex_tasks(v, j4) {
        Some(p) => p,
        None => {
            return None;
        },
    };
    let j6 = match ex_char(v, ex_skip_ws(v, j5), ',') {
        Some(j) => j,
        None => {
            return None;
        },
    };
    let nexttok = tok_next_vec();
    let j7 = match ex_lit(v, ex_skip_ws(v, j6), &nexttok) {
        Some(j) => j,
        None => {
            return None;
        },
    };
    let j8 = match ex_char(v, ex_skip_ws(v, j7), ':') {
        Some(j) => j,
        None => {
            return None;
        },
    };
    let (n, j9) = match ex_nat(v, ex_skip_ws(v, j8)) {
        Some(p) => p,
        None => {
            return None;
        },
    };
    let j10 = match ex_char(v, ex_skip_ws(v, j9), '}') {
        Some(j) => j,
        None => {
            return None;
        },
    };
    if ex_skip_ws(v, j10) == v.len() {
        Some(TodoList { tasks: ts, next_id: n })
    } else {
        None
    }
}

/// Reads a store from its persisted text. Yields the store exactly when the
/// text is the persisted form, restored verbatim — no re-validation of id
/// uniqueness or counter consistency is performed (trusting load).
pub fn parse_store(s: &str) -> (r: Option<TodoList>)
    ensures
        (match r {
            Some(l) => sp_list(s@) == Some(list_model(l)),
            None => sp_list(s@) is None,
        }),
{
    let v = chars_vec(s);
    ex_list(&v)
}

/// How a load ended: nothing usable was found and a fresh store begins, or
/// persisted state was restored.
pub enum Loaded {
    Fresh(TodoList),
    Restored(TodoList),
}

impl Loaded {
    /// The store a load produced, however the load ended.
    pub fn store(self) -> (l: TodoList)
        ensures
            (match self {
                Loaded::Fresh(f) => l == f,
                Loaded::Restored(r) => l == r,
            }),
    {
        match self {
            Loaded::Fresh(l) => l,
            Loaded::Restored(l) => l,
        }
    }
}

/// Turns what was read from the storage location — or the lack of anything —
/// into a store. Missing or unreadable state silently becomes a fresh, empty
/// store; text in the persisted form is restored exactly as written, its
/// invariants trusted rather than re-checked.
pub fn load_from_contents(contents: Option<&String>) -> (r: Loaded)
    ensures
        (match r {
            Loaded::Fresh(l) => {
                &&& l.tasks@.len() == 0 && l.next_id == 1
                &&& (match contents {
                    Some(s) => sp_list(s@) is None,
                    None => true,
                })
            },
            Loaded::Restored(l) => (match contents {
                Some(s) => sp_list(s@) == Some(list_model(l)),
                None => false,
            }),
        }),
{
    match contents {
        None => Loaded::Fresh(TodoList::new()),
        Some(s) => match parse_store(s.as_str()) {
            Some(l) => Loaded::Restored(l),
            None => Loaded::Fresh(TodoList::new()),
        },
    }
}

} // verus!
