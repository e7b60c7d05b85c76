//! The task store: an ordered collection of tasks plus the id-issuance
//! counter, with the add / list / complete / delete operations and the laws
//! that govern them.

use vstd::prelude::*;
use crate::digits::{dec_digits, push_dec};
use crate::text::{chars_vec, string_from_chars};

verus! {

/// A single to-do item: stable identity, free-form description, completion
/// flag. The id is assigned on creation and never changes; the flag only ever
/// moves from false to true.
pub struct Task {
    pub id: usize,
    pub description: String,
    pub completed: bool,
}

/// The failure a store operation can report.
#[derive(Clone, Copy, Debug, PartialEq, Eq, Structural)]
pub enum TodoError {
    /// No task in the store carries the requested id.
    TaskNotFound(usize),
}

/// The in-memory task store: tasks in insertion order plus the counter the
/// next id is drawn from.
pub struct TodoList {
    pub tasks: Vec<Task>,
    pub next_id: usize,
}

/// Whether some task in `s` carries `id`.
pub open spec fn has_id(s: Seq<Task>, id: usize) -> bool {
    exists|i: int| 0 <= i < s.len() && (#[trigger] s[i]).id == id
}

/// The position of the first task in `s` carrying `id` (meaningful when some
/// task does).
pub open spec fn first_id_index(s: Seq<Task>, id: usize) -> int
    decreases s.len(),
{
    if s.len() == 0 {
        0
    } else if s[0].id == id {
        0
    } else {
        1 + first_id_index(s.skip(1), id)
    }
}

/// When `id` occurs in `s`, its first position carries it and nothing before
/// it does.
pub proof fn lemma_first_id_index(s: Seq<Task>, id: usize)
    requires
        has_id(s, id),
    ensures
        0 <= first_id_index(s, id) < s.len(),
        s[first_id_index(s, id)].id == id,
        forall|i: int| 0 <= i < first_id_index(s, id) ==> (#[trigger] s[i]).id != id,
    decreases s.len(),
{
    let w = choose|i: int| 0 <= i < s.len() && (#[trigger] s[i]).id == id;
    if s[0].id == id {
    } else {
        assert(w >= 1);
        assert(s.skip(1)[w - 1].id == id);
        assert(has_id(s.skip(1), id));
        lemma_first_id_index(s.skip(1), id);
        let f = first_id_index(s.skip(1), id);
        assert(s[1 + f].id == s.skip(1)[f].id);
        assert forall|i: int| 0 <= i < 1 + f implies (#[trigger] s[i]).id != id by {
            if i >= 1 {
                assert(s.skip(1)[i - 1].id != id);
                assert(s[i] == s.skip(1)[i - 1]);
            }
        }
    }
}

/// The task sequence after marking the first task carrying `id` complete;
/// unchanged when no task carries it.
pub open spec fn complete_model(s: Seq<Task>, id: usize) -> Seq<Task> {
    if has_id(s, id) {
        let k = first_id_index(s, id);
        s.update(k, Task { completed: true, ..s[k] })
    } else {
        s
    }
}

/// How one add relates a store to its successor: one task appended, carrying
/// the old counter value as id and not yet completed, and the counter moved
/// up by one.
pub open spec fn add_step(pre: TodoList, post: TodoList, description: Seq<char>) -> bool {
    &&& post.tasks@.len() == pre.tasks@.len() + 1
    &&& forall|i: int| 0 <= i < pre.tasks@.len() ==> post.tasks@[i] == pre.tasks@[i]
    &&& post.tasks@.last().id == pre.next_id
    &&& post.tasks@.last().description@ == description
    &&& post.tasks@.last().completed == false
    &&& post.next_id == pre.next_id + 1
}

/// The display line for one task: "{id}. [{x or space}] {description}".
pub open spec fn line_of(t: Task) -> Seq<char> {
    dec_digits(t.id as nat) + seq!['.', ' ', '['] + seq![if t.completed { 'x' } else { ' ' }]
        + seq![']', ' '] + t.description@
}

/// The message for an error: "Task with id {id} not found".
pub open spec fn message_of(e: TodoError) -> Seq<char> {
    match e {
        TodoError::TaskNotFound(id) => seq![
            'T', 'a', 's', 'k', ' ', 'w', 'i', 't', 'h', ' ', 'i', 'd', ' ',
        ] + dec_digits(id as nat) + seq![
            ' ', 'n', 'o', 't', ' ', 'f', 'o', 'u', 'n', 'd',
        ],
    }
}

impl TodoError {
    /// Renders the error as the store's user-facing message.
    pub fn message(&self) -> (r: String)
        ensures
            r@ == message_of(*self),
    {
        match self {
            TodoError::TaskNotFound(id) => {
                let mut out: Vec<char> = Vec::new();
                out.push('T');
                out.push('a');
                out.push('s');
                out.push('k');
                out.push(' ');
                out.push('w');
                out.push('i');
                out.push('t');
                out.push('h');
                out.push(' ');
                out.push('i');
                out.push('d');
                out.push(' ');
                push_dec(*id, &mut out);
                out.push(' ');
                out.push('n');
                out.push('o');
                out.push('t');
                out.push(' ');
                out.push('f');
                out.push('o');
                out.push('u');
                out.push('n');
                out.push('d');
                proof {
                    assert(out@ =~= message_of(*self));
                }
                string_from_chars(&out)
            },
        }
    }
}

impl TodoList {
    /// Every issued id is positive and below `next_id`, and no id occurs
    /// twice.
    pub open spec fn wf(self) -> bool {
        &&& self.next_id >= 1
        &&& forall|i: int|
            0 <= i < self.tasks@.len() ==> 1 <= (#[trigger] self.tasks@[i]).id < self.next_id
        &&& forall|i: int, j: int|
            0 <= i < j < self.tasks@.len() ==> (#[trigger] self.tasks@[i]).id != (
            #[trigger] self.tasks@[j]).id
    }

    /// A fresh, empty store: no tasks, counter at one.
    pub fn new() -> (r: TodoList)
        ensures
            r.wf(),
            r.tasks@.len() == 0,
            r.next_id == 1,
    {
        TodoList { tasks: Vec::new(), next_id: 1 }
    }

    /// Appends a new task under the next free id and returns that id. Always
    /// succeeds; the description may be any text, the empty one included.
    pub fn add_task(&mut self, description: String) -> (id: usize)
        requires
            old(self).next_id < usize::MAX,
        ensures
            old(self).wf() ==> final(self).wf(),
            id == old(self).next_id,
            add_step(*old(self), *final(self), description@),
    {
        let id = self.next_id;
        self.tasks.push(Task { id, description, completed: false });
        self.next_id = self.next_id + 1;
        id
    }

    /// The display lines of the store, one per task, in insertion order.
    pub fn list_tasks(&self) -> (r: Vec<String>)
        ensures
            r@.len() == self.tasks@.len(),
            forall|i: int| 0 <= i < r@.len() ==> (#[trigger] r@[i])@ == line_of(self.tasks@[i]),
    {
        let mut r: Vec<String> = Vec::new();
        let n = self.tasks.len();
        let mut k: usize = 0;
        while k < n
            invariant
                n == self.tasks@.len(),
                0 <= k <= n,
                r@.len() == k,
                forall|i: int| 0 <= i < k ==> (#[trigger] r@[i])@ == line_of(self.tasks@[i]),
            decreases n - k,
        {
            let t = &self.tasks[k];
            let mut line: Vec<char> = Vec::new();
            push_dec(t.id, &mut line);
            line.push('.');
            line.push(' ');
            line.push('[');
            line.push(if t.completed { 'x' } else { ' ' });
            line.push(']');
            line.push(' ');
            let mut desc = chars_vec(t.description.as_str());
            line.append(&mut desc);
            proof {
                assert(line@ =~= line_of(self.tasks@[k as int]));
            }
            r.push(string_from_chars(&line));
            k += 1;
        }
        r
    }

    /// Marks the first task carrying `id` complete. Succeeds exactly when the
    /// id is present; an absent id is reported and the store left untouched.
    pub fn complete_task(&mut self, id: usize) -> (r: Result<(), TodoError>)
        ensures
            old(self).wf() ==> final(self).wf(),
            final(self).next_id == old(self).next_id,
            final(self).tasks@.len() == old(self).tasks@.len(),
            r is Ok <==> has_id(old(self).tasks@, id),
            final(self).tasks@ == complete_model(old(self).tasks@, id),
            r is Err ==> final(self).tasks@ == old(self).tasks@ && r == Err::<(), TodoError>(
                TodoError::TaskNotFound(id),
            ),
    {
        let n = self.tasks.len();
        let mut k: usize = 0;
        while k < n
            invariant
                n == self.tasks@.len(),
                0 <= k <= n,
                self.tasks@ == old(self).tasks@,
                self.next_id == old(self).next_id,
                forall|i: int| 0 <= i < k ==> (#[trigger] self.tasks@[i]).id != id,
            decreases n - k,
        {
            if self.tasks[k].id == id {
                self.tasks[k].completed = true;
                proof {
                    assert(has_id(old(self).tasks@, id));
                    lemma_first_id_index(old(self).tasks@, id);
                    assert(first_id_index(old(self).tasks@, id) == k);
                    assert(self.tasks@ =~= complete_model(old(self).tasks@, id));
                    if old(self).wf() {
                        assert forall|i: int| 0 <= i < self.tasks@.len() implies (
                        #[trigger] self.tasks@[i]).id == old(self).tasks@[i].id by {}
                        assert(self.wf());
                    }
                }
                return Ok(());
            }
            k += 1;
        }
        Err(TodoError::TaskNotFound(id))
    }

    /// Removes the first task carrying `id`, keeping the others in order
    /// under their old ids. Succeeds exactly when the id is present; an
    /// absent id is reported and the store left untouched.
    pub fn delete_task(&mut self, id: usize) -> (r: Result<(), TodoError>)
        ensures
            old(self).wf() ==> final(self).wf(),
            final(self).next_id == old(self).next_id,
            r is Ok <==> has_id(old(self).tasks@, id),
            r is Ok ==> final(self).tasks@ == old(self).tasks@.remove(
                first_id_index(old(self).tasks@, id),
            ),
            r is Err ==> final(self).tasks@ == old(self).tasks@ && r == Err::<(), TodoError>(
                TodoError::TaskNotFound(id),
            ),
    {
        let n = self.tasks.len();
        let mut k: usize = 0;
        while k < n
            invariant
                n == self.tasks@.len(),
                0 <= k <= n,
                self.tasks@ == old(self).tasks@,
                self.next_id == old(self).next_id,
                forall|i: int| 0 <= i < k ==> (#[trigger] self.tasks@[i]).id != id,
            decreases n - k,
        {
            if self.tasks[k].id == id {
                self.tasks.remove(k);
                proof {
                    assert(has_id(old(self).tasks@, id));
                    lemma_first_id_index(old(self).tasks@, id);
                    assert(first_id_index(old(self).tasks@, id) == k);
                    if old(self).wf() {
                        assert(self.wf());
                    }
                }
                return Ok(());
            }
            k += 1;
        }
        Err(TodoError::TaskNotFound(id))
    }
}

/// Law: starting from a fresh store, a run of adds issues the ids 1..N in
/// call order, records the given descriptions as not yet completed, and
/// leaves the counter at N + 1.
pub proof fn lemma_id_monotonicity(states: Seq<TodoList>, descs: Seq<Seq<char>>)
    requires
        states.len() == descs.len() + 1,
        states[0].tasks@.len() == 0,
        states[0].next_id == 1,
        forall|k: int| 0 <= k < descs.len() ==> add_step(
            #[trigger] states[k],
            states[k + 1],
            descs[k],
        ),
    ensures
        states.last().next_id == states.len(),
        states.last().tasks@.len() == descs.len(),
        forall|i: int| 0 <= i < descs.len() ==> (#[trigger] states.last().tasks@[i]).id == i + 1,
        forall|i: int| 0 <= i < descs.len() ==> (#[trigger] states.last().tasks@[i]).description@
            == descs[i],
        forall|i: int| 0 <= i < descs.len() ==> (#[trigger] states.last().tasks@[i]).completed
            == false,
    decreases states.len(),
{
    if descs.len() > 0 {
        let prev = states.drop_last();
        let pdescs = descs.drop_last();
        assert forall|k: int| 0 <= k < pdescs.len() implies add_step(
            #[trigger] prev[k],
            prev[k + 1],
            pdescs[k],
        ) by {
            assert(add_step(states[k], states[k + 1], descs[k]));
        }
        lemma_id_monotonicity(prev, pdescs);
        assert(add_step(states[states.len() - 2], states[states.len() - 1], descs[
            descs.len() - 1
        ]));
    }
}

/// Law: completing an id a second time finds the task again and leaves the
/// store exactly as the first completion did.
pub proof fn lemma_complete_idempotent(s: Seq<Task>, id: usize)
    ensures
        has_id(complete_model(s, id), id) == has_id(s, id),
        complete_model(complete_model(s, id), id) == complete_model(s, id),
{
    if has_id(s, id) {
        lemma_first_id_index(s, id);
        let k = first_id_index(s, id);
        let s1 = complete_model(s, id);
        assert forall|i: int| 0 <= i < s1.len() implies (#[trigger] s1[i]).id == s[i].id by {}
        assert(s1[k].id == id);
        assert(has_id(s1, id));
        lemma_first_id_index(s1, id);
        assert(first_id_index(s1, id) == k);
        assert(Task { completed: true, ..s1[k] } == s1[k]);
        assert(complete_model(s1, id) =~= s1);
    } else {
        assert(complete_model(s, id) == s);
        if has_id(complete_model(s, id), id) {
            let w = choose|i: int|
                0 <= i < complete_model(s, id).len() && (#[trigger] complete_model(s, id)[i]).id
                    == id;
            assert(s[w].id == id);
        }
    }
}

} // verus!
