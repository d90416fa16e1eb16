//! The list of todo entries, viewed as the sequence it holds.

use vstd::prelude::*;
use crate::todo::{todo_text, Todo};

verus! {

/// An ordered list of todo entries.
pub struct TodoList {
    todos: Vec<Todo>,
}

impl View for TodoList {
    type V = Seq<Todo>;

    closed spec fn view(&self) -> Seq<Todo> {
        self.todos@
    }
}

/// The description of every entry in order, each followed by a blank
/// line.
pub open spec fn lines_of(ts: Seq<Todo>) -> Seq<char>
    decreases ts.len(),
{
    if ts.len() == 0 {
        Seq::<char>::empty()
    } else {
        lines_of(ts.drop_last()) + todo_text(ts.last()) + "\n"@
    }
}

/// The full listing: a heading, then either an emptiness marker or the
/// entries.
pub open spec fn listing_text(ts: Seq<Todo>) -> Seq<char> {
    "List of Todos\n"@ + (if ts.len() == 0 {
        "(empty)\n\n"@
    } else {
        lines_of(ts)
    })
}

impl TodoList {
    /// An empty list.
    pub fn new() -> (r: TodoList)
        ensures
            r@ == Seq::<Todo>::empty(),
    {
        TodoList { todos: Vec::new() }
    }

    /// How many entries the list holds.
    pub fn len(&self) -> (r: usize)
        ensures
            r == self@.len(),
    {
        self.todos.len()
    }

    /// The text of the whole list, as `listing_text` describes it.
    pub fn get_all(&self) -> (r: String)
        ensures
            r@ == listing_text(self@),
    {
        let mut out = String::from_str("List of Todos\n");
        if self.todos.len() == 0 {
            out.append("(empty)\n\n");
            return out;
        }
        let mut i: usize = 0;
        while i < self.todos.len()
            invariant
                i <= self.todos@.len(),
                out@ == "List of Todos\n"@ + lines_of(self.todos@.subrange(0, i as int)),
            decreases self.todos@.len() - i,
        {
            proof {
                assert(self.todos@.subrange(0, i as int + 1).drop_last() =~= self.todos@.subrange(
                    0,
                    i as int,
                ));
                assert(self.todos@.subrange(0, i as int + 1).last() == self.todos@[i as int]);
            }
            out.append(self.todos[i].describe().as_str());
            out.append("\n");
            i = i + 1;
        }
        proof {
            assert(self.todos@.subrange(0, self.todos@.len() as int) =~= self.todos@);
        }
        out
    }

    /// Appends an entry at the end.
    pub fn add(&mut self, todo: Todo)
        ensures
            final(self)@ == old(self)@.push(todo),
    {
        self.todos.push(todo)
    }

    /// Removes the entry at `id`, shifting the later ones forward.
    pub fn delete(&mut self, id: usize)
        requires
            id < old(self)@.len(),
        ensures
            final(self)@ == old(self)@.remove(id as int),
    {
        let _ = self.todos.remove(id);
    }

    /// Marks the entry at `id` completed.
    pub fn complete_todo(&mut self, id: usize)
        requires
            id < old(self)@.len(),
        ensures
            final(self)@.len() == old(self)@.len(),
            final(self)@[id as int].title == old(self)@[id as int].title,
            final(self)@[id as int].description == old(self)@[id as int].description,
            final(self)@[id as int].completed,
            forall|j: int| 0 <= j < old(self)@.len() && j != id ==> final(self)@[j] == old(
                self,
            )@[j],
    {
        self.todos[id].set_completed(true)
    }

    /// Removes every entry.
    pub fn reset(&mut self)
        ensures
            final(self)@ == Seq::<Todo>::empty(),
    {
        self.todos.clear()
    }
}

} // verus!
