//! The todo menu as a state machine: each option maps the menu state to
//! a new state and an action for the surrounding shell to perform —
//! text to show, input to prompt for, or leaving the loop.

use vstd::prelude::*;
use crate::todo::Todo;
use crate::todo_list::{listing_text, TodoList};

verus! {

/// What the shell around the menu must do after an option was applied.
#[derive(Debug)]
pub enum MenuAction {
    /// Print this listing of the todos.
    ShowList(String),
    /// Prompt for a title and a description, then call `add_todo_option`.
    PromptAdd,
    /// Prompt for an id, then call `delete_todo_option`.
    PromptDelete,
    /// Prompt for an id, then call `complete_todo_option`.
    PromptComplete,
    /// The list was cleared; nothing to do.
    DidReset,
    /// Leave the menu loop.
    Exit,
    /// Show the menu text again.
    ShowMenu,
}

/// The option strings the menu understands.
pub open spec fn known_option(s: Seq<char>) -> bool {
    s == "1"@ || s == "2"@ || s == "3"@ || s == "4"@ || s == "5"@ || s == "0"@
}

/// The menu: the list it manages and whether the loop should go on.
pub struct Menu {
    todo_list: TodoList,
    keep_going: bool,
}

impl Menu {
    /// The todos under the menu.
    pub closed spec fn todos(&self) -> Seq<Todo> {
        self.todo_list@
    }

    /// Whether the menu loop should continue.
    pub closed spec fn running(&self) -> bool {
        self.keep_going
    }

    /// A menu over the given list, ready to run.
    pub fn new(todo_list: TodoList) -> (r: Menu)
        ensures
            r.todos() == todo_list@,
            r.running(),
    {
        Menu { todo_list, keep_going: true }
    }

    /// Whether the loop should ask for another option.
    pub fn is_running(&self) -> (r: bool)
        ensures
            r == self.running(),
    {
        self.keep_going
    }

    /// How many todos the menu manages; prompted ids must stay below
    /// this.
    pub fn todo_count(&self) -> (r: usize)
        ensures
            r == self.todos().len(),
    {
        self.todo_list.len()
    }

    /// The listing of all todos, ready to print.
    pub fn get_todo_list_option(&self) -> (r: String)
        ensures
            r@ == listing_text(self.todos()),
    {
        self.todo_list.get_all()
    }

    /// Adds a todo built from the prompted title and description.
    pub fn add_todo_option(&mut self, title: &str, description: &str)
        ensures
            final(self).todos().len() == old(self).todos().len() + 1,
            final(self).todos().drop_last() == old(self).todos(),
            final(self).todos().last().title@ == title@,
            final(self).todos().last().description@ == description@,
            !final(self).todos().last().completed,
            final(self).running() == old(self).running(),
    {
        let todo = Todo::new(title, description);
        self.todo_list.add(todo);
        proof {
            assert(final(self).todos().drop_last() =~= old(self).todos());
        }
    }

    /// Deletes the todo with the prompted id.
    pub fn delete_todo_option(&mut self, id: usize)
        requires
            id < old(self).todos().len(),
        ensures
            final(self).todos() == old(self).todos().remove(id as int),
            final(self).running() == old(self).running(),
    {
        self.todo_list.delete(id)
    }

    /// Marks the todo with the prompted id completed.
    pub fn complete_todo_option(&mut self, id: usize)
        requires
            id < old(self).todos().len(),
        ensures
            final(self).todos().len() == old(self).todos().len(),
            final(self).todos()[id as int].title == old(self).todos()[id as int].title,
            final(self).todos()[id as int].description == old(self).todos()[
                id as int
            ].description,
            final(self).todos()[id as int].completed,
            forall|j: int| 0 <= j < old(self).todos().len() && j != id ==> final(self).todos()[j]
                == old(self).todos()[j],
            final(self).running() == old(self).running(),
    {
        self.todo_list.complete_todo(id)
    }

    /// Clears the whole list.
    pub fn reset_option(&mut self)
        ensures
            final(self).todos() == Seq::<Todo>::empty(),
            final(self).running() == old(self).running(),
    {
        self.todo_list.reset();
    }

    /// Ends the menu loop.
    pub fn exit_option(&mut self)
        ensures
            final(self).todos() == old(self).todos(),
            !final(self).running(),
    {
        self.keep_going = false
    }

    /// Applies one option string: the list options act on the state at
    /// once, the prompting options leave the state alone and tell the
    /// shell what input to gather, and anything unknown redisplays the
    /// menu.
    pub fn use_option(&mut self, option: &str) -> (r: MenuAction)
        ensures
            option@ == "1"@ ==> (r matches MenuAction::ShowList(s) && s@ == listing_text(
                old(self).todos(),
            )),
            option@ == "2"@ ==> r is PromptAdd,
            option@ == "3"@ ==> r is PromptDelete,
            option@ == "4"@ ==> r is PromptComplete,
            option@ == "5"@ ==> (r is DidReset && final(self).todos() == Seq::<Todo>::empty()),
            option@ == "0"@ ==> (r is Exit && !final(self).running()),
            !known_option(option@) ==> r is ShowMenu,
            option@ != "5"@ ==> final(self).todos() == old(self).todos(),
            option@ != "0"@ ==> final(self).running() == old(self).running(),
    {
        proof {
            reveal_strlit("0");
            reveal_strlit("1");
            reveal_strlit("2");
            reveal_strlit("3");
            reveal_strlit("4");
            reveal_strlit("5");
        }
        if option.unicode_len() != 1 {
            return MenuAction::ShowMenu;
        }
        let c = option.get_char(0);
        proof {
            assert(option@ =~= seq![c]);
        }
        match c {
            '1' => {
                proof {
                    assert(option@ =~= "1"@);
                }
                MenuAction::ShowList(self.get_todo_list_option())
            },
            '2' => {
                proof {
                    assert(option@ =~= "2"@);
                }
                MenuAction::PromptAdd
            },
            '3' => {
                proof {
                    assert(option@ =~= "3"@);
                }
                MenuAction::PromptDelete
            },
            '4' => {
                proof {
                    assert(option@ =~= "4"@);
                }
                MenuAction::PromptComplete
            },
            '5' => {
                proof {
                    assert(option@ =~= "5"@);
                }
                self.reset_option();
                MenuAction::DidReset
            },
            '0' => {
                proof {
                    assert(option@ =~= "0"@);
                }
                self.exit_option();
                MenuAction::Exit
            },
            _ => MenuAction::ShowMenu,
        }
    }

    /// Handles one turn of the loop: dispatches the option that was
    /// read and hands back the action to perform.
    pub fn process_option(&mut self, option: &str) -> (r: MenuAction)
        ensures
            option@ == "1"@ ==> (r matches MenuAction::ShowList(s) && s@ == listing_text(
                old(self).todos(),
            )),
            option@ == "2"@ ==> r is PromptAdd,
            option@ == "3"@ ==> r is PromptDelete,
            option@ == "4"@ ==> r is PromptComplete,
            option@ == "5"@ ==> (r is DidReset && final(self).todos() == Seq::<Todo>::empty()),
            option@ == "0"@ ==> (r is Exit && !final(self).running()),
            !known_option(option@) ==> r is ShowMenu,
            option@ != "5"@ ==> final(self).todos() == old(self).todos(),
            option@ != "0"@ ==> final(self).running() == old(self).running(),
    {
        self.use_option(option)
    }
}

} // verus!
