use workbook::todo::Todo;
use workbook::todo_list::TodoList;

#[test]
fn test_new_todo() {
    let todo = Todo::new("Eat lunch", "Don't be starving");
    assert_eq!("Eat lunch".to_string(), todo.title);
    assert_eq!("Don't be starving".to_string(), todo.description);
    assert_eq!(false, todo.completed);
}

#[test]
fn test_set_completed_todo() {
    let mut todo = Todo::new("Eat lunch", "Don't be starving");
    todo.set_completed(true);
    assert_eq!(true, todo.completed)
}

#[test]
fn test_print_todo() {
    let todo = Todo::new("Eat lunch", "Don't be starving");
    println!("{}", todo.describe())
}

#[test]
fn test_new_todo_list() {
    let list = TodoList::new();
    assert_eq!(0, list.len())
}

#[test]
fn get_all() {
    let mut list = TodoList::new();
    println!("{}", list.get_all());

    list.add(Todo::new("Title", "Description"));
    list.add(Todo::new("Title", "Description"));
    println!("{}", list.get_all())
}

#[test]
fn test_add() {
    let mut list = TodoList::new();
    list.add(Todo::new("Title", "Description"));
    list.add(Todo::new("Title", "Description"));
    list.add(Todo::new("Title", "Description"));
    assert_eq!(3, list.len())
}

#[test]
fn test_delete() {
    let mut list = TodoList::new();
    list.add(Todo::new("Title", "Description"));
    assert_eq!(1, list.len());

    list.delete(0);
    assert_eq!(0, list.len())
}
