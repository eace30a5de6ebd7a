use shunting_yard::stack::Stack;

#[test]
fn create_new_stack() {
    let stack: Stack<i32> = Stack::default();
    assert!(stack.is_empty())
}

#[test]
#[should_panic(expected = "cannot peek into an empty stack")]
fn peek_new_stack() {
    let stack: Stack<i32> = Stack::default();
    stack.peek();
}

#[test]
fn test_stack_operations() {
    let mut stack: Stack<i32> = Stack::default();
    stack.push(1);
    stack.push(2);
    stack.push(3);

    assert_eq!(stack.peek(), &3);
    assert_eq!(stack.pop(), 3);
    assert_eq!(stack.pop(), 2);
    assert_eq!(stack.peek(), &1);
    assert_eq!(stack.pop(), 1);
    assert!(stack.is_empty())
}


#[test]
fn stack_push_after_pop_keeps_order() {
    let mut stack: Stack<i32> = Stack::default();
    stack.push(7);
    stack.push(8);
    assert_eq!(stack.pop(), 8);
    stack.push(9);
    assert!(!stack.is_empty());
    assert_eq!(stack.pop(), 9);
    assert_eq!(stack.pop(), 7);
    assert!(stack.is_empty());
}
