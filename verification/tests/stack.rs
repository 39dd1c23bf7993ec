use calculate::error::EvalError;
use calculate::stack::RpnStack;

#[test]
fn stack_pops_in_lifo_order() {
    let mut stack = RpnStack::new();
    stack.push(1);
    stack.push(2);
    stack.push(3);
    assert_eq!(stack.pop(), Ok(3));
    assert_eq!(stack.pop(), Ok(2));
    stack.push(4);
    assert_eq!(stack.pop(), Ok(4));
    assert_eq!(stack.pop(), Ok(1));
}

#[test]
fn pop_on_empty_stack_underflows() {
    let mut stack = RpnStack::new();
    assert_eq!(stack.pop(), Err(EvalError::StackUnderflow));
    stack.push(9);
    assert_eq!(stack.pop(), Ok(9));
    assert_eq!(stack.pop(), Err(EvalError::StackUnderflow));
}
