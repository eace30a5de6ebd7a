use shunting_yard::queue::Queue;

#[test]
fn create_new_queue() {
    let queue: Queue<i32> = Queue::default();
    assert!(queue.is_empty())
}

#[test]
#[should_panic(expected = "cannot peek into an empty queue")]
fn dequeue_new_queue() {
    let queue: Queue<i32> = Queue::default();
    let _ = queue.peek();
}

#[test]
fn test_queue_operations() {
    let mut queue: Queue<i32> = Queue::default();
    queue.enqueue(1);
    queue.enqueue(2);
    queue.enqueue(3);

    assert_eq!(queue.peek(), &1);
    assert_eq!(queue.dequeue(), 1);
    assert_eq!(queue.dequeue(), 2);
    assert_eq!(queue.peek(), &3);
    assert_eq!(queue.dequeue(), 3);
    assert!(queue.is_empty());
}


#[test]
fn queue_new_keeps_front_first() {
    let mut queue = Queue::new(vec![4, 5, 6]);
    assert!(!queue.is_empty());
    assert_eq!(queue.peek(), &4);
    assert_eq!(queue.dequeue(), 4);
    queue.enqueue(7);
    assert_eq!(queue.dequeue(), 5);
    assert_eq!(queue.dequeue(), 6);
    assert_eq!(queue.dequeue(), 7);
    assert!(queue.is_empty());
    assert_eq!(queue, Queue::default());
}
