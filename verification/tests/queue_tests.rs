use morse_tutor::queue::PracticeQueue;

fn seeded(items: &[&str]) -> PracticeQueue {
    let mut q = PracticeQueue::new();
    let mut v: Vec<String> = Vec::new();
    for s in items {
        v.push(s.to_string());
    }
    q.seed(v);
    q
}

#[test]
fn seed_replaces_contents_in_order() {
    let mut q = seeded(&["A", "B"]);
    assert_eq!(q.len(), 2);
    assert_eq!(q.peek(), Some("A".to_string()));
    q.seed(vec!["X".to_string()]);
    assert_eq!(q.len(), 1);
    assert_eq!(q.peek(), Some("X".to_string()));
}

#[test]
fn peek_on_empty_queue_is_none() {
    let q = PracticeQueue::new();
    assert_eq!(q.peek(), None);
}

#[test]
fn success_removes_the_head_permanently() {
    let mut q = seeded(&["A", "B", "C"]);
    q.resolve(true);
    assert_eq!(q.len(), 2);
    assert_eq!(q.peek(), Some("B".to_string()));
}

#[test]
fn failure_moves_the_head_to_the_tail() {
    let mut q = seeded(&["A", "B", "C"]);
    q.resolve(false);
    assert_eq!(q.len(), 3);
    assert_eq!(q.peek(), Some("B".to_string()));
    q.resolve(true);
    q.resolve(true);
    // only the failed item is left, re-presented at the end
    assert_eq!(q.peek(), Some("A".to_string()));
    q.resolve(true);
    assert_eq!(q.peek(), None);
}

#[test]
fn failure_preserves_membership_count() {
    let mut q = seeded(&["A", "B", "A"]);
    for _ in 0..5 {
        q.resolve(false);
        assert_eq!(q.len(), 3);
        let mut a = 0;
        for item in q.items.iter() {
            if item == "A" {
                a += 1;
            }
        }
        assert_eq!(a, 2);
    }
}

#[test]
fn an_item_leaves_only_through_a_correct_answer() {
    let mut q = seeded(&["A", "B"]);
    // fail both repeatedly: nothing is ever removed
    for _ in 0..6 {
        q.resolve(false);
    }
    assert_eq!(q.len(), 2);
    // then answer each correctly once: the queue drains
    q.resolve(true);
    q.resolve(true);
    assert_eq!(q.len(), 0);
}
