use llm_core::{
    resequence, FinishReason, LLMStreamChunk, Resequencer, StreamAction, StreamEvent, StreamPhase,
    StreamState,
};

fn feed(buffer: &mut Resequencer<&'static str>, arrivals: &[(u64, &'static str)]) -> Vec<Vec<&'static str>> {
    arrivals.iter().map(|(index, item)| buffer.accept(*index, *item)).collect()
}

#[test]
fn items_in_order_pass_straight_through() {
    let mut buffer = Resequencer::new();
    assert_eq!(buffer.next_index(), Some(0));
    assert_eq!(buffer.waiting(), 0);
    let out = feed(&mut buffer, &[(0, "a"), (1, "b"), (2, "c")]);
    assert_eq!(out, vec![vec!["a"], vec!["b"], vec!["c"]]);
    assert_eq!(buffer.next_index(), Some(3));
    assert_eq!(buffer.waiting(), 0);
}

#[test]
fn early_items_wait_for_the_ones_before_them() {
    let mut buffer = Resequencer::new();
    let out = feed(&mut buffer, &[(2, "c"), (1, "b")]);
    assert_eq!(out, vec![Vec::<&str>::new(), vec![]]);
    assert_eq!(buffer.waiting(), 2);
    assert_eq!(buffer.next_index(), Some(0));
    assert_eq!(buffer.accept(0, "a"), vec!["a", "b", "c"]);
    assert_eq!(buffer.waiting(), 0);
    assert_eq!(buffer.next_index(), Some(3));
}

#[test]
fn release_stops_at_the_first_gap() {
    let mut buffer = Resequencer::new();
    let out = feed(&mut buffer, &[(1, "b"), (3, "d"), (4, "e"), (0, "a")]);
    assert_eq!(out, vec![vec![], vec![], vec![], vec!["a", "b"]]);
    assert_eq!(buffer.next_index(), Some(2));
    assert_eq!(buffer.waiting(), 2);
    assert_eq!(buffer.accept(2, "c"), vec!["c", "d", "e"]);
    assert_eq!(buffer.next_index(), Some(5));
    assert_eq!(buffer.waiting(), 0);
}

#[test]
fn repeated_and_late_items_are_dropped() {
    let mut buffer = Resequencer::new();
    assert_eq!(buffer.accept(0, "a"), vec!["a"]);
    assert_eq!(buffer.accept(0, "again"), Vec::<&str>::new());
    assert_eq!(buffer.accept(2, "c"), Vec::<&str>::new());
    assert_eq!(buffer.accept(2, "other"), Vec::<&str>::new());
    assert_eq!(buffer.waiting(), 1);
    assert_eq!(buffer.accept(1, "b"), vec!["b", "c"]);
    assert_eq!(buffer.accept(1, "late"), Vec::<&str>::new());
    assert_eq!(buffer.next_index(), Some(3));
    assert_eq!(buffer.waiting(), 0);
}

#[test]
fn every_order_of_arrival_gives_the_same_output() {
    let items = [(0u64, "a"), (1, "b"), (2, "c"), (3, "d")];
    let orders: [[usize; 4]; 6] =
        [[0, 1, 2, 3], [3, 2, 1, 0], [1, 0, 3, 2], [2, 0, 3, 1], [3, 0, 1, 2], [1, 2, 3, 0]];
    for order in orders {
        let arrivals: Vec<(u64, &str)> = order.iter().map(|&i| items[i]).collect();
        let (ordered, rest) = resequence(arrivals);
        assert_eq!(ordered, vec!["a", "b", "c", "d"]);
        assert_eq!(rest.next_index(), Some(4));
        assert_eq!(rest.waiting(), 0);
    }
}

#[test]
fn a_batch_with_a_gap_keeps_the_rest_waiting() {
    let (ordered, mut rest) = resequence(vec![(4u64, "e"), (0, "a"), (1, "b"), (3, "d")]);
    assert_eq!(ordered, vec!["a", "b"]);
    assert_eq!(rest.next_index(), Some(2));
    assert_eq!(rest.waiting(), 2);
    assert_eq!(rest.accept(2, "c"), vec!["c", "d", "e"]);
}

#[test]
fn in_a_batch_the_first_arrival_of_an_index_counts() {
    let (ordered, rest) = resequence(vec![(1u64, "b"), (1, "x"), (0, "a"), (0, "y"), (2, "c")]);
    assert_eq!(ordered, vec!["a", "b", "c"]);
    assert_eq!(rest.waiting(), 0);
    let (ordered, rest) = resequence(Vec::<(u64, u8)>::new());
    assert!(ordered.is_empty());
    assert_eq!(rest.next_index(), Some(0));
}

#[test]
fn the_largest_index_can_wait() {
    let mut buffer = Resequencer::new();
    assert_eq!(buffer.accept(u64::MAX, "z"), Vec::<&str>::new());
    assert_eq!(buffer.waiting(), 1);
    assert_eq!(buffer.accept(0, "a"), vec!["a"]);
    assert_eq!(buffer.next_index(), Some(1));
    assert_eq!(buffer.waiting(), 1);
}

#[test]
fn chunks_from_a_reordering_transport_are_delivered_in_generation_order() {
    let chunk = |delta: &str, reason: Option<FinishReason>| LLMStreamChunk {
        delta: delta.to_string(),
        finish_reason: reason,
        metadata: None,
    };
    let arrivals = vec![
        (2u64, chunk(" = ", None)),
        (0, chunk("2", None)),
        (3, chunk("4", Some(FinishReason::Stop))),
        (1, chunk("+2", None)),
    ];
    let mut buffer = Resequencer::new();
    let (mut state, action) = StreamState::new(0).step(StreamEvent::Start);
    assert!(matches!(action, StreamAction::Connect));
    let mut text = String::new();
    let mut reasons = Vec::new();
    for (index, arrived) in arrivals {
        for released in buffer.accept(index, arrived) {
            let (next, action) = state.step(StreamEvent::Chunk(released));
            state = next;
            match action {
                StreamAction::Deliver(c) => {
                    text.push_str(&c.delta);
                    reasons.push(c.finish_reason);
                }
                other => panic!("unexpected action {:?}", other),
            }
        }
    }
    assert_eq!(text, "2+2 = 4");
    assert_eq!(reasons, vec![None, None, None, Some(FinishReason::Stop)]);
    assert_eq!(state.phase(), StreamPhase::Succeeded);
}
