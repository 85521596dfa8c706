use llmcord::merge::{MergeStep, Polled, SelectUntilFirstEnds};

#[test]
fn primary_preempts_and_ends_the_merge() {
    let mut merger = SelectUntilFirstEnds::new((), ());
    assert!(matches!(merger.on_primary(Polled::Ready("p1")), MergeStep::Emit("p1")));
    assert!(matches!(merger.on_primary(Polled::<&str>::Pending), MergeStep::PollSecondary));
    assert_eq!(merger.on_secondary(Polled::Ready("s1")), Some("s1"));
    assert_eq!(merger.on_secondary(Polled::<&str>::Exhausted), None);
    assert!(!merger.primary_ended);
    assert!(matches!(merger.on_primary(Polled::<&str>::Exhausted), MergeStep::End));
    assert!(merger.primary_ended);
    assert!(matches!(merger.on_primary(Polled::Ready("late")), MergeStep::End));
    assert!(matches!(merger.on_primary(Polled::<&str>::Pending), MergeStep::End));
}
