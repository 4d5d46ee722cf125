use snake_engine::{Mention, Session, StartError, Vector2};
use snake_engine::session::validate_start;

fn user(id: u64) -> Mention {
    Mention { id, is_role: false }
}

#[test]
fn start_rejects_roles_repeats_and_bad_counts() {
    let ms = vec![user(1), Mention { id: 2, is_role: true }];
    assert!(matches!(
        validate_start(false, 9, &ms),
        Err(StartError::RoleMention)
    ));
    let ms = vec![user(1), user(2), user(1)];
    assert!(matches!(
        validate_start(false, 9, &ms),
        Err(StartError::RepeatedUser)
    ));
    let ms = vec![user(1)];
    assert!(matches!(
        validate_start(false, 9, &ms),
        Err(StartError::TooFewPlayers)
    ));
    let ms = vec![user(1), user(2), user(3), user(4), user(5), user(6)];
    assert!(matches!(
        validate_start(false, 9, &ms),
        Err(StartError::TooManyPlayers)
    ));
}

#[test]
fn solo_start_plays_exactly_the_requester() {
    let ms = vec![user(1), user(2)];
    let ids = validate_start(true, 9, &ms).unwrap();
    assert_eq!(ids, vec![9]);
    let s = Session::start(true, 9, &ms).unwrap();
    assert!(!s.ended);
    assert_eq!(s.game.get_rankings().len(), 1);
    assert_eq!(s.game.get_rankings()[0].get_id(), 9);
}

#[test]
fn multiplayer_start_keeps_mention_order() {
    let ms = vec![user(7), user(8)];
    let ids = validate_start(false, 9, &ms).unwrap();
    assert_eq!(ids, vec![7, 8]);
}

#[test]
fn cycle_runs_and_ends_when_everyone_cancels() {
    let ms = vec![user(7), user(8)];
    let mut s = Session::start(false, 9, &ms).unwrap();
    let (board, out) = s.cycle(&Vec::new());
    assert!(out.is_none());
    assert!(!s.ended);
    assert_eq!(board.split('\n').count(), 24);
    let events = vec![(7u64, Vector2(0, 0)), (8u64, Vector2(0, 0))];
    let (_, out) = s.cycle(&events);
    // Both players were cancelled before the tick, so nobody died during
    // the tick itself: the round ends with an empty casualty list.
    assert_eq!(out, Some(Vec::new()));
    assert!(s.ended);
    let ranks = s.game.get_rankings();
    assert!(ranks.iter().all(|p| p.is_dead()));
}
