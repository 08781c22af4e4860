use factory_sim::action::Action;

#[test]
fn every_action_round_trips() {
    let all = [
        Action::Empty,
        Action::SellItem(3, 250),
        Action::GameSpeedDec,
        Action::GameSpeedInc,
        Action::GamePause,
        Action::RestartGame,
        Action::CheatCredits,
        Action::CheatLevel,
        Action::MoveBlobby(0, 255, 17),
        Action::Place(5, 5, 1),
    ];
    for a in all {
        assert_eq!(Action::from_bytes(a.to_bytes()), a);
    }
}

#[test]
fn records_have_the_documented_layout() {
    assert_eq!(Action::Empty.to_bytes(), [0, 0, 0, 0]);
    assert_eq!(Action::SellItem(7, 9).to_bytes(), [1, 7, 9, 0]);
    assert_eq!(Action::GameSpeedDec.to_bytes(), [2, 0, 0, 0]);
    assert_eq!(Action::GameSpeedInc.to_bytes(), [3, 0, 0, 0]);
    assert_eq!(Action::GamePause.to_bytes(), [4, 0, 0, 0]);
    assert_eq!(Action::RestartGame.to_bytes(), [5, 0, 0, 0]);
    assert_eq!(Action::CheatCredits.to_bytes(), [6, 0, 0, 0]);
    assert_eq!(Action::CheatLevel.to_bytes(), [7, 0, 0, 0]);
    assert_eq!(Action::MoveBlobby(1, 2, 3).to_bytes(), [8, 1, 2, 3]);
    assert_eq!(Action::Place(4, 5, 6).to_bytes(), [9, 4, 5, 6]);
}

#[test]
fn unknown_tag_reads_as_empty() {
    assert_eq!(Action::from_bytes([10, 1, 2, 3]), Action::Empty);
    assert_eq!(Action::from_bytes([255, 0, 0, 0]), Action::Empty);
}

#[test]
fn arguments_of_plain_actions_are_ignored() {
    assert_eq!(Action::from_bytes([4, 9, 9, 9]), Action::GamePause);
    assert_eq!(Action::from_bytes([1, 2, 3, 4]), Action::SellItem(2, 3));
}

#[test]
fn transient_actions_are_the_session_controls() {
    assert!(Action::Empty.transient());
    assert!(Action::GameSpeedDec.transient());
    assert!(Action::GameSpeedInc.transient());
    assert!(Action::GamePause.transient());
    assert!(Action::RestartGame.transient());
    assert!(!Action::SellItem(0, 0).transient());
    assert!(!Action::CheatCredits.transient());
    assert!(!Action::CheatLevel.transient());
    assert!(!Action::MoveBlobby(0, 0, 0).transient());
    assert!(!Action::Place(0, 0, 0).transient());
}
