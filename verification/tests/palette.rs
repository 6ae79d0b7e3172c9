use combat_core::color::{Color, Team, TeamSide};

#[test]
fn default_color_is_white() {
    assert_eq!(Color::default(), Color(255, 255, 255));
}

#[test]
fn team_reports_its_side_and_color() {
    let t = Team::new(TeamSide::B, Color::new(91, 195, 235));
    assert!(matches!(t.side(), TeamSide::B));
    assert_eq!(t.color(), Color(91, 195, 235));
    assert!(matches!(TeamSide::default(), TeamSide::A));
}
