use giveaway_time::{Giveaway, GiveawayId, GuildState};
use std::collections::HashSet;

fn giveaway(winners: u32) -> Giveaway {
    Giveaway {
        title: "T".to_string(),
        description: "D".to_string(),
        participants: HashSet::new(),
        winners,
        channel: 1,
        message: 2,
        time: None,
    }
}

#[test]
fn default_state() {
    let s = GuildState::default();
    assert_eq!(s.timezone, "CET");
    assert!(s.giveaways.is_empty());
}

#[test]
fn users_join_and_leave() {
    let mut s = GuildState::default();
    s.giveaways.insert(7, giveaway(1));
    assert!(s.add_user(GiveawayId(7), 42));
    assert!(!s.add_user(GiveawayId(7), 42));
    assert!(!s.add_user(GiveawayId(8), 42));
    assert!(s.giveaways[&7].participants.contains(&42));
    assert!(s.remove_user(GiveawayId(7), 42));
    assert!(!s.remove_user(GiveawayId(7), 42));
    assert!(!s.remove_user(GiveawayId(8), 42));
    assert!(s.giveaways[&7].participants.is_empty());
}

#[test]
fn winners_bounded_by_participants() {
    let mut g = giveaway(3);
    assert_eq!(g.winners_count(), 0);
    g.participants.insert(1);
    g.participants.insert(2);
    assert_eq!(g.winners_count(), 2);
    g.participants.insert(3);
    g.participants.insert(4);
    assert_eq!(g.winners_count(), 3);
}

#[test]
fn message_without_end() {
    assert_eq!(Giveaway::get_message_early("Preis", "Ein Buch", None, false, 0), "# Preis\n\nEin Buch");
}

#[test]
fn message_with_end() {
    assert_eq!(
        Giveaway::get_message_early("Preis", "Ein Buch", Some(1700000000), false, 1600000000),
        "# Preis\n\nEin Buch\n\nEndet: <t:1700000000:R>"
    );
    assert_eq!(
        Giveaway::get_message_early("Preis", "Ein Buch", Some(1700000000), true, 1800000000),
        "# Preis\n\nEin Buch\n\nEndete: <t:1700000000:R>"
    );
    assert_eq!(Giveaway::get_message_early("A", "B", Some(-5), false, 0), "# A\n\nB\n\nEndet: <t:-5:R>");
    assert_eq!(Giveaway::get_message_early("A", "B", Some(0), false, 0), "# A\n\nB\n\nEndet: <t:0:R>");
}

#[test]
fn message_of_giveaway_finished_early_shows_now() {
    let mut g = giveaway(1);
    g.time = Some(2000);
    assert_eq!(g.get_message(true, 1500), "# T\n\nD\n\nEndete: <t:1500:R>");
    assert_eq!(g.get_message(false, 1500), "# T\n\nD\n\nEndet: <t:2000:R>");
}
