//! What is kept per guild: its time zone and its running giveaways.
use std::collections::{HashMap, HashSet};
use crate::forms::decimal;
use vstd::prelude::*;

verus! {

broadcast use vstd::std_specs::hash::group_hash_axioms;

/// The identifier of a giveaway.
#[derive(Clone, Copy, Debug, Hash, PartialEq, Eq, Structural, PartialOrd, Ord)]
pub struct GiveawayId(pub u64);

/// A giveaway as it is stored: users, channel and message by their numbers,
/// the end as seconds since 1970-01-01 00:00:00 UTC, if it has one.
#[derive(Debug)]
pub struct Giveaway {
    pub title: String,
    pub description: String,
    pub participants: HashSet<u64>,
    pub winners: u32,
    pub channel: u64,
    pub message: u64,
    pub time: Option<i64>,
}

impl Giveaway {
    /// The message text of a giveaway, see `message_text`; `now` is the
    /// current instant.
    pub fn get_message_early(title: &str, description: &str, time: Option<i64>, past: bool, now: i64) -> (r: String)
        ensures
            r@ == message_text(title@, description@, time, past, now),
    {
        let mut s = String::new();
        s.append("# ");
        s.append(title);
        s.append("\n\n");
        s.append(description);
        if let Some(t) = time {
            s.append("\n\n");
            if past {
                s.append("Endete");
            } else {
                s.append("Endet");
            }
            s.append(": <t:");
            append_signed(&mut s, if past && t > now { now } else { t });
            s.append(":R>");
        }
        assert(s@ =~= message_text(title@, description@, time, past, now));
        s
    }

    /// This giveaway's message text at the instant `now`.
    pub fn get_message(&self, past: bool, now: i64) -> (r: String)
        ensures
            r@ == message_text(self.title@, self.description@, self.time, past, now),
    {
        Giveaway::get_message_early(self.title.as_str(), self.description.as_str(), self.time, past, now)
    }

    /// How many winners are drawn: as many as asked for, at most one per
    /// participant.
    pub fn winners_count(&self) -> (r: usize)
        ensures
            r as int == if (self.winners as int) < self.participants@.len() {
                self.winners as int
            } else {
                self.participants@.len() as int
            },
    {
        let n = self.participants.len();
        if (self.winners as u64) < (n as u64) {
            self.winners as usize
        } else {
            n
        }
    }
}

/// An integer in decimal, with a leading '-' where it is negative.
pub open spec fn signed_decimal(n: int) -> Seq<char> {
    if n < 0 {
        seq!['-'] + decimal((-n) as nat)
    } else {
        decimal(n as nat)
    }
}

/// The text of a giveaway's message: its title as a heading, its
/// description, and where it has an end, when it ends or ended as a relative
/// timestamp. A giveaway that ended before its time shows `now` as its end.
pub open spec fn message_text(title: Seq<char>, description: Seq<char>, time: Option<i64>, past: bool, now: i64) -> Seq<char> {
    "# "@ + title + "\n\n"@ + description + match time {
        None => Seq::<char>::empty(),
        Some(t) => "\n\n"@ + (if past {
            "Endete"@
        } else {
            "Endet"@
        }) + ": <t:"@ + signed_decimal(if past && t > now {
            now as int
        } else {
            t as int
        }) + ":R>"@,
    }
}

fn append_digit(s: &mut String, d: u64)
    requires
        d <= 9,
    ensures
        final(s)@ == old(s)@.push(crate::forms::digit_char(d as int)),
{
    let w = match d {
        0 => "0",
        1 => "1",
        2 => "2",
        3 => "3",
        4 => "4",
        5 => "5",
        6 => "6",
        7 => "7",
        8 => "8",
        _ => "9",
    };
    proof {
        reveal_strlit("0");
        reveal_strlit("1");
        reveal_strlit("2");
        reveal_strlit("3");
        reveal_strlit("4");
        reveal_strlit("5");
        reveal_strlit("6");
        reveal_strlit("7");
        reveal_strlit("8");
        reveal_strlit("9");
    }
    s.append(w);
    assert(s@ =~= old(s)@.push(crate::forms::digit_char(d as int)));
}

fn append_decimal(s: &mut String, n: u64)
    ensures
        final(s)@ == old(s)@ + decimal(n as nat),
    decreases n,
{
    if n >= 10 {
        append_decimal(s, n / 10);
    }
    append_digit(s, n % 10);
    assert(s@ =~= old(s)@ + decimal(n as nat));
}

fn append_signed(s: &mut String, n: i64)
    ensures
        final(s)@ == old(s)@ + signed_decimal(n as int),
{
    if n < 0 {
        s.append("-");
        proof {
            reveal_strlit("-");
        }
        let m: u64 = (0i128 - n as i128) as u64;
        append_decimal(s, m);
        assert(s@ =~= old(s)@ + signed_decimal(n as int));
    } else {
        append_decimal(s, n as u64);
    }
}

/// The two giveaways differ at most in their participants.
pub open spec fn same_but_participants(a: Giveaway, b: Giveaway) -> bool {
    &&& a.title == b.title
    &&& a.description == b.description
    &&& a.winners == b.winners
    &&& a.channel == b.channel
    &&& a.message == b.message
    &&& a.time == b.time
}

/// The state of one guild: the name of its time zone and its giveaways,
/// keyed by the number of their identifier.
#[derive(Debug)]
pub struct GuildState {
    pub timezone: String,
    pub giveaways: HashMap<u64, Giveaway>,
}

impl Default for GuildState {
    /// No giveaways, in Central European Time.
    fn default() -> (r: GuildState)
        ensures
            r.timezone@ == "CET"@,
            r.giveaways@ == Map::<u64, Giveaway>::empty(),
    {
        GuildState { timezone: String::from_str("CET"), giveaways: HashMap::new() }
    }
}

impl GuildState {
    /// Enters `user` into the giveaway `id`. True where the giveaway exists
    /// and the user was not in it yet.
    pub fn add_user(&mut self, id: GiveawayId, user: u64) -> (r: bool)
        ensures
            final(self).timezone == old(self).timezone,
            final(self).giveaways@.dom() == old(self).giveaways@.dom(),
            forall|k: u64| k != id.0 && old(self).giveaways@.contains_key(k)
                ==> #[trigger] final(self).giveaways@[k] == old(self).giveaways@[k],
            old(self).giveaways@.contains_key(id.0) ==> {
                &&& same_but_participants(final(self).giveaways@[id.0], old(self).giveaways@[id.0])
                &&& final(self).giveaways@[id.0].participants@ == old(self).giveaways@[id.0].participants@.insert(user)
            },
            r == (old(self).giveaways@.contains_key(id.0)
                && !old(self).giveaways@[id.0].participants@.contains(user)),
    {
        match self.giveaways.remove(&id.0) {
            Some(mut g) => {
                let r = g.participants.insert(user);
                self.giveaways.insert(id.0, g);
                proof {
                    assert(self.giveaways@.dom() =~= old(self).giveaways@.dom());
                }
                r
            },
            None => {
                proof {
                    assert(self.giveaways@ =~= old(self).giveaways@);
                }
                false
            },
        }
    }

    /// Takes `user` out of the giveaway `id`. True where the giveaway exists
    /// and the user was in it.
    pub fn remove_user(&mut self, id: GiveawayId, user: u64) -> (r: bool)
        ensures
            final(self).timezone == old(self).timezone,
            final(self).giveaways@.dom() == old(self).giveaways@.dom(),
            forall|k: u64| k != id.0 && old(self).giveaways@.contains_key(k)
                ==> #[trigger] final(self).giveaways@[k] == old(self).giveaways@[k],
            old(self).giveaways@.contains_key(id.0) ==> {
                &&& same_but_participants(final(self).giveaways@[id.0], old(self).giveaways@[id.0])
                &&& final(self).giveaways@[id.0].participants@ == old(self).giveaways@[id.0].participants@.remove(user)
            },
            r == (old(self).giveaways@.contains_key(id.0)
                && old(self).giveaways@[id.0].participants@.contains(user)),
    {
        match self.giveaways.remove(&id.0) {
            Some(mut g) => {
                let r = g.participants.remove(&user);
                self.giveaways.insert(id.0, g);
                proof {
                    assert(self.giveaways@.dom() =~= old(self).giveaways@.dom());
                }
                r
            },
            None => {
                proof {
                    assert(self.giveaways@ =~= old(self).giveaways@);
                }
                false
            },
        }
    }
}

} // verus!
