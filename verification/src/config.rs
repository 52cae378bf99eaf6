use std::collections::HashMap;
use vstd::prelude::*;
use vstd::string::StringExecFns;

use crate::data::{PlayerId, RuleOption};

verus! {

/// The settings chosen before a round starts.
#[derive(Debug)]
pub struct AppConfig {
    pub round_name: String,
    pub players_csv: String,
    pub questions_csv: String,
    pub log_csv: String,
    pub next_round_player_csv: String,
    pub next_round_advance_count: u32,
    pub rule_option: RuleOption,
    pub n_correct: u32,
    pub m_wrong: u32,
    /// Score, correct count and wrong count set up for some players.
    pub initial_player_states: HashMap<PlayerId, (i32, u32, u32)>,
}

impl Default for AppConfig {
    fn default() -> (c: Self)
        ensures
            c.round_name@ == "Free Batting"@,
            c.players_csv@ == "data/players.csv"@,
            c.questions_csv@ == "data/questions.csv"@,
            c.log_csv@ == "data/log.csv"@,
            c.next_round_player_csv@ == "data/next_round_players.csv"@,
            c.next_round_advance_count == 5,
            c.rule_option == RuleOption::FreeBatting,
            c.n_correct == 7,
            c.m_wrong == 3,
            c.initial_player_states@ == Map::<PlayerId, (i32, u32, u32)>::empty(),
    {
        Self {
            round_name: String::from_str("Free Batting"),
            players_csv: String::from_str("data/players.csv"),
            questions_csv: String::from_str("data/questions.csv"),
            log_csv: String::from_str("data/log.csv"),
            next_round_player_csv: String::from_str("data/next_round_players.csv"),
            next_round_advance_count: 5,
            rule_option: RuleOption::default(),
            n_correct: 7,
            m_wrong: 3,
            initial_player_states: HashMap::new(),
        }
    }
}

} // verus!
