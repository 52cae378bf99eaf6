use std::collections::HashMap;
use std::collections::HashSet;
use vstd::prelude::*;

verus! {

broadcast use vstd::std_specs::hash::group_hash_axioms;

/// Identifier of a player, as read from the player list.
pub type PlayerId = usize;

/// A contestant.
#[derive(Debug)]
pub struct Player {
    pub id: PlayerId,
    pub name: String,
    pub affiliation: Option<String>,
    pub grade: Option<String>,
}

/// The contents of a `Player`, with its texts taken as character sequences.
pub struct PlayerView {
    pub id: PlayerId,
    pub name: Seq<char>,
    pub affiliation: Option<Seq<char>>,
    pub grade: Option<Seq<char>>,
}

/// The characters of an optional text.
pub open spec fn opt_text(s: Option<String>) -> Option<Seq<char>> {
    match s {
        Some(t) => Some(t@),
        None => None,
    }
}

impl View for Player {
    type V = PlayerView;

    open spec fn view(&self) -> PlayerView {
        PlayerView {
            id: self.id,
            name: self.name@,
            affiliation: opt_text(self.affiliation),
            grade: opt_text(self.grade),
        }
    }
}

/// Copies an optional text.
pub fn clone_opt_text(s: &Option<String>) -> (r: Option<String>)
    ensures
        opt_text(r) == opt_text(*s),
{
    match s {
        Some(t) => Some(t.clone()),
        None => None,
    }
}

impl Clone for Player {
    fn clone(&self) -> (r: Self)
        ensures
            r@ == self@,
    {
        Player {
            id: self.id,
            name: self.name.clone(),
            affiliation: clone_opt_text(&self.affiliation),
            grade: clone_opt_text(&self.grade),
        }
    }
}

/// One record of the player list file.
pub struct PlayerRow {
    pub id: PlayerId,
    pub name: String,
    pub affiliation: Option<String>,
    pub grade: Option<String>,
}

impl From<PlayerRow> for Player {
    fn from(row: PlayerRow) -> (p: Self) {
        Player { id: row.id, name: row.name, affiliation: row.affiliation, grade: row.grade }
    }
}

impl vstd::std_specs::convert::FromSpecImpl<PlayerRow> for Player {
    open spec fn obeys_from_spec() -> bool {
        true
    }

    open spec fn from_spec(row: PlayerRow) -> Player {
        Player { id: row.id, name: row.name, affiliation: row.affiliation, grade: row.grade }
    }
}

/// A question of the round.
#[derive(Debug)]
pub struct Question {
    pub id: usize,
    pub text: String,
    pub answer: String,
}

/// The contents of a `Question`, with its texts taken as character sequences.
pub struct QuestionView {
    pub id: usize,
    pub text: Seq<char>,
    pub answer: Seq<char>,
}

impl View for Question {
    type V = QuestionView;

    open spec fn view(&self) -> QuestionView {
        QuestionView { id: self.id, text: self.text@, answer: self.answer@ }
    }
}

impl Clone for Question {
    fn clone(&self) -> (r: Self)
        ensures
            r@ == self@,
    {
        Question { id: self.id, text: self.text.clone(), answer: self.answer.clone() }
    }
}

/// One record of the question list file.
pub struct QuestionRow {
    pub id: usize,
    pub text: String,
    pub answer: String,
}

impl From<QuestionRow> for Question {
    fn from(row: QuestionRow) -> (q: Self) {
        Question { id: row.id, text: row.text, answer: row.answer }
    }
}

impl vstd::std_specs::convert::FromSpecImpl<QuestionRow> for Question {
    open spec fn obeys_from_spec() -> bool {
        true
    }

    open spec fn from_spec(row: QuestionRow) -> Question {
        Question { id: row.id, text: row.text, answer: row.answer }
    }
}

/// What the scoreboard tracks for one player during a round.
#[derive(Clone, Copy, Debug, PartialEq, Eq, Structural)]
pub struct PlayerStatus {
    pub score: i32,
    pub correct_count: u32,
    pub wrong_count: u32,
    pub freeze_count: u32,
    pub frozen_until: Option<u32>,
    pub is_winner: bool,
    pub is_eliminated: bool,
    pub finish_rank: Option<u32>,
}

/// The status every player starts a round with.
pub open spec fn fresh_status() -> PlayerStatus {
    PlayerStatus {
        score: 0,
        correct_count: 0,
        wrong_count: 0,
        freeze_count: 0,
        frozen_until: None,
        is_winner: false,
        is_eliminated: false,
        finish_rank: None,
    }
}

impl PlayerStatus {
    pub fn new() -> (s: Self)
        ensures
            s == fresh_status(),
    {
        Self {
            score: 0,
            correct_count: 0,
            wrong_count: 0,
            freeze_count: 0,
            frozen_until: None,
            is_winner: false,
            is_eliminated: false,
            finish_rank: None,
        }
    }
}

impl Default for PlayerStatus {
    fn default() -> (s: Self)
        ensures
            s == fresh_status(),
    {
        Self::new()
    }
}

/// The state of the question being played.
#[derive(Debug)]
pub struct QuestionStatus {
    pub finished: bool,
    /// Players who answered wrong and may not answer this question again.
    pub locked: HashSet<PlayerId>,
}

impl QuestionStatus {
    pub fn new() -> (s: Self)
        ensures
            !s.finished,
            s.locked@ == Set::<PlayerId>::empty(),
    {
        Self { finished: false, locked: HashSet::new() }
    }
}

impl Default for QuestionStatus {
    fn default() -> (s: Self)
        ensures
            !s.finished,
            s.locked@ == Set::<PlayerId>::empty(),
    {
        Self::new()
    }
}

/// What can happen to a player during a question.
#[derive(Clone, Copy, Debug, PartialEq, Eq, Structural)]
pub enum Event {
    /// The player pressed the buzzer; the number is the buzz order.
    Buzz(u32),
    Correct,
    Wrong,
    /// The operator set the player's score by hand.
    SetScore(u32),
}

/// The scoring rules a round can be played under.
#[derive(Clone, Copy, Debug, PartialEq, Eq, Structural)]
pub enum RuleOption {
    FreeBatting,
    NCorrectMWrong,
    UpDown,
    Freeze,
    NByM,
}

/// The name under which a rule is shown.
pub open spec fn rule_label(r: RuleOption) -> Seq<char> {
    match r {
        RuleOption::FreeBatting => "Free Batting"@,
        RuleOption::NCorrectMWrong => "N Correct M Wrong"@,
        RuleOption::UpDown => "UpDown"@,
        RuleOption::Freeze => "N Freeze"@,
        RuleOption::NByM => "N by M"@,
    }
}

/// Every rule, in the order in which they are offered.
pub open spec fn rule_options() -> Seq<RuleOption> {
    seq![
        RuleOption::FreeBatting,
        RuleOption::NCorrectMWrong,
        RuleOption::UpDown,
        RuleOption::Freeze,
        RuleOption::NByM,
    ]
}

impl RuleOption {
    pub fn label(&self) -> (s: &str)
        ensures
            s@ == rule_label(*self),
    {
        match self {
            Self::FreeBatting => "Free Batting",
            Self::NCorrectMWrong => "N Correct M Wrong",
            Self::UpDown => "UpDown",
            Self::Freeze => "N Freeze",
            Self::NByM => "N by M",
        }
    }

    pub fn all_options() -> (r: &'static [RuleOption])
        ensures
            r@ == rule_options(),
    {
        &[Self::FreeBatting, Self::NCorrectMWrong, Self::UpDown, Self::Freeze, Self::NByM]
    }
}

impl Default for RuleOption {
    fn default() -> (r: Self)
        ensures
            r == RuleOption::FreeBatting,
    {
        Self::FreeBatting
    }
}

/// The ids that occur in a list of players.
pub open spec fn player_ids(players: Seq<Player>) -> Set<PlayerId> {
    Set::new(|k: PlayerId| exists|i: int| 0 <= i < players.len() && players[i].id == k)
}

/// The statuses a round starts from: every listed player, fresh.
pub open spec fn fresh_statuses(players: Seq<Player>) -> Map<PlayerId, PlayerStatus> {
    Map::new(|k: PlayerId| player_ids(players).contains(k), |k: PlayerId| fresh_status())
}

/// The state shared between the operator's controls and the display.
#[derive(Debug)]
pub struct SharedQuizState {
    pub players: Vec<Player>,
    /// What the display shows: the statuses as of the last finished question.
    pub display_statuses: HashMap<PlayerId, PlayerStatus>,
    /// The statuses with the current question's events applied.
    pub working_statuses: HashMap<PlayerId, PlayerStatus>,
    pub questions: Vec<Question>,
    pub current_question: u32,
    pub rule_option: RuleOption,
    pub n_correct: u32,
    pub m_wrong: u32,
    /// The events of the current question, per player.
    pub player_events: HashMap<PlayerId, Vec<Event>>,
    pub question_status: QuestionStatus,
    /// The rank the next player to finish will get.
    pub next_finish_rank: u32,
    /// Whether the round is over and the advancing players were exported.
    pub round_completed: bool,
}

impl SharedQuizState {
    /// The settings of a state that has not started a round yet.
    pub open spec fn is_initial_setup(&self) -> bool {
        &&& self.current_question == 0
        &&& self.rule_option == RuleOption::FreeBatting
        &&& self.n_correct == 7
        &&& self.m_wrong == 3
        &&& self.player_events@ == Map::<PlayerId, Vec<Event>>::empty()
        &&& !self.question_status.finished
        &&& self.question_status.locked@ == Set::<PlayerId>::empty()
        &&& self.next_finish_rank == 1
        &&& !self.round_completed
    }

    pub fn new(players: Vec<Player>, questions: Vec<Question>) -> (s: Self)
        ensures
            s.players@ == players@,
            s.questions@ == questions@,
            s.display_statuses@ == fresh_statuses(players@),
            s.working_statuses@ == fresh_statuses(players@),
            s.is_initial_setup(),
    {
        let mut display_statuses: HashMap<PlayerId, PlayerStatus> = HashMap::new();
        let mut i: usize = 0;
        while i < players.len()
            invariant
                i <= players.len(),
                display_statuses@ == fresh_statuses(players@.take(i as int)),
            decreases players.len() - i,
        {
            display_statuses.insert(players[i].id, PlayerStatus::new());
            proof {
                let prev = players@.take(i as int);
                let next = players@.take(i as int + 1);
                assert forall|k: PlayerId| player_ids(next).contains(k) <==> (player_ids(
                    prev,
                ).contains(k) || k == players@[i as int].id) by {
                    if player_ids(next).contains(k) {
                        let j = choose|j: int| 0 <= j < next.len() && next[j].id == k;
                        if j < i {
                            assert(prev[j].id == k);
                        }
                    }
                    if player_ids(prev).contains(k) {
                        let j = choose|j: int| 0 <= j < prev.len() && prev[j].id == k;
                        assert(next[j].id == k);
                    }
                    if k == players@[i as int].id {
                        assert(next[i as int].id == k);
                    }
                }
                assert(display_statuses@ =~= fresh_statuses(next));
            }
            i = i + 1;
        }
        assert(players@.take(players.len() as int) == players@);
        let working_statuses = display_statuses.clone();
        Self {
            players,
            display_statuses,
            working_statuses,
            questions,
            current_question: 0,
            rule_option: RuleOption::default(),
            n_correct: 7,
            m_wrong: 3,
            player_events: HashMap::new(),
            question_status: QuestionStatus::new(),
            next_finish_rank: 1,
            round_completed: false,
        }
    }

    pub fn empty() -> (s: Self)
        ensures
            s.players@ == Seq::<Player>::empty(),
            s.questions@ == Seq::<Question>::empty(),
            s.display_statuses@ == Map::<PlayerId, PlayerStatus>::empty(),
            s.working_statuses@ == Map::<PlayerId, PlayerStatus>::empty(),
            s.is_initial_setup(),
    {
        Self {
            players: Vec::new(),
            display_statuses: HashMap::new(),
            working_statuses: HashMap::new(),
            questions: Vec::new(),
            current_question: 0,
            rule_option: RuleOption::default(),
            n_correct: 7,
            m_wrong: 3,
            player_events: HashMap::new(),
            question_status: QuestionStatus::new(),
            next_finish_rank: 1,
            round_completed: false,
        }
    }
}

} // verus!
