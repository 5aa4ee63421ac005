//! A session of the game: one field, what the player has uncovered of it,
//! and the phase that the game is in.

use vstd::prelude::*;
use rand::rngs::ThreadRng;
use crate::cascade::Signal;
use crate::config::{ConfigurationError, DifficultySettings};
use crate::coordinates::Coordinates;
use crate::coverage::{Coverage, CoverageState};
use crate::engine::{resolve_reveal, RevealOutcome};
use crate::field::Field;
use crate::grid::Grid;

verus! {

/// The phase of a session. Reveals and flags have an effect in `InGame`
/// only.
#[derive(Debug, Copy, Clone, Eq, PartialEq, Structural)]
pub enum Phase {
    InGame,
    GameOver,
    Victory,
}

/// What the player can ask of a session.
#[derive(Debug, Copy, Clone)]
pub enum Command {
    Reveal(Coordinates),
    ToggleFlag(Coordinates),
    Restart,
    ChangeDifficulty(DifficultySettings),
}

/// What a session reports back for the display.
#[derive(Debug, PartialEq, Eq)]
pub enum Outcome {
    /// These cells were uncovered.
    CoordinatesUncovered(Vec<Coordinates>),
    /// The cell has gained (`true`) or lost (`false`) its flag.
    FlagToggled(Coordinates, bool),
    /// A bomb was uncovered: the game is lost.
    Exploded,
    /// Only the bombs are still covered: the game is won.
    Cleared,
    /// A new field was laid out, of this width and height and with this
    /// many bombs.
    SessionReset(u16, u16, u16),
}

/// The phase after a reveal that ended with `signal`.
pub open spec fn phase_after(signal: Option<Signal>) -> Phase {
    match signal {
        Some(Signal::Exploded) => Phase::GameOver,
        Some(Signal::Cleared) => Phase::Victory,
        None => Phase::InGame,
    }
}

/// The state of a session.
pub struct SessionState {
    pub difficulty: DifficultySettings,
    pub field: Field,
    pub coverage: Coverage,
    pub phase: Phase,
}

impl SessionState {
    /// The field is laid out as the settings say, the coverage is one of
    /// that field, and no cascade is left unfinished.
    pub open spec fn wf(self) -> bool {
        &&& self.difficulty.valid()
        &&& self.field.playable()
        &&& self.field.width == self.difficulty.grid_size.x
        &&& self.field.height == self.difficulty.grid_size.y
        &&& self.field.bombs.len() == self.difficulty.bomb_count
        &&& self.coverage.wf()
        &&& self.coverage.width == self.field.width
        &&& self.coverage.height == self.field.height
        &&& self.coverage.cascade_closed(self.field)
    }

    /// The state at the start of a game on `field`.
    pub open spec fn started(difficulty: DifficultySettings, field: Field) -> SessionState {
        SessionState {
            difficulty,
            field,
            coverage: Coverage::fresh(field.width, field.height),
            phase: Phase::InGame,
        }
    }

    /// The state after a reveal of `target`. Outside `InGame` nothing
    /// changes. In it the cascade is uncovered, and the game is over where
    /// the reveal has uncovered a bomb, and won where it has cleared the
    /// field.
    pub open spec fn after_reveal(self, target: Coordinates) -> SessionState {
        if self.phase == Phase::InGame {
            SessionState {
                coverage: self.coverage.after_reveal(self.field, target),
                phase: phase_after(self.coverage.signal(self.field, target)),
                ..self
            }
        } else {
            self
        }
    }

    /// The state after the flag at `c` was toggled. Outside `InGame` nothing
    /// changes.
    pub open spec fn after_toggle_flag(self, c: Coordinates) -> SessionState {
        if self.phase == Phase::InGame {
            SessionState { coverage: self.coverage.toggle_flag(c), ..self }
        } else {
            self
        }
    }
}

/// The report of how a reveal has ended the game.
pub open spec fn reported_signal(signal: Option<Signal>) -> Seq<Outcome> {
    match signal {
        Some(Signal::Exploded) => seq![Outcome::Exploded],
        Some(Signal::Cleared) => seq![Outcome::Cleared],
        None => Seq::empty(),
    }
}

/// Whether `outcomes` reports a reveal that has uncovered the cells
/// `uncovered` and has ended with `signal`: first the uncovered cells, each
/// once, if there are any; then the signal, if there is one.
pub open spec fn reports_reveal(outcomes: Seq<Outcome>, uncovered: Set<Coordinates>, signal: Option<Signal>) -> bool {
    if uncovered == Set::<Coordinates>::empty() {
        outcomes == reported_signal(signal)
    } else {
        &&& outcomes.len() == 1 + reported_signal(signal).len()
        &&& outcomes[0] matches Outcome::CoordinatesUncovered(cells)
        &&& cells@.no_duplicates()
        &&& cells@.to_set() == uncovered
        &&& outcomes.subrange(1, outcomes.len() as int) == reported_signal(signal)
    }
}

/// The report of a new field.
pub open spec fn reported_reset(state: SessionState) -> Seq<Outcome> {
    seq![
        Outcome::SessionReset(state.field.width, state.field.height, state.difficulty.bomb_count),
    ]
}

/// One game after another on fields of one difficulty, until the difficulty
/// is changed.
pub struct Session {
    difficulty: DifficultySettings,
    field: Grid,
    coverage: CoverageState,
    phase: Phase,
}

impl View for Session {
    type V = SessionState;

    closed spec fn view(&self) -> SessionState {
        SessionState {
            difficulty: self.difficulty,
            field: self.field@,
            coverage: self.coverage@,
            phase: self.phase,
        }
    }
}

impl Session {
    /// What holds of every session that a constructor has made and the
    /// methods below have changed.
    pub closed spec fn wf(&self) -> bool {
        &&& self@.wf()
        &&& self.field.wf()
        &&& self.coverage.wf()
    }

    /// The state of a valid session is valid.
    pub proof fn lemma_wf(&self)
        requires
            self.wf(),
        ensures
            self@.wf(),
    {
    }

    /// The start of a game on `field`.
    fn start(difficulty: DifficultySettings, field: Grid) -> (session: Session)
        requires
            difficulty.valid(),
            field.wf(),
            field@.playable(),
            field@.width == difficulty.grid_size.x,
            field@.height == difficulty.grid_size.y,
            field@.bombs.len() == difficulty.bomb_count,
        ensures
            session.wf(),
            session@ == SessionState::started(difficulty, field@),
            session@.coverage.covered.len() == field@.cell_count(),
    {
        let coverage = CoverageState::new(field.width(), field.height());
        proof {
            coverage.lemma_wf();
            crate::laws::lemma_fresh_is_closed(field@);
        }
        Session { difficulty, field, coverage, phase: Phase::InGame }
    }

    /// Starts a session on a field laid out at random with the given
    /// settings, or refuses settings with which no field can be laid out.
    pub fn new(difficulty: DifficultySettings, rng: &mut ThreadRng) -> (started: Result<
        Session,
        ConfigurationError,
    >)
        ensures
            match started {
                Ok(session) => {
                    &&& difficulty.valid()
                    &&& session.wf()
                    &&& session@ == SessionState::started(difficulty, session@.field)
                    &&& session@.coverage.covered.len() == session@.field.cell_count()
                },
                Err(e) => difficulty.refusal() == Some(e),
            },
    {
        match difficulty.check() {
            Ok(_) => {
                let field = Grid::lay_out(
                    difficulty.grid_size.x,
                    difficulty.grid_size.y,
                    difficulty.bomb_count,
                    u64::MAX,
                    rng,
                );
                Ok(Session::start(difficulty, field))
            },
            Err(e) => Err(e),
        }
    }

    /// Starts a session on the given field. Its settings are those of the
    /// field. A field without cells, or without a cell free of bombs, is
    /// refused.
    pub fn with_field(field: Grid) -> (started: Result<Session, ConfigurationError>)
        ensures
            match started {
                Ok(session) => {
                    &&& field@.playable()
                    &&& session.wf()
                    &&& session@ == SessionState::started(session@.difficulty, field@)
                    &&& session@.coverage.covered.len() == field@.cell_count()
                },
                Err(e) => crate::config::refusal(field@.width, field@.height, field@.bombs.len())
                    == Some(e),
            },
    {
        let difficulty = DifficultySettings::custom(field.width(), field.height(), field.bomb_count());
        match difficulty.check() {
            Ok(_) => Ok(Session::start(difficulty, field)),
            Err(e) => Err(e),
        }
    }

    pub fn phase(&self) -> (phase: Phase)
        ensures
            phase == self@.phase,
    {
        self.phase
    }

    pub fn difficulty(&self) -> (difficulty: DifficultySettings)
        ensures
            difficulty == self@.difficulty,
    {
        self.difficulty
    }

    /// The field of the game that is being played.
    pub fn field(&self) -> (field: &Grid)
        ensures
            field@ == self@.field,
    {
        &self.field
    }

    /// What is covered and flagged in the game that is being played.
    pub fn coverage(&self) -> (coverage: &CoverageState)
        requires
            self.wf(),
        ensures
            coverage@ == self@.coverage,
            coverage.wf(),
    {
        &self.coverage
    }

    /// Reveals the cell at `coord` and what cascades from it. The game is
    /// over when this uncovers a bomb, and won when only the bombs stay
    /// covered. Outside `InGame` nothing happens.
    pub fn reveal_cell(&mut self, coord: Coordinates) -> (outcome: RevealOutcome)
        requires
            old(self).wf(),
        ensures
            final(self).wf(),
            final(self)@ == old(self)@.after_reveal(coord),
            outcome.uncovered@.no_duplicates(),
            outcome.uncovered@.to_set() == old(self)@.coverage.covered.difference(
                final(self)@.coverage.covered,
            ),
            outcome.signal == (if old(self)@.phase == Phase::InGame {
                old(self)@.coverage.signal(old(self)@.field, coord)
            } else {
                None
            }),
    {
        match self.phase {
            Phase::InGame => {
                let ghost before = self.coverage@;
                proof {
                    self.coverage.lemma_wf();
                    crate::cascade::lemma_cascade_start(self.field@, before.covered, coord);
                }
                let outcome = resolve_reveal(&self.field, &mut self.coverage, coord);
                proof {
                    self.coverage.lemma_wf();
                    crate::laws::lemma_closed_is_kept(before, self.field@, coord);
                    assert(outcome.uncovered@.to_set() =~= before.covered.difference(
                        self.coverage@.covered,
                    ));
                }
                match outcome.signal {
                    Some(Signal::Exploded) => {
                        self.phase = Phase::GameOver;
                    },
                    Some(Signal::Cleared) => {
                        self.phase = Phase::Victory;
                    },
                    None => {},
                }
                outcome
            },
            _ => {
                let uncovered: Vec<Coordinates> = Vec::new();
                proof {
                    assert(uncovered@.to_set() =~= self.coverage@.covered.difference(
                        self.coverage@.covered,
                    ));
                }
                RevealOutcome { uncovered, signal: None }
            },
        }
    }

    /// Toggles the flag of the cell at `coord` and tells whether the cell
    /// carries a flag afterwards; `None` where nothing has changed: the
    /// cell is not covered, or the session is not `InGame`.
    pub fn toggle_flag(&mut self, coord: Coordinates) -> (now_flagged: Option<bool>)
        requires
            old(self).wf(),
        ensures
            final(self).wf(),
            final(self)@ == old(self)@.after_toggle_flag(coord),
            now_flagged == (if old(self)@.phase == Phase::InGame && old(self)@.coverage.covered.contains(
                coord,
            ) {
                Some(!old(self)@.coverage.flagged.contains(coord))
            } else {
                None
            }),
    {
        match self.phase {
            Phase::InGame => {
                let ghost before = self.coverage@;
                let now_flagged = self.coverage.toggle_flag(coord);
                proof {
                    self.coverage.lemma_wf();
                    crate::laws::lemma_closed_is_kept(before, self.field@, coord);
                }
                now_flagged
            },
            _ => None,
        }
    }

    /// Throws the game away and starts another one with the same settings:
    /// a field laid out anew, every cell covered, no flag, `InGame`.
    pub fn restart(&mut self, rng: &mut ThreadRng)
        requires
            old(self).wf(),
        ensures
            final(self).wf(),
            final(self)@ == SessionState::started(old(self)@.difficulty, final(self)@.field),
            final(self)@.coverage.covered.len() == final(self)@.field.cell_count(),
    {
        let field = Grid::lay_out(
            self.difficulty.grid_size.x,
            self.difficulty.grid_size.y,
            self.difficulty.bomb_count,
            u64::MAX,
            rng,
        );
        *self = Session::start(self.difficulty, field);
    }

    /// Takes new settings and starts a game with them. Settings with which
    /// no field can be laid out are refused, and the session stays as it is.
    pub fn change_difficulty(&mut self, settings: DifficultySettings, rng: &mut ThreadRng) -> (done:
        Result<(), ConfigurationError>)
        requires
            old(self).wf(),
        ensures
            final(self).wf(),
            match done {
                Ok(_) => {
                    &&& settings.valid()
                    &&& final(self)@ == SessionState::started(settings, final(self)@.field)
                    &&& final(self)@.coverage.covered.len() == final(self)@.field.cell_count()
                },
                Err(e) => settings.refusal() == Some(e) && *final(self) == *old(self),
            },
    {
        match Session::new(settings, rng) {
            Ok(session) => {
                *self = session;
                Ok(())
            },
            Err(e) => Err(e),
        }
    }

    /// Carries out one command of the player and reports what it has done.
    /// The only command that can fail is a change to settings with which no
    /// field can be laid out; it leaves the session as it is.
    pub fn apply(&mut self, command: Command, rng: &mut ThreadRng) -> (reported: Result<
        Vec<Outcome>,
        ConfigurationError,
    >)
        requires
            old(self).wf(),
        ensures
            final(self).wf(),
            match command {
                Command::Reveal(coord) => {
                    &&& reported is Ok
                    &&& final(self)@ == old(self)@.after_reveal(coord)
                    &&& reports_reveal(
                        reported->Ok_0@,
                        old(self)@.coverage.covered.difference(final(self)@.coverage.covered),
                        if old(self)@.phase == Phase::InGame {
                            old(self)@.coverage.signal(old(self)@.field, coord)
                        } else {
                            None
                        },
                    )
                },
                Command::ToggleFlag(coord) => {
                    &&& reported is Ok
                    &&& final(self)@ == old(self)@.after_toggle_flag(coord)
                    &&& reported->Ok_0@ == (if old(self)@.phase == Phase::InGame
                        && old(self)@.coverage.covered.contains(coord) {
                        seq![Outcome::FlagToggled(coord, !old(self)@.coverage.flagged.contains(coord))]
                    } else {
                        Seq::empty()
                    })
                },
                Command::Restart => {
                    &&& reported is Ok
                    &&& final(self)@ == SessionState::started(old(self)@.difficulty, final(self)@.field)
                    &&& reported->Ok_0@ == reported_reset(final(self)@)
                },
                Command::ChangeDifficulty(settings) => match reported {
                    Ok(outcomes) => {
                        &&& settings.valid()
                        &&& final(self)@ == SessionState::started(settings, final(self)@.field)
                        &&& outcomes@ == reported_reset(final(self)@)
                    },
                    Err(e) => settings.refusal() == Some(e) && *final(self) == *old(self),
                },
            },
    {
        let mut outcomes: Vec<Outcome> = Vec::new();
        match command {
            Command::Reveal(coord) => {
                let outcome = self.reveal_cell(coord);
                let ghost uncovered = outcome.uncovered@.to_set();
                if outcome.uncovered.len() > 0 {
                    proof {
                        assert(uncovered.contains(outcome.uncovered@[0]));
                    }
                    outcomes.push(Outcome::CoordinatesUncovered(outcome.uncovered));
                } else {
                    proof {
                        assert(uncovered =~= Set::<Coordinates>::empty());
                    }
                }
                let ghost head = outcomes@;
                match outcome.signal {
                    Some(Signal::Exploded) => {
                        outcomes.push(Outcome::Exploded);
                    },
                    Some(Signal::Cleared) => {
                        outcomes.push(Outcome::Cleared);
                    },
                    None => {},
                }
                proof {
                    assert(outcomes@.subrange(head.len() as int, outcomes@.len() as int) =~= reported_signal(
                        outcome.signal,
                    ));
                    if head.len() == 0 {
                        assert(outcomes@ =~= reported_signal(outcome.signal));
                    }
                }
            },
            Command::ToggleFlag(coord) => {
                match self.toggle_flag(coord) {
                    Some(now_flagged) => {
                        outcomes.push(Outcome::FlagToggled(coord, now_flagged));
                        assert(outcomes@ =~= seq![Outcome::FlagToggled(coord, now_flagged)]);
                    },
                    None => {
                        assert(outcomes@ =~= Seq::<Outcome>::empty());
                    },
                }
            },
            Command::Restart => {
                self.restart(rng);
                outcomes.push(
                    Outcome::SessionReset(self.field.width(), self.field.height(), self.difficulty.bomb_count),
                );
                assert(outcomes@ =~= reported_reset(self@));
            },
            Command::ChangeDifficulty(settings) => {
                match self.change_difficulty(settings, rng) {
                    Ok(_) => {
                        outcomes.push(
                            Outcome::SessionReset(
                                self.field.width(),
                                self.field.height(),
                                self.difficulty.bomb_count,
                            ),
                        );
                        assert(outcomes@ =~= reported_reset(self@));
                    },
                    Err(e) => {
                        return Err(e);
                    },
                }
            },
        }
        Ok(outcomes)
    }
}

} // verus!
