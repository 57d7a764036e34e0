//! A latency-based circuit breaker that decides when challenges are active.
//!
//! When the average latency goes high, the breaker trips, and challenges shield the upstream
//! service from excess load. It resets itself after a certain time, once the latency is low again.
//! If the latency spikes again, it trips again, for longer: the backoff is exponential, so that the
//! breaker does not oscillate under ongoing load.
//!
//! Latencies, thresholds and factors are held as the bits of floating-point numbers; the arithmetic
//! on them is the caller's. Times are nanoseconds since a fixed moment of the caller's choice.

use crate::float_bits::{greater, is_greater};
use vstd::prelude::*;

verus! {

/// The settings of a circuit breaker, as bits of floating-point numbers. Durations and latencies
/// are in seconds.
#[derive(Clone, Copy, Debug, PartialEq, Eq, Structural)]
pub struct CircuitBreakerConfig {
    /// The breaker resets only below this latency.
    pub reset_below: u64,
    /// The breaker trips above this latency.
    pub trip_above: u64,
    /// The shortest time for which the breaker stays open.
    pub min_open_duration: u64,
    /// The time in which half of the backoff is forgotten.
    pub backoff_half_life: u64,
    /// The number of recent samples that make up about 95% of the average.
    pub smoothing: u64,
}

impl CircuitBreakerConfig {
    /// The given settings.
    pub fn new(
        trip_above: u64,
        reset_below: u64,
        smoothing: u64,
        min_open_duration: u64,
        backoff_half_life: u64,
    ) -> (r: Self)
        ensures
            r == (CircuitBreakerConfig {
                reset_below,
                trip_above,
                min_open_duration,
                backoff_half_life,
                smoothing,
            }),
    {
        CircuitBreakerConfig {
            reset_below,
            trip_above,
            min_open_duration,
            backoff_half_life,
            smoothing,
        }
    }
}

/// A time during which the breaker was open.
#[derive(Clone, Copy, Debug, PartialEq, Eq, Structural)]
pub struct OpenSpan {
    /// When it tripped.
    pub start: u64,
    /// When it was reset.
    pub end: u64,
}

/// Where the breaker stands.
#[derive(Clone, Copy, Debug, PartialEq, Eq, Structural)]
pub enum Position {
    /// Challenges are off.
    Closed { prev_open: Option<OpenSpan> },
    /// Challenges are on, and stay on until the cooldown is over. The cooldown is a multiple of the
    /// configured shortest one.
    OpenCooldown { tripped_at: u64, cooldown_factor: u64 },
    /// The cooldown is over, and challenges are on until the latency drops.
    Open { tripped_at: u64 },
}

/// How long the breaker was open before, and how long ago that was, in nanoseconds.
#[derive(Clone, Copy, Debug, PartialEq, Eq, Structural)]
pub struct Backoff {
    /// The time for which it was open.
    pub open_for: u64,
    /// The time for which it has been closed since.
    pub closed_for: u64,
}

/// What has to be computed before the breaker can take a new latency.
#[derive(Clone, Copy, Debug, PartialEq, Eq, Structural)]
pub enum Question {
    /// Nothing.
    Nothing,
    /// The factor of the cooldown that now begins, by the last time that the breaker was open.
    CooldownFactor { previous: Option<Backoff> },
    /// The time at which the cooldown ends.
    CooldownEnd { tripped_at: u64, cooldown_factor: u64 },
}

/// The answer to a question.
#[derive(Clone, Copy, Debug, PartialEq, Eq, Structural)]
pub enum Answer {
    Nothing,
    CooldownFactor(u64),
    CooldownEnd(u64),
}

/// Whether an answer is one to the question.
pub open spec fn answers(question: Question, answer: Answer) -> bool {
    match question {
        Question::Nothing => answer is Nothing,
        Question::CooldownFactor { .. } => answer is CooldownFactor,
        Question::CooldownEnd { .. } => answer is CooldownEnd,
    }
}

/// The nanoseconds from one time to a later one; none where it is not later.
pub open spec fn elapsed(from: u64, to: u64) -> u64 {
    if from <= to {
        (to - from) as u64
    } else {
        0
    }
}

/// What has to be computed at a position for a new average latency.
pub open spec fn asks(
    position: Position,
    latency: u64,
    config: CircuitBreakerConfig,
    now: u64,
) -> Question {
    match position {
        Position::Closed { prev_open } => if greater(latency, config.trip_above) {
            Question::CooldownFactor {
                previous: match prev_open {
                    Some(span) => Some(
                        Backoff {
                            open_for: elapsed(span.start, span.end),
                            closed_for: elapsed(span.end, now),
                        },
                    ),
                    None => None,
                },
            }
        } else {
            Question::Nothing
        },
        Position::OpenCooldown { tripped_at, cooldown_factor } => Question::CooldownEnd {
            tripped_at,
            cooldown_factor,
        },
        Position::Open { .. } => Question::Nothing,
    }
}

/// The position after an open one, once its cooldown is over.
pub open spec fn after_cooldown(
    tripped_at: u64,
    latency: u64,
    config: CircuitBreakerConfig,
    now: u64,
) -> Position {
    if greater(config.reset_below, latency) {
        Position::Closed { prev_open: Some(OpenSpan { start: tripped_at, end: now }) }
    } else {
        Position::Open { tripped_at }
    }
}

/// The position that follows, given the new average latency and the answer to the question.
pub open spec fn moves(
    position: Position,
    latency: u64,
    config: CircuitBreakerConfig,
    now: u64,
    answer: Answer,
) -> Position {
    match position {
        Position::Closed { .. } => match answer {
            Answer::CooldownFactor(cooldown_factor) => if greater(latency, config.trip_above) {
                Position::OpenCooldown { tripped_at: now, cooldown_factor }
            } else {
                position
            },
            _ => position,
        },
        Position::OpenCooldown { tripped_at, .. } => match answer {
            Answer::CooldownEnd(end) => if end <= now {
                after_cooldown(tripped_at, latency, config, now)
            } else {
                position
            },
            _ => position,
        },
        Position::Open { tripped_at } => after_cooldown(tripped_at, latency, config, now),
    }
}

/// The circuit breaker.
pub struct CircuitBreaker {
    position: Position,
    /// Whether the breaker is open, kept for quick access.
    tripped: bool,
}

impl CircuitBreaker {
    #[verifier::type_invariant]
    spec fn flag_agrees(self) -> bool {
        self.tripped == (self.position !is Closed)
    }

    /// Where the breaker stands.
    pub closed spec fn state(self) -> Position {
        self.position
    }

    /// A breaker that has never tripped.
    pub fn new() -> (r: Self)
        ensures
            r.state() == (Position::Closed { prev_open: None }),
    {
        CircuitBreaker { position: Position::Closed { prev_open: None }, tripped: false }
    }

    /// Whether challenges are on.
    pub fn is_tripped(&self) -> (r: bool)
        ensures
            r == (self.state() !is Closed),
    {
        proof {
            use_type_invariant(self);
        }
        self.tripped
    }

    /// What has to be computed before the breaker can take a new average latency.
    pub fn question(&self, latency: u64, config: &CircuitBreakerConfig, now: u64) -> (r: Question)
        ensures
            r == asks(self.state(), latency, *config, now),
    {
        match self.position {
            Position::Closed { prev_open } => {
                if !is_greater(latency, config.trip_above) {
                    return Question::Nothing;
                }
                let previous = match prev_open {
                    Some(span) => Some(
                        Backoff {
                            open_for: span.end.saturating_sub(span.start),
                            closed_for: now.saturating_sub(span.end),
                        },
                    ),
                    None => None,
                };
                Question::CooldownFactor { previous }
            },
            Position::OpenCooldown { tripped_at, cooldown_factor } => Question::CooldownEnd {
                tripped_at,
                cooldown_factor,
            },
            Position::Open { .. } => Question::Nothing,
        }
    }

    /// Takes a new average latency, with the answer to the question that it raises.
    pub fn update(
        &mut self,
        latency: u64,
        config: &CircuitBreakerConfig,
        now: u64,
        answer: Answer,
    )
        requires
            answers(asks(old(self).state(), latency, *config, now), answer),
        ensures
            final(self).state() == moves(old(self).state(), latency, *config, now, answer),
    {
        let position = match self.position {
            Position::Closed { .. } => match answer {
                Answer::CooldownFactor(cooldown_factor) => Position::OpenCooldown {
                    tripped_at: now,
                    cooldown_factor,
                },
                _ => self.position,
            },
            Position::OpenCooldown { tripped_at, .. } => match answer {
                Answer::CooldownEnd(end) if end <= now => {
                    // Where the latency has dropped already, the breaker closes at once, without
                    // waiting for another request.
                    leave_cooldown(tripped_at, latency, config, now)
                },
                _ => self.position,
            },
            Position::Open { tripped_at } => leave_cooldown(tripped_at, latency, config, now),
        };
        let tripped = !matches!(position, Position::Closed { .. });
        *self = CircuitBreaker { position, tripped };
    }
}

/// The position after an open one, once its cooldown is over.
fn leave_cooldown(
    tripped_at: u64,
    latency: u64,
    config: &CircuitBreakerConfig,
    now: u64,
) -> (r: Position)
    ensures
        r == after_cooldown(tripped_at, latency, *config, now),
{
    if is_greater(config.reset_below, latency) {
        Position::Closed { prev_open: Some(OpenSpan { start: tripped_at, end: now }) }
    } else {
        Position::Open { tripped_at }
    }
}

/// A closed breaker trips exactly where the latency is above the upper threshold, and then it is in
/// its cooldown from now on.
pub proof fn law_trips_above_threshold(
    prev_open: Option<OpenSpan>,
    latency: u64,
    config: CircuitBreakerConfig,
    now: u64,
    answer: Answer,
)
    requires
        answers(asks(Position::Closed { prev_open }, latency, config, now), answer),
    ensures
        ({
            let next = moves(Position::Closed { prev_open }, latency, config, now, answer);
            &&& next !is Closed <==> greater(latency, config.trip_above)
            &&& next !is Closed ==> next is OpenCooldown && next->OpenCooldown_tripped_at == now
            &&& next is Closed ==> next == (Position::Closed { prev_open })
        }),
{
}

/// During the cooldown nothing changes, however low the latency is.
pub proof fn law_cooldown_lasts(
    tripped_at: u64,
    cooldown_factor: u64,
    latency: u64,
    config: CircuitBreakerConfig,
    now: u64,
    end: u64,
)
    requires
        now < end,
    ensures
        moves(
            Position::OpenCooldown { tripped_at, cooldown_factor },
            latency,
            config,
            now,
            Answer::CooldownEnd(end),
        ) == (Position::OpenCooldown { tripped_at, cooldown_factor }),
{
}

/// An open breaker closes only below the lower threshold, and then it remembers when it was open.
pub proof fn law_resets_below_threshold(
    position: Position,
    latency: u64,
    config: CircuitBreakerConfig,
    now: u64,
    answer: Answer,
)
    requires
        position !is Closed,
        moves(position, latency, config, now, answer) is Closed,
    ensures
        greater(config.reset_below, latency),
        ({
            let start = match position {
                Position::OpenCooldown { tripped_at, .. } => tripped_at,
                Position::Open { tripped_at } => tripped_at,
                Position::Closed { .. } => 0,
            };
            moves(position, latency, config, now, answer) == (Position::Closed {
                prev_open: Some(OpenSpan { start, end: now }),
            })
        }),
{
}

/// Once the cooldown is over and the latency is low, the breaker closes by itself with the next
/// latency it takes.
pub proof fn law_resets_by_itself(
    position: Position,
    latency: u64,
    config: CircuitBreakerConfig,
    now: u64,
    answer: Answer,
)
    requires
        position is OpenCooldown ==> answer is CooldownEnd && answer->CooldownEnd_0 <= now,
        position is Closed ==> !greater(latency, config.trip_above),
        greater(config.reset_below, latency),
    ensures
        moves(position, latency, config, now, answer) is Closed,
{
}

/// Between the thresholds the breaker neither trips nor resets.
pub proof fn law_no_change_between_thresholds(
    position: Position,
    latency: u64,
    config: CircuitBreakerConfig,
    now: u64,
    answer: Answer,
)
    requires
        !greater(latency, config.trip_above),
        !greater(config.reset_below, latency),
    ensures
        moves(position, latency, config, now, answer) is Closed <==> position is Closed,
{
}

/// A closed breaker trips exactly where the latency is above the upper threshold. It is in its
/// cooldown from then on, and holds just the factor that it was given, whether or not it was open
/// before; and the next thing that it asks for is the end of that cooldown. A breaker that does not
/// trip keeps what it remembers.
pub proof fn law_tripping_takes_the_given_factor(
    breaker: &mut CircuitBreaker,
    latency: u64,
    config: CircuitBreakerConfig,
    now: u64,
    answer: Answer,
    next_latency: u64,
    next_now: u64,
    next: Question,
)
    requires
        old(breaker).state() is Closed,
        if greater(latency, config.trip_above) {
            answer is CooldownFactor
        } else {
            answer is Nothing
        },
        call_ensures(CircuitBreaker::update, (breaker, latency, &config, now, answer), ()),
        call_ensures(
            CircuitBreaker::question,
            (&*final(breaker), next_latency, &config, next_now),
            next,
        ),
    ensures
        call_requires(CircuitBreaker::update, (breaker, latency, &config, now, answer)),
        greater(latency, config.trip_above) ==> {
            &&& final(breaker).state() == (Position::OpenCooldown {
                tripped_at: now,
                cooldown_factor: answer->CooldownFactor_0,
            })
            &&& next == (Question::CooldownEnd {
                tripped_at: now,
                cooldown_factor: answer->CooldownFactor_0,
            })
        },
        !greater(latency, config.trip_above) ==> final(breaker).state() == old(breaker).state(),
{
}

/// During the cooldown nothing changes. Once it is over, an open breaker closes exactly where the
/// latency is below the lower threshold, and then remembers from when to when it was open; else it
/// stays open, and does not forget when it tripped.
pub proof fn law_open_breaker_closes_below_threshold(
    breaker: &mut CircuitBreaker,
    latency: u64,
    config: CircuitBreakerConfig,
    now: u64,
    answer: Answer,
)
    requires
        old(breaker).state() !is Closed,
        if old(breaker).state() is OpenCooldown {
            answer is CooldownEnd
        } else {
            answer is Nothing
        },
        call_ensures(CircuitBreaker::update, (breaker, latency, &config, now, answer), ()),
    ensures
        call_requires(CircuitBreaker::update, (breaker, latency, &config, now, answer)),
        ({
            let tripped = match old(breaker).state() {
                Position::OpenCooldown { tripped_at, .. } => tripped_at,
                Position::Open { tripped_at } => tripped_at,
                Position::Closed { .. } => 0,
            };
            let cooling = old(breaker).state() is OpenCooldown && answer->CooldownEnd_0 > now;
            &&& cooling ==> final(breaker).state() == old(breaker).state()
            &&& !cooling && greater(config.reset_below, latency) ==> final(breaker).state() == (
            Position::Closed { prev_open: Some(OpenSpan { start: tripped, end: now }) })
            &&& !cooling && !greater(config.reset_below, latency) ==> final(breaker).state() == (
            Position::Open { tripped_at: tripped })
        }),
{
}

/// What a breaker asks for: where it trips, the factor of the cooldown, by how long it was open the
/// last time and for how long it has been closed since, if it was open at all; during the cooldown,
/// its end; and nothing otherwise.
pub proof fn law_breaker_asks_what_it_needs(
    breaker: CircuitBreaker,
    latency: u64,
    config: CircuitBreakerConfig,
    now: u64,
    question: Question,
)
    requires
        call_ensures(CircuitBreaker::question, (&breaker, latency, &config, now), question),
    ensures
        question is CooldownFactor <==> breaker.state() is Closed && greater(
            latency,
            config.trip_above,
        ),
        question is CooldownEnd <==> breaker.state() is OpenCooldown,
        breaker.state() matches Position::Closed { prev_open } ==> greater(
            latency,
            config.trip_above,
        ) ==> match prev_open {
            Some(span) => question == (Question::CooldownFactor {
                previous: Some(
                    Backoff {
                        open_for: if span.start <= span.end {
                            (span.end - span.start) as u64
                        } else {
                            0
                        },
                        closed_for: if span.end <= now {
                            (now - span.end) as u64
                        } else {
                            0
                        },
                    },
                ),
            }),
            None => question == (Question::CooldownFactor { previous: None }),
        },
        breaker.state() matches Position::OpenCooldown { tripped_at, cooldown_factor } ==> question
            == (Question::CooldownEnd { tripped_at, cooldown_factor }),
{
}

/// A new breaker is closed and remembers nothing; a breaker counts as tripped exactly while it is
/// not closed; and settings are kept as they are given.
pub proof fn law_breaker_tells_its_state(
    fresh: CircuitBreaker,
    breaker: CircuitBreaker,
    tripped: bool,
    trip_above: u64,
    reset_below: u64,
    smoothing: u64,
    min_open_duration: u64,
    backoff_half_life: u64,
    config: CircuitBreakerConfig,
)
    requires
        call_ensures(CircuitBreaker::new, (), fresh),
        call_ensures(CircuitBreaker::is_tripped, (&breaker,), tripped),
        call_ensures(
            CircuitBreakerConfig::new,
            (trip_above, reset_below, smoothing, min_open_duration, backoff_half_life),
            config,
        ),
    ensures
        fresh.state() == (Position::Closed { prev_open: None }),
        tripped <==> breaker.state() is Open || breaker.state() is OpenCooldown,
        config.trip_above == trip_above,
        config.reset_below == reset_below,
        config.smoothing == smoothing,
        config.min_open_duration == min_open_duration,
        config.backoff_half_life == backoff_half_life,
{
}

} // verus!
