//! The integer parts of the compact runtime metrics of the status line.
use vstd::prelude::*;

use crate::text::{decimal, push_decimal, push_signed_decimal, signed_decimal};

verus! {

/// Separator between the metrics of the status line.
pub const METRICS_SEPARATOR: &'static str = " · ";

/// `m` minutes and `s` seconds as `{m}m{ss}s`, the seconds on two digits.
pub open spec fn minutes_seconds_text(total_seconds: nat) -> Seq<char> {
    let m = total_seconds / 60;
    let s = total_seconds % 60;
    decimal(m) + "m"@ + (if s < 10 {
        seq!['0']
    } else {
        seq![]
    }) + decimal(s) + "s"@
}

/// A duration of at least a minute, in whole seconds, as minutes and seconds.
pub fn format_minutes_seconds(total_seconds: u64) -> (text: String)
    ensures
        text@ == minutes_seconds_text(total_seconds as nat),
{
    let mut text = String::new();
    push_decimal(&mut text, total_seconds / 60);
    text.append("m");
    let s = total_seconds % 60;
    if s < 10 {
        text.append("0");
    }
    push_decimal(&mut text, s);
    text.append("s");
    proof {
        reveal_strlit("0");
    }
    assert(text@ =~= minutes_seconds_text(total_seconds as nat));
    text
}

/// The parts joined by the separator, in order.
pub open spec fn joined(parts: Seq<Seq<char>>) -> Seq<char>
    decreases parts.len(),
{
    if parts.len() == 0 {
        seq![]
    } else if parts.len() == 1 {
        parts[0]
    } else {
        joined(parts.drop_last()) + METRICS_SEPARATOR@ + parts.last()
    }
}

/// The status-line metrics text: the available parts joined, or nothing when none is.
pub fn join_metrics(parts: &Vec<String>) -> (text: Option<String>)
    ensures
        match text {
            Some(t) => parts@.len() > 0 && t@ == joined(parts@.map_values(|p: String| p@)),
            None => parts@.len() == 0,
        },
{
    if parts.len() == 0 {
        return None;
    }
    let ghost pv = parts@.map_values(|p: String| p@);
    let mut text = parts[0].clone();
    let mut i: usize = 1;
    assert(pv.take(1) =~= seq![pv[0]]);
    while i < parts.len()
        invariant
            pv == parts@.map_values(|p: String| p@),
            1 <= i <= parts@.len(),
            text@ == joined(pv.take(i as int)),
        decreases parts@.len() - i,
    {
        assert(pv.take(i + 1).drop_last() =~= pv.take(i as int));
        assert(pv.take(i + 1).last() == parts@[i as int]@);
        text.append(METRICS_SEPARATOR);
        text.append(parts[i].as_str());
        i = i + 1;
    }
    assert(pv.take(parts@.len() as int) =~= pv);
    Some(text)
}

/// The part when there is one.
pub open spec fn optional_part(part: Option<Seq<char>>) -> Seq<Seq<char>> {
    match part {
        Some(p) => seq![p],
        None => seq![],
    }
}

/// The context part: `ctx {percent}%`.
pub open spec fn context_part(percent: i64) -> Seq<char> {
    "ctx "@ + signed_decimal(percent as int) + "%"@
}

/// The parts of the status-line metrics that are available, in their order: the cache
/// hit rate, the context used, the duration and the output rate.
pub open spec fn metric_parts(
    cache_hit_rate: Option<Seq<char>>,
    context_used_percent: Option<i64>,
    duration: Option<Seq<char>>,
    output_rate: Option<Seq<char>>,
) -> Seq<Seq<char>> {
    optional_part(cache_hit_rate) + optional_part(
        match context_used_percent {
            Some(p) => Some(context_part(p)),
            None => None,
        },
    ) + optional_part(duration) + optional_part(output_rate)
}

fn push_part(parts: &mut Vec<String>, part: &Option<String>)
    ensures
        final(parts)@.map_values(|p: String| p@) == old(parts)@.map_values(|p: String| p@)
            + optional_part(
            match part {
                Some(p) => Some(p@),
                None => None,
            },
        ),
{
    if let Some(p) = part {
        parts.push(p.clone());
        assert(final(parts)@.map_values(|p: String| p@) =~= old(parts)@.map_values(
            |p: String| p@,
        ) + seq![p@]);
    } else {
        assert(parts@.map_values(|p: String| p@) =~= old(parts)@.map_values(|p: String| p@)
            + Seq::<Seq<char>>::empty());
    }
}

/// The status-line metrics text from the parts that are available (the cache hit rate,
/// duration and output rate already rendered): joined in order, or nothing when none is.
pub fn runtime_metrics_text(
    cache_hit_rate: Option<String>,
    context_used_percent: Option<i64>,
    duration: Option<String>,
    output_rate: Option<String>,
) -> (text: Option<String>)
    ensures
        ({
            let parts = metric_parts(
                match cache_hit_rate {
                    Some(p) => Some(p@),
                    None => None,
                },
                context_used_percent,
                match duration {
                    Some(p) => Some(p@),
                    None => None,
                },
                match output_rate {
                    Some(p) => Some(p@),
                    None => None,
                },
            );
            match text {
                Some(t) => parts.len() > 0 && t@ == joined(parts),
                None => parts.len() == 0,
            }
        }),
{
    let mut parts: Vec<String> = Vec::new();
    push_part(&mut parts, &cache_hit_rate);
    let context = match context_used_percent {
        Some(percent) => {
            let mut part = String::from_str("ctx ");
            push_signed_decimal(&mut part, percent);
            part.append("%");
            assert(part@ =~= context_part(percent));
            Some(part)
        },
        None => None,
    };
    push_part(&mut parts, &context);
    push_part(&mut parts, &duration);
    push_part(&mut parts, &output_rate);
    join_metrics(&parts)
}

/// The output tokens a turn has produced so far: the growth of the running total since
/// the turn began, never negative and at most `i64::MAX`.
pub open spec fn turn_growth(total_output_tokens: int, start_output_tokens: int) -> int {
    let d = total_output_tokens - start_output_tokens;
    if d <= 0 {
        0
    } else if d > i64::MAX {
        i64::MAX as int
    } else {
        d
    }
}

/// The integer state of the status line's turn metrics: whether a turn is running, the
/// running output-token total when it began, and what it has produced since.
#[derive(Clone, Copy, Debug, Default, PartialEq, Eq)]
pub struct TurnTokens {
    pub running: bool,
    pub start_output_tokens: i64,
    pub turn_output_tokens: i64,
}

impl TurnTokens {
    /// No turn running, nothing counted.
    pub fn idle() -> (t: TurnTokens)
        ensures
            !t.running,
            t.start_output_tokens == 0,
            t.turn_output_tokens == 0,
    {
        TurnTokens { running: false, start_output_tokens: 0, turn_output_tokens: 0 }
    }

    /// A turn begins at the given running total (zero when unknown).
    pub fn start_turn(&mut self, total_output_tokens: Option<i64>)
        ensures
            final(self).running,
            final(self).start_output_tokens == match total_output_tokens {
                Some(t) => t,
                None => 0i64,
            },
            final(self).turn_output_tokens == 0,
    {
        self.running = true;
        self.start_output_tokens = match total_output_tokens {
            Some(t) => t,
            None => 0,
        };
        self.turn_output_tokens = 0;
    }

    /// A usage report with the running output-token total: while a turn runs, the turn's
    /// count becomes the growth since it began; otherwise nothing changes. Returns whether
    /// a turn was running.
    pub fn observe_usage(&mut self, total_output_tokens: i64) -> (running: bool)
        ensures
            running == old(self).running,
            final(self).running == old(self).running,
            final(self).start_output_tokens == old(self).start_output_tokens,
            final(self).turn_output_tokens == if old(self).running {
                turn_growth(total_output_tokens as int, old(self).start_output_tokens as int)
            } else {
                old(self).turn_output_tokens as int
            },
    {
        if !self.running {
            return false;
        }
        let d: i128 = total_output_tokens as i128 - self.start_output_tokens as i128;
        self.turn_output_tokens = if d <= 0 {
            0
        } else if d > i64::MAX as i128 {
            i64::MAX
        } else {
            d as i64
        };
        true
    }

    /// The turn ends: the count it reached is returned and the state is idle again.
    pub fn finish_turn(&mut self) -> (produced: i64)
        ensures
            produced == old(self).turn_output_tokens,
            !final(self).running,
            final(self).start_output_tokens == 0,
            final(self).turn_output_tokens == 0,
    {
        let produced = self.turn_output_tokens;
        self.running = false;
        self.start_output_tokens = 0;
        self.turn_output_tokens = 0;
        produced
    }
}

/// A turn's count is never negative, whatever the usage reports say.
pub proof fn lemma_turn_growth_bounds(total_output_tokens: int, start_output_tokens: int)
    ensures
        0 <= turn_growth(total_output_tokens, start_output_tokens) <= i64::MAX,
        total_output_tokens <= start_output_tokens ==> turn_growth(total_output_tokens, start_output_tokens) == 0,
{
}

} // verus!
