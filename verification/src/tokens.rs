use vstd::prelude::*;

verus! {

/// Clamps a mathematical integer into the range of `i64`.
pub open spec fn saturate(x: int) -> i64 {
    if x > i64::MAX {
        i64::MAX
    } else if x < i64::MIN {
        i64::MIN
    } else {
        x as i64
    }
}

/// `x` when it is not negative, else 0.
pub open spec fn non_negative(x: i64) -> i64 {
    if x < 0 {
        0
    } else {
        x
    }
}

/// `a + b`, saturating at the bounds of `i64`.
pub fn saturating_add(a: i64, b: i64) -> (r: i64)
    ensures
        r == saturate(a + b),
{
    match a.checked_add(b) {
        Some(v) => v,
        None => if b > 0 {
            i64::MAX
        } else {
            i64::MIN
        },
    }
}

/// `a - b`, saturating at the bounds of `i64`.
pub fn saturating_sub(a: i64, b: i64) -> (r: i64)
    ensures
        r == saturate(a - b),
{
    match a.checked_sub(b) {
        Some(v) => v,
        None => if b < 0 {
            i64::MAX
        } else {
            i64::MIN
        },
    }
}

/// Token counters of one or more model responses.
#[derive(Clone, Copy, Debug, PartialEq, Eq, Structural)]
pub struct Tokens {
    /// Input tokens, cached input included.
    pub input: i64,
    /// Cached input tokens.
    pub cached: i64,
    /// Cache-write input tokens.
    pub write: i64,
    /// Output tokens, reasoning included.
    pub output: i64,
    /// Reasoning output tokens.
    pub reasoning: i64,
}

/// A token usage report as the server sends it.
#[derive(Clone, Copy, Debug, PartialEq, Eq, Structural)]
pub struct UsageBreakdown {
    pub input_tokens: i64,
    pub cached_input_tokens: i64,
    pub cache_write_input_tokens: i64,
    pub output_tokens: i64,
    pub reasoning_output_tokens: i64,
}

impl Default for Tokens {
    fn default() -> (r: Tokens)
        ensures
            r == Tokens::zero(),
    {
        Tokens { input: 0, cached: 0, write: 0, output: 0, reasoning: 0 }
    }
}

/// Tokens with the given input, cached input and output counts, and no
/// cache writes or reasoning.
pub fn usage(input: i64, cached: i64, output: i64) -> (r: Tokens)
    ensures
        r == (Tokens { input, cached, write: 0, output, reasoning: 0 }),
{
    Tokens { input, cached, write: 0, output, reasoning: 0 }
}

impl Tokens {
    /// No tokens at all.
    pub open spec fn zero() -> Tokens {
        Tokens { input: 0, cached: 0, write: 0, output: 0, reasoning: 0 }
    }

    /// Field by field sum, saturating.
    pub open spec fn plus(self, o: Tokens) -> Tokens {
        Tokens {
            input: saturate(self.input + o.input),
            cached: saturate(self.cached + o.cached),
            write: saturate(self.write + o.write),
            output: saturate(self.output + o.output),
            reasoning: saturate(self.reasoning + o.reasoning),
        }
    }

    /// Field by field difference, saturating and never below zero.
    pub open spec fn minus(self, o: Tokens) -> Tokens {
        Tokens {
            input: non_negative(saturate(self.input - o.input)),
            cached: non_negative(saturate(self.cached - o.cached)),
            write: non_negative(saturate(self.write - o.write)),
            output: non_negative(saturate(self.output - o.output)),
            reasoning: non_negative(saturate(self.reasoning - o.reasoning)),
        }
    }

    /// Every counter is at least zero.
    pub open spec fn is_non_negative(self) -> bool {
        self.input >= 0 && self.cached >= 0 && self.write >= 0 && self.output >= 0
            && self.reasoning >= 0
    }

    /// Every counter of `self` is at least the matching counter of `o`.
    pub open spec fn covers(self, o: Tokens) -> bool {
        self.input >= o.input && self.cached >= o.cached && self.write >= o.write
            && self.output >= o.output && self.reasoning >= o.reasoning
    }

    /// Exact field by field sum in mathematical integers.
    pub open spec fn exact_sum_fits(self, o: Tokens) -> bool {
        self.input + o.input <= i64::MAX && self.cached + o.cached <= i64::MAX
            && self.write + o.write <= i64::MAX && self.output + o.output <= i64::MAX
            && self.reasoning + o.reasoning <= i64::MAX
    }

    /// Counters of a usage report, negative counts read as zero.
    pub open spec fn spec_from_usage(u: UsageBreakdown) -> Tokens {
        Tokens {
            input: non_negative(u.input_tokens),
            cached: non_negative(u.cached_input_tokens),
            write: non_negative(u.cache_write_input_tokens),
            output: non_negative(u.output_tokens),
            reasoning: non_negative(u.reasoning_output_tokens),
        }
    }

    pub fn from_usage(u: &UsageBreakdown) -> (r: Tokens)
        ensures
            r == Tokens::spec_from_usage(*u),
    {
        Tokens {
            input: if u.input_tokens < 0 { 0 } else { u.input_tokens },
            cached: if u.cached_input_tokens < 0 { 0 } else { u.cached_input_tokens },
            write: if u.cache_write_input_tokens < 0 { 0 } else { u.cache_write_input_tokens },
            output: if u.output_tokens < 0 { 0 } else { u.output_tokens },
            reasoning: if u.reasoning_output_tokens < 0 { 0 } else { u.reasoning_output_tokens },
        }
    }

    /// Adds `other` to these counters, saturating.
    pub fn add(&mut self, other: Tokens)
        ensures
            *final(self) == old(self).plus(other),
    {
        self.input = saturating_add(self.input, other.input);
        self.cached = saturating_add(self.cached, other.cached);
        self.write = saturating_add(self.write, other.write);
        self.output = saturating_add(self.output, other.output);
        self.reasoning = saturating_add(self.reasoning, other.reasoning);
    }

    /// What these counters hold beyond `other`, never below zero.
    pub fn subtract(self, other: Tokens) -> (r: Tokens)
        ensures
            r == self.minus(other),
    {
        let input = saturating_sub(self.input, other.input);
        let cached = saturating_sub(self.cached, other.cached);
        let write = saturating_sub(self.write, other.write);
        let output = saturating_sub(self.output, other.output);
        let reasoning = saturating_sub(self.reasoning, other.reasoning);
        Tokens {
            input: if input < 0 { 0 } else { input },
            cached: if cached < 0 { 0 } else { cached },
            write: if write < 0 { 0 } else { write },
            output: if output < 0 { 0 } else { output },
            reasoning: if reasoning < 0 { 0 } else { reasoning },
        }
    }

    /// Whether every counter is zero.
    pub fn is_zero(&self) -> (r: bool)
        ensures
            r == (*self == Tokens::zero()),
    {
        self.input == 0 && self.cached == 0 && self.write == 0 && self.output == 0
            && self.reasoning == 0
    }
}

} // verus!
