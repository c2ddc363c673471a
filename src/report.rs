//! Texts shown to the operator: the progress bar of a pass, and the
//! description of a traversal that could not go on.
use vstd::prelude::*;
use crate::names::string_from_chars;
use vstd::arithmetic::div_mod::{lemma_div_by_multiple, lemma_div_is_ordered};

verus! {

/// The width of the progress bar, in blocks.
pub const BAR_BLOCKS: usize = 20;

/// The number of filled blocks after `done` of `total` entries.
pub open spec fn filled_blocks(done: nat, total: nat) -> nat {
    (20 * done / total) as nat
}

/// The progress bar: a `=` for each filled block, then, until the bar is
/// full, a `>` and spaces up to its width.
pub open spec fn bar_of(done: nat, total: nat) -> Seq<char> {
    let n = filled_blocks(done, total);
    if n < 20 {
        Seq::new(n, |i: int| '=') + seq!['>'] + Seq::new((20 - n - 1) as nat, |i: int| ' ')
    } else {
        Seq::new(n, |i: int| '=')
    }
}

/// The progress bar after `done` of `total` entries.
pub fn progress_bar(done: usize, total: usize) -> (r: String)
    requires
        0 < total,
        done <= total,
    ensures
        r@ == bar_of(done as nat, total as nat),
        r@.len() == 20,
{
    let product: u128 = (done as u128) * 20;
    let quotient: u128 = product / (total as u128);
    proof {
        assert(product as int <= 20 * (total as int)) by (nonlinear_arith)
            requires
                product == done * 20,
                done <= total,
        ;
        lemma_div_is_ordered(product as int, 20 * (total as int), total as int);
        lemma_div_by_multiple(20, total as int);
        assert(20 * (total as int) == 20int * (total as int));
    }
    let filled = quotient as usize;
    assert(filled == filled_blocks(done as nat, total as nat));
    let mut bar: Vec<char> = Vec::new();
    let mut i: usize = 0;
    while i < filled
        invariant
            i <= filled,
            bar@ =~= Seq::new(i as nat, |k: int| '='),
        decreases filled - i,
    {
        bar.push('=');
        i = i + 1;
    }
    if filled < BAR_BLOCKS {
        bar.push('>');
        let mut j: usize = 0;
        while j < BAR_BLOCKS - filled - 1
            invariant
                filled < 20,
                j <= 20 - filled - 1,
                bar@ =~= Seq::new(filled as nat, |k: int| '=') + seq!['>'] + Seq::new(
                    j as nat,
                    |k: int| ' ',
                ),
            decreases 20 - filled - 1 - j,
        {
            bar.push(' ');
            j = j + 1;
        }
    }
    string_from_chars(&bar)
}

/// The character of a decimal digit.
pub open spec fn digit_char(d: nat) -> char {
    (('0' as u32) + d) as char
}

/// The decimal text of a number.
pub open spec fn decimal(n: nat) -> Seq<char>
    decreases n,
{
    if n < 10 {
        seq![digit_char(n)]
    } else {
        decimal(n / 10).push(digit_char(n % 10))
    }
}

fn push_decimal(out: &mut Vec<char>, n: usize)
    ensures
        final(out)@ == old(out)@ + decimal(n as nat),
    decreases n,
{
    if n >= 10 {
        push_decimal(out, n / 10);
    }
    let d = (n % 10) as u8;
    let c = (48u8 + d) as char;
    assert(c == digit_char((n % 10) as nat));
    out.push(c);
}

/// Where and why the walk of a source tree stopped.
pub struct TraversalFailure {
    /// The path at which the walk stopped, where known.
    pub path: Option<String>,
    /// How deep below the root the walk was.
    pub depth: usize,
    /// The description of the underlying I/O error, where there was one.
    pub cause: Option<String>,
}

/// The characters of an optional string.
pub open spec fn text_of(s: Option<String>) -> Option<Seq<char>> {
    match s {
        Some(t) => Some(t@),
        None => None,
    }
}

/// The description of a traversal failure.
pub open spec fn failure_message(path: Option<Seq<char>>, depth: nat, cause: Option<Seq<char>>) -> Seq<char> {
    let start = match path {
        None => "Traversal aborted at depth "@ + decimal(depth),
        Some(p) => "Traversal aborted at `"@ + p + "` (depth "@ + decimal(depth) + ")"@,
    };
    let end = match cause {
        Some(c) => c,
        None => "unknown error"@,
    };
    start + ": "@ + end
}

impl TraversalFailure {
    /// The text reported for the failure: the path and depth at which the
    /// walk stopped, and its cause.
    pub fn message(&self) -> (r: String)
        ensures
            r@ == failure_message(text_of(self.path), self.depth as nat, text_of(self.cause)),
    {
        let mut digits: Vec<char> = Vec::new();
        push_decimal(&mut digits, self.depth);
        assert(digits@ =~= decimal(self.depth as nat));
        let depth = string_from_chars(&digits);
        let mut out = String::new();
        match &self.path {
            None => {
                out.append("Traversal aborted at depth ");
                out.append(depth.as_str());
            },
            Some(p) => {
                out.append("Traversal aborted at `");
                out.append(p.as_str());
                out.append("` (depth ");
                out.append(depth.as_str());
                out.append(")");
            },
        }
        out.append(": ");
        match &self.cause {
            Some(c) => out.append(c.as_str()),
            None => out.append("unknown error"),
        }
        assert(out@ =~= failure_message(text_of(self.path), self.depth as nat, text_of(self.cause)));
        out
    }
}

} // verus!
