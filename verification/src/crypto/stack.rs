//! Overwriting the stack a secret operation ran on.

use std::hint::black_box;
use vstd::prelude::*;
use zeroize::Zeroize;

verus! {

const SCRUBBED_WORDS: usize = 8192;

/// `Zeroize::zeroize` on the scrubbing frame: zeroes written with volatile
/// stores the optimiser may not remove. Claims the frame then holds zeroes.
#[verifier::external_body]
fn zeroize_words(frame: &mut [u64; SCRUBBED_WORDS])
    ensures
        final(frame)@ == Seq::new(SCRUBBED_WORDS as nat, |i: int| 0u64),
{
    frame.zeroize();
}

/// `std::hint::black_box` on the scrubbing frame, so that the frame is
/// treated as used. Nothing is claimed: it returns nothing.
#[verifier::external_body]
fn keep_observed(frame: &[u64; SCRUBBED_WORDS]) {
    black_box(frame);
}

/// Runs `operation`, then overwrites the stack it ran on, so that copies of
/// key material left in its frames and in those of the libraries it called
/// do not outlive it.
pub(crate) fn scrubbed<T, F: FnOnce() -> T>(operation: F) -> (result: T)
    requires
        operation.requires(()),
    ensures
        operation.ensures((), result),
{
    let result = run(operation);
    scrub();
    result
}

#[inline(never)]
fn run<T, F: FnOnce() -> T>(operation: F) -> (result: T)
    requires
        operation.requires(()),
    ensures
        operation.ensures((), result),
{
    operation()
}

/// Called from the same frame as [`run`], so its own frame covers the one
/// `run` left behind, down to 64 KiB.
#[inline(never)]
fn scrub() {
    let mut frame = [0u64; SCRUBBED_WORDS];
    zeroize_words(&mut frame);
    keep_observed(&frame);
}

} // verus!
