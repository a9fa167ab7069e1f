//! A configuration compiler for a rocket flight computer's state machine.
//!
//! Ground-station operators author a flight program as named states with
//! timeouts, environmental checks and transitions. Before the program is
//! loaded onto the flight computer it is semantically validated and lowered
//! into a compact, allocation-free binary form that the embedded runtime
//! interprets by index lookups alone.
//!
//! The pipeline is strictly sequential: the parsed program
//! ([`upper::ConfigFile`]) is resolved and validated into a bounded,
//! index-referencing form ([`lowered::ConfigFile`]) by [`lower::verify`],
//! then serialized by [`encode::encode`]. Each stage either produces its
//! output in full or fails with one structured [`error::Error`]; nothing is
//! partially lowered or partially encoded. Reading the text format into
//! [`upper::ConfigFile`] is the caller's concern.
use vstd::prelude::*;

pub mod checks;
pub mod decode;
pub mod encode;
pub mod error;
pub mod lower;
pub mod lowered;
pub mod resolver;
pub mod ticks;
pub mod upper;

use crate::error::{Error, ErrorV};
use crate::lower::lower_spec;
use crate::upper::ConfigU;

verus! {

/// What compiling a parsed program returns: the exact bytes of the
/// lowered configuration, or the exact error, for every possible input.
pub open spec fn compile_spec(m: ConfigU) -> Result<Seq<u8>, ErrorV> {
    match lower_spec(m) {
        Ok(v) => Ok(encode::enc(v)),
        Err(e) => Err(e),
    }
}

/// Compiles a parsed flight program into its binary artifact: lowering
/// followed by encoding. All-or-nothing: on failure nothing partial is
/// returned.
pub fn compile(config: upper::ConfigFile) -> (r: Result<Vec<u8>, Error>)
    ensures
        match r {
            Ok(b) => compile_spec(config@) == Ok::<Seq<u8>, ErrorV>(b@),
            Err(e) => compile_spec(config@) == Err::<Seq<u8>, ErrorV>(e@),
        },
{
    let lowered_config = match lower::verify(config) {
        Ok(c) => c,
        Err(e) => {
            return Err(e);
        },
    };
    let bytes = encode::encode(&lowered_config);
    Ok(bytes)
}

/// Determinism: a parsed program has one binary image. Any two successful
/// compile results for equal programs are byte-identical, since the
/// compiler's output is a function of its input alone.
pub proof fn lemma_compile_deterministic(m1: ConfigU, m2: ConfigU, b1: Seq<u8>, b2: Seq<u8>)
    requires
        m1 == m2,
        compile_spec(m1) == Ok::<Seq<u8>, ErrorV>(b1),
        compile_spec(m2) == Ok::<Seq<u8>, ErrorV>(b2),
    ensures
        b1 == b2,
{
}

} // verus!
