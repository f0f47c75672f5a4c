//! How many threads a model session may use.
use crate::text::{parse_unsigned, parsed};
use vstd::prelude::*;
use vstd::string::*;

verus! {

/// The largest number of threads that is taken without being asked for.
pub const MAX_DEFAULT_THREADS: usize = 2;

/// The number of threads: what the setting says, at least one; without a
/// setting that is a number, that of the machine, at most two.
pub open spec fn thread_count(setting: Option<Seq<char>>, cores: Option<usize>) -> nat {
    match setting {
        Some(s) if parsed(s, usize::MAX as nat) is Some => {
            let n = parsed(s, usize::MAX as nat)->0;
            if n == 0 {
                1
            } else {
                n
            }
        },
        _ => match cores {
            Some(n) if n <= MAX_DEFAULT_THREADS => n as nat,
            Some(_) => MAX_DEFAULT_THREADS as nat,
            None => 1,
        },
    }
}

/// The number of threads for one session. `setting` is what the environment
/// says, `cores` what the machine offers.
pub fn intra_op_threads(setting: Option<&str>, cores: Option<usize>) -> (r: usize)
    ensures
        r == thread_count(
            match setting {
                Some(s) => Some(s@),
                None => None,
            },
            cores,
        ),
{
    if let Some(s) = setting {
        if let Some(n) = parse_unsigned(s, usize::MAX as u64) {
            return if n == 0 {
                1
            } else {
                n as usize
            };
        }
    }
    match cores {
        Some(n) => if n <= MAX_DEFAULT_THREADS {
            n
        } else {
            MAX_DEFAULT_THREADS
        },
        None => 1,
    }
}

} // verus!
