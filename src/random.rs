use crate::matrix::Matrix;
use vstd::prelude::*;
use vstd::wrapping::u64_specs::{wrapping_add, wrapping_mul};

verus! {

/// The increment of the splitmix64 generator's state.
pub const GAMMA: u64 = 0x9E37_79B9_7F4A_7C15;

/// The multipliers of the splitmix64 output function.
pub const MIX_A: u64 = 0xBF58_476D_1CE4_E5B9;

pub const MIX_B: u64 = 0x94D0_49BB_1331_11EB;

/// The generator's state after `k` steps from `seed`.
pub open spec fn stream_state(seed: u64, k: nat) -> u64
    decreases k,
{
    if k == 0 {
        seed
    } else {
        wrapping_add(stream_state(seed, (k - 1) as nat), GAMMA)
    }
}

/// The splitmix64 output function applied to a state.
pub open spec fn mix(s: u64) -> u64 {
    let a = wrapping_mul(s ^ (s >> 30u64), MIX_A);
    let b = wrapping_mul(a ^ (a >> 27u64), MIX_B);
    b ^ (b >> 31u64)
}

/// The `k`-th pseudo-random word drawn from `seed`.
pub open spec fn random_word(seed: u64, k: nat) -> u64 {
    mix(stream_state(seed, k + 1))
}

fn mix_exec(s: u64) -> (r: u64)
    ensures
        r == mix(s),
{
    let a = (s ^ (s >> 30)).wrapping_mul(MIX_A);
    let b = (a ^ (a >> 27)).wrapping_mul(MIX_B);
    b ^ (b >> 31)
}

impl Matrix<u64> {
    /// A `rows` by `cols` matrix of pseudo-random words, uniform over `u64`,
    /// drawn in row-major order from the splitmix64 stream of `seed`.
    pub fn new_random_seeded(rows: usize, cols: usize, seed: u64) -> (r: Matrix<u64>)
        requires
            rows as int * cols as int <= usize::MAX,
        ensures
            r.wf(),
            r.row_size == rows,
            r.col_size == cols,
            forall|k: int| 0 <= k < r.data@.len() ==> #[trigger] r.data@[k] == random_word(seed, k as nat),
    {
        let n = rows * cols;
        let mut out: Vec<u64> = Vec::new();
        let mut state = seed;
        let mut k: usize = 0;
        while k < n
            invariant
                k <= n,
                out@.len() == k,
                state == stream_state(seed, k as nat),
                forall|q: int| 0 <= q < k ==> #[trigger] out@[q] == random_word(seed, q as nat),
            decreases n - k,
        {
            state = state.wrapping_add(GAMMA);
            out.push(mix_exec(state));
            k += 1;
        }
        Matrix { data: out, row_size: rows, col_size: cols }
    }
}

} // verus!
