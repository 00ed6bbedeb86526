use vstd::prelude::*;
use vstd::arithmetic::power2::{lemma2_to64, lemma_pow2_pos, lemma_pow2_unfold, pow2};
use rand::Rng;
use crate::arith_expr::ArithExpr;
use crate::arithmetic::Flags;
use crate::arithmetic::u32::{adder_done, adder_failure};
use crate::builder::{names_view, ConstraintSystemBuilder};
use crate::error::Error;
use crate::field::Field;
use crate::oracle::{
    MultilinearPolyOracle, OracleError, OracleId, OracleVariant, ShiftVariant, MAX_N_VARS,
};
use crate::transparent::{step_column, step_down, step_down_oracle};
use crate::witness::{column_of, power_of_two};
use crate::words::{bits_of_words, lemma_pow2_words, word_bits};

verus! {

/// The `i`-th word of the sequence that starts with `s0` and `s1` and in
/// which every further word is the sum of the two before it, the carry
/// out of the highest bit dropped.
pub open spec fn fib_word(s0: u32, s1: u32, i: nat) -> u32
    decreases i,
{
    if i == 0 {
        s0
    } else if i == 1 {
        s1
    } else {
        fib_word(s0, s1, (i - 1) as nat).wrapping_add(fib_word(s0, s1, (i - 2) as nat))
    }
}

/// The first `n` words of the sequence.
pub open spec fn fib_words(s0: u32, s1: u32, n: nat) -> Seq<u32> {
    Seq::new(n, |i: int| fib_word(s0, s1, i as nat))
}

/// The words moved down by `k` places; zeros fill the places at the end.
pub open spec fn shifted_words(words: Seq<u32>, k: nat) -> Seq<u32> {
    Seq::new(words.len(), |i: int| if i + k < words.len() { words[i + k] } else { 0u32 })
}

/// Computes the first `n` words of the sequence that starts with `s0` and
/// `s1`.
pub fn fibonacci_words(s0: u32, s1: u32, n: usize) -> (words: Vec<u32>)
    requires
        n >= 2,
    ensures
        words@ == fib_words(s0, s1, n as nat),
{
    let mut words: Vec<u32> = Vec::new();
    words.push(s0);
    words.push(s1);
    assert(words@ =~= fib_words(s0, s1, 2));
    let mut i: usize = 2;
    while i < n
        invariant
            2 <= i <= n,
            words@ == fib_words(s0, s1, i as nat),
        decreases n - i,
    {
        let next = words[i - 1].wrapping_add(words[i - 2]);
        words.push(next);
        assert(words@ =~= fib_words(s0, s1, (i + 1) as nat));
        i += 1;
    }
    words
}

/// Moves the words down by `k` places; zeros fill the places at the end.
pub fn shift_words(words: &Vec<u32>, k: usize) -> (shifted: Vec<u32>)
    ensures
        shifted@ == shifted_words(words@, k as nat),
{
    let mut shifted: Vec<u32> = Vec::new();
    let mut i: usize = 0;
    while i < words.len()
        invariant
            i <= words@.len(),
            shifted@ == shifted_words(words@, k as nat).take(i as int),
        decreases words@.len() - i,
    {
        let word = if k < words.len() - i {
            words[i + k]
        } else {
            0
        };
        shifted.push(word);
        assert(shifted@ =~= shifted_words(words@, k as nat).take(i + 1));
        i += 1;
    }
    assert(shifted_words(words@, k as nat).take(words@.len() as int) =~= shifted_words(
        words@,
        k as nat,
    ));
    shifted
}

/// A word drawn at random.
///
/// Wraps `thread_rng` and `Rng::gen` of rand. Nothing is known of the
/// word.
#[verifier::external_body]
fn random_word() -> u32 {
    rand::thread_rng().gen()
}

/// The composition that the gadget asserts to be zero on the packed sum
/// `a`, the packed word after next `b` and the step-down `enabled`:
/// `(a - b) * enabled`.
pub open spec fn step_expr<F: Field>() -> ArithExpr<F> {
    ArithExpr::Mul(
        Box::new(
            ArithExpr::Sub(Box::new(ArithExpr::<F>::Var(0)), Box::new(ArithExpr::<F>::Var(1))),
        ),
        Box::new(ArithExpr::<F>::Var(2)),
    )
}

/// The oracle that shifts `inner` down by `offset` bits.
pub open spec fn shift_oracle<F>(inner: OracleId, offset: usize, log_size: usize) -> MultilinearPolyOracle<F> {
    MultilinearPolyOracle {
        n_vars: log_size,
        variant: OracleVariant::Shifted {
            inner,
            shift_offset: offset,
            block_size: log_size,
            shift_variant: ShiftVariant::LogicalRight,
        },
    }
}

/// The oracle that packs the 32 bits of each word of `inner` into one
/// value.
pub open spec fn word_oracle<F>(inner: OracleId, log_size: usize) -> MultilinearPolyOracle<F> {
    MultilinearPolyOracle {
        n_vars: (log_size - 5) as usize,
        variant: OracleVariant::Packed { inner, log_degree: 5 },
    }
}

/// The first part of the gadget: the committed oracle of the current
/// words and the oracles of the next words and of the words after next,
/// which are the current ones shifted by one and by two words, with the
/// columns of the words of a sequence that starts with `s0` and `s1`.
pub open spec fn fib_seeded<F: Field>(
    before: ConstraintSystemBuilder<F>,
    after: ConstraintSystemBuilder<F>,
    log_size: usize,
    s0: u32,
    s1: u32,
) -> bool {
    let n = before.oracles.oracles@.len() as int;
    let words = fib_words(s0, s1, pow2((log_size - 5) as nat));
    &&& after.oracles.oracles@ == before.oracles.oracles@.push(
        MultilinearPolyOracle { n_vars: log_size, variant: OracleVariant::<F>::Committed },
    ).push(shift_oracle(n as usize, 32, log_size)).push(shift_oracle(n as usize, 64, log_size))
    &&& after.witness is Some == before.witness is Some
    &&& after.constraints == before.constraints
    &&& before.witness is Some ==> {
        &&& column_of(after.columns(), n as usize) == Some(word_bits::<F>(words))
        &&& column_of(after.columns(), (n + 1) as usize) == Some(
            word_bits::<F>(shifted_words(words, 1)),
        )
        &&& column_of(after.columns(), (n + 2) as usize) == Some(
            word_bits::<F>(shifted_words(words, 2)),
        )
        &&& forall|other: OracleId|
            other < n ==> #[trigger] column_of(after.columns(), other) == column_of(
                before.columns(),
                other,
            )
    }
}

/// The part of the gadget after the seeding: the step-down that is zero
/// on the last two words, the adder of the current and the next words,
/// the oracles that pack the sum and the words after next, and the
/// assertion that the two are equal where the step-down is one.
pub open spec fn fib_constrained<F: Field>(
    seeded: ConstraintSystemBuilder<F>,
    stepped: ConstraintSystemBuilder<F>,
    added: ConstraintSystemBuilder<F>,
    after: ConstraintSystemBuilder<F>,
    log_size: usize,
    n: int,
) -> bool {
    let packed = pow2((log_size - 5) as nat);
    &&& stepped.oracles.oracles@ == seeded.oracles.oracles@.push(
        step_down_oracle((log_size - 5) as usize, (packed - 2) as usize),
    )
    &&& stepped.constraints == seeded.constraints
    &&& stepped.witness is Some == seeded.witness is Some
    &&& seeded.witness is Some ==> column_of(stepped.columns(), (n + 3) as usize) == Some(
        step_column::<F>((packed - 2) as nat, packed),
    ) && forall|other: OracleId|
        other != n + 3 ==> #[trigger] column_of(stepped.columns(), other) == column_of(
            seeded.columns(),
            other,
        )
    &&& adder_done(
        stepped,
        added,
        n as usize,
        (n + 1) as usize,
        Flags::Unchecked,
        (n + 6) as usize,
    )
    &&& after.oracles.oracles@ == added.oracles.oracles@.push(
        word_oracle((n + 6) as usize, log_size),
    ).push(word_oracle((n + 2) as usize, log_size))
    &&& after.witness == added.witness
    &&& after.constraints@.len() == added.constraints@.len() + 1
    &&& after.constraints@.take(added.constraints@.len() as int) == added.constraints@
    &&& after.constraints@.last().oracle_ids@ == seq![
        (n + 7) as usize,
        (n + 8) as usize,
        (n + 3) as usize,
    ]
    &&& after.constraints@.last().composition == step_expr::<F>()
}

/// What the gadget has done where it succeeded.
pub open spec fn fib_done<F: Field>(
    before: ConstraintSystemBuilder<F>,
    after: ConstraintSystemBuilder<F>,
    log_size: usize,
    current: OracleId,
) -> bool {
    let n = before.oracles.oracles@.len() as int;
    &&& current == n
    &&& names_view(after.namespace@) == names_view(before.namespace@)
    &&& exists|
        s0: u32,
        s1: u32,
        seeded: ConstraintSystemBuilder<F>,
        stepped: ConstraintSystemBuilder<F>,
        added: ConstraintSystemBuilder<F>,
    |
        #![trigger fib_seeded(before, seeded, log_size, s0, s1), fib_constrained(seeded, stepped, added, after, log_size, n)]
        fib_seeded(before, seeded, log_size, s0, s1) && fib_constrained(
            seeded,
            stepped,
            added,
            after,
            log_size,
            n,
        )
}

/// The gadget of the Fibonacci sequence of 32-bit words.
///
/// It commits to a column of `2^log_size` bits, the words of a sequence
/// that starts with two random words and in which every further word is
/// the sum of the two before it. It asserts that the sum of each word and
/// the next is the word after next, but for the last two words. Returns
/// the oracle of the column.
///
/// Fails with `TooManyVariables` where `log_size` is over the limit.
pub fn u32fib<F: Field>(builder: &mut ConstraintSystemBuilder<F>, name: &str, log_size: usize) -> (r:
    Result<OracleId, Error>)
    requires
        old(builder).wf(),
        log_size >= 6,
    ensures
        match r {
            Ok(current) => final(builder).wf() && log_size <= MAX_N_VARS && fib_done(
                *old(builder),
                *final(builder),
                log_size,
                current,
            ),
            Err(e) => log_size > MAX_N_VARS && e == Error::Oracle(OracleError::TooManyVariables),
        },
{
    let ghost start = *builder;
    let ghost before = builder.oracles.oracles@;
    let ghost n = before.len() as int;
    if log_size > MAX_N_VARS {
        return Err(Error::Oracle(OracleError::TooManyVariables));
    }
    builder.push_namespace(name);
    proof {
        assert(builder.oracles.oracles.len() == n);
        lemma2_to64();
        lemma_pow2_words(log_size as nat);
        lemma_pow2_unfold((log_size - 5) as nat);
        lemma_pow2_pos((log_size - 6) as nat);
    }
    let committed = MultilinearPolyOracle { n_vars: log_size, variant: OracleVariant::Committed };
    proof {
        assert(before.push(committed)[n] == committed);
    }
    let current = match builder.add_oracle(committed) {
        Ok(id) => id,
        Err(e) => {
            return Err(e);
        },
    };
    let next_oracle = MultilinearPolyOracle {
        n_vars: log_size,
        variant: OracleVariant::Shifted {
            inner: current,
            shift_offset: 32,
            block_size: log_size,
            shift_variant: ShiftVariant::LogicalRight,
        },
    };
    proof {
        let grown = builder.oracles.oracles@.push(next_oracle);
        assert(grown[n + 1] == next_oracle);
        assert(grown[n] == committed);
    }
    let next = match builder.add_oracle(next_oracle) {
        Ok(id) => id,
        Err(e) => {
            return Err(e);
        },
    };
    let next_next_oracle = MultilinearPolyOracle {
        n_vars: log_size,
        variant: OracleVariant::Shifted {
            inner: current,
            shift_offset: 64,
            block_size: log_size,
            shift_variant: ShiftVariant::LogicalRight,
        },
    };
    proof {
        let grown = builder.oracles.oracles@.push(next_next_oracle);
        assert(grown[n + 2] == next_next_oracle);
        assert(grown[n] == committed);
    }
    let next_next = match builder.add_oracle(next_next_oracle) {
        Ok(id) => id,
        Err(e) => {
            return Err(e);
        },
    };
    let packed_log_size = log_size - 5;
    let n_words = power_of_two(packed_log_size);
    let s0 = random_word();
    let s1 = random_word();
    if builder.witness.is_some() {
        let words = fibonacci_words(s0, s1, n_words);
        builder.set_column(current, bits_of_words(&words));
        builder.set_column(next, bits_of_words(&shift_words(&words, 1)));
        builder.set_column(next_next, bits_of_words(&shift_words(&words, 2)));
    }
    let ghost seeded = *builder;
    proof {
        assert(fib_seeded(
            ConstraintSystemBuilder { namespace: seeded.namespace, ..start },
            seeded,
            log_size,
            s0,
            s1,
        ));
    }
    let enabled = match step_down(builder, "enabled", packed_log_size, n_words - 2) {
        Ok(id) => id,
        Err(e) => {
            return Err(e);
        },
    };
    let ghost stepped = *builder;
    proof {
        assert(adder_failure(stepped, current, next) is None) by {
            assert(stepped.oracles.oracles@[n] == committed);
            assert(stepped.oracles.oracles@[n + 1] == next_oracle);
        }
    }
    let sum = match crate::arithmetic::u32::add(builder, "sum", current, next, Flags::Unchecked) {
        Ok(id) => id,
        Err(e) => {
            return Err(e);
        },
    };
    let ghost added = *builder;
    let sum_oracle = MultilinearPolyOracle {
        n_vars: packed_log_size,
        variant: OracleVariant::Packed { inner: sum, log_degree: 5 },
    };
    proof {
        let current_oracles = builder.oracles.oracles@;
        let grown = current_oracles.push(sum_oracle);
        assert(grown[n + 7] == sum_oracle);
        assert(grown[n + 6] == current_oracles[n + 6]);
    }
    let sum_packed = match builder.add_oracle(sum_oracle) {
        Ok(id) => id,
        Err(e) => {
            return Err(e);
        },
    };
    let next_next_word_oracle = MultilinearPolyOracle {
        n_vars: packed_log_size,
        variant: OracleVariant::Packed { inner: next_next, log_degree: 5 },
    };
    proof {
        let current_oracles = builder.oracles.oracles@;
        let grown = current_oracles.push(next_next_word_oracle);
        assert(grown[n + 8] == next_next_word_oracle);
        assert(added.oracles.oracles@.take(n + 4)[n + 2] == added.oracles.oracles@[n + 2]);
        assert(grown[n + 2] == next_next_oracle);
    }
    let next_next_packed = match builder.add_oracle(next_next_word_oracle) {
        Ok(id) => id,
        Err(e) => {
            return Err(e);
        },
    };
    let mut ids: Vec<OracleId> = Vec::new();
    ids.push(sum_packed);
    ids.push(next_next_packed);
    ids.push(enabled);
    assert(ids@ =~= seq![(n + 7) as usize, (n + 8) as usize, (n + 3) as usize]);
    let expr = ArithExpr::var(0).minus(ArithExpr::var(1)).times(ArithExpr::var(2));
    builder.assert_zero("step", ids, expr);
    builder.pop_namespace();
    proof {
        let after = *builder;
        assert(names_view(start.namespace@).push(name@).drop_last() =~= names_view(
            start.namespace@,
        ));
        assert(fib_seeded(start, seeded, log_size, s0, s1));
        assert(fib_constrained(seeded, stepped, added, after, log_size, n));
    }
    Ok(current)
}

} // verus!
