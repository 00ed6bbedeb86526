use vstd::prelude::*;
use vstd::arithmetic::power2::pow2;
use crate::arith_expr::ArithExpr;
use crate::arithmetic::Flags;
use crate::builder::{log_rows_spec, names_view, ConstraintSystemBuilder};
use crate::error::{Error, WitnessError};
use crate::field::Field;
use crate::oracle::{
    oracle_fits, terms_fit, MultilinearPolyOracle, OracleError, OracleId, OracleVariant,
    ProjectionVariant, ShiftVariant,
};
use crate::witness::column_of;
use crate::words::{
    bit_of, bit_value, bit_words, bits_of_words, lemma_pow2_words, word_bits, words_of_bits,
};

verus! {

/// The sum of two words, the carry out of the highest bit dropped.
pub open spec fn sum_word(x: u32, y: u32) -> u32 {
    x.wrapping_add(y)
}

/// The carries into the bits of the sum of two words.
pub open spec fn carry_in_word(x: u32, y: u32) -> u32 {
    x ^ y ^ sum_word(x, y)
}

/// The carries out of the bits of the sum of two words: the carry into
/// each higher bit, and the carry out of the highest.
pub open spec fn carry_out_word(x: u32, y: u32) -> u32 {
    (if sum_word(x, y) < x {
        1u32 << 31
    } else {
        0u32
    }) | (carry_in_word(x, y) >> 1)
}

/// The sums of the words of two sequences, word by word.
pub open spec fn sum_words(xs: Seq<u32>, ys: Seq<u32>) -> Seq<u32> {
    Seq::new(xs.len(), |i: int| sum_word(xs[i], ys[i]))
}

/// The carries into the bits of the sums, word by word.
pub open spec fn carry_in_words(xs: Seq<u32>, ys: Seq<u32>) -> Seq<u32> {
    Seq::new(xs.len(), |i: int| carry_in_word(xs[i], ys[i]))
}

/// The carries out of the bits of the sums, word by word.
pub open spec fn carry_out_words(xs: Seq<u32>, ys: Seq<u32>) -> Seq<u32> {
    Seq::new(xs.len(), |i: int| carry_out_word(xs[i], ys[i]))
}

/// The highest bit of each word, as a column.
pub open spec fn top_bits<F: Field>(words: Seq<u32>) -> Seq<F> {
    Seq::new(words.len(), |i: int| bit_value(bit_of(words[i], 31)))
}

/// The composition that the adder asserts to be zero on the inputs `x`
/// and `y`, the carries in and the carries out:
/// `(x + cin) * (y + cin) + cin - cout`.
pub open spec fn sum_expr<F: Field>() -> ArithExpr<F> {
    let x = ArithExpr::<F>::Var(0);
    let y = ArithExpr::<F>::Var(1);
    let cin = ArithExpr::<F>::Var(2);
    let cout = ArithExpr::<F>::Var(3);
    ArithExpr::Sub(
        Box::new(
            ArithExpr::Add(
                Box::new(
                    ArithExpr::Mul(
                        Box::new(ArithExpr::Add(Box::new(x), Box::new(cin))),
                        Box::new(ArithExpr::Add(Box::new(y), Box::new(cin))),
                    ),
                ),
                Box::new(cin),
            ),
        ),
        Box::new(cout),
    )
}

/// Why the adder fails on given inputs, if it does: the inputs are no two
/// oracles of one arity; they have fewer than the five variables of a
/// word; or a witness is built and holds no column for one of them.
pub open spec fn adder_failure<F: Field>(
    builder: ConstraintSystemBuilder<F>,
    xin: OracleId,
    yin: OracleId,
) -> Option<Error> {
    match log_rows_spec(builder.oracles.oracles@, xin, yin) {
        Err(e) => Some(e),
        Ok(n) => if n < 5 {
            Some(Error::Oracle(OracleError::NotEnoughVariables))
        } else if builder.witness is None {
            None
        } else if column_of(builder.columns(), xin) is None {
            Some(Error::Witness(WitnessError::MissingWitness { id: xin }))
        } else if column_of(builder.columns(), yin) is None {
            Some(Error::Witness(WitnessError::MissingWitness { id: yin }))
        } else {
            None
        },
    }
}

/// Whether `after` holds the oracles of `before` followed by those of the
/// adder: the committed carries out; the carries in, which are the
/// carries out shifted up by one bit within each word; the sum, which is
/// the sum of the inputs and the carries in; and, where overflow is
/// checked, the highest carry out of each word.
pub open spec fn adder_oracles<F: Field>(
    before: Seq<MultilinearPolyOracle<F>>,
    after: Seq<MultilinearPolyOracle<F>>,
    xin: OracleId,
    yin: OracleId,
    flags: Flags,
) -> bool {
    let n = before.len() as int;
    let n_vars = before[xin as int].n_vars;
    &&& after.len() == n + (if flags is Checked { 4int } else { 3int })
    &&& after.take(n) == before
    &&& after[n] == (MultilinearPolyOracle { n_vars, variant: OracleVariant::<F>::Committed })
    &&& after[n + 1] == (MultilinearPolyOracle::<F> {
        n_vars,
        variant: OracleVariant::Shifted {
            inner: n as usize,
            shift_offset: 1,
            block_size: 5,
            shift_variant: ShiftVariant::LogicalLeft,
        },
    })
    &&& after[n + 2].n_vars == n_vars
    &&& after[n + 2].variant matches OracleVariant::LinearCombination { offset, terms }
    &&& offset == F::zero()
    &&& terms@ == seq![(xin, F::one()), (yin, F::one()), ((n + 1) as usize, F::one())]
    &&& flags is Checked ==> {
        &&& after[n + 3].n_vars == n_vars - 5
        &&& after[n + 3].variant matches OracleVariant::Projected { inner, values, variant }
        &&& inner == n
        &&& values@ == Seq::new(5, |i: int| F::one())
        &&& variant == ProjectionVariant::FirstVars
    }
}

/// Whether `after` holds the columns of `before` and those of the adder,
/// computed word by word from the columns of the inputs.
pub open spec fn adder_columns<F: Field>(
    before: Seq<Option<Vec<F>>>,
    after: Seq<Option<Vec<F>>>,
    n: OracleId,
    xin: OracleId,
    yin: OracleId,
    flags: Flags,
) -> bool {
    let xs = bit_words(column_of(before, xin)->0);
    let ys = bit_words(column_of(before, yin)->0);
    &&& column_of(before, xin) is Some
    &&& column_of(before, yin) is Some
    &&& column_of(after, n) == Some(word_bits::<F>(carry_out_words(xs, ys)))
    &&& column_of(after, (n + 1) as usize) == Some(word_bits::<F>(carry_in_words(xs, ys)))
    &&& column_of(after, (n + 2) as usize) == Some(word_bits::<F>(sum_words(xs, ys)))
    &&& flags is Checked ==> column_of(after, (n + 3) as usize) == Some(
        top_bits::<F>(carry_out_words(xs, ys)),
    )
    &&& forall|other: OracleId|
        other < n ==> #[trigger] column_of(after, other) == column_of(before, other)
}

/// What an adder that succeeded has done.
pub open spec fn adder_done<F: Field>(
    before: ConstraintSystemBuilder<F>,
    after: ConstraintSystemBuilder<F>,
    xin: OracleId,
    yin: OracleId,
    flags: Flags,
    zout: OracleId,
) -> bool {
    let n = before.oracles.oracles@.len() as int;
    let count = before.constraints@.len() as int;
    let added = if flags is Checked { 2int } else { 1int };
    &&& zout == n + 2
    &&& adder_oracles(before.oracles.oracles@, after.oracles.oracles@, xin, yin, flags)
    &&& after.witness is Some == before.witness is Some
    &&& before.witness is Some ==> adder_columns(
        before.columns(),
        after.columns(),
        n as usize,
        xin,
        yin,
        flags,
    )
    &&& names_view(after.namespace@) == names_view(
        before.namespace@,
    )
    &&& after.constraints@.len() == count + added
    &&& after.constraints@.take(count) == before.constraints@
    &&& after.constraints@[count].oracle_ids@ == seq![xin, yin, (n + 1) as usize, n as usize]
    &&& after.constraints@[count].composition == sum_expr::<F>()
    &&& flags is Checked ==> {
        &&& after.constraints@[count + 1].oracle_ids@ == seq![(n + 3) as usize]
        &&& after.constraints@[count + 1].composition == ArithExpr::<F>::Var(0)
    }
}

/// The words of the adder for the input words, word by word: the sums,
/// the carries in and the carries out.
fn adder_words(xs: &Vec<u32>, ys: &Vec<u32>) -> (r: (Vec<u32>, Vec<u32>, Vec<u32>))
    requires
        xs@.len() == ys@.len(),
    ensures
        r.0@ == sum_words(xs@, ys@),
        r.1@ == carry_in_words(xs@, ys@),
        r.2@ == carry_out_words(xs@, ys@),
{
    let mut zs: Vec<u32> = Vec::new();
    let mut cins: Vec<u32> = Vec::new();
    let mut couts: Vec<u32> = Vec::new();
    let mut i: usize = 0;
    while i < xs.len()
        invariant
            i <= xs@.len(),
            xs@.len() == ys@.len(),
            zs@ == sum_words(xs@, ys@).take(i as int),
            cins@ == carry_in_words(xs@, ys@).take(i as int),
            couts@ == carry_out_words(xs@, ys@).take(i as int),
        decreases xs@.len() - i,
    {
        let x = xs[i];
        let y = ys[i];
        let z = x.wrapping_add(y);
        let cin = x ^ y ^ z;
        let carry: u32 = if z < x {
            1u32 << 31
        } else {
            0u32
        };
        let cout = carry | (cin >> 1);
        zs.push(z);
        cins.push(cin);
        couts.push(cout);
        proof {
            assert(zs@ =~= sum_words(xs@, ys@).take(i + 1));
            assert(cins@ =~= carry_in_words(xs@, ys@).take(i + 1));
            assert(couts@ =~= carry_out_words(xs@, ys@).take(i + 1));
        }
        i += 1;
    }
    proof {
        assert(sum_words(xs@, ys@).take(xs@.len() as int) =~= sum_words(xs@, ys@));
        assert(carry_in_words(xs@, ys@).take(xs@.len() as int) =~= carry_in_words(xs@, ys@));
        assert(carry_out_words(xs@, ys@).take(xs@.len() as int) =~= carry_out_words(xs@, ys@));
    }
    (zs, cins, couts)
}

/// The highest bit of each word, as a column.
fn top_bits_of<F: Field>(words: &Vec<u32>) -> (column: Vec<F>)
    ensures
        column@ == top_bits::<F>(words@),
{
    let mut column: Vec<F> = Vec::new();
    let mut i: usize = 0;
    while i < words.len()
        invariant
            i <= words@.len(),
            column@ == top_bits::<F>(words@).take(i as int),
        decreases words@.len() - i,
    {
        let bit = if (words[i] >> 31u32) & 1 == 1 {
            F::one_value()
        } else {
            F::zero_value()
        };
        column.push(bit);
        assert(column@ =~= top_bits::<F>(words@).take(i + 1));
        i += 1;
    }
    assert(top_bits::<F>(words@).take(words@.len() as int) =~= top_bits::<F>(words@));
    column
}

/// Builds the composition that the adder asserts to be zero.
fn build_sum_expr<F: Field>() -> (e: ArithExpr<F>)
    ensures
        e == sum_expr::<F>(),
{
    let x_cin = ArithExpr::var(0).plus(ArithExpr::var(2));
    let y_cin = ArithExpr::var(1).plus(ArithExpr::var(2));
    x_cin.times(y_cin).plus(ArithExpr::var(2)).minus(ArithExpr::var(3))
}

/// The gadget that adds the 32-bit words of two columns of bits.
///
/// It adds the oracles of the carries out, of the carries in and of the
/// sum, whose id it returns; it fills their columns where a witness is
/// built; and it asserts that the carries belong to the inputs. Where
/// overflow is checked it also adds the oracle of the highest carry out of
/// each word and asserts that it is zero.
pub fn add<F: Field>(
    builder: &mut ConstraintSystemBuilder<F>,
    name: &str,
    xin: OracleId,
    yin: OracleId,
    flags: Flags,
) -> (r: Result<OracleId, Error>)
    requires
        old(builder).wf(),
    ensures
        match r {
            Ok(zout) => final(builder).wf() && adder_failure(*old(builder), xin, yin) is None
                && adder_done(*old(builder), *final(builder), xin, yin, flags, zout),
            Err(e) => adder_failure(*old(builder), xin, yin) == Some(e),
        },
{
    let ghost start = *builder;
    let ghost before = builder.oracles.oracles@;
    let ghost n = before.len() as int;
    builder.push_namespace(name);
    let log_rows = match builder.log_rows(xin, yin) {
        Ok(log_rows) => log_rows,
        Err(e) => {
            return Err(e);
        },
    };
    proof {
        assert(oracle_fits(before, xin as int));
        assert(builder.oracles.oracles.len() == n);
    }
    let committed = MultilinearPolyOracle { n_vars: log_rows, variant: OracleVariant::Committed };
    proof {
        assert(before.push(committed)[n] == committed);
    }
    let cout = match builder.add_oracle(committed) {
        Ok(cout) => cout,
        Err(e) => {
            return Err(e);
        },
    };
    let shifted = MultilinearPolyOracle {
        n_vars: log_rows,
        variant: OracleVariant::Shifted {
            inner: cout,
            shift_offset: 1,
            block_size: 5,
            shift_variant: ShiftVariant::LogicalLeft,
        },
    };
    proof {
        let next = builder.oracles.oracles@.push(shifted);
        assert(next[n + 1] == shifted);
        assert(next[n] == committed);
    }
    let cin = match builder.add_oracle(shifted) {
        Ok(cin) => cin,
        Err(e) => {
            return Err(e);
        },
    };
    let mut terms: Vec<(OracleId, F)> = Vec::new();
    terms.push((xin, F::one_value()));
    terms.push((yin, F::one_value()));
    terms.push((cin, F::one_value()));
    let combination = MultilinearPolyOracle {
        n_vars: log_rows,
        variant: OracleVariant::LinearCombination { offset: F::zero_value(), terms },
    };
    proof {
        assert(terms@ =~= seq![(xin, F::one()), (yin, F::one()), ((n + 1) as usize, F::one())]);
        let current = builder.oracles.oracles@;
        let next = current.push(combination);
        assert(next[n + 2] == combination);
        assert(next[xin as int] == before[xin as int]);
        assert(next[yin as int] == before[yin as int]);
        assert(next[n + 1] == shifted);
        assert(terms_fit(next, terms@, n + 2, log_rows as int));
    }
    let zout = match builder.add_oracle(combination) {
        Ok(zout) => zout,
        Err(e) => {
            return Err(e);
        },
    };
    let checked = match flags {
        Flags::Checked => true,
        Flags::Unchecked => false,
    };
    let last_cout = if checked {
        let mut ones: Vec<F> = Vec::new();
        let mut k: usize = 0;
        while k < 5
            invariant
                k <= 5,
                ones@ == Seq::new(k as nat, |i: int| F::one()),
            decreases 5 - k,
        {
            ones.push(F::one_value());
            assert(ones@ =~= Seq::new((k + 1) as nat, |i: int| F::one()));
            k += 1;
        }
        let projection = MultilinearPolyOracle {
            n_vars: log_rows - 5,
            variant: OracleVariant::Projected {
                inner: cout,
                values: ones,
                variant: ProjectionVariant::FirstVars,
            },
        };
        proof {
            let current = builder.oracles.oracles@;
            let next = current.push(projection);
            assert(next[n + 3] == projection);
            assert(next[n] == committed);
        }
        match builder.add_oracle(projection) {
            Ok(id) => Some(id),
            Err(e) => {
                return Err(e);
            },
        }
    } else {
        None
    };
    let ghost grown = builder.oracles.oracles@;
    proof {
        assert(grown.take(n) =~= before);
    }
    let x_column = match builder.column(xin) {
        Ok(column) => column,
        Err(e) => {
            return Err(e);
        },
    };
    let y_column = match builder.column(yin) {
        Ok(column) => column,
        Err(e) => {
            return Err(e);
        },
    };
    match (x_column, y_column) {
        (Some(x_column), Some(y_column)) => {
            let xs = words_of_bits(&x_column);
            let ys = words_of_bits(&y_column);
            proof {
                lemma_pow2_words(log_rows as nat);
                let rows = pow2(log_rows as nat);
                assert(x_column@.len() == rows && y_column@.len() == rows);
                assert(xs@.len() == pow2((log_rows - 5) as nat));
            }
            let (zs, cins, couts) = adder_words(&xs, &ys);
            builder.set_column(cout, bits_of_words(&couts));
            builder.set_column(cin, bits_of_words(&cins));
            builder.set_column(zout, bits_of_words(&zs));
            match last_cout {
                Some(id) => {
                    builder.set_column(id, top_bits_of(&couts));
                },
                None => {},
            }
        },
        _ => {},
    }
    let mut ids: Vec<OracleId> = Vec::new();
    ids.push(xin);
    ids.push(yin);
    ids.push(cin);
    ids.push(cout);
    assert(ids@ =~= seq![xin, yin, (n + 1) as usize, n as usize]);
    let ghost constraints = builder.constraints@;
    builder.assert_zero("sum", ids, build_sum_expr());
    match last_cout {
        Some(id) => {
            let mut one_id: Vec<OracleId> = Vec::new();
            one_id.push(id);
            assert(one_id@ =~= seq![(n + 3) as usize]);
            let ghost middle = builder.constraints@;
            builder.assert_zero("overflow", one_id, ArithExpr::var(0));
            proof {
                assert(builder.constraints@.take(constraints.len() as int) =~= constraints) by {
                    assert(builder.constraints@.take(middle.len() as int) == middle);
                    assert(middle.take(constraints.len() as int) == constraints);
                    assert forall|i: int| 0 <= i < constraints.len() implies builder.constraints@[i]
                        == constraints[i] by {
                        assert(builder.constraints@.take(middle.len() as int)[i]
                            == builder.constraints@[i]);
                        assert(middle.take(constraints.len() as int)[i] == middle[i]);
                    }
                }
                assert(builder.constraints@[constraints.len() as int] == middle[constraints.len() as int]) by {
                    assert(builder.constraints@.take(middle.len() as int)[constraints.len() as int]
                        == builder.constraints@[constraints.len() as int]);
                }
            }
        },
        None => {},
    }
    builder.pop_namespace();
    proof {
        assert(names_view(start.namespace@).push(name@).drop_last()
            =~= names_view(start.namespace@));
    }
    Ok(zout)
}

} // verus!
