//! The packed expression that a bit sequence compiles to, and its value.
//!
//! A packed expression is the bitwise OR of shifted terms, one for each
//! segment, the least significant first. Its value is computed in the 128-bit
//! working word; a target type cuts it to that type's bits.

use crate::word::{
    lemma_and_or, lemma_mask_before_shift, lemma_or_laws, lemma_shift_or, lemma_shift_twice,
    lemma_shift_zero, low_mask, mask_of, saturated, shift_left, shifted,
};
use vstd::layout::unsigned_int_max_values;
use vstd::prelude::*;

verus! {

/// An unsigned integer type that a packed expression can be cast to.
#[derive(Clone, Copy, PartialEq, Eq, Structural, Debug)]
pub enum Target {
    U8,
    U16,
    U32,
    U64,
    U128,
}

impl Target {
    /// The number of bits of the type.
    pub open spec fn bits(self) -> nat {
        match self {
            Target::U8 => 8,
            Target::U16 => 16,
            Target::U32 => 32,
            Target::U64 => 64,
            Target::U128 => 128,
        }
    }

    /// The number of bits of the type.
    pub fn width(&self) -> (r: usize)
        ensures
            r == self.bits(),
    {
        match self {
            Target::U8 => 8,
            Target::U16 => 16,
            Target::U32 => 32,
            Target::U64 => 64,
            Target::U128 => 128,
        }
    }
}

/// `value` cast to `target`, or unchanged where there is none.
pub open spec fn cast_to(value: u128, target: Option<Target>) -> u128 {
    match target {
        Some(t) => value & low_mask(t.bits()),
        None => value,
    }
}

/// `value` cast to `target`, or unchanged where there is none.
pub fn cast_value(value: u128, target: &Option<Target>) -> (r: u128)
    ensures
        r == cast_to(value, *target),
{
    match target {
        Some(t) => value & mask_of(t.width()),
        None => value,
    }
}

/// One shifted term of a packed expression.
#[derive(Clone, Debug, PartialEq, Eq)]
pub enum Term {
    /// `(value) << shift`: the value of a bit pattern.
    Raw { value: u128, shift: usize },
    /// `((expr as cast) & mask) << shift`, without the cast where `cast` is
    /// `None`: the low bits of a value expression.
    Masked { expr: String, cast: Option<Target>, mask: u128, shift: usize },
}

/// The mathematical content of a [`Term`].
pub enum TermView {
    Raw { value: u128, shift: usize },
    Masked { expr: Seq<char>, cast: Option<Target>, mask: u128, shift: usize },
}

impl View for Term {
    type V = TermView;

    open spec fn view(&self) -> TermView {
        match self {
            Term::Raw { value, shift } => TermView::Raw { value: *value, shift: *shift },
            Term::Masked { expr, cast, mask, shift } => TermView::Masked {
                expr: expr@,
                cast: *cast,
                mask: *mask,
                shift: *shift,
            },
        }
    }
}

impl TermView {
    /// Whether the term holds a value expression.
    pub open spec fn is_masked(self) -> bool {
        self is Masked
    }

    /// The value of the term, where `operand` is the value of its expression.
    /// A raw term has no expression and does not look at `operand`.
    pub open spec fn value(self, operand: u128) -> u128 {
        match self {
            TermView::Raw { value, shift } => shift_left(value, shift as nat),
            TermView::Masked { expr, cast, mask, shift } => shift_left(
                cast_to(operand, cast) & mask,
                shift as nat,
            ),
        }
    }
}

impl Term {
    /// Whether the term holds a value expression.
    pub fn is_masked(&self) -> (r: bool)
        ensures
            r == self@.is_masked(),
    {
        match self {
            Term::Raw { .. } => false,
            Term::Masked { .. } => true,
        }
    }

    /// The value of the term, where `operand` is the value of its expression.
    pub fn value(&self, operand: u128) -> (r: u128)
        ensures
            r == self@.value(operand),
    {
        match self {
            Term::Raw { value, shift } => shifted(*value, *shift),
            Term::Masked { expr, cast, mask, shift } => shifted(
                cast_value(operand, cast) & *mask,
                *shift,
            ),
        }
    }
}

/// The views of a sequence of terms, one for one.
pub open spec fn term_views(terms: Seq<Term>) -> Seq<TermView> {
    terms.map_values(|t: Term| t@)
}

/// The number of value expressions among `terms`.
pub open spec fn operand_count(terms: Seq<TermView>) -> nat
    decreases terms.len(),
{
    if terms.len() == 0 {
        0
    } else if terms[0].is_masked() {
        1 + operand_count(terms.drop_first())
    } else {
        operand_count(terms.drop_first())
    }
}

/// The bitwise OR of the values of `terms`. The terms stand in the order of
/// rising significance and the operands in the order in which the
/// expressions were written, so the first masked term takes the last operand.
pub open spec fn terms_value(terms: Seq<TermView>, operands: Seq<u128>) -> u128
    recommends
        operands.len() == operand_count(terms),
    decreases terms.len(),
{
    if terms.len() == 0 {
        0
    } else if terms[0].is_masked() {
        terms[0].value(operands.last()) | terms_value(terms.drop_first(), operands.drop_last())
    } else {
        terms[0].value(0) | terms_value(terms.drop_first(), operands)
    }
}

/// A packed expression: the bitwise OR of `terms`, cast to `cast` where there
/// is one. Without terms it is the literal `0`.
#[derive(Clone, Debug, PartialEq, Eq)]
pub struct PackedExpr {
    pub terms: Vec<Term>,
    pub cast: Option<Target>,
}

/// The mathematical content of a [`PackedExpr`].
pub struct PackedView {
    pub terms: Seq<TermView>,
    pub cast: Option<Target>,
}

impl View for PackedExpr {
    type V = PackedView;

    open spec fn view(&self) -> PackedView {
        PackedView { terms: term_views(self.terms@), cast: self.cast }
    }
}

impl PackedView {
    /// The number of operands that the expression takes.
    pub open spec fn operand_count(self) -> nat {
        operand_count(self.terms)
    }

    /// The value of the expression, where `operands` holds the values of its
    /// value expressions in the order in which they were written.
    pub open spec fn value(self, operands: Seq<u128>) -> u128
        recommends
            operands.len() == self.operand_count(),
    {
        cast_to(terms_value(self.terms, operands), self.cast)
    }
}

impl PackedExpr {
    /// The number of operands that the expression takes.
    pub fn operand_count(&self) -> (r: usize)
        ensures
            r == self@.operand_count(),
    {
        let n: usize = self.terms.len();
        let ghost all = term_views(self.terms@);
        let mut count: usize = 0;
        let mut k: usize = n;
        assert(all.skip(n as int) =~= Seq::<TermView>::empty());
        while k > 0
            invariant
                k <= n,
                n == self.terms.len(),
                all == term_views(self.terms@),
                count <= n - k,
                count == operand_count(all.skip(k as int)),
            decreases k,
        {
            k -= 1;
            assert(all.skip(k as int).drop_first() =~= all.skip(k + 1));
            assert(all.skip(k as int)[0] == self.terms[k as int]@);
            if self.terms[k].is_masked() {
                count += 1;
            }
        }
        assert(all.skip(0) =~= all);
        count
    }

    /// Evaluates the expression. `operands` holds the values of the value
    /// expressions in the order in which they were written, each widened to
    /// the working word. The result is `None` where their number is not the
    /// number of value expressions.
    pub fn evaluate(&self, operands: &[u128]) -> (r: Option<u128>)
        ensures
            r == if operands@.len() == self@.operand_count() {
                Some(self@.value(operands@))
            } else {
                None
            },
    {
        if operands.len() != self.operand_count() {
            return None;
        }
        let n: usize = self.terms.len();
        let ghost all = term_views(self.terms@);
        let mut acc: u128 = 0;
        let mut used: usize = 0;
        let mut k: usize = n;
        assert(all.skip(n as int) =~= Seq::<TermView>::empty());
        while k > 0
            invariant
                k <= n,
                n == self.terms.len(),
                all == term_views(self.terms@),
                operands@.len() == operand_count(all),
                used == operand_count(all.skip(k as int)),
                acc == terms_value(all.skip(k as int), operands@.take(used as int)),
            decreases k,
        {
            k -= 1;
            let ghost tail = all.skip(k as int);
            assert(tail.drop_first() =~= all.skip(k + 1));
            assert(tail[0] == self.terms[k as int]@);
            proof {
                lemma_operand_count_suffix(all, k as int);
            }
            if self.terms[k].is_masked() {
                let operand = operands[used];
                assert(operands@.take(used + 1).drop_last() =~= operands@.take(used as int));
                assert(operands@.take(used + 1).last() == operand);
                acc = self.terms[k].value(operand) | acc;
                used += 1;
            } else {
                acc = self.terms[k].value(0) | acc;
            }
        }
        assert(all.skip(0) =~= all);
        assert(operands@.take(used as int) =~= operands@);
        Some(cast_value(acc, &self.cast))
    }
}

/// The terms from `k` on hold one operand more than the terms behind `k`
/// exactly where term `k` is masked, and never more than all terms.
pub proof fn lemma_operand_count_suffix(terms: Seq<TermView>, k: int)
    requires
        0 <= k < terms.len(),
    ensures
        operand_count(terms.skip(k)) == operand_count(terms.skip(k + 1)) + if terms[k].is_masked() {
            1nat
        } else {
            0nat
        },
        operand_count(terms.skip(k)) <= operand_count(terms),
    decreases k,
{
    assert(terms.skip(k).drop_first() =~= terms.skip(k + 1));
    if k == 0 {
        assert(terms.skip(0) =~= terms);
    } else {
        lemma_operand_count_suffix(terms, k - 1);
    }
}

impl TermView {
    /// The term moved up by `by` more bits.
    pub open spec fn lifted(self, by: nat) -> TermView {
        match self {
            TermView::Raw { value, shift } => TermView::Raw {
                value,
                shift: saturated((shift + by) as nat),
            },
            TermView::Masked { expr, cast, mask, shift } => TermView::Masked {
                expr,
                cast,
                mask,
                shift: saturated((shift + by) as nat),
            },
        }
    }

    /// The term with the cast `target` in place of its own.
    pub open spec fn recast(self, target: Option<Target>) -> TermView {
        match self {
            TermView::Raw { value, shift } => self,
            TermView::Masked { expr, cast, mask, shift } => TermView::Masked {
                expr,
                cast: target,
                mask,
                shift,
            },
        }
    }
}

/// A shift amount that was cut to a `usize` shifts as far as the number it
/// stands for: both empty the word.
pub proof fn lemma_saturated_shift(value: u128, n: nat)
    ensures
        shift_left(value, saturated(n) as nat) == shift_left(value, n),
{
    assert(usize::MAX >= 128) by {
        unsigned_int_max_values();
    }
}

/// A lifted term has the value of the term, shifted.
pub proof fn lemma_lifted_value(term: TermView, by: nat, operand: u128)
    ensures
        term.lifted(by).value(operand) == shift_left(term.value(operand), by),
        term.lifted(by).is_masked() == term.is_masked(),
{
    match term {
        TermView::Raw { value, shift } => {
            lemma_saturated_shift(value, (shift + by) as nat);
            lemma_shift_twice(value, shift as nat, by);
        },
        TermView::Masked { expr, cast, mask, shift } => {
            let inner = cast_to(operand, cast) & mask;
            lemma_saturated_shift(inner, (shift + by) as nat);
            lemma_shift_twice(inner, shift as nat, by);
        },
    }
}

/// Lifted terms hold as many operands, and their value is the value of the
/// terms, shifted.
pub proof fn lemma_lifted_terms(terms: Seq<TermView>, by: nat, operands: Seq<u128>)
    ensures
        operand_count(terms.map_values(|t: TermView| t.lifted(by))) == operand_count(terms),
        terms_value(terms.map_values(|t: TermView| t.lifted(by)), operands) == shift_left(
            terms_value(terms, operands),
            by,
        ),
    decreases terms.len(),
{
    let up = terms.map_values(|t: TermView| t.lifted(by));
    if terms.len() == 0 {
        lemma_shift_zero(0, by);
    } else {
        let rest = terms.drop_first();
        assert(up.drop_first() =~= rest.map_values(|t: TermView| t.lifted(by)));
        assert(up[0] == terms[0].lifted(by));
        if terms[0].is_masked() {
            lemma_lifted_value(terms[0], by, operands.last());
            lemma_lifted_terms(rest, by, operands.drop_last());
            lemma_shift_or(
                terms[0].value(operands.last()),
                terms_value(rest, operands.drop_last()),
                by,
            );
        } else {
            lemma_lifted_value(terms[0], by, 0);
            lemma_lifted_terms(rest, by, operands);
            lemma_shift_or(terms[0].value(0), terms_value(rest, operands), by);
        }
    }
}

/// Two rows of terms put together hold the operands of both.
pub proof fn lemma_operand_count_concat(low: Seq<TermView>, high: Seq<TermView>)
    ensures
        operand_count(low + high) == operand_count(low) + operand_count(high),
    decreases low.len(),
{
    if low.len() == 0 {
        assert(low + high =~= high);
    } else {
        assert((low + high).drop_first() =~= low.drop_first() + high);
        lemma_operand_count_concat(low.drop_first(), high);
    }
}

/// The value of two rows of terms put together is the OR of their values,
/// where the lower terms take the last operands and the higher terms the
/// first.
pub proof fn lemma_terms_value_concat(low: Seq<TermView>, high: Seq<TermView>, operands: Seq<u128>)
    requires
        operands.len() == operand_count(low) + operand_count(high),
    ensures
        terms_value(low + high, operands) == terms_value(
            low,
            operands.skip(operand_count(high) as int),
        ) | terms_value(high, operands.take(operand_count(high) as int)),
    decreases low.len(),
{
    let m = operand_count(high) as int;
    if low.len() == 0 {
        assert(low + high =~= high);
        assert(operands.take(m) =~= operands);
        lemma_or_laws(terms_value(high, operands), 0, 0);
    } else {
        let rest = low.drop_first();
        assert((low + high).drop_first() =~= rest + high);
        assert((low + high)[0] == low[0]);
        if low[0].is_masked() {
            let shorter = operands.drop_last();
            lemma_terms_value_concat(rest, high, shorter);
            assert(shorter.take(m) =~= operands.take(m));
            assert(shorter.skip(m) =~= operands.skip(m).drop_last());
            assert(operands.skip(m).last() == operands.last());
            lemma_or_laws(
                low[0].value(operands.last()),
                terms_value(rest, shorter.skip(m)),
                terms_value(high, shorter.take(m)),
            );
        } else {
            lemma_terms_value_concat(rest, high, operands);
            lemma_or_laws(
                low[0].value(0),
                terms_value(rest, operands.skip(m)),
                terms_value(high, operands.take(m)),
            );
        }
    }
}

/// Under a mask of the target's bits, terms that cast their operands to the
/// target have the value of the same terms without a cast.
pub proof fn lemma_recast_terms(terms: Seq<TermView>, target: Target, operands: Seq<u128>)
    ensures
        terms_value(terms.map_values(|t: TermView| t.recast(Some(target))), operands) & low_mask(
            target.bits(),
        ) == terms_value(terms.map_values(|t: TermView| t.recast(None)), operands) & low_mask(
            target.bits(),
        ),
    decreases terms.len(),
{
    let typed = terms.map_values(|t: TermView| t.recast(Some(target)));
    let plain = terms.map_values(|t: TermView| t.recast(None));
    let m = low_mask(target.bits());
    if terms.len() == 0 {
    } else {
        let rest = terms.drop_first();
        assert(typed.drop_first() =~= rest.map_values(|t: TermView| t.recast(Some(target))));
        assert(plain.drop_first() =~= rest.map_values(|t: TermView| t.recast(None)));
        assert(typed[0] == terms[0].recast(Some(target)));
        assert(plain[0] == terms[0].recast(None));
        let ops = if terms[0].is_masked() {
            operands.drop_last()
        } else {
            operands
        };
        let operand = if terms[0].is_masked() {
            operands.last()
        } else {
            0
        };
        lemma_recast_terms(rest, target, ops);
        let a = typed[0].value(operand);
        let b = plain[0].value(operand);
        assert(a & m == b & m) by {
            match terms[0] {
                TermView::Raw { value, shift } => {},
                TermView::Masked { expr, cast, mask, shift } => {
                    assert((operand & m) & mask == (operand & mask) & m) by (bit_vector);
                    lemma_mask_before_shift(operand & mask, target.bits(), shift as nat);
                },
            }
        }
        lemma_and_or(a, terms_value(typed.drop_first(), ops), m);
        lemma_and_or(b, terms_value(plain.drop_first(), ops), m);
    }
}

} // verus!
