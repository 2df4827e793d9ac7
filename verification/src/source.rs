//! The packed expression written out in the host's syntax.
//!
//! The terms are joined by `|`, the least significant first. A raw term reads
//! `(5) << 3`, a masked term `(expr & 31) << 3` or, under a target type,
//! `((expr as u8) & 31) << 3`. An expression without terms is the literal
//! `0`. Under a target type the whole is cast once more: `(...) as u8`.

use crate::pack::{term_views, PackedExpr, PackedView, Target, Term, TermView};
use vstd::prelude::*;
use vstd::string::*;

verus! {

/// The character of the decimal digit `d`.
pub open spec fn digit_char(d: nat) -> char {
    if d == 0 {
        '0'
    } else if d == 1 {
        '1'
    } else if d == 2 {
        '2'
    } else if d == 3 {
        '3'
    } else if d == 4 {
        '4'
    } else if d == 5 {
        '5'
    } else if d == 6 {
        '6'
    } else if d == 7 {
        '7'
    } else if d == 8 {
        '8'
    } else {
        '9'
    }
}

/// The decimal digits of `n`, without leading zeros.
pub open spec fn decimal_text(n: nat) -> Seq<char>
    decreases n,
{
    if n < 10 {
        seq![digit_char(n)]
    } else {
        decimal_text(n / 10).push(digit_char(n % 10))
    }
}

/// The name of a target type.
pub open spec fn type_text(target: Target) -> Seq<char> {
    match target {
        Target::U8 => "u8"@,
        Target::U16 => "u16"@,
        Target::U32 => "u32"@,
        Target::U64 => "u64"@,
        Target::U128 => "u128"@,
    }
}

/// The source text of one term.
pub open spec fn term_text(term: TermView) -> Seq<char> {
    match term {
        TermView::Raw { value, shift } => "("@ + decimal_text(value as nat) + ") << "@
            + decimal_text(shift as nat),
        TermView::Masked { expr, cast, mask, shift } => match cast {
            Some(target) => "(("@ + expr + " as "@ + type_text(target) + ") & "@ + decimal_text(
                mask as nat,
            ) + ") << "@ + decimal_text(shift as nat),
            None => "("@ + expr + " & "@ + decimal_text(mask as nat) + ") << "@ + decimal_text(
                shift as nat,
            ),
        },
    }
}

/// The source texts of `terms`, joined by ` | `.
pub open spec fn joined_text(terms: Seq<TermView>) -> Seq<char>
    decreases terms.len(),
{
    if terms.len() == 0 {
        Seq::empty()
    } else if terms.len() == 1 {
        term_text(terms[0])
    } else {
        joined_text(terms.drop_last()) + " | "@ + term_text(terms.last())
    }
}

/// The source text of the terms of a packed expression: the terms joined by
/// ` | `, or the literal `0` where there is none.
pub open spec fn body_text(terms: Seq<TermView>) -> Seq<char> {
    if terms.len() == 0 {
        "0"@
    } else {
        joined_text(terms)
    }
}

/// The source text of a packed expression: its body, cast as a whole where
/// there is a target.
pub open spec fn packed_text(packed: PackedView) -> Seq<char> {
    match packed.cast {
        Some(target) => "("@ + body_text(packed.terms) + ") as "@ + type_text(target),
        None => body_text(packed.terms),
    }
}

/// The character of the decimal digit `d`.
fn digit(d: u8) -> (r: char)
    requires
        d < 10,
    ensures
        r == digit_char(d as nat),
{
    match d {
        0 => '0',
        1 => '1',
        2 => '2',
        3 => '3',
        4 => '4',
        5 => '5',
        6 => '6',
        7 => '7',
        8 => '8',
        _ => '9',
    }
}

/// Appends the decimal digits of `n` to `out`.
pub fn write_decimal(n: u128, out: &mut String)
    ensures
        final(out)@ == old(out)@ + decimal_text(n as nat),
    decreases n,
{
    if n >= 10 {
        write_decimal(n / 10, out);
    }
    let ghost before = out@;
    out.push(digit((n % 10) as u8));
    assert(out@ =~= old(out)@ + decimal_text(n as nat)) by {
        if n >= 10 {
            assert(before == old(out)@ + decimal_text((n / 10) as nat));
        }
    }
}

/// The name of a target type.
pub fn target_name(target: &Target) -> (r: &'static str)
    ensures
        r@ == type_text(*target),
{
    match target {
        Target::U8 => "u8",
        Target::U16 => "u16",
        Target::U32 => "u32",
        Target::U64 => "u64",
        Target::U128 => "u128",
    }
}

impl Term {
    /// Appends the source text of the term to `out`.
    pub fn write_to(&self, out: &mut String)
        ensures
            final(out)@ == old(out)@ + term_text(self@),
    {
        match self {
            Term::Raw { value, shift } => {
                out.append("(");
                write_decimal(*value, out);
                out.append(") << ");
                write_decimal(*shift as u128, out);
                assert(out@ =~= old(out)@ + term_text(self@));
            },
            Term::Masked { expr, cast, mask, shift } => {
                match cast {
                    Some(target) => {
                        out.append("((");
                        out.append(expr.as_str());
                        out.append(" as ");
                        out.append(target_name(target));
                        out.append(") & ");
                    },
                    None => {
                        out.append("(");
                        out.append(expr.as_str());
                        out.append(" & ");
                    },
                }
                write_decimal(*mask, out);
                out.append(") << ");
                write_decimal(*shift as u128, out);
                assert(out@ =~= old(out)@ + term_text(self@));
            },
        }
    }
}

impl PackedExpr {
    /// Appends the terms, joined by ` | `, to `out`.
    fn write_terms(&self, out: &mut String)
        requires
            self.terms.len() > 0,
        ensures
            final(out)@ == old(out)@ + joined_text(self@.terms),
    {
        let n: usize = self.terms.len();
        let ghost all = term_views(self.terms@);
        let ghost start = out@;
        let mut k: usize = 0;
        assert(all.take(0) =~= Seq::<TermView>::empty());
        assert(start + Seq::<char>::empty() =~= start);
        while k < n
            invariant
                k <= n,
                n == self.terms.len(),
                all == term_views(self.terms@),
                out@ == start + joined_text(all.take(k as int)),
            decreases n - k,
        {
            let ghost before = all.take(k as int);
            let ghost after = all.take(k + 1);
            assert(after.drop_last() =~= before);
            assert(after.last() == self.terms[k as int]@);
            if k > 0 {
                out.append(" | ");
            }
            self.terms[k].write_to(out);
            assert(out@ =~= start + joined_text(after));
            k += 1;
        }
        assert(all.take(n as int) =~= all);
    }

    /// Writes the expression out in the host's syntax.
    pub fn source(&self) -> (r: String)
        ensures
            r@ == packed_text(self@),
    {
        let mut out = String::new();
        if self.cast.is_some() {
            out.append("(");
        }
        let ghost start = out@;
        if self.terms.len() == 0 {
            out.append("0");
        } else {
            self.write_terms(&mut out);
        }
        assert(out@ == start + body_text(self@.terms));
        match &self.cast {
            Some(target) => {
                out.append(") as ");
                out.append(target_name(target));
                assert(out@ =~= packed_text(self@));
            },
            None => {
                assert(out@ =~= packed_text(self@));
            },
        }
        out
    }
}

} // verus!
