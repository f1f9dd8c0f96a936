use vstd::prelude::*;

use crate::dec::{
    Dec, DecModel, MAX_DEC_MANTISSA, dec_add_of, dec_sub_of, dec_mul_of, dec_div_of, dec_powi_of,
    dec_add_fits, dec_sub_fits, dec_mul_fits, dec_div_fits, dec_powi_fits,
    dec_checked_add, dec_checked_sub, dec_checked_mul, dec_checked_div, dec_checked_powi,
    dec_val_sum, lemma_val_sum_zero_left, lemma_val_sum_same_scale,
};

verus! {

/// A loan's terms: the amount borrowed, the nominal yearly rate as a
/// percentage (20.00% is `Dec { m: 2000, s: 2 }`), and the number of
/// monthly payments that retire it.
#[derive(Clone, Copy, Debug, PartialEq, Eq, Structural)]
pub struct LoanTerms {
    pub principal: Dec,
    pub annual_rate_percent: Dec,
    pub term_months: i32,
}

/// One row of an amortization schedule: the 1-based period number, the
/// level payment, its split into interest and principal, and the balance
/// still owed after the payment is applied.
#[derive(Clone, Copy, Debug, PartialEq, Eq, Structural)]
pub struct Period {
    pub index: i32,
    pub payment_amount: Dec,
    pub interest_portion: Dec,
    pub principal_portion: Dec,
    pub remaining_balance: Dec,
}

/// The mathematical content of a `Period`.
pub struct PeriodModel {
    pub index: int,
    pub payment_amount: DecModel,
    pub interest_portion: DecModel,
    pub principal_portion: DecModel,
    pub remaining_balance: DecModel,
}

impl View for Period {
    type V = PeriodModel;

    open spec fn view(&self) -> PeriodModel {
        PeriodModel {
            index: self.index as int,
            payment_amount: self.payment_amount@,
            interest_portion: self.interest_portion@,
            principal_portion: self.principal_portion@,
            remaining_balance: self.remaining_balance@,
        }
    }
}

impl Period {
    /// Every monetary field is a representable 96-bit decimal.
    pub open spec fn wf(self) -> bool {
        &&& self.payment_amount.wf()
        &&& self.interest_portion.wf()
        &&& self.principal_portion.wf()
        &&& self.remaining_balance.wf()
    }
}

/// Why a schedule could not be produced.
#[derive(Clone, Copy, Debug, PartialEq, Eq, Structural)]
pub enum LoanError {
    /// The terms were rejected: non-positive principal, a negative rate,
    /// a term below one month, or a number outside the decimal range.
    InvalidLoanTerms,
    /// An intermediate quantity left the representable decimal range, or
    /// the payment formula's denominator came to zero.
    DecimalRange,
}

impl LoanTerms {
    /// The terms a schedule is owed for: positive principal, non-negative
    /// rate, a term of at least one month, and both decimals representable.
    pub open spec fn valid(self) -> bool {
        &&& self.principal.wf()
        &&& self.principal.m > 0
        &&& self.annual_rate_percent.wf()
        &&& self.annual_rate_percent.m >= 0
        &&& self.term_months >= 1
    }

    pub fn is_valid(&self) -> (r: bool)
        ensures
            r == self.valid(),
    {
        self.principal.is_wf() && self.principal.m > 0
            && self.annual_rate_percent.is_wf() && self.annual_rate_percent.m >= 0
            && self.term_months >= 1
    }
}

pub open spec fn dec_model_zero() -> DecModel {
    DecModel { m: 0, s: 0 }
}

pub open spec fn dec_model_one() -> DecModel {
    DecModel { m: 1, s: 0 }
}

/// The monthly rate: the annual percentage divided by 100 and then by 12,
/// in decimal arithmetic. A zero annual rate gives exactly zero.
pub open spec fn spec_monthly_rate(rate: DecModel) -> DecModel {
    if rate.m == 0 {
        dec_model_zero()
    } else {
        dec_div_of(dec_div_of(rate, DecModel { m: 100, s: 0 }), DecModel { m: 12, s: 0 })
    }
}

/// The level payment. At a zero monthly rate it is `principal / term_months`;
/// otherwise it is the ordinary-annuity formula
/// `(rate * principal) / (1 - (1 + rate)^(-term))`, each step in decimal
/// arithmetic.
pub open spec fn spec_payment(terms: LoanTerms) -> DecModel {
    let p = terms.principal@;
    let mr = spec_monthly_rate(terms.annual_rate_percent@);
    let t = terms.term_months as int;
    if mr.m == 0 {
        dec_div_of(p, DecModel { m: t, s: 0 })
    } else {
        let base = dec_add_of(dec_model_one(), mr);
        let pw = dec_powi_of(base, -t);
        let denom = dec_sub_of(dec_model_one(), pw);
        dec_div_of(dec_mul_of(mr, p), denom)
    }
}

/// Period 1: interest charged on the whole principal, the rest of the
/// payment applied to principal, and the balance reduced by it.
pub open spec fn spec_first_period(terms: LoanTerms) -> PeriodModel {
    let p = terms.principal@;
    let mr = spec_monthly_rate(terms.annual_rate_percent@);
    let payment = spec_payment(terms);
    let interest = if mr.m == 0 {
        dec_model_zero()
    } else {
        dec_mul_of(mr, p)
    };
    let principal_portion = if mr.m == 0 {
        payment
    } else {
        dec_sub_of(payment, interest)
    };
    PeriodModel {
        index: 1,
        payment_amount: payment,
        interest_portion: interest,
        principal_portion,
        remaining_balance: dec_sub_of(p, principal_portion),
    }
}

/// The recurrence: interest on the balance outstanding before the payment,
/// the rest of the level payment applied to principal, the balance reduced
/// by that amount.
pub open spec fn spec_next_period(prev: PeriodModel, mr: DecModel, idx: int) -> PeriodModel {
    let interest = if mr.m == 0 {
        dec_model_zero()
    } else {
        dec_mul_of(prev.remaining_balance, mr)
    };
    let principal_portion = if mr.m == 0 {
        prev.payment_amount
    } else {
        dec_sub_of(prev.payment_amount, interest)
    };
    PeriodModel {
        index: idx,
        payment_amount: prev.payment_amount,
        interest_portion: interest,
        principal_portion,
        remaining_balance: dec_sub_of(prev.remaining_balance, principal_portion),
    }
}

/// Whether a period's interest and principal sum to its payment exactly at
/// the working precision by construction: the payment and the interest
/// share one scale, and the exact difference of their mantissas is
/// representable, so the stored principal is that difference.
pub open spec fn period_sum_exact(p: PeriodModel) -> bool {
    &&& p.interest_portion.s == p.payment_amount.s
    &&& -(MAX_DEC_MANTISSA as int) <= p.payment_amount.m - p.interest_portion.m
        <= MAX_DEC_MANTISSA as int
}

/// Whether every decimal step of period 1 is representable: exactly the
/// operations `first_period_given_rate` performs, in order.
pub open spec fn spec_first_period_ok(terms: LoanTerms) -> bool {
    let p = terms.principal@;
    let mr = spec_monthly_rate(terms.annual_rate_percent@);
    let t = terms.term_months as int;
    let payment = spec_payment(terms);
    if mr.m == 0 {
        &&& dec_div_fits(p, DecModel { m: t, s: 0 })
        &&& dec_sub_fits(p, payment)
    } else {
        let interest = dec_mul_of(mr, p);
        let base = dec_add_of(dec_model_one(), mr);
        let pw = dec_powi_of(base, -t);
        let denom = dec_sub_of(dec_model_one(), pw);
        &&& dec_mul_fits(mr, p)
        &&& dec_add_fits(dec_model_one(), mr)
        &&& dec_powi_fits(base, -t)
        &&& dec_sub_fits(dec_model_one(), pw)
        &&& dec_div_fits(interest, denom)
        &&& dec_sub_fits(payment, interest)
        &&& dec_sub_fits(p, dec_sub_of(payment, interest))
    }
}

/// Whether the recurrence step after `prev` is representable.
pub open spec fn spec_step_ok(prev: PeriodModel, mr: DecModel) -> bool {
    if mr.m == 0 {
        dec_sub_fits(prev.remaining_balance, prev.payment_amount)
    } else {
        let interest = dec_mul_of(prev.remaining_balance, mr);
        let principal = dec_sub_of(prev.payment_amount, interest);
        &&& dec_mul_fits(prev.remaining_balance, mr)
        &&& dec_sub_fits(prev.payment_amount, interest)
        &&& dec_sub_fits(prev.remaining_balance, principal)
    }
}

/// Whether the first `n` periods are all representable.
pub open spec fn spec_schedule_ok_upto(terms: LoanTerms, n: int) -> bool
    decreases n,
{
    if n <= 1 {
        spec_first_period_ok(terms)
    } else {
        &&& spec_schedule_ok_upto(terms, n - 1)
        &&& spec_step_ok(
            spec_schedule_prefix(terms, n - 1).last(),
            spec_monthly_rate(terms.annual_rate_percent@),
        )
    }
}

/// Whether the whole schedule is representable: for valid terms,
/// `generate` succeeds exactly when this holds.
pub open spec fn spec_generate_ok(terms: LoanTerms) -> bool {
    spec_schedule_ok_upto(terms, terms.term_months as int)
}

/// Success up to `n` periods implies success up to any earlier count.
pub proof fn lemma_schedule_ok_prefix(terms: LoanTerms, m: int, n: int)
    requires
        1 <= m <= n,
        spec_schedule_ok_upto(terms, n),
    ensures
        spec_schedule_ok_upto(terms, m),
    decreases n,
{
    if m < n {
        lemma_schedule_ok_prefix(terms, m, n - 1);
    }
}

/// The first `n` periods of the schedule for `terms`.
pub open spec fn spec_schedule_prefix(terms: LoanTerms, n: int) -> Seq<PeriodModel>
    decreases n,
{
    if n <= 0 {
        Seq::empty()
    } else if n == 1 {
        seq![spec_first_period(terms)]
    } else {
        let prev = spec_schedule_prefix(terms, n - 1);
        prev.push(spec_next_period(prev.last(), spec_monthly_rate(terms.annual_rate_percent@), n))
    }
}

/// The full schedule for `terms`: `term_months` periods.
pub open spec fn spec_schedule(terms: LoanTerms) -> Seq<PeriodModel> {
    spec_schedule_prefix(terms, terms.term_months as int)
}

/// The monthly rate, computed once from the annual percentage so that the
/// first period and the recurrence share one representation of it.
pub fn monthly_rate(rate: Dec) -> (r: Dec)
    requires
        rate.wf(),
    ensures
        r.wf(),
        r@ == spec_monthly_rate(rate@),
        rate.m == 0 ==> r == Dec::spec_zero(),
{
    let hundred = Dec { m: 100, s: 0 };
    let twelve = Dec { m: 12, s: 0 };
    let q = match dec_checked_div(rate, hundred) {
        Some(x) => x,
        None => Dec { m: 0, s: 0 },
    };
    match dec_checked_div(q, twelve) {
        Some(x) => x,
        None => Dec { m: 0, s: 0 },
    }
}

/// Builds period 1 from the terms and the already-computed monthly rate.
fn first_period_given_rate(terms: &LoanTerms, mr: Dec) -> (r: Result<Period, LoanError>)
    requires
        terms.valid(),
        mr.wf(),
        mr@ == spec_monthly_rate(terms.annual_rate_percent@),
    ensures
        r is Ok <==> spec_first_period_ok(*terms),
        r matches Ok(p) ==> p@ == spec_first_period(*terms) && p.wf(),
        r matches Ok(p) ==> (period_sum_exact(p@) ==> dec_val_sum(
            p.interest_portion@,
            p.principal_portion@,
            p.payment_amount@,
        )),
        r matches Err(e) ==> e == LoanError::DecimalRange,
{
    let one = Dec { m: 1, s: 0 };
    let payment: Dec;
    let interest: Dec;
    let principal_portion: Dec;
    if mr.m == 0 {
        interest = Dec { m: 0, s: 0 };
        let t = Dec { m: terms.term_months as i128, s: 0 };
        payment = match dec_checked_div(terms.principal, t) {
            Some(x) => x,
            None => {
                return Err(LoanError::DecimalRange);
            },
        };
        principal_portion = payment;
    } else {
        interest = match dec_checked_mul(mr, terms.principal) {
            Some(x) => x,
            None => {
                return Err(LoanError::DecimalRange);
            },
        };
        let base = match dec_checked_add(one, mr) {
            Some(x) => x,
            None => {
                return Err(LoanError::DecimalRange);
            },
        };
        let exp: i64 = -(terms.term_months as i64);
        let pw = match dec_checked_powi(base, exp) {
            Some(x) => x,
            None => {
                return Err(LoanError::DecimalRange);
            },
        };
        let denom = match dec_checked_sub(one, pw) {
            Some(x) => x,
            None => {
                return Err(LoanError::DecimalRange);
            },
        };
        payment = match dec_checked_div(interest, denom) {
            Some(x) => x,
            None => {
                return Err(LoanError::DecimalRange);
            },
        };
        principal_portion = match dec_checked_sub(payment, interest) {
            Some(x) => x,
            None => {
                return Err(LoanError::DecimalRange);
            },
        };
    }
    let remaining_balance = match dec_checked_sub(terms.principal, principal_portion) {
        Some(x) => x,
        None => {
            return Err(LoanError::DecimalRange);
        },
    };
    let p = Period {
        index: 1,
        payment_amount: payment,
        interest_portion: interest,
        principal_portion,
        remaining_balance,
    };
    proof {
        if period_sum_exact(p@) {
            if mr.m == 0 {
                lemma_val_sum_zero_left(interest@, principal_portion@, payment@);
            } else {
                lemma_val_sum_same_scale(interest@, principal_portion@, payment@);
            }
        }
    }
    Ok(p)
}

/// Derives the level payment and the full split for period 1, rejecting
/// invalid terms. For valid terms it succeeds exactly when every decimal
/// step is representable.
pub fn compute_first_period(terms: &LoanTerms) -> (r: Result<Period, LoanError>)
    ensures
        r == Err::<Period, LoanError>(LoanError::InvalidLoanTerms) <==> !terms.valid(),
        terms.valid() ==> (r is Ok <==> spec_first_period_ok(*terms)),
        r matches Ok(p) ==> p@ == spec_first_period(*terms) && p.wf(),
{
    if !terms.is_valid() {
        return Err(LoanError::InvalidLoanTerms);
    }
    let mr = monthly_rate(terms.annual_rate_percent);
    first_period_given_rate(terms, mr)
}

/// Produces the whole amortization schedule: exactly `term_months` periods,
/// each one determined by the terms alone, so two calls on equal terms
/// return identical schedules.
pub fn generate(terms: &LoanTerms) -> (r: Result<Vec<Period>, LoanError>)
    ensures
        r == Err::<Vec<Period>, LoanError>(LoanError::InvalidLoanTerms) <==> !terms.valid(),
        terms.valid() ==> (r is Ok <==> spec_generate_ok(*terms)),
        r matches Ok(v) ==> {
            &&& v@.len() == terms.term_months as int
            &&& v@.len() == spec_schedule(*terms).len()
            &&& forall|i: int|
                0 <= i < v@.len() ==> (#[trigger] v@[i])@ == spec_schedule(*terms)[i]
            &&& forall|i: int| 0 <= i < v@.len() ==> (#[trigger] v@[i]).index == i + 1
            &&& forall|i: int| 0 <= i < v@.len() ==> (#[trigger] v@[i]).wf()
            &&& forall|i: int|
                0 <= i < v@.len() && period_sum_exact((#[trigger] v@[i])@) ==> dec_val_sum(
                    v@[i].interest_portion@,
                    v@[i].principal_portion@,
                    v@[i].payment_amount@,
                )
            &&& spec_monthly_rate(terms.annual_rate_percent@).m == 0 ==> forall|i: int|
                0 <= i < v@.len() ==> dec_val_sum(
                    (#[trigger] v@[i]).interest_portion@,
                    v@[i].principal_portion@,
                    v@[i].payment_amount@,
                )
        },
{
    if !terms.is_valid() {
        return Err(LoanError::InvalidLoanTerms);
    }
    let mr = monthly_rate(terms.annual_rate_percent);
    let first = match first_period_given_rate(terms, mr) {
        Ok(p) => p,
        Err(e) => {
            proof {
                if spec_generate_ok(*terms) {
                    lemma_schedule_ok_prefix(*terms, 1, terms.term_months as int);
                }
            }
            return Err(e);
        },
    };
    let term = terms.term_months;
    let mut v: Vec<Period> = Vec::new();
    v.push(first);
    let payment = first.payment_amount;
    let mut balance = first.remaining_balance;
    proof {
        assert(spec_schedule_prefix(*terms, 1) =~= seq![spec_first_period(*terms)]);
    }
    let mut i: i64 = 2;
    while i <= term as i64
        invariant
            terms.valid(),
            term == terms.term_months,
            mr.wf(),
            mr@ == spec_monthly_rate(terms.annual_rate_percent@),
            2 <= i <= term as i64 + 1,
            v@.len() == i - 1,
            spec_schedule_prefix(*terms, i - 1).len() == i - 1,
            forall|j: int|
                0 <= j < v@.len() ==> (#[trigger] v@[j])@ == spec_schedule_prefix(
                    *terms,
                    i - 1,
                )[j],
            forall|j: int| 0 <= j < v@.len() ==> (#[trigger] v@[j]).wf(),
            payment.wf(),
            balance.wf(),
            payment@ == spec_schedule_prefix(*terms, i - 1).last().payment_amount,
            balance@ == spec_schedule_prefix(*terms, i - 1).last().remaining_balance,
            spec_schedule_ok_upto(*terms, i - 1),
            forall|j: int|
                0 <= j < v@.len() && period_sum_exact((#[trigger] v@[j])@) ==> dec_val_sum(
                    v@[j].interest_portion@,
                    v@[j].principal_portion@,
                    v@[j].payment_amount@,
                ),
        decreases term as int + 1 - i,
    {
        let interest: Dec;
        let principal_portion: Dec;
        if mr.m == 0 {
            interest = Dec { m: 0, s: 0 };
            principal_portion = payment;
        } else {
            interest = match dec_checked_mul(balance, mr) {
                Some(x) => x,
                None => {
                    proof {
                        if spec_generate_ok(*terms) {
                            lemma_schedule_ok_prefix(*terms, i as int, terms.term_months as int);
                        }
                    }
                    return Err(LoanError::DecimalRange);
                },
            };
            principal_portion = match dec_checked_sub(payment, interest) {
                Some(x) => x,
                None => {
                    proof {
                        if spec_generate_ok(*terms) {
                            lemma_schedule_ok_prefix(*terms, i as int, terms.term_months as int);
                        }
                    }
                    return Err(LoanError::DecimalRange);
                },
            };
        }
        let next_balance = match dec_checked_sub(balance, principal_portion) {
            Some(x) => x,
            None => {
                proof {
                    if spec_generate_ok(*terms) {
                        lemma_schedule_ok_prefix(*terms, i as int, terms.term_months as int);
                    }
                }
                return Err(LoanError::DecimalRange);
            },
        };
        assert(i <= i32::MAX as i64);
        let idx: i32 = i as i32;
        let p = Period {
            index: idx,
            payment_amount: payment,
            interest_portion: interest,
            principal_portion,
            remaining_balance: next_balance,
        };
        proof {
            let prev = spec_schedule_prefix(*terms, i - 1);
            assert(p@ == spec_next_period(prev.last(), mr@, i as int));
            assert(spec_schedule_prefix(*terms, i as int) == prev.push(
                spec_next_period(prev.last(), mr@, i as int),
            ));
            if period_sum_exact(p@) {
                if mr.m == 0 {
                    lemma_val_sum_zero_left(interest@, principal_portion@, payment@);
                } else {
                    lemma_val_sum_same_scale(interest@, principal_portion@, payment@);
                }
            }
        }
        v.push(p);
        balance = next_balance;
        i = i + 1;
    }
    proof {
        lemma_schedule_prefix_len(*terms, terms.term_months as int);
        lemma_schedule_shape(*terms);
        assert forall|i: int| 0 <= i < v@.len() implies (#[trigger] v@[i]).index == i + 1 by {
            assert(v@[i]@ == spec_schedule(*terms)[i]);
        }
        if spec_monthly_rate(terms.annual_rate_percent@).m == 0 {
            assert forall|i: int| 0 <= i < v@.len() implies dec_val_sum(
                (#[trigger] v@[i]).interest_portion@,
                v@[i].principal_portion@,
                v@[i].payment_amount@,
            ) by {
                assert(v@[i]@ == spec_schedule(*terms)[i]);
                lemma_interest_plus_principal(*terms, i);
            }
        }
    }
    Ok(v)
}

/// The length of a schedule prefix is its period count.
pub proof fn lemma_schedule_prefix_len(terms: LoanTerms, n: int)
    ensures
        spec_schedule_prefix(terms, n).len() == if n <= 0 {
            0
        } else {
            n
        },
    decreases n,
{
    if n > 1 {
        lemma_schedule_prefix_len(terms, n - 1);
    }
}

/// What holds of the period at position `j` of any schedule: its index is
/// `j + 1`, it carries the level payment, and at a zero monthly rate the
/// interest portion is exactly zero and the principal portion is the whole
/// payment.
pub open spec fn period_invariant(terms: LoanTerms, j: int, p: PeriodModel) -> bool {
    &&& p.index == j + 1
    &&& p.payment_amount == spec_payment(terms)
    &&& spec_monthly_rate(terms.annual_rate_percent@).m == 0 ==> p.interest_portion
        == dec_model_zero() && p.principal_portion == p.payment_amount
}

proof fn lemma_prefix_invariants(terms: LoanTerms, n: int)
    ensures
        forall|j: int|
            0 <= j < spec_schedule_prefix(terms, n).len() ==> period_invariant(
                terms,
                j,
                #[trigger] spec_schedule_prefix(terms, n)[j],
            ),
    decreases n,
{
    lemma_schedule_prefix_len(terms, n);
    if n == 1 {
        assert(spec_schedule_prefix(terms, n)[0] == spec_first_period(terms));
    } else if n > 1 {
        lemma_prefix_invariants(terms, n - 1);
        lemma_schedule_prefix_len(terms, n - 1);
        let prev = spec_schedule_prefix(terms, n - 1);
        let mr = spec_monthly_rate(terms.annual_rate_percent@);
        assert(spec_schedule_prefix(terms, n) == prev.push(
            spec_next_period(prev.last(), mr, n),
        ));
        assert(period_invariant(terms, n - 2, prev[n - 2]));
        assert(period_invariant(terms, n - 1, spec_next_period(prev.last(), mr, n)));
    }
}

/// Law: for all valid terms the schedule has exactly `term_months` periods,
/// their indices run 1, 2, ... strictly increasing by one, every period
/// carries the same payment amount, and the first period is the one the
/// payment calculator derives.
pub proof fn lemma_schedule_shape(terms: LoanTerms)
    requires
        terms.valid(),
    ensures
        spec_schedule(terms).len() == terms.term_months as int,
        forall|i: int|
            0 <= i < spec_schedule(terms).len() ==> (#[trigger] spec_schedule(terms)[i]).index == i
                + 1,
        forall|i: int|
            0 <= i < spec_schedule(terms).len() ==> (#[trigger] spec_schedule(
                terms,
            )[i]).payment_amount == spec_payment(terms),
        spec_schedule(terms)[0] == spec_first_period(terms),
{
    lemma_schedule_prefix_len(terms, terms.term_months as int);
    lemma_prefix_invariants(terms, terms.term_months as int);
    assert forall|i: int| 0 <= i < spec_schedule(terms).len() implies (#[trigger] spec_schedule(
        terms,
    )[i]).index == i + 1 && spec_schedule(terms)[i].payment_amount == spec_payment(terms) by {
        assert(period_invariant(terms, i, spec_schedule_prefix(terms, terms.term_months as int)[i]));
    }
    assert(period_invariant(terms, 0, spec_schedule_prefix(terms, terms.term_months as int)[0]));
    if terms.term_months as int == 1 {
    } else {
        lemma_first_element_fixed(terms, terms.term_months as int);
    }
}

proof fn lemma_first_element_fixed(terms: LoanTerms, n: int)
    requires
        n >= 1,
    ensures
        spec_schedule_prefix(terms, n)[0] == spec_first_period(terms),
    decreases n,
{
    lemma_schedule_prefix_len(terms, n);
    if n > 1 {
        lemma_first_element_fixed(terms, n - 1);
        lemma_schedule_prefix_len(terms, n - 1);
    }
}

/// Law: in every period of a zero-monthly-rate schedule the interest
/// portion is zero and the principal portion is the whole payment, so
/// interest plus principal equals the payment, as denoted values.
pub proof fn lemma_interest_plus_principal(terms: LoanTerms, i: int)
    requires
        terms.valid(),
        spec_monthly_rate(terms.annual_rate_percent@).m == 0,
        0 <= i < spec_schedule(terms).len(),
        spec_schedule(terms)[i].payment_amount.s >= 0,
    ensures
        spec_schedule(terms)[i].interest_portion == dec_model_zero(),
        spec_schedule(terms)[i].principal_portion == spec_schedule(terms)[i].payment_amount,
        dec_val_sum(
            spec_schedule(terms)[i].interest_portion,
            spec_schedule(terms)[i].principal_portion,
            spec_schedule(terms)[i].payment_amount,
        ),
{
    lemma_prefix_invariants(terms, terms.term_months as int);
    let p = spec_schedule(terms)[i];
    assert(period_invariant(terms, i, p));
    lemma_val_sum_zero_left(p.interest_portion, p.principal_portion, p.payment_amount);
}

/// Law: a zero annual rate gives a schedule whose every period has a zero
/// interest portion and a principal portion equal to the payment, and whose
/// payment is the principal divided by the term, in decimal arithmetic.
pub proof fn lemma_zero_rate_schedule(terms: LoanTerms)
    requires
        terms.valid(),
        terms.annual_rate_percent.m == 0,
    ensures
        spec_payment(terms) == dec_div_of(
            terms.principal@,
            DecModel { m: terms.term_months as int, s: 0 },
        ),
        forall|i: int|
            0 <= i < spec_schedule(terms).len() ==> (#[trigger] spec_schedule(
                terms,
            )[i]).interest_portion == dec_model_zero(),
        forall|i: int|
            0 <= i < spec_schedule(terms).len() ==> (#[trigger] spec_schedule(
                terms,
            )[i]).principal_portion == spec_schedule(terms)[i].payment_amount,
        forall|i: int|
            0 <= i < spec_schedule(terms).len() ==> (#[trigger] spec_schedule(
                terms,
            )[i]).payment_amount == spec_payment(terms),
{
    lemma_prefix_invariants(terms, terms.term_months as int);
    assert forall|i: int| 0 <= i < spec_schedule(terms).len() implies (#[trigger] spec_schedule(
        terms,
    )[i]).interest_portion == dec_model_zero() && spec_schedule(terms)[i].principal_portion
        == spec_schedule(terms)[i].payment_amount && spec_schedule(terms)[i].payment_amount
        == spec_payment(terms) by {
        assert(period_invariant(terms, i, spec_schedule_prefix(terms, terms.term_months as int)[i]));
    }
}

/// Law: the schedule is a function of the terms alone. Two results that both
/// satisfy `generate`'s postcondition for equal terms are identical,
/// period by period.
pub proof fn lemma_generate_deterministic(
    terms: LoanTerms,
    v1: Seq<PeriodModel>,
    v2: Seq<PeriodModel>,
)
    requires
        v1.len() == spec_schedule(terms).len(),
        v2.len() == spec_schedule(terms).len(),
        forall|i: int| 0 <= i < v1.len() ==> v1[i] == #[trigger] spec_schedule(terms)[i],
        forall|i: int| 0 <= i < v2.len() ==> v2[i] == #[trigger] spec_schedule(terms)[i],
    ensures
        v1 == v2,
{
    assert forall|i: int| 0 <= i < v1.len() implies v1[i] == v2[i] by {
        assert(v1[i] == spec_schedule(terms)[i]);
        assert(v2[i] == spec_schedule(terms)[i]);
    }
    assert(v1 =~= v2);
}

} // verus!
