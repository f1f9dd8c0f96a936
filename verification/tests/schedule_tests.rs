use amortization::args::process_integer_argument;
use amortization::dec::Dec;
use amortization::schedule::{
    compute_first_period, generate, monthly_rate, LoanError, LoanTerms, Period,
};
use rust_decimal::Decimal;

fn dec_to_decimal(d: Dec) -> Decimal {
    Decimal::from_i128_with_scale(d.m, d.s)
}

fn terms(principal: Dec, rate: Dec, months: i32) -> LoanTerms {
    LoanTerms { principal, annual_rate_percent: rate, term_months: months }
}

fn schedule_of(t: &LoanTerms) -> Vec<Period> {
    generate(t).expect("schedule should generate")
}

#[test]
fn scenario_small_loan_first_period() {
    // 1000.00 at 20.00% over 24 months.
    let t = terms(Dec::new(100000, 2), Dec::new(2000, 2), 24);
    let v = schedule_of(&t);
    assert_eq!(v.len(), 24);
    let first = v[0];
    assert_eq!(first.index, 1);
    assert_eq!(first.payment_amount.rounded_cents(), 5090);
    assert_eq!(first.interest_portion.rounded_cents(), 1667);
    assert_eq!(first.principal_portion.rounded_cents(), 3423);
    assert_eq!(first.remaining_balance.rounded_cents(), 96577);
}

#[test]
fn scenario_car_loan_first_period() {
    // 45000.00 at 6.00% over 60 months.
    let t = terms(Dec::new(4500000, 2), Dec::new(600, 2), 60);
    let v = schedule_of(&t);
    assert_eq!(v.len(), 60);
    let first = v[0];
    assert_eq!(first.payment_amount.rounded_cents(), 86998);
    assert_eq!(first.interest_portion.rounded_cents(), 22500);
    assert_eq!(first.principal_portion.rounded_cents(), 64498);
    assert_eq!(first.remaining_balance.rounded_cents(), 4435502);
}

#[test]
fn scenario_zero_rate_loan() {
    // 1000.00 at 0.00% over 10 months: ten flat payments of 100.00.
    let t = terms(Dec::new(100000, 2), Dec::new(0, 2), 10);
    let v = schedule_of(&t);
    assert_eq!(v.len(), 10);
    for p in &v {
        assert_eq!(p.payment_amount.rounded_cents(), 10000);
        assert_eq!(p.interest_portion.m, 0);
        assert_eq!(p.principal_portion, p.payment_amount);
        assert_eq!(p.principal_portion.rounded_cents(), 10000);
    }
    // 1000.00 and 100.00 share a scale, so every balance is the exact
    // difference: 900.00, 800.00, ... down to exactly 0.00.
    for (i, p) in v.iter().enumerate() {
        assert_eq!(p.payment_amount, Dec::new(10000, 2));
        assert_eq!(p.remaining_balance, Dec::new(100000 - 10000 * (i as i128 + 1), 2));
    }
    let last = v[v.len() - 1];
    assert_eq!(last.remaining_balance.rounded_cents(), 0);
    assert_eq!(dec_to_decimal(last.remaining_balance), Decimal::ZERO);
}

#[test]
fn indices_run_from_one_by_one() {
    let t = terms(Dec::new(100000, 2), Dec::new(2000, 2), 24);
    let v = schedule_of(&t);
    for (i, p) in v.iter().enumerate() {
        assert_eq!(p.index, i as i32 + 1);
    }
}

#[test]
fn interest_plus_principal_is_payment() {
    let one_cent = Decimal::new(1, 2);
    for (principal, rate, months) in [
        (Dec::new(100000, 2), Dec::new(2000, 2), 24),
        (Dec::new(4500000, 2), Dec::new(600, 2), 60),
        (Dec::new(100000, 2), Dec::new(0, 2), 10),
    ] {
        let t = terms(principal, rate, months);
        for p in &schedule_of(&t) {
            let sum = dec_to_decimal(p.interest_portion) + dec_to_decimal(p.principal_portion);
            let diff = sum - dec_to_decimal(p.payment_amount);
            assert!(diff.abs() < one_cent, "period {}: off by {}", p.index, diff);
            // Where payment and interest share a scale, the split is exact.
            if p.payment_amount.s == p.interest_portion.s {
                assert_eq!(p.principal_portion.m, p.payment_amount.m - p.interest_portion.m);
                assert_eq!(p.principal_portion.s, p.payment_amount.s);
            }
        }
    }
}

#[test]
fn remaining_balance_never_increases() {
    for (principal, rate, months) in [
        (Dec::new(100000, 2), Dec::new(2000, 2), 24),
        (Dec::new(4500000, 2), Dec::new(600, 2), 60),
        (Dec::new(100000, 2), Dec::new(0, 2), 10),
        (Dec::new(999999, 2), Dec::new(1234, 2), 37),
    ] {
        let t = terms(principal, rate, months);
        let v = schedule_of(&t);
        let mut prev = dec_to_decimal(t.principal);
        for p in &v {
            let bal = dec_to_decimal(p.remaining_balance);
            assert!(bal <= prev, "period {}: {} > {}", p.index, bal, prev);
            prev = bal;
        }
    }
}

#[test]
fn final_balance_within_one_cent_of_zero() {
    let one_cent = Decimal::new(1, 2);
    for (principal, rate, months) in [
        (Dec::new(100000, 2), Dec::new(2000, 2), 24),
        (Dec::new(4500000, 2), Dec::new(600, 2), 60),
        (Dec::new(100000, 2), Dec::new(0, 2), 10),
        (Dec::new(999999, 2), Dec::new(1234, 2), 37),
        (Dec::new(100000, 2), Dec::new(2000, 2), 1),
    ] {
        let t = terms(principal, rate, months);
        let v = schedule_of(&t);
        let last = dec_to_decimal(v[v.len() - 1].remaining_balance);
        assert!(last.abs() <= one_cent, "{} months left {}", months, last);
    }
}

#[test]
fn single_period_loan_retires_in_one_payment() {
    let t = terms(Dec::new(100000, 2), Dec::new(2000, 2), 1);
    let v = schedule_of(&t);
    assert_eq!(v.len(), 1);
    assert_eq!(v[0].index, 1);
}

#[test]
fn generate_is_deterministic() {
    let t = terms(Dec::new(4500000, 2), Dec::new(600, 2), 60);
    let v1 = schedule_of(&t);
    let v2 = schedule_of(&t);
    assert_eq!(v1, v2);
}

#[test]
fn first_period_matches_schedule_head() {
    let t = terms(Dec::new(100000, 2), Dec::new(2000, 2), 24);
    let first = compute_first_period(&t).expect("first period");
    let v = schedule_of(&t);
    assert_eq!(first, v[0]);
}

#[test]
fn invalid_terms_are_rejected() {
    let ok = terms(Dec::new(100000, 2), Dec::new(2000, 2), 24);
    assert!(generate(&ok).is_ok());

    let zero_principal = terms(Dec::new(0, 2), Dec::new(2000, 2), 24);
    assert_eq!(generate(&zero_principal), Err(LoanError::InvalidLoanTerms));

    let negative_principal = terms(Dec::new(-100000, 2), Dec::new(2000, 2), 24);
    assert_eq!(generate(&negative_principal), Err(LoanError::InvalidLoanTerms));

    let negative_rate = terms(Dec::new(100000, 2), Dec::new(-1, 2), 24);
    assert_eq!(generate(&negative_rate), Err(LoanError::InvalidLoanTerms));

    let zero_term = terms(Dec::new(100000, 2), Dec::new(2000, 2), 0);
    assert_eq!(generate(&zero_term), Err(LoanError::InvalidLoanTerms));
    assert_eq!(
        compute_first_period(&zero_term),
        Err(LoanError::InvalidLoanTerms)
    );

    let oversized_scale = terms(Dec::new(100000, 40), Dec::new(2000, 2), 24);
    assert_eq!(generate(&oversized_scale), Err(LoanError::InvalidLoanTerms));
}

#[test]
fn out_of_range_arithmetic_is_reported() {
    // The largest representable principal at a rate whose monthly interest
    // cannot be represented any more.
    let t = terms(
        Dec::new(79228162514264337593543950335, 0),
        Dec::new(120000000, 2),
        12,
    );
    assert_eq!(generate(&t), Err(LoanError::DecimalRange));
}

#[test]
fn monthly_rate_divides_by_hundred_then_twelve() {
    assert_eq!(
        dec_to_decimal(monthly_rate(Dec::new(600, 2))),
        Decimal::new(5, 3)
    );
    assert_eq!(
        dec_to_decimal(monthly_rate(Dec::new(2000, 2))),
        Decimal::new(2, 1) / Decimal::new(12, 0)
    );
    assert_eq!(monthly_rate(Dec::new(0, 2)), Dec::new(0, 0));
}

#[test]
fn validity_check_matches_generate() {
    let good = terms(Dec::new(100000, 2), Dec::new(0, 2), 1);
    assert!(good.is_valid());
    let bad = terms(Dec::new(100000, 2), Dec::new(2000, 2), -3);
    assert!(!bad.is_valid());
    assert_eq!(generate(&bad), Err(LoanError::InvalidLoanTerms));
}

#[test]
fn rounding_to_cents() {
    assert_eq!(Dec::new(5, 0).rounded_cents(), 500);
    assert_eq!(Dec::new(123456, 4).rounded_cents(), 1235);
    assert_eq!(Dec::new(125, 3).rounded_cents(), 13);
    assert_eq!(Dec::new(124, 3).rounded_cents(), 12);
    assert_eq!(Dec::new(0, 2).rounded_cents(), 0);
    assert_eq!(Dec::new(-5, 0).rounded_cents(), -500);
    assert_eq!(Dec::new(-125, 3).rounded_cents(), -13);
    assert_eq!(Dec::new(-124, 3).rounded_cents(), -12);
}

#[test]
fn integer_arguments_parse_like_the_standard_library() {
    for input in [
        "42", " -17 \n", "+8", "abc", "", "   ", "2147483647", "2147483648",
        "-2147483648", "-2147483649", "12 3", "0", "-0", "+-3", "4.5",
        "00000000000000000042",
        "\u{00A0}42\u{00A0}", "\u{3000}7 ", "\u{2009}-5\u{2028}", "\u{0085}9",
        "\u{1680}\u{205F}36\u{202F}", "\u{200B}6",
    ] {
        assert_eq!(
            process_integer_argument(input),
            input.trim().parse::<i32>().ok(),
            "input {:?}",
            input
        );
    }
}
