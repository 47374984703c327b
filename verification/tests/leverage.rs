//! Leverage at which liquidation lies beyond the stop.
use backtest_engine::key::key_of_bits;
use backtest_engine::leverage::liq_safe_leverage;

fn lev(stop_frac: f64, max_lev: u32, beta: f64) -> u32 {
    let mm = 1.0 / (2.0 * max_lev as f64);
    let whole = (1.0 / (beta * stop_frac + mm)).floor() as u32;
    liq_safe_leverage(
        key_of_bits(stop_frac.to_bits()),
        max_lev,
        key_of_bits(beta.to_bits()),
        whole,
    )
}

fn liq_distance(lev: u32, max_lev: u32) -> f64 {
    let mm = 1.0 / (2.0 * max_lev as f64);
    1.0 / lev as f64 - mm
}

fn invariant_ok(lev: u32, stop_frac: f64, max_lev: u32, beta: f64) -> bool {
    liq_distance(lev, max_lev) + 1e-12 >= beta * stop_frac
}

#[test]
fn tight_stop_returns_max_lev() {
    // 50x cap, mm = 1%. s = 0.06% → β·s = 0.09%, well under mm → clamp
    // inactive.
    assert_eq!(lev(0.0006, 50, 1.5), 50);
    // Exactly at the regime boundary s = mm/β the formula gives
    // 1/(2mm) = maxLev.
    let mm = 1.0 / (2.0 * 50.0);
    assert_eq!(lev(mm / 1.5, 50, 1.5), 50);
}

#[test]
fn wide_stop_clamps() {
    // A 4.64% stop at 20x cap (mm = 2.5%): naked 20x has a 2.5% liq distance —
    // inside the stop. The clamp must cut it.
    let l = lev(0.0464, 20, 1.5);
    assert!(l < 20, "wide stop must clamp below max: got {l}");
    // 1/(1.5·0.0464 + 0.025) = 10.63 → floor 10
    assert_eq!(l, 10);
    assert!(invariant_ok(l, 0.0464, 20, 1.5));
    // One notch higher would violate the buffer.
    assert!(!invariant_ok(l + 1, 0.0464, 20, 1.5));
}

#[test]
fn invariant_holds_for_all_stop_widths() {
    // Sweep stop widths across both regimes on every deployed asset cap:
    // the floored L* must always satisfy the β invariant.
    for &ml in &[20u32, 25, 30, 50] {
        for i in 1..=2000 {
            let s = i as f64 * 5e-5; // 0.005% .. 10%
            for &beta in &[1.0, 1.5, 2.0, 3.0] {
                let l = lev(s, ml, beta);
                assert!(
                    invariant_ok(l, s, ml, beta),
                    "violated at s={s} ml={ml} beta={beta} → L={l}"
                );
            }
        }
    }
}

#[test]
fn margin_cost_of_clamp_is_bounded() {
    // Margin-per-$-risk never exceeds 2β for clamped (wide-stop) trades.
    // margin/risk$ = 1/(s·L), on the un-floored L*.
    let beta = 1.5;
    for &ml in &[20u32, 25] {
        let mm = 1.0 / (2.0 * ml as f64);
        for i in 1..=1000 {
            let s = mm / beta + i as f64 * 1e-4; // wide-stop regime only
            let l_star = 1.0 / (beta * s + mm);
            let margin_per_risk = 1.0 / (s * l_star);
            assert!(
                margin_per_risk <= 2.0 * beta + 1e-9,
                "margin/risk {margin_per_risk} > 2β at s={s} ml={ml}"
            );
            assert!(lev(s, ml, beta) as f64 <= l_star.max(1.0));
        }
    }
}

#[test]
fn degenerate_inputs_are_safe() {
    assert_eq!(lev(0.0, 20, 1.5), 20);
    assert_eq!(lev(f64::NAN, 20, 1.5), 20);
    assert_eq!(lev(0.5, 20, 1.5), 1); // huge stop → floor at 1x
    assert_eq!(lev(0.01, 0, 1.5), 1);
    assert_eq!(lev(0.01, 20, f64::INFINITY), 20);
}
