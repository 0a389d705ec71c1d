use std::str::FromStr;

use alloy::primitives::U256 as WideUint;
use uniswap_v3_math::error::UniswapV3MathError;
use uniswap_v3_math::int256::U256;
use uniswap_v3_math::tick_math::{
    get_sqrt_ratio_at_tick, get_tick_at_sqrt_ratio, max_sqrt_ratio, min_sqrt_ratio, MAX_TICK,
    MIN_TICK,
};

fn narrow(x: WideUint) -> U256 {
    U256::from_limbs(x.into_limbs())
}

fn wide(x: U256) -> WideUint {
    WideUint::from_limbs(x.into_limbs())
}

fn from_dec(s: &str) -> U256 {
    narrow(WideUint::from_str(s).unwrap())
}

#[test]
fn test_get_sqrt_ratio_at_tick_bounds() {
    // the function should return an error if the tick is out of bounds
    if let Err(err) = get_sqrt_ratio_at_tick(MIN_TICK - 1) {
        assert!(matches!(err, UniswapV3MathError::T));
    } else {
        panic!("get_qrt_ratio_at_tick did not respect lower tick bound")
    }
    if let Err(err) = get_sqrt_ratio_at_tick(MAX_TICK + 1) {
        assert!(matches!(err, UniswapV3MathError::T));
    } else {
        panic!("get_qrt_ratio_at_tick did not respect upper tick bound")
    }
}

#[test]
fn test_get_sqrt_ratio_at_tick_values() {
    // test individual values for correct results
    assert_eq!(
        get_sqrt_ratio_at_tick(MIN_TICK).unwrap(),
        narrow(WideUint::from(4295128739u64)),
        "sqrt ratio at min incorrect"
    );
    assert_eq!(
        get_sqrt_ratio_at_tick(MIN_TICK + 1).unwrap(),
        narrow(WideUint::from(4295343490u64)),
        "sqrt ratio at min + 1 incorrect"
    );
    assert_eq!(
        get_sqrt_ratio_at_tick(MAX_TICK - 1).unwrap(),
        from_dec("1461373636630004318706518188784493106690254656249"),
        "sqrt ratio at max - 1 incorrect"
    );
    assert_eq!(
        get_sqrt_ratio_at_tick(MAX_TICK).unwrap(),
        from_dec("1461446703485210103287273052203988822378723970342"),
        "sqrt ratio at max incorrect"
    );
    // checking hard coded values
    assert_eq!(
        get_sqrt_ratio_at_tick(50).unwrap(),
        narrow(WideUint::from(79426470787362580746886972461u128)),
        "sqrt ratio at 50 incorrect"
    );
    assert_eq!(
        get_sqrt_ratio_at_tick(100).unwrap(),
        narrow(WideUint::from(79625275426524748796330556128u128)),
        "sqrt ratio at 100 incorrect"
    );
    assert_eq!(
        get_sqrt_ratio_at_tick(250).unwrap(),
        narrow(WideUint::from(80224679980005306637834519095u128)),
        "sqrt ratio at 250 incorrect"
    );
    assert_eq!(
        get_sqrt_ratio_at_tick(500).unwrap(),
        narrow(WideUint::from(81233731461783161732293370115u128)),
        "sqrt ratio at 500 incorrect"
    );
    assert_eq!(
        get_sqrt_ratio_at_tick(1000).unwrap(),
        narrow(WideUint::from(83290069058676223003182343270u128)),
        "sqrt ratio at 1000 incorrect"
    );
    assert_eq!(
        get_sqrt_ratio_at_tick(2500).unwrap(),
        narrow(WideUint::from(89776708723587163891445672585u128)),
        "sqrt ratio at 2500 incorrect"
    );
    assert_eq!(
        get_sqrt_ratio_at_tick(3000).unwrap(),
        narrow(WideUint::from(92049301871182272007977902845u128)),
        "sqrt ratio at 3000 incorrect"
    );
    assert_eq!(
        get_sqrt_ratio_at_tick(4000).unwrap(),
        narrow(WideUint::from(96768528593268422080558758223u128)),
        "sqrt ratio at 4000 incorrect"
    );
    assert_eq!(
        get_sqrt_ratio_at_tick(5000).unwrap(),
        narrow(WideUint::from(101729702841318637793976746270u128)),
        "sqrt ratio at 5000 incorrect"
    );
    assert_eq!(
        get_sqrt_ratio_at_tick(50000).unwrap(),
        narrow(WideUint::from(965075977353221155028623082916u128)),
        "sqrt ratio at 50000 incorrect"
    );
    assert_eq!(
        get_sqrt_ratio_at_tick(150000).unwrap(),
        narrow(WideUint::from(143194173941309278083010301478497u128)),
        "sqrt ratio at 150000 incorrect"
    );
    assert_eq!(
        get_sqrt_ratio_at_tick(250000).unwrap(),
        narrow(WideUint::from(21246587762933397357449903968194344u128)),
        "sqrt ratio at 250000 incorrect"
    );
    assert_eq!(
        get_sqrt_ratio_at_tick(500000).unwrap(),
        from_dec("5697689776495288729098254600827762987878"),
        "sqrt ratio at 500000 incorrect"
    );
    assert_eq!(
        get_sqrt_ratio_at_tick(738203).unwrap(),
        from_dec("847134979253254120489401328389043031315994541"),
        "sqrt ratio at 738203 incorrect"
    );
}

#[test]
pub fn test_get_tick_at_sqrt_ratio() {
    //throws for too low
    let result = get_tick_at_sqrt_ratio(narrow(wide(min_sqrt_ratio()) - WideUint::from(1u64)));
    assert_eq!(result.unwrap_err().to_string(), "Second inequality must be < because the price can never reach the price at the max tick");

    //throws for too high
    let result = get_tick_at_sqrt_ratio(max_sqrt_ratio());
    assert_eq!(result.unwrap_err().to_string(), "Second inequality must be < because the price can never reach the price at the max tick");

    //ratio of min tick
    let result = get_tick_at_sqrt_ratio(min_sqrt_ratio()).unwrap();
    assert_eq!(result, MIN_TICK);

    //ratio of min tick + 1
    let result = get_tick_at_sqrt_ratio(from_dec("4295343490")).unwrap();
    assert_eq!(result, MIN_TICK + 1);
}

#[test]
fn tick_bounds_are_symmetric() {
    assert_eq!(MAX_TICK, 887272);
    assert_eq!(MIN_TICK, -887272);
}

#[test]
fn price_bounds_are_the_prices_of_the_tick_bounds() {
    assert_eq!(get_sqrt_ratio_at_tick(MIN_TICK).unwrap(), min_sqrt_ratio());
    assert_eq!(get_sqrt_ratio_at_tick(MAX_TICK).unwrap(), max_sqrt_ratio());
    assert_eq!(wide(min_sqrt_ratio()), WideUint::from(4295128739u64));
    assert_eq!(
        wide(max_sqrt_ratio()),
        WideUint::from_str("1461446703485210103287273052203988822378723970342").unwrap()
    );
}

#[test]
fn tick_zero_has_price_one() {
    assert_eq!(
        wide(get_sqrt_ratio_at_tick(0).unwrap()),
        WideUint::from(1u64) << 96
    );
}

#[test]
fn ticks_next_to_zero() {
    assert_eq!(
        get_sqrt_ratio_at_tick(-1).unwrap(),
        from_dec("79224201403219477170569942574")
    );
    assert_eq!(
        get_sqrt_ratio_at_tick(1).unwrap(),
        from_dec("79232123823359799118286999568")
    );
}

#[test]
fn extreme_ticks_are_refused() {
    assert_eq!(get_sqrt_ratio_at_tick(i32::MIN), Err(UniswapV3MathError::T));
    assert_eq!(get_sqrt_ratio_at_tick(i32::MAX), Err(UniswapV3MathError::T));
    assert_eq!(get_sqrt_ratio_at_tick(887273), Err(UniswapV3MathError::T));
    assert_eq!(get_sqrt_ratio_at_tick(-887273), Err(UniswapV3MathError::T));
}

#[test]
fn prices_outside_the_range_are_refused() {
    assert_eq!(get_tick_at_sqrt_ratio(U256::from_u64(0)), Err(UniswapV3MathError::R));
    assert_eq!(get_tick_at_sqrt_ratio(U256::from_u64(4295128738)), Err(UniswapV3MathError::R));
    assert_eq!(get_tick_at_sqrt_ratio(max_sqrt_ratio()), Err(UniswapV3MathError::R));
    assert_eq!(get_tick_at_sqrt_ratio(U256::max_value()), Err(UniswapV3MathError::R));
}

#[test]
fn price_rises_with_every_tick_near_the_ends_and_zero() {
    for &(from, to) in &[(MIN_TICK, MIN_TICK + 2000), (-1000, 1000), (MAX_TICK - 2000, MAX_TICK)] {
        let mut before = wide(get_sqrt_ratio_at_tick(from).unwrap());
        for tick in (from + 1)..=to {
            let price = wide(get_sqrt_ratio_at_tick(tick).unwrap());
            assert!(before < price, "price did not rise at tick {}", tick);
            before = price;
        }
    }
}

#[test]
fn price_rises_across_the_whole_range() {
    let mut before = wide(get_sqrt_ratio_at_tick(MIN_TICK).unwrap());
    let mut tick = MIN_TICK + 1;
    while tick <= MAX_TICK {
        let price = wide(get_sqrt_ratio_at_tick(tick).unwrap());
        assert!(before < price, "price did not rise up to tick {}", tick);
        assert!(wide(min_sqrt_ratio()) <= price && price <= wide(max_sqrt_ratio()));
        before = price;
        tick += 997;
    }
}

#[test]
fn tick_of_the_price_of_a_tick_is_that_tick() {
    assert_eq!(
        get_tick_at_sqrt_ratio(get_sqrt_ratio_at_tick(MIN_TICK).unwrap()),
        Ok(MIN_TICK)
    );
    assert_eq!(
        get_tick_at_sqrt_ratio(get_sqrt_ratio_at_tick(MIN_TICK + 1).unwrap()),
        Ok(MIN_TICK + 1)
    );
    let mut tick = MIN_TICK;
    while tick < MAX_TICK {
        let price = get_sqrt_ratio_at_tick(tick).unwrap();
        assert_eq!(get_tick_at_sqrt_ratio(price), Ok(tick));
        tick += 4999;
    }
    assert_eq!(
        get_tick_at_sqrt_ratio(get_sqrt_ratio_at_tick(MAX_TICK - 1).unwrap()),
        Ok(MAX_TICK - 1)
    );
}

#[test]
fn tick_of_a_price_between_two_ticks_is_the_lower_tick() {
    for &tick in &[MIN_TICK, -500000, -1, 0, 1, 50, 738203, MAX_TICK - 1] {
        let next = wide(get_sqrt_ratio_at_tick(tick + 1).unwrap());
        let below_next = narrow(next - WideUint::from(1u64));
        assert_eq!(get_tick_at_sqrt_ratio(below_next), Ok(tick));
    }
}

#[test]
fn tick_of_the_highest_price_in_range() {
    let highest = narrow(wide(max_sqrt_ratio()) - WideUint::from(1u64));
    assert_eq!(get_tick_at_sqrt_ratio(highest), Ok(MAX_TICK - 1));
}

#[test]
fn tick_of_price_one_is_zero() {
    let one = narrow(WideUint::from(1u64) << 96);
    assert_eq!(get_tick_at_sqrt_ratio(one), Ok(0));
}

#[test]
fn messages_of_the_errors() {
    assert_eq!(
        UniswapV3MathError::T.to_string(),
        "The given tick must be less than, or equal to, the maximum tick"
    );
    assert_eq!(
        UniswapV3MathError::R.to_string(),
        "Second inequality must be < because the price can never reach the price at the max tick"
    );
}

#[test]
fn tick_is_the_greatest_whose_price_does_not_exceed_the_price() {
    let mut tick = MIN_TICK;
    while tick < MAX_TICK {
        let here = wide(get_sqrt_ratio_at_tick(tick).unwrap());
        let next = wide(get_sqrt_ratio_at_tick(tick + 1).unwrap());
        for part in 0u64..7 {
            let price = here + (next - here) * WideUint::from(part) / WideUint::from(7u64);
            let found = get_tick_at_sqrt_ratio(narrow(price)).unwrap();
            assert_eq!(found, tick);
            assert!(wide(get_sqrt_ratio_at_tick(found).unwrap()) <= price);
            assert!(price < wide(get_sqrt_ratio_at_tick(found + 1).unwrap()));
        }
        tick += 7919;
    }
}

#[test]
fn tick_stays_in_range_over_the_whole_range_of_prices() {
    let mut price = wide(min_sqrt_ratio());
    let top = wide(max_sqrt_ratio());
    let mut before = MIN_TICK;
    while price < top {
        let tick = get_tick_at_sqrt_ratio(narrow(price)).unwrap();
        assert!(MIN_TICK <= tick && tick < MAX_TICK);
        assert!(before <= tick);
        before = tick;
        price = price + price / WideUint::from(3u64) + WideUint::from(1u64);
    }
}
