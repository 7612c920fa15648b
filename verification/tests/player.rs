use mine_digger::player::{Player, Vec3, MAX_SPEED};
use mine_digger::MILLI;

fn v(x: i64, y: i64, z: i64) -> Vec3 {
    Vec3 { x, y, z }
}

#[test]
fn new_player_starts_at_fixed_pose() {
    let p = Player::new();
    // position (-6, 0, 0) world units, in milli-units
    assert_eq!(p.position(), v(-6 * MILLI, 0, 0));
    assert_eq!(p.velocity(), v(0, 0, 0));
    assert_eq!(p.view_dir, 3140);
    assert_eq!(p.view_azimuth, 0);
}

#[test]
fn impulses_below_cap_accumulate() {
    let mut p = Player::new();
    p.accelerate(v(3000, 0, 0));
    assert_eq!(p.velocity(), v(3000, 0, 0));
    p.accelerate(v(0, 4000, 0));
    // combined speed is exactly the cap, which does not trigger the clamp
    assert_eq!(p.velocity(), v(3000, 4000, 0));
}

#[test]
fn vertical_impulse_below_cap_is_kept() {
    let mut p = Player::new();
    p.accelerate(v(0, 0, 3000));
    assert_eq!(p.velocity(), v(0, 0, 3000));
}

#[test]
fn over_cap_impulse_is_clamped_to_cap_magnitude() {
    let mut p = Player::new();
    p.accelerate(v(6000, 8000, 0));
    // heading 3-4-5: renormalized exactly to the cap
    let w = p.velocity();
    assert_eq!(w, v(3000, 4000, 0));
    assert_eq!(w.x * w.x + w.y * w.y + w.z * w.z, MAX_SPEED * MAX_SPEED);
}

#[test]
fn clamp_zeroes_vertical_component() {
    let mut p = Player::new();
    p.accelerate(v(3000, 3000, 3000));
    // speed exceeds the cap through the vertical component; the planar cap
    // keeps the horizontal heading and drops z entirely
    assert_eq!(p.velocity(), v(3535, 3535, 0));
}

#[test]
fn clamp_flips_direction_when_x_is_negative() {
    // the arctangent of y/x cannot tell -x from x: the clamped x component
    // is always nonnegative
    let mut p = Player::new();
    p.accelerate(v(-6000, 0, 0));
    assert_eq!(p.velocity(), v(5000, 0, 0));

    let mut q = Player::new();
    q.accelerate(v(-6000, 8000, 0));
    assert_eq!(q.velocity(), v(3000, -4000, 0));
}

#[test]
fn clamp_keeps_y_sign_when_x_is_positive() {
    let mut p = Player::new();
    p.accelerate(v(6000, -8000, 0));
    assert_eq!(p.velocity(), v(3000, -4000, 0));
}

#[test]
fn clamp_with_zero_x_is_a_quarter_turn() {
    let mut p = Player::new();
    p.accelerate(v(0, 7000, 0));
    assert_eq!(p.velocity(), v(0, 5000, 0));

    let mut q = Player::new();
    q.accelerate(v(0, -7000, 0));
    assert_eq!(q.velocity(), v(0, -5000, 0));
}

#[test]
fn clamp_with_no_horizontal_motion_clears_velocity() {
    let mut p = Player::new();
    p.accelerate(v(0, 0, 9000));
    assert_eq!(p.velocity(), v(0, 0, 0));
}

#[test]
fn tick_integrates_position_by_elapsed_milliseconds() {
    let mut p = Player::new();
    // with zero velocity the first tick only fixes the baseline reading
    p.tick_at(0);
    assert_eq!(p.position(), v(-6000, 0, 0));
    p.accelerate(v(1000, 2000, -2000));
    p.tick_at(250_000_000); // 250 ms later
    assert_eq!(p.position(), v(-6000 + 250_000, 500_000, -500_000));
    p.tick_at(350_000_000); // 100 ms more
    assert_eq!(p.position(), v(-6000 + 350_000, 700_000, -700_000));
}

#[test]
fn tick_with_zero_elapsed_time_leaves_position_unchanged() {
    let mut p = Player::new();
    p.tick_at(1_000_000_000);
    p.accelerate(v(5000, 0, 0));
    p.tick_at(2_000_000_000);
    let here = p.position();
    p.tick_at(2_000_000_000);
    assert_eq!(p.position(), here);
}

#[test]
fn sub_millisecond_tick_moves_nothing() {
    let mut p = Player::new();
    p.tick_at(1_000_000_000);
    p.accelerate(v(5000, 0, 0));
    let here = p.position();
    p.tick_at(1_000_999_999); // 999999 ns later: rounds to 0 ms
    assert_eq!(p.position(), here);
}

#[test]
fn backwards_clock_reading_counts_as_no_time() {
    let mut p = Player::new();
    p.tick_at(5_000_000_000);
    p.accelerate(v(1000, 0, 0));
    let here = p.position();
    p.tick_at(4_000_000_000);
    assert_eq!(p.position(), here);
    // the older reading became the new baseline
    p.tick_at(4_000_000_000 + 10_000_000); // 10 ms after it
    assert_eq!(p.position(), v(here.x + 10_000, here.y, here.z));
}

#[test]
fn real_clock_tick_with_zero_velocity_stays_put() {
    let mut p = Player::new();
    p.tick();
    p.tick();
    assert_eq!(p.position(), v(-6000, 0, 0));
    assert_eq!(p.velocity(), v(0, 0, 0));
}

#[test]
fn angles_are_plain_fields_and_survive_motion() {
    let mut p = Player::new();
    p.view_dir = 1570;
    p.view_azimuth = -200;
    p.accelerate(v(9000, 0, 0));
    p.tick_at(1);
    assert_eq!(p.view_dir, 1570);
    assert_eq!(p.view_azimuth, -200);
}
