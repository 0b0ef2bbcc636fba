use espeaker::led::animations::{chase_frame, rainbow_frame};
use espeaker::led::ws2812::{pulse_levels, pulse_train, Pulse, T0H, T0L, T1H, T1L};
use espeaker::led::{Animation, Color, LedAction, LedCommand, LedState};

#[test]
fn named_colours() {
    assert_eq!(Color::red(), Color::new(255, 0, 0));
    assert_eq!(Color::green(), Color::new(0, 255, 0));
    assert_eq!(Color::blue(), Color::new(0, 0, 255));
    assert_eq!(Color::purple(), Color::new(128, 0, 128));
    assert_eq!(Color::black(), Color::new(0, 0, 0));
    assert_eq!(Color::white(), Color::new(255, 255, 255));
    assert_eq!(Color::yellow(), Color::new(255, 255, 0));
    assert_eq!(Color::cyan(), Color::new(0, 255, 255));
}

#[test]
fn scale_rounds_down() {
    assert_eq!(Color::new(255, 128, 10).scale(255), Color::new(255, 128, 10));
    assert_eq!(Color::new(255, 128, 10).scale(0), Color::new(0, 0, 0));
    assert_eq!(Color::new(255, 100, 10).scale(128), Color::new(128, 50, 5));
    assert_eq!(Color::new(200, 200, 200).scale(10), Color::new(7, 7, 7));
}

#[test]
fn hsv_conversion() {
    assert_eq!(Color::from_hsv(0, 0, 77), Color::new(77, 77, 77));
    assert_eq!(Color::from_hsv(0, 255, 255), Color::new(255, 0, 0));
    assert_eq!(Color::from_hsv(85, 255, 255), Color::new(3, 255, 0));
    assert_eq!(Color::from_hsv(171, 255, 255), Color::new(0, 3, 255));
    // region 1: hue 43..85, rem = (hue - 43) * 6
    assert_eq!(Color::from_hsv(50, 255, 255), Color::new(213, 255, 0));
}

#[test]
fn ring_starts_dark_at_half_brightness() {
    let ring = LedState::new(7);
    assert_eq!(ring.colors(), &[Color::black(); 7]);
    assert_eq!(ring.brightness(), 128);
}

#[test]
fn set_scales_by_brightness_and_ignores_missing_leds() {
    let mut ring = LedState::new(3);
    ring.set_brightness(255);
    assert!(ring.set(1, Color::red()));
    assert_eq!(ring.colors(), &[Color::black(), Color::red(), Color::black()]);
    assert!(!ring.set(3, Color::green()));
    assert_eq!(ring.colors(), &[Color::black(), Color::red(), Color::black()]);
}

#[test]
fn commands_update_the_ring() {
    let mut ring = LedState::new(2);
    assert_eq!(ring.apply(LedCommand::Brightness(10)), LedAction::Wait);
    assert_eq!(ring.colors(), &[Color::black(); 2]);
    assert_eq!(ring.apply(LedCommand::SetAll(Color::white())), LedAction::Show);
    assert_eq!(ring.colors(), &[Color::new(10, 10, 10); 2]);
    assert_eq!(ring.apply(LedCommand::SetLed(5, Color::red())), LedAction::Wait);
    assert_eq!(ring.apply(LedCommand::SetLed(0, Color::red())), LedAction::Show);
    assert_eq!(ring.colors(), &[Color::new(10, 0, 0), Color::new(10, 10, 10)]);
    assert_eq!(ring.apply(LedCommand::Clear), LedAction::Show);
    assert_eq!(ring.colors(), &[Color::black(); 2]);
    let chase = Animation::Chase { color: Color::green(), speed: 2 };
    assert_eq!(ring.apply(LedCommand::Loop(chase)), LedAction::RunForever(chase));
    assert_eq!(ring.apply(LedCommand::Once(chase)), LedAction::RunOnce(chase));
    assert_eq!(ring.colors(), &[Color::black(); 2]);
}

#[test]
fn set_raw_shows_a_frame_unscaled() {
    let mut ring = LedState::new(2);
    ring.set_raw(&[Color::white(), Color::blue()]);
    assert_eq!(ring.colors(), &[Color::white(), Color::blue()]);
}

#[test]
fn animation_timing() {
    assert_eq!(Animation::Rainbow { speed: 0 }.frame_delay_ms(), 20);
    assert_eq!(Animation::Rainbow { speed: 50 }.frame_delay_ms(), 10);
    assert_eq!(Animation::Rainbow { speed: 255 }.frame_delay_ms(), 0);
    assert_eq!(Animation::Pulse { color: Color::blue(), speed: 5 }.frame_delay_ms(), 10);
    assert_eq!(Animation::Pulse { color: Color::blue(), speed: 200 }.frame_delay_ms(), 0);
    assert_eq!(Animation::Chase { color: Color::green(), speed: 2 }.frame_delay_ms(), 80);
    assert_eq!(Animation::Chase { color: Color::green(), speed: 20 }.frame_delay_ms(), 0);
    assert_eq!(Animation::Solid(Color::red()).frame_count(7), 1);
    assert_eq!(Animation::Rainbow { speed: 1 }.frame_count(7), 256);
    assert_eq!(Animation::Pulse { color: Color::red(), speed: 1 }.frame_count(7), 256);
    assert_eq!(Animation::Chase { color: Color::red(), speed: 1 }.frame_count(7), 7);
}

#[test]
fn rainbow_spreads_the_wheel() {
    let frame = rainbow_frame(0, 2, 255);
    assert_eq!(frame, vec![Color::from_hsv(0, 255, 255), Color::from_hsv(128, 255, 255)]);
    let frame = rainbow_frame(200, 2, 100);
    assert_eq!(frame, vec![Color::from_hsv(200, 255, 100), Color::from_hsv(72, 255, 100)]);
    assert!(rainbow_frame(3, 0, 10).is_empty());
}

#[test]
fn chase_has_a_dim_trail() {
    let frame = chase_frame(2, 4, Color::white(), 90);
    assert_eq!(
        frame,
        vec![Color::black(), Color::new(30, 30, 30), Color::new(90, 90, 90), Color::black()]
    );
    let frame = chase_frame(0, 3, Color::red(), 255);
    assert_eq!(frame, vec![Color::red(), Color::black(), Color::black()]);
}

#[test]
fn ws2812_stream_is_grb_msb_first() {
    let pulses = pulse_train(&[Color::new(0x80, 0x01, 0x00)]);
    assert_eq!(pulses.len(), 25);
    // green 0x01
    for p in &pulses[0..7] {
        assert_eq!(*p, Pulse::Zero);
    }
    assert_eq!(pulses[7], Pulse::One);
    // red 0x80
    assert_eq!(pulses[8], Pulse::One);
    for p in &pulses[9..16] {
        assert_eq!(*p, Pulse::Zero);
    }
    // blue 0x00
    for p in &pulses[16..24] {
        assert_eq!(*p, Pulse::Zero);
    }
    assert_eq!(pulses[24], Pulse::Reset);
    assert_eq!(pulse_train(&[]), vec![Pulse::Reset]);
}

#[test]
fn ws2812_pulse_timing() {
    assert_eq!(pulse_levels(Pulse::One), (true, T1H, false, T1L));
    assert_eq!(pulse_levels(Pulse::Zero), (true, T0H, false, T0L));
    assert_eq!(pulse_levels(Pulse::Reset), (false, 2000, false, 2000));
    assert_eq!((T0H, T0L, T1H, T1L), (16, 34, 32, 18));
}
