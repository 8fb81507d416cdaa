use firewheel::clock::{
    DurationSamples, EventInstant, InstantMusical, InstantSamples, InstantSeconds,
};
use firewheel::context::audio_clock::{shared_clock, SharedClock};

fn to_seconds(t: InstantSamples) -> InstantSeconds {
    InstantSeconds((t.0 as f64 / 100.0).to_bits())
}

fn clock(playing: bool) -> SharedClock<u64> {
    SharedClock {
        clock_samples: InstantSamples(250),
        current_playhead: Some(InstantMusical(40)),
        speed_multiplier: 1.0f64.to_bits(),
        transport_is_playing: playing,
        process_timestamp: Some(9),
    }
}

#[test]
fn clock_is_read_as_it_is() {
    let (mut input, mut reader) = shared_clock::<u64>();
    let first = reader.audio_clock(None::<u8>, &to_seconds);
    assert_eq!(first.samples, InstantSamples(0));
    assert_eq!(first.musical, None);
    assert!(!first.transport_is_playing);
    input.write(clock(true));
    assert_eq!(reader.latest().clock_samples, InstantSamples(250));
    let second = reader.audio_clock(Some(3u8), &to_seconds);
    assert_eq!(second.samples, InstantSamples(250));
    assert_eq!(f64::from_bits(second.seconds.0), 2.5);
    assert_eq!(second.musical, Some(InstantMusical(40)));
    assert_eq!(second.update_instant, Some(3));
}

#[test]
fn clock_is_corrected_by_the_delay() {
    let advance = |m: InstantMusical| InstantMusical(m.0 + 1);
    let update = Some(("now", DurationSamples(50)));
    let corrected = clock(true).audio_clock_corrected(update, &to_seconds, Some(&advance));
    assert_eq!(corrected.samples, InstantSamples(300));
    assert_eq!(f64::from_bits(corrected.seconds.0), 3.0);
    assert_eq!(corrected.musical, Some(InstantMusical(41)));
    assert_eq!(corrected.update_instant, Some("now"));
    let paused = clock(false).audio_clock_corrected(update, &to_seconds, Some(&advance));
    assert_eq!(paused.samples, InstantSamples(300));
    assert_eq!(paused.musical, Some(InstantMusical(40)));
    let stopped =
        clock(true).audio_clock_corrected(None::<(&str, _)>, &to_seconds, Some(&advance));
    let plain = clock(true).audio_clock(Some("now"), &to_seconds);
    assert_eq!(stopped.samples, InstantSamples(250));
    assert_eq!((stopped.samples, stopped.seconds), (plain.samples, plain.seconds));
    assert_eq!(stopped.transport_is_playing, plain.transport_is_playing);
    assert_eq!(stopped.musical, Some(InstantMusical(40)));
    assert_eq!(stopped.update_instant, None);
}

#[test]
fn musical_times_are_told_apart() {
    assert!(EventInstant::Musical(InstantMusical(0)).is_musical());
    assert!(!EventInstant::Samples(InstantSamples(0)).is_musical());
    assert!(!EventInstant::Seconds(InstantSeconds(0)).is_musical());
}
