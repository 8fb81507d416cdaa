use firewheel::clock::{DurationSamples, DurationSeconds, EventInstant, InstantSamples};
use firewheel::event::param_data::Volume;
use firewheel::event::{NodeEventType, ParamData};
use firewheel::node::AudioNode;
use firewheel::nodes::sampler::block::{ResampledBlock, Resampling, SamplerBlock};
use firewheel::nodes::sampler::copy::{CopyPlan, LoadedSampleState};
use firewheel::nodes::sampler::engine::{
    silent_from, DeclickPhase, FadeMix, ResolvedTimes, SampleInfo, SamplerAction, SamplerChanges,
    SamplerParams, SamplerPatch, SamplerProcessor, SharedState,
};
use firewheel::nodes::sampler::resampler::{carry, interpolate, resample, ResampleLoop};
use firewheel::nodes::sampler::{
    PlaybackState, Playhead, RepeatMode, SamplerConfig, SamplerNode,
};

fn loaded(len: u64, playhead: u64) -> LoadedSampleState {
    LoadedSampleState {
        sample_len_frames: len,
        sample_num_channels: 1,
        sample_mono_to_stereo: false,
        playhead_frames: playhead,
        num_times_looped_back: 0,
    }
}

/// The frames of the sample that a plan copies, one for each frame of the buffer.
fn frames_of(plan: &CopyPlan) -> Vec<u64> {
    let mut frames = Vec::new();
    for segment in plan.segments.iter() {
        assert_eq!(segment.start, frames.len());
        for i in 0..segment.frames as u64 {
            frames.push(segment.from + i);
        }
    }
    assert_eq!(frames.len(), plan.frames);
    frames
}

#[test]
fn sample_plays_once() {
    let mut state = loaded(5, 0);
    let plan = state.copy_from_sample(3, RepeatMode::PlayOnce);
    assert_eq!(frames_of(&plan), vec![0, 1, 2]);
    assert!(!plan.finished);
    let plan = state.copy_from_sample(3, RepeatMode::PlayOnce);
    assert_eq!(frames_of(&plan), vec![3, 4]);
    assert!(plan.finished);
    assert_eq!(state.playhead_frames, 5);
}

#[test]
fn sample_plays_as_often_as_asked() {
    for block in [1, 2, 3, 7, 40] {
        let mut state = loaded(3, 0);
        let mode = RepeatMode::RepeatMultiple { num_times_to_repeat: 2 };
        let mut frames = Vec::new();
        loop {
            let plan = state.copy_from_sample(block, mode);
            frames.extend(frames_of(&plan));
            if plan.finished {
                break;
            }
        }
        assert_eq!(frames, vec![0, 1, 2, 0, 1, 2, 0, 1, 2]);
        assert_eq!(state.num_times_looped_back, 2);
    }
}

#[test]
fn sample_is_repeated_endlessly() {
    let mut state = loaded(3, 2);
    let plan = state.copy_from_sample(8, RepeatMode::RepeatEndlessly);
    assert_eq!(frames_of(&plan), vec![2, 0, 1, 2, 0, 1, 2, 0]);
    assert!(!plan.finished);
    assert_eq!(state.num_times_looped_back, 3);
    assert_eq!(state.playhead_frames, 1);
    assert!(RepeatMode::RepeatMultiple { num_times_to_repeat: 2 }.do_loop(1));
    assert!(!RepeatMode::RepeatMultiple { num_times_to_repeat: 2 }.do_loop(2));
    assert!(!RepeatMode::default().do_loop(0));
}

fn params(playback: PlaybackState) -> SamplerParams {
    SamplerParams {
        sample: Some(SampleInfo { len_frames: 100, num_channels: 1 }),
        playback,
        playback_id: 7,
        repeat_mode: RepeatMode::PlayOnce,
        mono_to_stereo: true,
        crossfade_on_seek: true,
    }
}

fn times(clock: i64, playhead: Option<u64>) -> ResolvedTimes {
    ResolvedTimes {
        clock: InstantSamples(clock),
        playhead_frames: playhead,
        event_samples: None,
        queued_samples: None,
    }
}

/// A sampler with a sample that is stopped.
fn sampler() -> SamplerProcessor {
    let mut sampler = SamplerProcessor::new(params(PlaybackState::Stop), 2, 10);
    assert!(sampler.changes().sample);
    let actions = sampler.update(sampler.changes(), times(0, None), 2);
    assert_eq!(actions, vec![SamplerAction::Reset, SamplerAction::Load, SamplerAction::Reset]);
    assert!(!sampler.changes().sample);
    sampler
}

fn ask(sampler: &mut SamplerProcessor, playback: PlaybackState, times: ResolvedTimes) -> Vec<SamplerAction> {
    let mut changes = sampler.changes();
    let timestamp = times.event_samples.map(EventInstant::Samples);
    sampler.apply_patch(SamplerPatch::Playback(playback, 8), timestamp, &mut changes);
    assert!(changes.playback);
    sampler.update(changes, times, 2)
}

#[test]
fn stop_then_play_restarts() {
    let mut sampler = sampler();
    let actions = ask(&mut sampler, PlaybackState::resume(), times(0, None));
    assert_eq!(actions, vec![SamplerAction::FullVolume]);
    assert!(sampler.currently_processing_sample());
    assert!(sampler.shared_state().playing && !sampler.shared_state().stopped);
    assert_eq!(sampler.num_channels_filled(2), 2);
    sampler.copy_from_sample(30);
    sampler.sample_processed(DeclickPhase::SettledAt1, false);
    assert_eq!(sampler.shared_state().sample_playhead_frames, 30);
    let actions = ask(&mut sampler, PlaybackState::Stop, times(0, None));
    assert!(matches!(actions[0], SamplerAction::FadeOut { declicker: 0, channels: 2, from: Some(l) } if l.playhead_frames == 30));
    assert_eq!(actions[1], SamplerAction::Reset);
    assert_eq!(sampler.shared_state().finished, 8);
    assert!(sampler.has_output());
    ask(&mut sampler, PlaybackState::resume(), times(0, None));
    assert_eq!(sampler.loaded().unwrap().playhead_frames, 0);
    assert!(sampler.shared_state().playing);
}

#[test]
fn pause_then_play_resumes() {
    let mut sampler = sampler();
    ask(&mut sampler, PlaybackState::resume(), times(0, None));
    sampler.copy_from_sample(30);
    sampler.sample_processed(DeclickPhase::SettledAt1, false);
    let actions = ask(&mut sampler, PlaybackState::Pause, times(0, None));
    assert_eq!(actions, vec![SamplerAction::FadeTo0]);
    assert!(sampler.currently_processing_sample());
    sampler.sample_processed(DeclickPhase::SettledAt0, false);
    assert!(!sampler.currently_processing_sample());
    let actions = ask(&mut sampler, PlaybackState::resume(), times(0, None));
    assert_eq!(actions, vec![SamplerAction::FadeIn]);
    assert_eq!(sampler.loaded().unwrap().playhead_frames, 30);
}

#[test]
fn seek_accounts_for_delay() {
    let mut sampler = sampler();
    let play = PlaybackState::Play { playhead: Some(Playhead::Frames(40)) };
    let late = ResolvedTimes { event_samples: Some(InstantSamples(995)), ..times(1000, Some(40)) };
    ask(&mut sampler, play, late);
    assert_eq!(sampler.loaded().unwrap().playhead_frames, 45);
    let future = ResolvedTimes { event_samples: Some(InstantSamples(2000)), ..times(1000, Some(40)) };
    ask(&mut sampler, play, future);
    assert_eq!(sampler.loaded().unwrap().playhead_frames, 40);
    // Past the end the sample has finished.
    let past = times(1000, Some(100));
    ask(&mut sampler, PlaybackState::Play { playhead: Some(Playhead::Frames(100)) }, past);
    assert!(sampler.shared_state().stopped);
    assert_eq!(sampler.shared_state().finished, 8);
}

#[test]
fn play_waits_for_a_sample() {
    let mut sampler = SamplerProcessor::new(
        SamplerParams { sample: None, ..params(PlaybackState::Stop) },
        2,
        10,
    );
    sampler.update(sampler.changes(), times(0, None), 2);
    let at = ResolvedTimes { event_samples: Some(InstantSamples(100)), ..times(100, None) };
    ask(&mut sampler, PlaybackState::resume(), at);
    assert!(!sampler.shared_state().playing);
    assert_eq!(
        sampler.queued_playback_instant(),
        Some(EventInstant::Samples(InstantSamples(100)))
    );
    let mut changes = sampler.changes();
    let sample = SampleInfo { len_frames: 100, num_channels: 2 };
    sampler.apply_patch(SamplerPatch::Sample(Some(sample)), None, &mut changes);
    let now = ResolvedTimes { queued_samples: Some(InstantSamples(100)), ..times(120, None) };
    sampler.update(changes, now, 2);
    assert!(sampler.shared_state().playing);
    assert_eq!(sampler.loaded().unwrap().playhead_frames, 20);
    assert_eq!(sampler.queued_playback_instant(), None);
}

#[test]
fn fades_are_mixed_until_they_are_over() {
    let mut sampler = sampler();
    ask(&mut sampler, PlaybackState::resume(), times(0, None));
    ask(&mut sampler, PlaybackState::Stop, times(0, None));
    let (mixes, filled) = sampler.mix_fades(8, 0);
    assert_eq!(mixes, vec![FadeMix { declicker: 0, channels: 2, start_frame: 0, frames: 8 }]);
    assert_eq!(filled, 2);
    let (mixes, _) = sampler.mix_fades(8, 0);
    assert_eq!(mixes, vec![FadeMix { declicker: 0, channels: 2, start_frame: 8, frames: 2 }]);
    let (mixes, filled) = sampler.mix_fades(8, 1);
    assert!(mixes.is_empty());
    assert_eq!(filled, 1);
    assert!(!sampler.has_output());
    let mask = silent_from(1, 3);
    assert!(!mask.is_channel_silent(0) && mask.is_channel_silent(1));
    assert!(mask.is_channel_silent(2) && !mask.is_channel_silent(3));
}

#[test]
fn new_sample_rate_unloads_the_sample() {
    let mut sampler = sampler();
    ask(&mut sampler, PlaybackState::resume(), times(0, None));
    sampler.new_stream(44100, 44100, 20);
    assert!(sampler.params().sample.is_some());
    assert!(sampler.fades_fit(1));
    sampler.new_stream(48000, 44100, 20);
    assert!(sampler.params().sample.is_none());
    assert!(sampler.loaded().is_none());
    assert!(sampler.shared_state().stopped && !sampler.shared_state().playing);
}

#[test]
fn finished_sample_is_stopped() {
    let mut sampler = sampler();
    ask(&mut sampler, PlaybackState::resume(), times(0, None));
    let plan = sampler.copy_from_sample(200);
    assert!(plan.finished);
    assert_eq!(plan.frames, 100);
    sampler.sample_processed(DeclickPhase::SettledAt1, true);
    assert!(sampler.shared_state().stopped);
    assert_eq!(sampler.shared_state().finished, 8);
    assert!(!sampler.has_output());
}

#[test]
fn idle_samplers_score_highest() {
    let stopped = SharedState::default();
    let play = PlaybackState::resume();
    assert_eq!(stopped.worker_score(false, play), u64::MAX);
    assert_eq!(stopped.worker_score(true, PlaybackState::Stop), u64::MAX - 1);
    assert_eq!(stopped.worker_score(true, PlaybackState::Pause), u64::MAX - 2);
    let running = SharedState {
        stopped: false,
        playing: true,
        sample_playhead_frames: 9,
        finished: 0,
    };
    assert_eq!(running.worker_score(true, PlaybackState::Pause), u64::MAX - 3);
    assert_eq!(SharedState { stopped: true, ..running }.worker_score(true, play), u64::MAX - 4);
    assert_eq!(stopped.worker_score(true, play), u64::MAX - 5);
    assert_eq!(running.worker_score(true, play), 9);
    assert_eq!(running.playhead_frames_corrected(Some(DurationSamples(5))), DurationSamples(14));
    assert_eq!(running.playhead_frames_corrected(None), DurationSamples(9));
    assert_eq!(stopped.playhead_frames_corrected(Some(DurationSamples(5))), DurationSamples(0));
}

#[test]
fn node_makes_its_events() {
    let mut node: SamplerNode<u8> = SamplerNode::default();
    node.set_sample(3);
    assert_eq!(node.sample, Some(3));
    let is_at = |event: &NodeEventType<u32>, index: u32| match event {
        NodeEventType::Param { path, .. } => path.to_vec() == vec![index],
        _ => false,
    };
    assert!(is_at(&node.sync_sample_event(1u32), 0));
    let event: NodeEventType<u32> = node.sync_volume_event();
    assert!(is_at(&event, 1));
    match event {
        NodeEventType::Param { data, .. } => {
            assert_eq!(Volume::try_from(&data), Ok(node.volume));
        }
        _ => panic!("it is a parameter"),
    }
    node.start_or_restart(None, 4);
    assert_eq!(*node.playback.get(), PlaybackState::restart());
    assert_eq!(node.playback.id(), 4);
    let event = node.sync_playback_event(&|state: PlaybackState, id: u64| {
        if state.is_playing() { id as u32 } else { 0 }
    });
    assert!(is_at(&event, 2));
    assert!(matches!(event, NodeEventType::Param { data: ParamData::Any(4), .. }));
    assert!(is_at(&node.sync_repeat_mode_event(&|_: RepeatMode| 9u32), 3));
    assert!(is_at(&node.sync_speed_event(), 4));
    node.pause(5);
    assert_eq!(*node.playback.get(), PlaybackState::Pause);
    node.resume(6);
    assert_eq!(*node.playback.get(), PlaybackState::resume());
    node.stop(7);
    assert_eq!(*node.playback.get(), PlaybackState::Stop);
    node.start_or_restart(Some(Playhead::Frames(12)), 8);
    assert_eq!(
        *node.playback.get(),
        PlaybackState::Play { playhead: Some(Playhead::Frames(12)) }
    );
    let info = node.info(&SamplerConfig::default());
    assert_eq!(info.debug_name, "sampler");
    assert_eq!(info.channel_config.num_outputs.get(), 2);
    let to_frames = |s: DurationSeconds| (f64::from_bits(s.0) * 100.0) as u64;
    let half = Playhead::Seconds(DurationSeconds(0.5f64.to_bits()));
    assert_eq!(half.as_frames(&to_frames), 50);
    assert_eq!(Playhead::Frames(3).as_frames(&to_frames), 3);
    assert_eq!(Playhead::zero(), Playhead::default());
    assert_eq!(f64::from_bits(node.speed.0), 1.0);
    assert_eq!(f32::from_bits(node.min_gain.0), 0.00001);
    assert!(node.mono_to_stereo && node.crossfade_on_seek);
}

#[test]
fn resampling_covers_the_block() {
    let mut state = ResampleLoop::new(10, 20, true, 8);
    assert_eq!(state.input_frames_needed, 22);
    assert_eq!(state.copy_start, 0);
    assert_eq!(state.next_input(), 8);
    state.advance(3);
    assert_eq!(state.input_frames_processed, 6);
    assert_eq!(state.copy_start, 2);
    assert_eq!(state.output_frames_processed, 3);
    state.advance(3);
    state.advance(3);
    assert_eq!(state.next_input(), 4);
    state.advance(1);
    assert_eq!(state.output_frames_processed, 10);
    assert_eq!(state.next_input(), 2);
    assert_eq!(ResampleLoop::new(10, 20, false, 8).copy_start, 2);
}

#[test]
fn frames_are_interpolated() {
    let scratch = [0.0f32, 10.0, 20.0, 30.0];
    let mut out = [-1.0f32; 6];
    let position = |i: usize| ((i * 3) / 4, ((i * 3) % 4) as f32 * 0.25);
    let mix = |a: f32, b: f32, w: f32| a + (b - a) * w;
    let filled = interpolate(&mut out, 1, 6, 0, &scratch, 0, &position, &mix);
    assert_eq!(filled, 4);
    assert_eq!(out, [-1.0, 0.0, 7.5, 15.0, 22.5, -1.0]);
}

#[test]
fn last_two_frames_are_carried() {
    let mut wrap = [0, 0];
    carry(&[1, 2, 3, 4, 5], 4, &mut wrap);
    assert_eq!(wrap, [3, 4]);
}

/// Resamples blocks of a sample whose frame `i` holds `10 * i`, at so many quarters of a
/// frame per frame.
fn resampled(speed: usize, blocks: &[usize], scratch: usize, mode: RepeatMode) -> (Vec<i64>, Vec<bool>, LoadedSampleState) {
    let mut state = loaded(20, 0);
    let mut scratch = vec![-1; scratch];
    let mut wrap = [-1, -1];
    let mut all = Vec::new();
    let mut ends = Vec::new();
    let mut first = true;
    let mut start: usize = 0;
    for frames in blocks {
        let position = |i: usize| ((start + i * speed) / 4, ((start + i * speed) % 4) as i64);
        let mix = |a: i64, b: i64, w: i64| a * 4 + (b - a) * w;
        let read = |frame: u64| 10 * frame as i64;
        let mut out = vec![-7; *frames + 1];
        ends.push(resample(
            &mut state,
            mode,
            &mut out,
            *frames,
            first,
            &mut scratch,
            &mut wrap,
            0,
            &position,
            &mix,
            &read,
        ));
        assert_eq!(out.pop(), Some(-7));
        all.extend(out);
        start = position(*frames - 1).1 as usize + speed;
        first = false;
    }
    (all, ends, state)
}

#[test]
fn resampling_does_not_depend_on_the_scratch_buffers() {
    let once = RepeatMode::PlayOnce;
    let (frames, ends, state) = resampled(8, &[9], 64, once);
    assert_eq!(frames, vec![0, 80, 160, 240, 320, 400, 480, 560, 640]);
    assert_eq!(ends, vec![false]);
    assert_eq!(state.playhead_frames, 18);
    for scratch in [3, 4, 5, 9, 10] {
        assert_eq!(resampled(8, &[9], scratch, once).0, frames);
        assert_eq!(resampled(8, &[2, 1, 6], scratch, once).0, frames);
    }
    for speed in [1, 3, 5, 9, 30] {
        let (whole, ends, _) = resampled(speed, &[12], 64, once);
        assert_eq!(whole[1], 10 * speed as i64);
        assert_eq!(ends[0], (11 * speed) / 4 + 2 > 20);
        for scratch in [3, 4, 7, 16] {
            assert_eq!(resampled(speed, &[12], scratch, once).0, whole);
            assert_eq!(resampled(speed, &[5, 1, 6], scratch, once).0, whole);
        }
    }
}

#[test]
fn resampled_sample_ends_or_is_repeated() {
    let (frames, ends, _) = resampled(16, &[4, 4], 5, RepeatMode::PlayOnce);
    assert_eq!(frames, vec![0, 160, 320, 480, 640, 0, 0, 0]);
    assert_eq!(ends, vec![false, true]);
    let (frames, ends, state) = resampled(16, &[4, 4], 5, RepeatMode::RepeatEndlessly);
    assert_eq!(frames, vec![0, 160, 320, 480, 640, 0, 160, 320]);
    assert_eq!(ends, vec![false, false]);
    assert_eq!(state.num_times_looped_back, 1);
    assert_eq!(state.playhead_frames, 10);
}

fn patched(sampler: &mut SamplerProcessor, playback: PlaybackState, frames: usize) -> SamplerBlock {
    let mut changes = sampler.changes();
    sampler.apply_patch(SamplerPatch::Playback(playback, 9), None, &mut changes);
    sampler.process(changes, times(0, None), 2, frames)
}

#[test]
fn blocks_follow_the_playback_state() {
    let mut sampler = sampler();
    let block = patched(&mut sampler, PlaybackState::resume(), 30);
    assert!(block.has_output);
    assert_eq!(block.actions, vec![SamplerAction::FullVolume]);
    assert_eq!(frames_of(&block.plan.unwrap())[0], 0);
    assert_eq!((block.sample_channels, block.num_filled_channels), (2, 2));
    assert_eq!(sampler.shared_state().sample_playhead_frames, 30);
    let block = patched(&mut sampler, PlaybackState::Pause, 5);
    assert_eq!(block.plan.unwrap().frames, 5);
    sampler.fade_advanced(DeclickPhase::SettledAt0);
    let block = sampler.process(sampler.changes(), times(0, None), 2, 5);
    assert!(block.plan.is_none() && !block.has_output);
    let block = patched(&mut sampler, PlaybackState::resume(), 10);
    assert_eq!(frames_of(&block.plan.unwrap())[0], 35);
    assert_eq!(sampler.shared_state().sample_playhead_frames, 45);
    let block = patched(&mut sampler, PlaybackState::Stop, 4);
    assert!(block.plan.is_none() && block.has_output);
    assert_eq!(
        block.mixes,
        vec![FadeMix { declicker: 0, channels: 2, start_frame: 0, frames: 4 }]
    );
    let block = patched(&mut sampler, PlaybackState::resume(), 100);
    assert_eq!(frames_of(&block.plan.unwrap())[0], 0);
    assert_eq!(sampler.shared_state().sample_playhead_frames, 100);
    let block = sampler.process(sampler.changes(), times(0, None), 2, 1);
    assert!(block.plan.unwrap().finished);
    assert!(sampler.shared_state().stopped);
    assert_eq!(sampler.shared_state().finished, 9);
}

#[test]
fn first_sample_does_not_fade() {
    let play = PlaybackState::Play { playhead: Some(Playhead::Frames(0)) };
    let mut sampler = SamplerProcessor::new(params(play), 2, 441);
    let block = sampler.process(sampler.changes(), times(0, Some(0)), 2, 3);
    assert_eq!(
        block.actions,
        vec![SamplerAction::Reset, SamplerAction::Load, SamplerAction::FullVolume]
    );
    assert_eq!(frames_of(&block.plan.unwrap()), vec![0, 1, 2]);
    assert!(block.mixes.is_empty());
}

#[test]
fn late_play_counts_repetitions() {
    let mut sampler = sampler();
    let mut changes = sampler.changes();
    let short = SampleInfo { len_frames: 3, num_channels: 1 };
    let once_more = RepeatMode::RepeatMultiple { num_times_to_repeat: 1 };
    sampler.apply_patch(SamplerPatch::Sample(Some(short)), None, &mut changes);
    sampler.apply_patch(SamplerPatch::RepeatMode(once_more), None, &mut changes);
    sampler.update(changes, times(0, None), 2);
    let play = PlaybackState::Play { playhead: Some(Playhead::Frames(0)) };
    let late = ResolvedTimes { event_samples: Some(InstantSamples(6)), ..times(10, Some(0)) };
    ask(&mut sampler, play, late);
    let plan = sampler.copy_from_sample(8);
    assert_eq!(frames_of(&plan), vec![1, 2]);
    assert!(plan.finished);
}

#[test]
fn empty_sample_ends_at_once() {
    let mut state = loaded(0, 0);
    let mode = RepeatMode::RepeatMultiple { num_times_to_repeat: 3 };
    let plan = state.copy_from_sample(4, mode);
    assert!(plan.finished && plan.segments.is_empty());
    assert_eq!(plan.frames, 0);
}

/// Plays a block at two frames per frame. The sample's frame `i` holds `10 * i`.
fn at_double_speed(
    sampler: &mut SamplerProcessor,
    changes: SamplerChanges,
    frames: usize,
    is_first: bool,
    wrap: Vec<i64>,
) -> (ResampledBlock, Vec<i64>, Vec<i64>, Vec<SamplerAction>) {
    let mut done = Vec::new();
    let mix = |a: i64, b: i64, w: i64| a + (b - a) * w;
    let act = |actions: Vec<SamplerAction>, _: Option<LoadedSampleState>| {
        let is_first_process = is_first || actions.contains(&SamplerAction::Reset);
        done = actions;
        let start = if is_first_process { 0 } else { 2 };
        Resampling {
            is_first_process,
            scratch: vec![-1; 5],
            wrap,
            out: vec![-7; frames],
            position: move |i: usize| (start + 2 * i, 0),
            read: |frame: u64| 10 * frame as i64,
        }
    };
    let (block, resampling) =
        sampler.process_resampled(changes, times(0, None), 2, frames, 0, &mix, act);
    assert!(!(block.played && resampling.is_first_process));
    (block, resampling.out, resampling.wrap, done)
}

#[test]
fn blocks_are_resampled_at_another_speed() {
    let mut sampler = sampler();
    let mut changes = sampler.changes();
    let play = SamplerPatch::Playback(PlaybackState::resume(), 9);
    sampler.apply_patch(play, None, &mut changes);
    let (block, out, wrap, actions) =
        at_double_speed(&mut sampler, changes, 4, true, vec![-1, -1]);
    assert_eq!(actions, vec![SamplerAction::FullVolume]);
    assert!(block.has_output && block.played && !block.finished);
    assert_eq!((block.sample_channels, block.num_filled_channels), (2, 2));
    assert_eq!(out, vec![0, 20, 40, 60]);
    assert_eq!(wrap, vec![60, 70]);
    assert_eq!(sampler.shared_state().sample_playhead_frames, 8);
    // The next block goes on after the frames that were carried over.
    let changes = sampler.changes();
    let (block, out, wrap, _) = at_double_speed(&mut sampler, changes, 3, false, wrap);
    assert!(block.played);
    assert_eq!(out, vec![80, 100, 120]);
    assert_eq!(wrap, vec![120, 130]);
    // A sample that is stopped is faded out, and not played.
    let mut changes = sampler.changes();
    sampler.apply_patch(SamplerPatch::Playback(PlaybackState::Stop, 10), None, &mut changes);
    let (block, out, _, _) = at_double_speed(&mut sampler, changes, 3, false, wrap);
    assert!(block.has_output && !block.played && !block.finished);
    assert_eq!(out, vec![-7; 3]);
    assert_eq!(block.mixes.len(), 1);
    assert_eq!((block.sample_channels, block.num_filled_channels), (0, 2));
    // It ends where the sample does.
    let mut changes = sampler.changes();
    let play = SamplerPatch::Playback(PlaybackState::resume(), 11);
    sampler.apply_patch(play, None, &mut changes);
    let (block, out, _, _) = at_double_speed(&mut sampler, changes, 60, true, vec![-1, -1]);
    assert!(block.played && block.finished);
    assert_eq!((out[49], out[50], out[59]), (980, 0, 0));
    assert!(sampler.shared_state().stopped);
    assert_eq!(sampler.shared_state().finished, 11);
}
