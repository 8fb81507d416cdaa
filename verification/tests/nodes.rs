use firewheel::channel_config::{ChannelConfig, ChannelCount, NonZeroChannelCount};
use firewheel::mask::{ConnectedMask, SilenceMask};
use firewheel::node::dummy::{DummyNode, DummyNodeConfig};
use firewheel::node::{AudioNode, CustomNodeEvent, ProcessStatus};
use firewheel::nodes::delay_compensation::{
    DelayCompNodeConfig, DelayCompProcessor, DelayCompensationNode, DelayLine,
};
use firewheel::nodes::noise_generator::{
    white_noise_gen_info, NoiseGenerator, WhiteNoiseGenConfig,
};
use firewheel::nodes::peak_meter::{peak_update, ClipHold, PeakMeterNode, PeakUpdate};
use firewheel::nodes::stereo_to_mono::{mix_to_mono, stereo_to_mono_status, StereoToMonoNode};
use firewheel::nodes::stream::reader::{
    new_reader_state, reader_step, StreamReaderConfig, StreamReaderNode,
};
use firewheel::nodes::stream::writer::{
    all_zero, mark_silence, writer_step, StreamWriterConfig, StreamWriterNode, WriterStep,
};
use firewheel::nodes::stream::{StreamFlags, StreamState, TransferStatus};
use firewheel::nodes::svf::{filter_step, CoeffUpdateFactor, FilterBlock, FilterState, FilterStep, SvfType};
use firewheel::nodes::volume_pan::{
    gain_status, volume_pan_info, GainStep, VolumePanProcessor,
};

fn silent(channels: &[usize]) -> SilenceMask {
    let mut mask = SilenceMask::none_silent();
    for ch in channels {
        mask.set_channel(*ch, true);
    }
    mask
}

#[test]
fn silence_masks_count_channels() {
    let mask = SilenceMask::new_all_silent(3);
    assert!(mask.is_channel_silent(0) && mask.is_channel_silent(2));
    assert!(!mask.is_channel_silent(3));
    assert!(mask.all_channels_silent(3));
    assert!(!mask.all_channels_silent(4));
    let all = SilenceMask::new_all_silent(64);
    assert!(all.all_channels_silent(64) && all.is_channel_silent(63));
    let mut both = silent(&[0, 5]);
    both.union_with(silent(&[5, 6]));
    assert!(!both.is_channel_silent(0));
    assert!(both.is_channel_silent(5));
    assert!(!both.is_channel_silent(6));
    both.set_channel(5, false);
    assert!(!both.is_channel_silent(5));
    let mut connected = ConnectedMask::none();
    connected.set_channel(63, true);
    assert!(connected.is_channel_connected(63));
    assert!(!connected.is_channel_connected(62));
}

#[test]
fn channel_counts_are_limited() {
    assert_eq!(ChannelCount::new(64).unwrap().get(), 64);
    assert!(ChannelCount::new(65).is_none());
    assert!(NonZeroChannelCount::new(0).is_none());
    assert!(NonZeroChannelCount::new(65).is_none());
    assert_eq!(NonZeroChannelCount::new(64).unwrap().get().get(), 64);
    assert_eq!(NonZeroChannelCount::mono().get(), ChannelCount::mono());
    assert_eq!(ChannelCount::zero().get(), 0);
    assert_eq!(ChannelCount::stereo().get(), 2);
}

#[test]
fn dummy_node_has_the_channels_it_is_given() {
    let config = ChannelConfig {
        num_inputs: ChannelCount::mono(),
        num_outputs: ChannelCount::stereo(),
    };
    let dummy = DummyNode::dummy_node(config);
    let info = dummy.node.info(&dummy.config);
    assert_eq!(info.debug_name, "dummy");
    assert_eq!(info.channel_config.num_inputs.get(), 1);
    assert_eq!(info.channel_config.num_outputs.get(), 2);
    let info = DummyNode.info(&DummyNodeConfig { channel_config: config });
    assert_eq!(info.channel_config.num_outputs.get(), 2);
}

#[test]
fn input_comes_out_delayed() {
    let mut line = DelayLine::new(3, 0);
    let mut output = [9; 5];
    assert!(!line.process(&[1, 2, 3, 4, 5], &mut output, 5, false, false, 0));
    assert_eq!(output, [0, 0, 0, 1, 2]);
    let mut output = [9; 2];
    line.process(&[6, 7], &mut output, 2, false, false, 0);
    assert_eq!(output, [3, 4]);
    line.reset(0);
    let mut output = [9; 2];
    assert!(line.process(&[8, 8], &mut output, 2, false, false, 0));
    assert_eq!(output, [0, 0]);
}

#[test]
fn delay_is_independent_of_blocks() {
    let input: Vec<u32> = (1..=20).collect();
    let mut whole = vec![0; 20];
    DelayLine::new(4, 0).process(&input, &mut whole, 20, false, false, 0);
    for size in [1, 3, 4, 5, 7] {
        let mut line = DelayLine::new(4, 0);
        let mut parts = Vec::new();
        for block in input.chunks(size) {
            let mut output = vec![0; block.len()];
            line.process(block, &mut output, block.len(), false, false, 0);
            parts.extend(output);
        }
        assert_eq!(parts, whole);
    }
}

#[test]
fn silence_passes_through_a_delay() {
    let mut line = DelayLine::new(2, 0);
    let mut output = [0; 4];
    assert!(line.process(&[0; 4], &mut output, 4, true, true, 0));
    assert!(!line.process(&[1, 2, 3, 4], &mut output, 4, false, true, 0));
    assert_eq!(output, [0, 0, 1, 2]);
    assert!(!line.process(&[0; 4], &mut output, 4, true, false, 0));
    assert_eq!(output, [3, 4, 0, 0]);
    assert!(line.process(&[0; 4], &mut output, 4, true, false, 0));
    assert_eq!(output, [0; 4]);
}

#[test]
fn delay_compensation_marks_silence() {
    let config = DelayCompNodeConfig { channels: NonZeroChannelCount::stereo(), delay_frames: 2 };
    let info = DelayCompensationNode.info(&config);
    assert_eq!(info.channel_config.num_outputs.get(), 2);
    let mut processor = DelayCompProcessor::new(&config, 0);
    assert!(!processor.is_bypassed());
    let mut mask = SilenceMask::none_silent();
    let none = SilenceMask::none_silent();
    let mut output = [9; 2];
    processor.process_channel(1, &[1, 2], &mut output, 2, none, none, 0, &mut mask);
    assert_eq!(output, [0, 0]);
    assert!(mask.is_channel_silent(1) && !mask.is_channel_silent(0));
    processor.new_stream(0);
    processor.process_channel(1, &[1, 2], &mut output, 2, none, none, 0, &mut mask);
    assert_eq!(output, [0, 0]);
    assert!(DelayCompProcessor::new(&DelayCompNodeConfig::default(), 0).is_bypassed());
}

#[test]
fn noise_follows_its_seed() {
    let mut noise = NoiseGenerator::new(&WhiteNoiseGenConfig::default());
    assert_eq!(noise.next(), 4_596_240);
    let mut zero = NoiseGenerator::new(&WhiteNoiseGenConfig { seed: 0 });
    assert_eq!(zero.next(), 4_596_240);
    let mut one = NoiseGenerator::new(&WhiteNoiseGenConfig { seed: 1 });
    assert_eq!(one.next(), 270_369);
    assert_eq!(white_noise_gen_info().channel_config.num_outputs.get(), 1);
}

#[test]
fn stereo_is_averaged() {
    let mut output = [0.0f32; 3];
    mix_to_mono(&mut output, &[1.0, 2.0], &[3.0, 0.0, 9.0], &|a: f32, b: f32| (a + b) * 0.5);
    assert_eq!(output, [2.0, 1.0, 0.0]);
    let clear = ProcessStatus::ClearAllOutputs;
    assert_eq!(stereo_to_mono_status(silent(&[0, 1]), 2, 1), clear);
    assert_eq!(stereo_to_mono_status(silent(&[]), 1, 1), clear);
    assert_eq!(stereo_to_mono_status(silent(&[]), 2, 0), clear);
    assert_eq!(
        stereo_to_mono_status(silent(&[1]), 2, 1),
        ProcessStatus::OutputsModified { out_silence_mask: SilenceMask::none_silent() }
    );
    assert_eq!(StereoToMonoNode.info(&()).channel_config.num_outputs.get(), 1);
}

#[test]
fn clip_is_held() {
    let mut hold = ClipHold::new(3);
    assert!(!hold.has_clipped());
    hold.on_peak(false);
    assert!(!hold.has_clipped());
    hold.on_peak(true);
    for _ in 0..2 {
        hold.on_frame(false);
        assert!(hold.has_clipped());
    }
    hold.on_frame(false);
    assert!(!hold.has_clipped());
    hold.on_frame(true);
    assert!(hold.has_clipped());
    // Peaks that do not clip neither end the hold nor prolong it.
    for frame in 1..=3 {
        hold.on_peak(false);
        hold.on_frame(false);
        assert_eq!(hold.has_clipped(), frame < 3);
    }
    hold.on_peak(true);
    hold.reset();
    assert!(!hold.has_clipped());
}

#[test]
fn disabled_peak_meter_shows_silence() {
    assert_eq!(peak_update(true, true, false), PeakUpdate::Measure);
    assert_eq!(peak_update(true, true, true), PeakUpdate::Zero);
    assert_eq!(peak_update(true, false, false), PeakUpdate::Zero);
    assert_eq!(peak_update(false, false, false), PeakUpdate::Keep);
    assert_eq!(peak_update(false, true, false), PeakUpdate::Measure);
    let info = PeakMeterNode::<3> { enabled: true }.info();
    assert_eq!(info.channel_config.num_inputs.get(), 3);
    assert_eq!(info.channel_config.num_outputs.get(), 3);
}

#[test]
fn filters_follow_their_parameters() {
    assert_eq!(filter_step(true, true, true, true, true), FilterStep::Bypass);
    assert_eq!(filter_step(false, true, true, true, true), FilterStep::Reset);
    assert_eq!(filter_step(false, true, false, true, true), FilterStep::Smooth);
    assert_eq!(filter_step(false, false, true, false, true), FilterStep::Update);
    assert_eq!(filter_step(false, false, true, false, false), FilterStep::Filter);
    let heard = FilterBlock {
        disabled: false,
        inputs_silent: false,
        fade_settled: true,
        smoothing: false,
        params_changed: false,
    };
    let coeffs = |params: &i32| params * 10;
    let mut state = FilterState::new(10);
    assert_eq!(state.step(heard, &1, &coeffs), FilterStep::Filter);
    assert_eq!(*state.coeffs(), 10);
    let silent = FilterBlock { inputs_silent: true, params_changed: true, ..heard };
    assert_eq!(state.step(silent, &2, &coeffs), FilterStep::Reset);
    assert_eq!(*state.coeffs(), 10);
    assert_eq!(state.step(heard, &2, &coeffs), FilterStep::Update);
    assert_eq!(*state.coeffs(), 20);
    assert_eq!(state.step(heard, &2, &coeffs), FilterStep::Filter);
    let smooth = FilterBlock { smoothing: true, params_changed: true, ..heard };
    assert_eq!(state.step(smooth, &3, &coeffs), FilterStep::Smooth);
    state.set_coeffs(25);
    let disabled = FilterBlock { disabled: true, ..heard };
    assert_eq!(state.step(disabled, &3, &coeffs), FilterStep::Bypass);
    assert_eq!(*state.coeffs(), 25);
    assert_eq!(state.step(heard, &3, &coeffs), FilterStep::Update);
    assert_eq!(*state.coeffs(), 30);
    assert_eq!(SvfType::Bandpass.num_filters(), 2);
    assert_eq!(SvfType::LowpassX2.num_filters(), 2);
    assert_eq!(SvfType::default().num_filters(), 1);
    assert!(SvfType::Bell.uses_gain() && !SvfType::Notch.uses_gain());
    let factor = CoeffUpdateFactor::default();
    assert!(factor.do_update(0) && factor.do_update(32) && factor.do_update(64));
    assert!(!factor.do_update(1) && !factor.do_update(31));
    assert!(CoeffUpdateFactor(0).do_update(7));
}

#[test]
fn gains_jump_after_silence() {
    let mut processor = VolumePanProcessor::new();
    assert!(processor.skips_smoothing());
    assert_eq!(processor.step(silent(&[0, 1]), true, true), GainStep::Silence);
    assert!(processor.skips_smoothing());
    assert_eq!(processor.step(silent(&[1]), true, true), GainStep::Smooth);
    assert!(!processor.skips_smoothing());
    assert_eq!(processor.step(silent(&[1]), false, true), GainStep::Mute);
    assert!(processor.skips_smoothing());
    assert_eq!(processor.step(silent(&[1]), false, false), GainStep::Apply);
    let mask = silent(&[1]);
    assert_eq!(gain_status(GainStep::Mute, mask), ProcessStatus::ClearAllOutputs);
    assert_eq!(
        gain_status(GainStep::Apply, mask),
        ProcessStatus::OutputsModified { out_silence_mask: mask }
    );
    assert_eq!(
        gain_status(GainStep::Smooth, mask),
        ProcessStatus::OutputsModified { out_silence_mask: SilenceMask::none_silent() }
    );
    assert_eq!(volume_pan_info().channel_config.num_inputs.get(), 2);
}

#[test]
fn stream_is_started_once() {
    let mut flags = StreamFlags::new();
    let mut state: StreamState<&str> = new_reader_state(NonZeroChannelCount::stereo());
    assert!(!state.is_active(&flags));
    assert_eq!(state.start_stream(&mut flags, "first", 48000), Ok(()));
    assert!(state.is_active(&flags) && !state.is_ready(&flags));
    assert_eq!(state.sample_rate(&flags), Some(48000));
    assert_eq!(state.start_stream(&mut flags, "second", 1), Err("second"));
    assert!(reader_step(&mut flags, true));
    assert!(state.is_ready(&flags));
    assert_eq!(state.ready_stream(&flags), Some(&"first"));
    state.pause_stream(&mut flags);
    assert!(!state.is_ready(&flags));
    assert!(!reader_step(&mut flags, true));
    assert_eq!(state.ready_stream(&flags), None);
    assert_eq!(state.active_stream(&flags), Some(&"first"));
    state.resume(&mut flags);
    assert!(state.is_ready(&flags));
    flags.stream_stopped();
    assert!(!state.is_active(&flags) && !state.is_ready(&flags));
    assert_eq!(state.ready_stream(&flags), None);
    assert_eq!(state.active_stream(&flags), None);
    assert_eq!(state.sample_rate(&flags), None);
    state.stop_stream(&mut flags);
    assert_eq!(state.active_stream(&flags), None);
    assert_eq!(flags, StreamFlags::new());
    assert_eq!(state.num_channels(), NonZeroChannelCount::stereo());
    state.pause_stream(&mut flags);
    assert!(!flags.paused);
    let info = StreamReaderNode
        .info(&StreamReaderConfig { channels: NonZeroChannelCount::stereo() });
    assert_eq!(info.channel_config.num_inputs.get(), 2);
    assert_eq!(info.channel_config.num_outputs.get(), 0);
}

#[test]
fn transfer_errors_are_told_once() {
    let mut flags = StreamFlags::started();
    assert!(flags.enabled());
    flags.transferred(TransferStatus::Done);
    assert!(!flags.underflow_occurred() && !flags.overflow_occurred());
    flags.transferred(TransferStatus::Underflow);
    flags.transferred(TransferStatus::Overflow);
    assert!(flags.underflow_occurred() && flags.overflow_occurred());
    assert!(!flags.underflow_occurred() && !flags.overflow_occurred());
}

#[test]
fn writer_reads_what_is_there() {
    let mut flags = StreamFlags::started();
    assert_eq!(writer_step(&mut flags, true, true), WriterStep::Clear);
    assert_eq!(writer_step(&mut flags, false, false), WriterStep::ResetAndClear);
    assert!(!flags.channel_started);
    assert_eq!(writer_step(&mut flags, false, true), WriterStep::Read);
    assert!(flags.channel_started);
    let is_zero = |s: f32| s == 0.0;
    assert!(all_zero(&[0.0, -0.0, 1.0], 2, &is_zero));
    assert!(!all_zero(&[0.0, -0.0, 1.0], 3, &is_zero));
    let mut mask = SilenceMask::none_silent();
    mark_silence(&mut mask, 0, true, 2, true);
    mark_silence(&mut mask, 1, true, 2, false);
    mark_silence(&mut mask, 2, true, 2, false);
    mark_silence(&mut mask, 3, false, 2, true);
    assert!(mask.is_channel_silent(0) && !mask.is_channel_silent(1));
    assert!(mask.is_channel_silent(2) && !mask.is_channel_silent(3));
    assert_eq!(StreamWriterNode.info(&StreamWriterConfig::default()).channel_config.num_outputs.get(), 2);
}
