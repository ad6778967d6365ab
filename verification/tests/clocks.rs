use aes67_vsc::media_clock::MediaClockTimestamp;
use aes67_vsc::playout::{
    audio_system_buffer_size, follow_media_clock, input_port_name, output_port_name,
    port_connections, silence, AudioClock, ClockEvent, NextSample, OutputEvent, OutputPorts,
    PlayoutCycle, RtpSample,
};

fn at(timestamp: u32) -> MediaClockTimestamp {
    MediaClockTimestamp::new(timestamp, 48000)
}

fn sample(timestamp: u32, value: i32) -> NextSample<i32> {
    NextSample::Sample(RtpSample(at(timestamp), value))
}

#[test]
fn samples_in_time_fill_the_buffer() {
    let mut cycle = PlayoutCycle::begin(None, None, at(10), 0);
    let mut buffer = [9; 3];
    cycle.step(sample(10, 1), &mut buffer);
    cycle.step(sample(11, 2), &mut buffer);
    assert!(!cycle.finished);
    cycle.step(sample(12, 3), &mut buffer);
    assert!(cycle.finished);
    assert_eq!(buffer, [1, 2, 3]);
    assert_eq!(cycle.next_clock, Some(at(13)));
    assert!(!cycle.underrun);
}

#[test]
fn early_sample_leaves_a_gap_with_the_last_value() {
    let mut cycle = PlayoutCycle::begin(Some(at(0)), None, at(99), 0);
    let mut buffer = [9; 5];
    cycle.step(sample(0, 1), &mut buffer);
    cycle.step(sample(3, 4), &mut buffer);
    assert_eq!(buffer, [1, 1, 1, 4, 9]);
    cycle.step(NextSample::Empty, &mut buffer);
    assert_eq!(buffer, [1, 1, 1, 4, 4]);
    assert!(cycle.finished && cycle.underrun);
}

#[test]
fn late_sample_goes_back_to_its_place() {
    let mut cycle = PlayoutCycle::begin(Some(at(0)), None, at(99), 0);
    let mut buffer = [9; 4];
    cycle.step(sample(2, 3), &mut buffer);
    cycle.step(sample(1, 2), &mut buffer);
    assert_eq!(buffer, [0, 2, 3, 9]);
    assert_eq!(cycle.index, 2);
    assert_eq!(cycle.media_clock, at(2));
}

#[test]
fn sample_that_is_too_late_is_dropped() {
    let mut cycle = PlayoutCycle::begin(Some(at(1)), None, at(99), 0);
    let mut buffer = [9; 3];
    cycle.step(sample(0, 5), &mut buffer);
    assert_eq!(buffer, [9; 3]);
    assert_eq!(cycle.index, 0);
    cycle.step(sample(1, 1), &mut buffer);
    cycle.step(sample(1, 7), &mut buffer);
    assert_eq!(buffer, [1, 9, 9]);
}

#[test]
fn sample_of_the_next_buffer_waits() {
    let mut cycle = PlayoutCycle::begin(Some(at(0)), None, at(99), 7);
    let mut buffer = [9; 3];
    cycle.step(sample(3, 5), &mut buffer);
    assert!(cycle.finished && !cycle.underrun);
    assert_eq!(buffer, [7, 7, 7]);
    assert_eq!(cycle.next_clock, None);
    let mut next = PlayoutCycle::begin(cycle.next_clock, cycle.pending, at(3), 0);
    let pending = next.take_pending().unwrap();
    assert!(next.take_pending().is_none());
    next.step(NextSample::Sample(pending), &mut buffer);
    assert_eq!(buffer, [5, 7, 7]);
}

#[test]
fn disconnected_port_goes_on_with_the_last_value() {
    let mut cycle = PlayoutCycle::begin(Some(at(0)), None, at(99), 0);
    let mut buffer = [9; 3];
    cycle.step(sample(0, 4), &mut buffer);
    cycle.step(NextSample::Disconnected, &mut buffer);
    assert_eq!(buffer, [4, 4, 4]);
    assert!(cycle.finished && !cycle.underrun);
}

#[test]
fn silence_fills_the_rest() {
    let mut buffer = [1, 2, 3, 4];
    silence(&mut buffer, 0, 2);
    assert_eq!(buffer, [1, 2, 0, 0]);
}

#[test]
fn ports_are_silent_without_a_receiver() {
    let come = [RtpSample(at(0), 5)];
    let mut ports: OutputPorts<i32> = OutputPorts::new(2);
    let mut buffer = [9; 3];
    assert_eq!(ports.fill(0, at(0), 0, &come, true, &mut buffer), (0, None));
    assert_eq!(buffer, [0, 0, 0]);

    ports.active_outputs_changed(vec![true, false]);
    let mut buffer = [9; 3];
    assert!(!ports.select(0, 0, &mut buffer));
    assert_eq!(buffer, [0, 0, 0]);

    ports.receivers_ready();
    let mut buffer = [9; 3];
    assert_eq!(ports.fill(1, at(0), 0, &come, true, &mut buffer), (0, None));
    assert_eq!(buffer, [0, 0, 0]);
    let mut buffer = [9; 3];
    assert!(ports.select(0, 0, &mut buffer));
    assert_eq!(buffer, [9, 9, 9]);
    let underrun = Some(OutputEvent::BufferUnderrun(0));
    assert_eq!(ports.fill(0, at(0), 0, &come, true, &mut buffer), (1, underrun));
    assert_eq!(buffer, [5, 5, 5]);
}

#[test]
fn port_goes_on_where_the_buffer_before_ended() {
    let mut ports: OutputPorts<i32> = OutputPorts::new(1);
    ports.receivers_ready();
    ports.active_outputs_changed(vec![true]);
    let come = [RtpSample(at(10), 1), RtpSample(at(13), 4), RtpSample(at(14), 5)];
    let mut buffer = [9; 2];
    assert_eq!(ports.fill(0, at(10), 0, &come, true, &mut buffer), (2, None));
    assert_eq!(buffer, [1, 1]);
    let mut buffer = [9; 3];
    assert_eq!(ports.fill(0, at(99), 0, &come[2..], false, &mut buffer), (0, None));
    assert_eq!(buffer, [0, 0, 4]);
    let mut buffer = [9; 3];
    assert_eq!(ports.fill(0, at(99), 0, &come[2..], false, &mut buffer), (1, None));
    assert_eq!(buffer, [5, 5, 5]);
    let mut buffer = [9; 2];
    assert_eq!(ports.fill(0, at(99), 0, &[], false, &mut buffer), (0, None));
    assert_eq!(buffer, [0, 0]);
}

#[test]
fn silent_port_keeps_its_clock() {
    let mut ports: OutputPorts<i32> = OutputPorts::new(1);
    ports.receivers_ready();
    ports.active_outputs_changed(vec![true]);
    let mut buffer = [9; 1];
    let full = ports.fill(0, at(10), 0, &[RtpSample(at(10), 1)], true, &mut buffer);
    assert_eq!(full, (1, None));
    ports.active_outputs_changed(vec![false]);
    assert!(ports.begin(0, at(50), 0, &mut buffer).is_none());
    ports.active_outputs_changed(vec![true]);
    let cycle = ports.begin(0, at(50), 0, &mut buffer).unwrap();
    assert_eq!(cycle.media_clock, at(11));
    assert_eq!(ports.finish(0, cycle), None);
    let cycle = ports.begin(0, at(50), 0, &mut buffer).unwrap();
    assert_eq!(cycle.media_clock, at(50));
}

#[test]
fn clock_follows_the_media_clock() {
    assert_eq!(follow_media_clock(None, at(100), 64), (at(100), at(164)));
    assert_eq!(follow_media_clock(Some(at(98)), at(100), 64), (at(99), at(163)));
    assert_eq!(follow_media_clock(Some(at(102)), at(100), 64), (at(101), at(165)));
    assert_eq!(follow_media_clock(Some(at(164)), at(100), 64), (at(100), at(164)));
    assert_eq!(follow_media_clock(Some(at(36)), at(100), 64), (at(100), at(164)));
}

#[test]
fn clock_is_set_anew_after_ten_buffers() {
    let mut clock = AudioClock::new();
    assert_eq!(clock.advance(at(0), 64), (at(0), None));
    for i in 0..10u32 {
        let before = clock.media_clock.unwrap();
        let (now, event) = clock.advance(at(100000 + 64 * i), 64);
        assert_eq!(now, before.next());
        assert_eq!(event, Some(ClockEvent::Adjusted(1)));
        assert_eq!(clock.drift_counter, i as usize + 1);
    }
    let (now, event) = clock.advance(at(100640), 64);
    assert_eq!(now, at(100640));
    assert!(matches!(event, Some(ClockEvent::OutOfSync(drift)) if drift < -90000));
    let (now, event) = clock.advance(at(100704), 64);
    assert_eq!((now, event), (at(100704), None));
    assert_eq!(clock.drift_counter, 0);
}

#[test]
fn small_drift_is_corrected_sample_by_sample() {
    let mut clock = AudioClock { media_clock: Some(at(105)), drift_counter: 3 };
    assert_eq!(clock.advance(at(100), 64), (at(104), Some(ClockEvent::Adjusted(-1))));
    assert_eq!(clock.drift_counter, 0);
    let mut clock = AudioClock { media_clock: Some(at(101)), drift_counter: 0 };
    assert_eq!(clock.advance(at(100), 64), (at(101), None));
}

#[test]
fn ports_are_counted_from_one() {
    assert_eq!(input_port_name(0), "in1");
    assert_eq!(output_port_name(11), "out12");
    assert_eq!(
        port_connections(2),
        vec![
            ("AES67 VirtualSoundCard:out1".to_owned(), "REAPER:in1".to_owned()),
            ("AES67 VirtualSoundCard:out2".to_owned(), "REAPER:in2".to_owned())
        ]
    );
    assert_eq!(audio_system_buffer_size(193), 96);
}

#[test]
fn time_has_a_position_on_the_media_clock() {
    let second = 1_000_000_000;
    assert_eq!(MediaClockTimestamp::at_time(0, 48000), at(0));
    assert_eq!(MediaClockTimestamp::at_time(second, 48000).timestamp, 48000);
    assert_eq!(MediaClockTimestamp::at_time(second / 48000, 48000).timestamp, 0);
    assert_eq!(MediaClockTimestamp::at_time(second / 48000 + 1, 48000).timestamp, 1);
    // the clock wraps around after a bit less than a day
    assert_eq!(MediaClockTimestamp::at_time(100_000 * second, 48000).timestamp, 505_032_704);
}
