//! Fan-out of captured frames to the registered sinks.
use std::ops::ControlFlow;
use std::sync::mpsc::{channel, Receiver, Sender};

use callme::error::VideoError;
use callme::video::dispatch::{deliver, sink_stays, DispatchStep, Dispatcher, SinkPoll};
use callme::video::{VideoFrame, VideoSink};

/// A sink that forwards every frame to a channel and breaks after `limit` frames.
struct CollectSink {
    tx: Sender<VideoFrame>,
    limit: usize,
    count: usize,
}

impl VideoSink for CollectSink {
    fn push_frame(&mut self, frame: &VideoFrame) -> Result<ControlFlow<(), ()>, VideoError> {
        self.count += 1;
        self.tx.send(frame.clone()).ok();
        if self.count >= self.limit {
            Ok(ControlFlow::Break(()))
        } else {
            Ok(ControlFlow::Continue(()))
        }
    }
}

fn collect(limit: usize) -> (CollectSink, Receiver<VideoFrame>) {
    let (tx, rx) = channel();
    (CollectSink { tx, limit, count: 0 }, rx)
}

/// A dispatcher with the given sinks, ready for a frame.
fn dispatcher<S: VideoSink>(sinks: Vec<S>) -> Dispatcher<S> {
    let (mut dispatcher, step) = Dispatcher::new();
    assert_eq!(step, DispatchStep::PollSinks);
    for sink in sinks {
        assert_eq!(dispatcher.on_sinks(SinkPoll::Registered(sink)), DispatchStep::PollSinks);
    }
    assert_eq!(dispatcher.on_sinks(SinkPoll::Empty), DispatchStep::AwaitFrame);
    dispatcher
}

/// Hands one frame to the dispatcher and lets it be delivered.
fn hand_out<S: VideoSink>(dispatch: &mut Dispatcher<S>, frame: VideoFrame) {
    assert_eq!(dispatch.on_frame(Some(frame)), DispatchStep::PollSinks);
    assert_eq!(dispatch.on_sinks(SinkPoll::Empty), DispatchStep::PollSinks);
    assert_eq!(dispatch.on_sinks(SinkPoll::Empty), DispatchStep::AwaitFrame);
}

#[test]
fn dispatch_delivers_frames() {
    let (sink, rx) = collect(3);
    let mut dispatch = dispatcher(vec![sink]);
    let frame = VideoFrame::new_black(4, 4);
    for _ in 0..3 {
        hand_out(&mut dispatch, frame.clone());
    }
    for _ in 0..3 {
        assert_eq!(rx.try_recv().unwrap().data, frame.data);
    }
}

#[test]
fn sink_removed_after_break() {
    let (sink, rx) = collect(2);
    let mut dispatch = dispatcher(vec![sink]);
    let frame = VideoFrame::new_black(4, 4);
    for _ in 0..5 {
        hand_out(&mut dispatch, frame.clone());
    }
    for _ in 0..2 {
        rx.try_recv().unwrap();
    }
    assert!(rx.try_recv().is_err(), "no frames expected after break");
}

#[test]
fn multiple_sinks_receive_same_frame() {
    let (sink1, rx1) = collect(99);
    let (sink2, rx2) = collect(99);
    let mut dispatch = dispatcher(vec![sink1, sink2]);
    let frame = VideoFrame::new_black(4, 4);
    for _ in 0..3 {
        hand_out(&mut dispatch, frame.clone());
    }
    for _ in 0..3 {
        assert_eq!(rx1.try_recv().unwrap().data, frame.data);
        assert_eq!(rx2.try_recv().unwrap().data, frame.data);
    }
}

#[test]
fn dispatch_ends_with_the_capture() {
    let mut dispatch = dispatcher(vec![collect(1).0]);
    assert_eq!(dispatch.on_frame(None), DispatchStep::Stop);
    let mut dispatch = dispatcher(vec![collect(1).0]);
    assert_eq!(dispatch.on_sinks(SinkPoll::Closed), DispatchStep::Stop);
}

#[test]
fn a_sink_registered_while_the_loop_waits_misses_nothing() {
    let mut dispatch = dispatcher(Vec::new());
    let (sink, rx) = collect(3);
    // The loop waits for a frame; the sink is registered before the first one is sent.
    assert_eq!(
        dispatch.on_frame(Some(VideoFrame::new_black(2, 2))),
        DispatchStep::PollSinks
    );
    assert_eq!(dispatch.on_sinks(SinkPoll::Registered(sink)), DispatchStep::PollSinks);
    assert!(rx.try_recv().is_err());
    assert_eq!(dispatch.on_sinks(SinkPoll::Empty), DispatchStep::PollSinks);
    assert_eq!(dispatch.on_sinks(SinkPoll::Empty), DispatchStep::AwaitFrame);
    hand_out(&mut dispatch, VideoFrame::new_black(4, 2));
    hand_out(&mut dispatch, VideoFrame::new_black(6, 2));
    let widths: Vec<u32> = rx.try_iter().map(|frame| frame.width).collect();
    assert_eq!(widths, vec![2, 4, 6]);
}

#[test]
fn a_taken_frame_is_handed_out_before_the_loop_ends() {
    let (sink, rx) = collect(3);
    let mut dispatch = dispatcher(vec![sink]);
    dispatch.on_frame(Some(VideoFrame::new_black(2, 2)));
    assert_eq!(dispatch.on_sinks(SinkPoll::Closed), DispatchStep::Stop);
    assert_eq!(rx.try_recv().unwrap().width, 2);
}

/// A sink with a fixed answer that records its number.
struct Scripted {
    number: u32,
    answer: u8,
    log: Sender<u32>,
}

impl VideoSink for Scripted {
    fn push_frame(&mut self, _frame: &VideoFrame) -> Result<ControlFlow<(), ()>, VideoError> {
        self.log.send(self.number).ok();
        match self.answer {
            0 => Ok(ControlFlow::Continue(())),
            1 => Ok(ControlFlow::Break(())),
            _ => Err(VideoError::Failed(String::from("out of order"))),
        }
    }
}

#[test]
fn stopped_and_failed_sinks_leave_the_others_in_order() {
    let (log, heard) = channel();
    let mut sinks: Vec<Scripted> = [0, 1, 0, 2, 2, 0]
        .iter()
        .enumerate()
        .map(|(i, &answer)| Scripted { number: i as u32, answer, log: log.clone() })
        .collect();
    let frame = VideoFrame::new_black(2, 2);
    deliver(&mut sinks, &frame);
    assert_eq!(heard.try_iter().collect::<Vec<u32>>(), vec![0, 1, 2, 3, 4, 5]);
    assert_eq!(sinks.iter().map(|s| s.number).collect::<Vec<u32>>(), vec![0, 2, 5]);
    deliver(&mut sinks, &frame);
    assert_eq!(heard.try_iter().collect::<Vec<u32>>(), vec![0, 2, 5]);
    assert_eq!(sinks.len(), 3);
}

#[test]
fn only_sinks_that_ask_for_more_stay() {
    assert!(sink_stays(&Ok(ControlFlow::Continue(()))));
    assert!(!sink_stays(&Ok(ControlFlow::Break(()))));
    assert!(!sink_stays(&Err(VideoError::DecodeFailed(7))));
}

/// A sink that counts its frames and stops after `limit` of them.
struct Counting {
    name: char,
    limit: u32,
    log: Sender<(char, u32)>,
}

impl VideoSink for Counting {
    fn push_frame(&mut self, frame: &VideoFrame) -> Result<ControlFlow<(), ()>, VideoError> {
        self.log.send((self.name, frame.width)).ok();
        self.limit -= 1;
        if self.limit == 0 {
            Err(VideoError::Failed(String::from("full")))
        } else {
            Ok(ControlFlow::Continue(()))
        }
    }
}

#[test]
fn each_sink_gets_every_frame_up_to_its_last() {
    let (log, heard) = channel();
    let mut dispatch = dispatcher(
        [('a', 3), ('b', 1), ('c', 2)]
            .iter()
            .map(|&(name, limit)| Counting { name, limit, log: log.clone() })
            .collect(),
    );
    for width in [2, 4, 6, 8] {
        hand_out(&mut dispatch, VideoFrame::new_black(width, 2));
    }
    assert_eq!(
        heard.try_iter().collect::<Vec<(char, u32)>>(),
        vec![('a', 2), ('b', 2), ('c', 2), ('a', 4), ('c', 4), ('a', 6)]
    );
}
