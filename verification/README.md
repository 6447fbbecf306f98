# callme

Video for peer-to-peer calls. The library in `src/` holds the logic, verified with
Verus: raw I420 frames and their conversion from RGB and to RGBA, the loops that
move captured frames to sinks, the reading of a video file at its own pace, the
VP8 tracks, the displays, and the course of a call.

- `src/video/` frames, colour arithmetic, capture from cameras and files, fan-out
  to sinks, VP8 tracks, rendering, and the laws that relate them
- `src/display/` ASCII art, pixel window and texture widget
- `src/rtc.rs`, `src/codec.rs` tracks and what they carry
- `src/call.rs` options, incoming calls and calls with video
- `app/` the program around it: threads, cameras, `ffmpeg`, libvpx, windows,
  terminal and command line

The loops are written as steps: a function of the library takes what happened and
says what to do next, and the program does it.

To reach real cameras, build with nokhwa's `input-native` feature. VP8 coding needs
libvpx on the system.
