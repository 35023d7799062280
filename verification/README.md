# macos-webrtc-h264

A small WebRTC publisher for H.264 video, with its logic verified in Verus.

- `src/` is the verified library:
  - `h264`: splitting Annex-B byte streams into NAL units, grouping them into
    access units (at AUD delimiters, or by slices), rewriting AVCC
    length-prefixed encoder output into Annex-B form; `h264::model` holds the
    mathematical model and `h264::proofs` the laws proved of it.
  - `pipeline`: the source selection and settings read from the environment,
    the capture size, display choice and frame decisions of the screen
    source, the settings and replay units of the file source.
  - `web`: the health report and the session offer and answer.
  - `webrtc_sender`: the decisions of a session's forwarder (resend the
    newest access unit, stop on errors) and of draining a lagging channel.
- `app/` is the program around it: the HTTP server (axum), the WebRTC
  session (webrtc), ScreenCaptureKit capture and VideoToolbox encoding
  (objc2 crates, macOS only), threads, files and the environment.
