//! Settings and decisions of the macOS screen-capture source: what it reads
//! from the environment, the size it captures at, the display it picks and
//! how it treats encoder output.
use vstd::prelude::*;

use super::{at_least, env_i32, requested, spec_env_i32, PipelineEnv};

verus! {

/// Frames per second when `POC_FPS` is unset.
pub const TARGET_FPS: i32 = 15;

/// Widest capture when `POC_MAX_WIDTH` is unset.
pub const MAX_STREAM_WIDTH: i32 = 1280;

/// Encoder bitrate when `POC_TARGET_BITRATE_BPS` is unset.
pub const TARGET_AVERAGE_BITRATE_BPS: i32 = 5_000_000;

/// Error when the machine offers no display to capture.
pub const NO_DISPLAY_ERROR: &'static str = "ScreenCaptureKit found no displays";

/// Settings of the screen source.
pub struct PipelineConfig {
    pub display_id: u32,
    pub fps: i32,
    pub max_width: i32,
    pub target_average_bitrate_bps: i32,
}

/// The counters and state that the screen source reports.
pub struct PipelineHealth {
    pub pipeline_ready: bool,
    pub raw_frames: u64,
    pub encode_attempts: u64,
    pub encoded_frames: u64,
    pub dropped_frames: u64,
    pub last_raw_frame_at_ms: u64,
    pub last_encode_attempt_at_ms: u64,
    pub last_encoded_at_ms: u64,
    pub last_error: Option<String>,
}

/// The screen settings that an environment gives: each value, or its
/// default, raised to its floor (display 0 = the first display, at least one
/// frame per second, at least 320 pixels wide, at least 500 kbit/s).
pub open spec fn spec_screen_config(env: PipelineEnv) -> PipelineConfig {
    PipelineConfig {
        display_id: at_least(spec_env_i32(env.display_id, 0), 0) as u32,
        fps: at_least(spec_env_i32(env.fps, TARGET_FPS), 1),
        max_width: at_least(spec_env_i32(env.max_width, MAX_STREAM_WIDTH), 320),
        target_average_bitrate_bps: at_least(
            spec_env_i32(env.target_bitrate_bps, TARGET_AVERAGE_BITRATE_BPS),
            500_000,
        ),
    }
}

/// Whatever the environment holds, the screen source runs at one frame per
/// second or more, at least 320 pixels wide and at 500 kbit/s or more.
pub proof fn lemma_screen_config_floors(env: PipelineEnv)
    ensures
        spec_screen_config(env).fps >= 1,
        spec_screen_config(env).max_width >= 320,
        spec_screen_config(env).target_average_bitrate_bps >= 500_000,
{
}

/// Each screen setting is the number that the environment asks for when that
/// number reaches the setting's floor, the floor when it is lower, and the
/// default when the variable is unset or does not parse.
pub proof fn lemma_screen_config_follows_env(env: PipelineEnv)
    ensures
        match requested(env.fps) {
            Some(v) => (v >= 1 ==> spec_screen_config(env).fps == v) && (v < 1
                ==> spec_screen_config(env).fps == 1),
            None => spec_screen_config(env).fps == 15,
        },
        match requested(env.display_id) {
            Some(v) => (v >= 0 ==> spec_screen_config(env).display_id == v) && (v < 0
                ==> spec_screen_config(env).display_id == 0),
            None => spec_screen_config(env).display_id == 0,
        },
        match requested(env.max_width) {
            Some(v) => (v >= 320 ==> spec_screen_config(env).max_width == v) && (v < 320
                ==> spec_screen_config(env).max_width == 320),
            None => spec_screen_config(env).max_width == 1280,
        },
        match requested(env.target_bitrate_bps) {
            Some(v) => (v >= 500_000 ==> spec_screen_config(env).target_average_bitrate_bps == v)
                && (v < 500_000 ==> spec_screen_config(env).target_average_bitrate_bps
                == 500_000),
            None => spec_screen_config(env).target_average_bitrate_bps == 5_000_000,
        },
{
}

impl PipelineConfig {
    /// Reads the screen settings from the environment values.
    pub fn from_env(env: &PipelineEnv) -> (config: Self)
        ensures
            config == spec_screen_config(*env),
    {
        let display_id = env_i32(&env.display_id, 0);
        let fps = env_i32(&env.fps, TARGET_FPS);
        let max_width = env_i32(&env.max_width, MAX_STREAM_WIDTH);
        let bitrate = env_i32(&env.target_bitrate_bps, TARGET_AVERAGE_BITRATE_BPS);
        PipelineConfig {
            display_id: if display_id < 0 {
                0
            } else {
                display_id as u32
            },
            fps: if fps < 1 {
                1
            } else {
                fps
            },
            max_width: if max_width < 320 {
                320
            } else {
                max_width
            },
            target_average_bitrate_bps: if bitrate < 500_000 {
                500_000
            } else {
                bitrate
            },
        }
    }
}

/// Integer division rounded toward zero, as machine division computes it.
pub open spec fn truncated_quotient(a: int, b: int) -> int {
    if a >= 0 {
        a / b
    } else {
        -((-a) / b)
    }
}

/// The capture size for a display of `width` by `height` pixels: unchanged
/// (at least one pixel each way) when it is no wider than `max_width`, else
/// `max_width` wide with the height scaled by the same factor, rounded toward
/// zero and cut to 32 bits as the machine does, at least one pixel.
pub open spec fn spec_scaled_dimensions(width: i32, height: i32, max_width: i32) -> (i32, i32) {
    if width <= max_width {
        (at_least(width, 1), at_least(height, 1))
    } else {
        (
            at_least(max_width, 1),
            at_least(truncated_quotient(height * max_width, width as int) as i32, 1),
        )
    }
}

/// A quotient rounded toward zero is no larger in size than the dividend.
proof fn lemma_truncated_quotient_bound(a: int, b: int)
    requires
        b != 0,
    ensures
        a >= 0 ==> -a <= truncated_quotient(a, b) <= a,
        a < 0 ==> a <= truncated_quotient(a, b) <= -a,
{
    assert(a >= 0 ==> -a <= a / b <= a) by (nonlinear_arith)
        requires
            b != 0,
    ;
    assert(a < 0 ==> a <= -((-a) / b) <= -a) by (nonlinear_arith)
        requires
            b != 0,
    ;
}

/// For a display and a limit of positive sizes, the capture is as wide as
/// the display but no wider than the limit, and the height shrinks by the
/// same factor, rounded down, never below one pixel nor above the display's.
pub proof fn lemma_scaled_dimensions_fit(width: i32, height: i32, max_width: i32)
    requires
        width >= 1,
        height >= 1,
        max_width >= 1,
    ensures
        spec_scaled_dimensions(width, height, max_width).0 == if width <= max_width {
            width
        } else {
            max_width
        },
        1 <= spec_scaled_dimensions(width, height, max_width).1 <= height,
        width > max_width ==> spec_scaled_dimensions(width, height, max_width).1 as int
            == if (height as int) * (max_width as int) / (width as int) < 1 {
            1
        } else {
            (height as int) * (max_width as int) / (width as int)
        },
{
    if width > max_width {
        let q = (height as int) * (max_width as int) / (width as int);
        assert(0 <= q <= height) by (nonlinear_arith)
            requires
                q == (height as int) * (max_width as int) / (width as int),
                height >= 1,
                1 <= max_width < width,
        ;
        assert(truncated_quotient(height * max_width, width as int) == q);
        assert(q as i32 == q);
    }
}

/// A display no wider than the limit is captured at its own size (at least
/// one pixel each way), whatever its height: for positive sizes, exactly the
/// display's width and height.
pub proof fn lemma_scaled_dimensions_keep_fitting_display(width: i32, height: i32, max_width: i32)
    requires
        width <= max_width,
    ensures
        spec_scaled_dimensions(width, height, max_width) == (
            if width < 1 {
                1i32
            } else {
                width
            },
            if height < 1 {
                1i32
            } else {
                height
            },
        ),
        width >= 1 && height >= 1 ==> spec_scaled_dimensions(width, height, max_width) == (
            width,
            height,
        ),
{
}

/// The capture size for a display, no wider than `max_width`.
pub fn scaled_dimensions(width: i32, height: i32, max_width: i32) -> (r: (i32, i32))
    requires
        width <= max_width || width != 0,
    ensures
        r == spec_scaled_dimensions(width, height, max_width),
{
    if width <= max_width {
        return (if width < 1 {
            1
        } else {
            width
        }, if height < 1 {
            1
        } else {
            height
        });
    }
    assert(-0x4000_0000_0000_0000 <= (height as int) * (max_width as int) <= 0x4000_0000_0000_0000)
        by (nonlinear_arith)
        requires
            -0x8000_0000 <= height <= 0x7fff_ffff,
            -0x8000_0000 <= max_width <= 0x7fff_ffff,
    ;
    let product = height as i64 * max_width as i64;
    let scaled = product / width as i64;
    proof {
        lemma_truncated_quotient_bound(product as int, width as int);
    }
    assert(scaled as int == truncated_quotient(height * max_width, width as int));
    let scaled_height = #[verifier::truncate] (scaled as i32);
    (if max_width < 1 {
        1
    } else {
        max_width
    }, if scaled_height < 1 {
        1
    } else {
        scaled_height
    })
}

/// The display to capture, as a position in the list of displays found: the
/// first whose id is `selected_display_id` when that is not zero, else the
/// first. Finding no display is an error.
pub fn selected_display(display_ids: &[u32], selected_display_id: u32) -> (r: Result<
    usize,
    String,
>)
    ensures
        match r {
            Ok(i) => {
                &&& i < display_ids@.len()
                &&& if selected_display_id != 0 && display_ids@.contains(selected_display_id) {
                    &&& display_ids@[i as int] == selected_display_id
                    &&& forall|j: int| 0 <= j < i ==> display_ids@[j] != selected_display_id
                } else {
                    i == 0
                }
            },
            Err(e) => display_ids@.len() == 0 && e@ == NO_DISPLAY_ERROR@,
        },
{
    if display_ids.len() == 0 {
        return Err(NO_DISPLAY_ERROR.to_owned());
    }
    if selected_display_id != 0 {
        let mut i: usize = 0;
        while i < display_ids.len()
            invariant
                i <= display_ids@.len(),
                selected_display_id != 0,
                forall|j: int| 0 <= j < i ==> display_ids@[j] != selected_display_id,
            decreases display_ids@.len() - i,
        {
            if display_ids[i] == selected_display_id {
                assert(display_ids@.contains(selected_display_id)) by {
                    assert(display_ids@[i as int] == selected_display_id);
                }
                return Ok(i);
            }
            i += 1;
        }
    }
    Ok(0)
}

/// The longest run between keyframes: two seconds of frames, or `fps` itself
/// where doubling does not raise it or does not fit in `i32`.
pub fn key_frame_interval(fps: i32) -> (interval: i32)
    ensures
        interval == if 2 * fps < i32::MIN || 2 * fps > i32::MAX || 2 * fps < fps {
            fps as int
        } else {
            2 * fps
        },
{
    match fps.checked_mul(2) {
        Some(doubled) => if doubled < fps {
            fps
        } else {
            doubled
        },
        None => fps,
    }
}

/// Whether an encoder callback carries a frame to publish: it succeeded,
/// dropped nothing and handed over a sample buffer.
pub fn encoded_frame_usable(status: i32, frame_dropped: bool, sample_missing: bool) -> (usable:
    bool)
    ensures
        usable == (status == 0 && !frame_dropped && !sample_missing),
{
    !(status != 0 || frame_dropped || sample_missing)
}

} // verus!
