use vstd::prelude::*;

use crate::digest::{hex_digit, hex_digit_text};

verus! {

/// The shorter side of a preview: `short * edge / long`, rounded half up,
/// and never less than one pixel.
pub open spec fn scaled_side(short: u32, long: u32, edge: u32) -> u32
    recommends
        long > 0,
{
    let s = (short as int * edge as int + long as int / 2) / long as int;
    if s < 1 {
        1
    } else {
        s as u32
    }
}

/// Preview dimensions for a `width` x `height` picture: the longer side becomes
/// `edge` and the other keeps the aspect ratio (a square gives `edge` x `edge`).
pub open spec fn preview_size(width: u32, height: u32, edge: u32) -> (u32, u32)
    recommends
        width > 0,
        height > 0,
{
    if width >= height {
        (edge, scaled_side(height, width, edge))
    } else {
        (scaled_side(width, height, edge), edge)
    }
}

fn scale_side(short: u32, long: u32, edge: u32) -> (r: u32)
    requires
        0 < short <= long,
        edge > 0,
    ensures
        r == scaled_side(short, long, edge),
        1 <= r <= edge,
{
    assert(short as int * edge as int <= 0xffff_ffff * 0xffff_ffff) by (nonlinear_arith)
        requires
            short <= 0xffff_ffff,
            edge <= 0xffff_ffff,
    ;
    let prod: u64 = short as u64 * edge as u64;
    let num: u64 = prod + long as u64 / 2;
    let q: u64 = num / long as u64;
    assert(q <= edge) by (nonlinear_arith)
        requires
            num as int == short as int * edge as int + long as int / 2,
            q as int == num as int / long as int,
            0 < short <= long,
    {
        assert(num < (edge as int + 1) * long as int);
    }
    if q < 1 {
        1
    } else {
        q as u32
    }
}

/// Dimensions of the preview of a decoded `width` x `height` picture whose
/// longer edge must be `edge` pixels; `None` when a side or `edge` is zero.
pub fn thumbnail_size(width: u32, height: u32, edge: u32) -> (r: Option<(u32, u32)>)
    ensures
        width == 0 || height == 0 || edge == 0 <==> r is None,
        r is Some ==> r->Some_0 == preview_size(width, height, edge),
        r is Some ==> (r->Some_0.0 == edge && r->Some_0.1 <= edge) || (r->Some_0.1 == edge
            && r->Some_0.0 <= edge),
        r is Some ==> r->Some_0.0 >= 1 && r->Some_0.1 >= 1,
{
    if width == 0 || height == 0 || edge == 0 {
        None
    } else if width >= height {
        Some((edge, scale_side(height, width, edge)))
    } else {
        Some((scale_side(width, height, edge), edge))
    }
}

/// `n` in decimal, without leading zeros.
pub open spec fn decimal(n: nat) -> Seq<char>
    decreases n,
{
    if n < 10 {
        seq![hex_digit(n as u8)]
    } else {
        decimal(n / 10) + seq![hex_digit((n % 10) as u8)]
    }
}

/// `n` written in decimal.
pub fn decimal_text(n: u64) -> (r: String)
    ensures
        r@ == decimal(n as nat),
    decreases n,
{
    if n < 10 {
        String::from_str(hex_digit_text(n as u8))
    } else {
        let head = decimal_text(n / 10);
        head.concat(hex_digit_text((n % 10) as u8))
    }
}

/// The pixel dimensions of a picture as `WxH`.
pub fn resolution_text(width: u32, height: u32) -> (r: String)
    ensures
        r@ == decimal(width as nat) + "x"@ + decimal(height as nat),
{
    decimal_text(width as u64).concat("x").concat(decimal_text(height as u64).as_str())
}

/// Probed facts about one media file.
pub struct MediaInfo {
    /// Pixel dimensions as `WxH`.
    pub resolution: String,
    /// Playing time in milliseconds; videos only.
    pub duration_ms: Option<u64>,
}

/// Why probing a media file failed.
#[derive(Clone, Copy, Debug, PartialEq, Eq, Structural)]
pub enum ProbeError {
    /// The dimensions were unreadable, or a video had no duration.
    Unreadable,
}

/// Assembles the probed facts of a file: its dimensions, and for a video its
/// duration, which a video must have; a still image never reports one.
pub fn media_info(width: u32, height: u32, is_video: bool, duration_ms: Option<u64>) -> (r: Result<
    MediaInfo,
    ProbeError,
>)
    ensures
        r is Err <==> width == 0 || height == 0 || (is_video && duration_ms is None),
        r is Err ==> r == Err::<MediaInfo, ProbeError>(ProbeError::Unreadable),
        r is Ok ==> r->Ok_0.resolution@ == decimal(width as nat) + "x"@ + decimal(height as nat),
        r is Ok ==> r->Ok_0.duration_ms == if is_video {
            duration_ms
        } else {
            None::<u64>
        },
{
    if width == 0 || height == 0 {
        return Err(ProbeError::Unreadable);
    }
    if is_video && duration_ms.is_none() {
        return Err(ProbeError::Unreadable);
    }
    let duration_ms = if is_video {
        duration_ms
    } else {
        None
    };
    Ok(MediaInfo { resolution: resolution_text(width, height), duration_ms })
}

} // verus!
