//! The library's error type and its human-readable message.
use vstd::prelude::*;

use crate::rect::Rect;
use vstd::string::StringExecFns;

verus! {

/// Why a surface operation failed.
#[derive(Debug)]
pub enum Error {
    /// No WebGPU adapter/device is available. The caller should fall back (e.g. Canvas2D) or
    /// report the platform as unsupported.
    WebGpuUnavailable { reason: String },
    /// The presentation surface was lost and could not be restored by reconfiguring.
    /// Recreate the surface (context-loss semantics; no silent auto-recovery).
    SurfaceLost,
    /// A dirty rect lies outside the source framebuffer.
    InvalidRect { rect: Rect, bounds: (u32, u32) },
    /// The byte slice passed for presentation does not match the frame length of the current
    /// source size and format.
    BufferSizeMismatch { expected: usize, actual: usize },
    /// An unrecoverable device-side error.
    Device { reason: String },
}

/// The ASCII digit of `d` (`0 <= d < 10`).
pub open spec fn digit(d: nat) -> char {
    ((48 + d) as u8) as char
}

/// The decimal representation of `n`, most significant digit first, without leading zeros.
pub open spec fn decimal(n: nat) -> Seq<char>
    decreases n,
{
    if n < 10 {
        seq![digit(n)]
    } else {
        decimal(n / 10).push(digit(n % 10))
    }
}

/// The one-character string of decimal digit `d`.
fn digit_str(d: u64) -> (s: &'static str)
    requires
        d < 10,
    ensures
        s@ == seq![digit(d as nat)],
{
    match d {
        0 => {
            proof {
                reveal_strlit("0");
            }
            "0"
        },
        1 => {
            proof {
                reveal_strlit("1");
            }
            "1"
        },
        2 => {
            proof {
                reveal_strlit("2");
            }
            "2"
        },
        3 => {
            proof {
                reveal_strlit("3");
            }
            "3"
        },
        4 => {
            proof {
                reveal_strlit("4");
            }
            "4"
        },
        5 => {
            proof {
                reveal_strlit("5");
            }
            "5"
        },
        6 => {
            proof {
                reveal_strlit("6");
            }
            "6"
        },
        7 => {
            proof {
                reveal_strlit("7");
            }
            "7"
        },
        8 => {
            proof {
                reveal_strlit("8");
            }
            "8"
        },
        _ => {
            proof {
                reveal_strlit("9");
            }
            "9"
        },
    }
}

/// Appends the decimal representation of `n`.
fn append_decimal(out: &mut String, n: u64)
    ensures
        final(out)@ == old(out)@ + decimal(n as nat),
    decreases n,
{
    if n >= 10 {
        append_decimal(out, n / 10);
    }
    out.append(digit_str(n % 10));
    proof {
        assert(old(out)@ + decimal(n as nat) =~= (old(out)@ + if n >= 10 {
            decimal((n / 10) as nat)
        } else {
            Seq::<char>::empty()
        }).push(digit((n % 10) as nat)));
    }
}

impl Error {
    /// The message of this error.
    pub open spec fn spec_message(&self) -> Seq<char> {
        match self {
            Error::WebGpuUnavailable { reason } => "WebGPU is unavailable: "@ + reason@,
            Error::SurfaceLost => "presentation surface lost; recreate the Surface"@,
            Error::InvalidRect { rect, bounds } => "dirty rect "@ + decimal(rect.width as nat)
                + "x"@ + decimal(rect.height as nat) + "@("@ + decimal(rect.x as nat) + ","@
                + decimal(rect.y as nat) + ") exceeds framebuffer bounds "@ + decimal(
                bounds.0 as nat,
            ) + "x"@ + decimal(bounds.1 as nat),
            Error::BufferSizeMismatch { expected, actual } => "framebuffer byte size mismatch: expected "@
                + decimal(*expected as nat) + ", got "@ + decimal(*actual as nat),
            Error::Device { reason } => "device error: "@ + reason@,
        }
    }

    /// A human-readable description of the error.
    pub fn to_string(&self) -> (s: String)
        ensures
            s@ == self.spec_message(),
    {
        let mut s = String::new();
        match self {
            Error::WebGpuUnavailable { reason } => {
                s.append("WebGPU is unavailable: ");
                s.append(reason.as_str());
            },
            Error::SurfaceLost => {
                s.append("presentation surface lost; recreate the Surface");
            },
            Error::InvalidRect { rect, bounds } => {
                s.append("dirty rect ");
                append_decimal(&mut s, rect.width as u64);
                s.append("x");
                append_decimal(&mut s, rect.height as u64);
                s.append("@(");
                append_decimal(&mut s, rect.x as u64);
                s.append(",");
                append_decimal(&mut s, rect.y as u64);
                s.append(") exceeds framebuffer bounds ");
                append_decimal(&mut s, bounds.0 as u64);
                s.append("x");
                append_decimal(&mut s, bounds.1 as u64);
            },
            Error::BufferSizeMismatch { expected, actual } => {
                s.append("framebuffer byte size mismatch: expected ");
                append_decimal(&mut s, *expected as u64);
                s.append(", got ");
                append_decimal(&mut s, *actual as u64);
            },
            Error::Device { reason } => {
                s.append("device error: ");
                s.append(reason.as_str());
            },
        }
        proof {
            assert(s@ =~= self.spec_message());
        }
        s
    }
}

} // verus!
