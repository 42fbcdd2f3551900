//! Which terminal graphics the face is drawn with, and the Kitty graphics command.
use vstd::prelude::*;
use crate::text::{chars_of, chars_eq_str, dec, push_str, u64_string};
use crate::summary::str_string;

verus! {

/// How the face is drawn: braille canvas, Kitty graphics or Sixel.
#[derive(Debug, Clone, Copy, PartialEq, Eq, Structural)]
pub enum RendererBackend {
    Canvas,
    Kitty,
    Sixel,
}

/// The backend a setting names: `kitty`, `sixel`, else the canvas.
pub open spec fn backend_named(s: Seq<char>) -> RendererBackend {
    if s == "kitty"@ {
        RendererBackend::Kitty
    } else if s == "sixel"@ {
        RendererBackend::Sixel
    } else {
        RendererBackend::Canvas
    }
}

impl RendererBackend {
    /// The backend for a terminal: Kitty graphics inside a Kitty window, else the canvas.
    pub fn for_terminal(kitty_window: bool) -> (b: Self)
        ensures
            b == if kitty_window {
                RendererBackend::Kitty
            } else {
                RendererBackend::Canvas
            },
    {
        if kitty_window {
            RendererBackend::Kitty
        } else {
            RendererBackend::Canvas
        }
    }

    /// The backend a setting names.
    pub fn from_str(s: &str) -> (b: Self)
        ensures
            b == backend_named(s@),
    {
        let v = chars_of(s);
        if chars_eq_str(&v, "kitty") {
            RendererBackend::Kitty
        } else if chars_eq_str(&v, "sixel") {
            RendererBackend::Sixel
        } else {
            RendererBackend::Canvas
        }
    }
}

/// The base64 digit for a six-bit value: `A`-`Z`, `a`-`z`, `0`-`9`, `+`, `/` (RFC 4648).
pub open spec fn base64_digit(v: int) -> char {
    if v < 26 {
        (65 + v) as char
    } else if v < 52 {
        (97 + v - 26) as char
    } else if v < 62 {
        (48 + v - 52) as char
    } else if v == 62 {
        '+'
    } else {
        '/'
    }
}

/// Standard base64 of some bytes (RFC 4648): each group of three bytes becomes four
/// digits, and a last group of one or two bytes is padded with `=`.
pub open spec fn base64_standard(d: Seq<u8>) -> Seq<char>
    decreases d.len(),
{
    if d.len() == 0 {
        seq![]
    } else {
        let a = d[0] as int;
        let b = if d.len() > 1 { d[1] as int } else { 0 };
        let c = if d.len() > 2 { d[2] as int } else { 0 };
        let d1 = base64_digit(a / 4);
        let d2 = base64_digit((a % 4) * 16 + b / 16);
        let d3 = if d.len() > 1 { base64_digit((b % 16) * 4 + c / 64) } else { '=' };
        let d4 = if d.len() > 2 { base64_digit(c % 64) } else { '=' };
        if d.len() > 3 {
            seq![d1, d2, d3, d4] + base64_standard(d.subrange(3, d.len() as int))
        } else {
            seq![d1, d2, d3, d4]
        }
    }
}

/// Encodes bytes as standard base64 (`base64::engine::general_purpose::STANDARD.encode`,
/// RFC 4648 alphabet with `=` padding): four chars for every started group of three bytes.
#[verifier::external_body]
fn base64_encode(data: &[u8]) -> (r: String)
    requires
        (data@.len() / 3) * 4 + 4 <= usize::MAX,
    ensures
        r@ == base64_standard(data@),
        r@.len() == 4 * ((data@.len() + 2) / 3),
{
    base64::Engine::encode(&base64::engine::general_purpose::STANDARD, data)
}

/// The Kitty graphics command that shows a `width` by `height` RGBA image, given as
/// base64, at a cell column and row.
pub open spec fn kitty_command(width: u32, height: u32, col: u32, row: u32, b64: Seq<char>) -> Seq<char> {
    "\x1b_Ga=t,f=32,s="@ + dec(width as nat) + ",v="@ + dec(height as nat) + ",c="@ + dec(
        col as nat,
    ) + ",r="@ + dec(row as nat) + ";"@ + b64 + "\x1b\\"@
}

/// The Kitty graphics command for an image already encoded as base64.
pub fn kitty_command_for(width: u32, height: u32, col: u32, row: u32, b64: &str) -> (r: String)
    ensures
        r@ == kitty_command(width, height, col, row, b64@),
{
    let mut r = str_string("\x1b_Ga=t,f=32,s=");
    push_str(&mut r, u64_string(width as u64).as_str());
    push_str(&mut r, ",v=");
    push_str(&mut r, u64_string(height as u64).as_str());
    push_str(&mut r, ",c=");
    push_str(&mut r, u64_string(col as u64).as_str());
    push_str(&mut r, ",r=");
    push_str(&mut r, u64_string(row as u64).as_str());
    push_str(&mut r, ";");
    push_str(&mut r, b64);
    push_str(&mut r, "\x1b\\");
    r
}

/// The Kitty graphics command that shows the RGBA pixels of a `width` by `height` image at
/// a cell column and row, sent in one piece.
pub fn kitty_payload(width: u32, height: u32, col: u32, row: u32, rgba: &[u8]) -> (r: String)
    requires
        (rgba@.len() / 3) * 4 + 4 <= usize::MAX,
    ensures
        r@ == kitty_command(width, height, col, row, base64_standard(rgba@)),
{
    let b64 = base64_encode(rgba);
    kitty_command_for(width, height, col, row, b64.as_str())
}

} // verus!
