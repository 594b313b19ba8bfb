//! Deterministic display colors for activity-type labels.
//!
//! A label is hashed with std's `DefaultHasher`, which is seeded with fixed
//! keys (`DefaultHasher::new` documents that all hashers created through
//! `new` are the same), so the color of a label is stable within a process
//! and across processes and restarts.  The low three bytes of the hash give
//! the red, green and blue channels; a channel triple that would be too dark
//! to read is brightened while keeping the hue.

use vstd::prelude::*;
use std::collections::hash_map::DefaultHasher;
use std::hash::Hasher;
use vstd::std_specs::hash::DefaultHasherAdditionalSpecFns;
use crate::text::spec_digit_char;

verus! {

/// The 64-bit hash that the color of a label is derived from: the label's
/// UTF-8 bytes fed to std's fixed-seed `DefaultHasher` in one `write` call.
pub open spec fn spec_label_hash(s: Seq<char>) -> u64 {
    DefaultHasher::spec_finish(seq![vstd::utf8::encode_utf8(s)])
}

/// The lowest channel value considered readable against the UI background.
pub const MIN_BRIGHTNESS: u8 = 100;

pub open spec fn spec_max3(r: u8, g: u8, b: u8) -> u8 {
    if r >= g && r >= b {
        r
    } else if g >= b {
        g
    } else {
        b
    }
}

/// Brightens one channel by the factor `MIN_BRIGHTNESS / m`, where `m` is
/// the largest of the three channels, clamping at 255.  An all-black triple
/// (`m == 0`) has no hue to preserve and is lifted straight to white.
pub open spec fn spec_boost(c: u8, m: u8) -> u8 {
    if m == 0 {
        255
    } else if (c as int) * (MIN_BRIGHTNESS as int) / (m as int) > 255 {
        255
    } else {
        ((c as int) * (MIN_BRIGHTNESS as int) / (m as int)) as u8
    }
}

/// The red, green and blue channels derived from a label hash: the low
/// three bytes, brightened when even the largest is below the threshold.
pub open spec fn spec_channels(h: u64) -> (u8, u8, u8) {
    let r = (h & 0xff) as u8;
    let g = ((h >> 8) & 0xff) as u8;
    let b = ((h >> 16) & 0xff) as u8;
    let m = spec_max3(r, g, b);
    if m < MIN_BRIGHTNESS {
        (spec_boost(r, m), spec_boost(g, m), spec_boost(b, m))
    } else {
        (r, g, b)
    }
}

pub open spec fn spec_hex_digit(d: int) -> char {
    if d < 10 {
        spec_digit_char(d)
    } else {
        ((('A' as u8) + (d - 10)) as u8) as char
    }
}

pub open spec fn spec_hex_byte(c: u8) -> Seq<char> {
    seq![spec_hex_digit(c as int / 16), spec_hex_digit(c as int % 16)]
}

/// The `#RRGGBB` form of a channel triple, upper-case hex.
pub open spec fn spec_rgb_string(r: u8, g: u8, b: u8) -> Seq<char> {
    seq!['#'] + spec_hex_byte(r) + spec_hex_byte(g) + spec_hex_byte(b)
}

/// The display color of a label hash.
pub open spec fn spec_color_of_hash(h: u64) -> Seq<char> {
    let (r, g, b) = spec_channels(h);
    spec_rgb_string(r, g, b)
}

/// The display color of a label: a pure function of the label's characters.
pub open spec fn spec_color_of_label(s: Seq<char>) -> Seq<char> {
    spec_color_of_hash(spec_label_hash(s))
}

fn hex_digit(d: u8) -> (c: char)
    requires
        d < 16,
    ensures
        c == spec_hex_digit(d as int),
{
    if d < 10 {
        crate::text::digit_char(d)
    } else {
        (('A' as u8) + (d - 10)) as char
    }
}

fn push_hex_byte(out: &mut String, c: u8)
    ensures
        final(out)@ == old(out)@ + spec_hex_byte(c),
{
    let ghost pre = out@;
    out.push(hex_digit(c / 16));
    out.push(hex_digit(c % 16));
    assert(out@ =~= pre + spec_hex_byte(c));
}

fn boost(c: u8, m: u8) -> (r: u8)
    requires
        m < MIN_BRIGHTNESS,
    ensures
        r == spec_boost(c, m),
{
    if m == 0 {
        255
    } else {
        let scaled: u32 = (c as u32) * 100 / (m as u32);
        assert(scaled == (c as int) * (MIN_BRIGHTNESS as int) / (m as int));
        if scaled > 255 {
            255
        } else {
            scaled as u8
        }
    }
}

/// The `#RRGGBB` color derived from a 64-bit label hash.  Public so that the
/// channel extraction, brightening and formatting can be exercised on chosen
/// hash values, independently of the hash function.
pub fn rgb_of_hash(h: u64) -> (r: String)
    ensures
        r@ == spec_color_of_hash(h),
{
    assert(h & 0xff < 256 && (h >> 8) & 0xff < 256 && (h >> 16) & 0xff < 256) by (bit_vector);
    let cr = (h & 0xff) as u8;
    let cg = ((h >> 8) & 0xff) as u8;
    let cb = ((h >> 16) & 0xff) as u8;
    let mut m = cr;
    if cg > m {
        m = cg;
    }
    if cb > m {
        m = cb;
    }
    assert(m == spec_max3(cr, cg, cb));
    let (fr, fg, fb) = if m < MIN_BRIGHTNESS {
        (boost(cr, m), boost(cg, m), boost(cb, m))
    } else {
        (cr, cg, cb)
    };
    let mut out = String::new();
    out.push('#');
    push_hex_byte(&mut out, fr);
    push_hex_byte(&mut out, fg);
    push_hex_byte(&mut out, fb);
    proof {
        assert(out@ =~= spec_color_of_hash(h));
    }
    out
}

/// The deterministic display color of a label, as `#RRGGBB` upper-case hex.
pub fn string_to_rgb(input: &str) -> (r: String)
    ensures
        r@ == spec_color_of_label(input@),
{
    let mut hasher = DefaultHasher::new();
    hasher.write(input.as_bytes());
    proof {
        assert(hasher@ =~= seq![vstd::utf8::encode_utf8(input@)]);
    }
    let h = hasher.finish();
    rgb_of_hash(h)
}

/// The color of a label depends on its characters alone: equal labels get
/// equal colors, in every process and on every run.
pub proof fn lemma_color_deterministic(s1: Seq<char>, s2: Seq<char>)
    requires
        s1 == s2,
    ensures
        spec_color_of_label(s1) == spec_color_of_label(s2),
{
}

/// Every derived color is readable: after brightening, the largest channel
/// is at least the brightness threshold.
pub proof fn lemma_color_readable(h: u64)
    ensures
        ({
            let (r, g, b) = spec_channels(h);
            spec_max3(r, g, b) >= MIN_BRIGHTNESS
        }),
{
    let cr = (h & 0xff) as u8;
    let cg = ((h >> 8) & 0xff) as u8;
    let cb = ((h >> 16) & 0xff) as u8;
    let m = spec_max3(cr, cg, cb);
    if m < MIN_BRIGHTNESS {
        if m == 0 {
        } else {
            assert((m as int) * (MIN_BRIGHTNESS as int) / (m as int) == MIN_BRIGHTNESS as int)
                by (nonlinear_arith)
                requires
                    0 < m < 100,
            ;
            assert(spec_boost(m, m) == MIN_BRIGHTNESS);
            if cr >= cg && cr >= cb {
                assert(spec_boost(cr, m) == MIN_BRIGHTNESS);
            } else if cg >= cb {
                assert(spec_boost(cg, m) == MIN_BRIGHTNESS);
            } else {
                assert(spec_boost(cb, m) == MIN_BRIGHTNESS);
            }
        }
    }
}

} // verus!
