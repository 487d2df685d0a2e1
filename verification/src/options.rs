use vstd::prelude::*;

verus! {

/// Presentation settings the shell runs the machine with.
#[derive(Clone, Copy, Debug)]
pub struct Options {
    /// Window width in pixels.
    pub width: u32,
    /// Window height in pixels.
    pub height: u32,
    /// Whether to take over the whole desktop.
    pub fullscreen: bool,
    /// Background colour, as RGBA with an empty alpha byte.
    pub bgcolor: u32,
    /// Foreground colour, as RGBA with an empty alpha byte.
    pub fgcolor: u32,
}

/// Which half of a window-size argument a complaint names.
#[derive(Clone, Copy, Debug, PartialEq, Eq, Structural)]
pub enum SizeField {
    /// The part before the separator.
    Width,
    /// The part after the separator.
    Height,
}

/// Why the shell's options were refused.  Each variant carries what a
/// message to the user needs.
#[derive(Clone, Copy, Debug, PartialEq, Eq, Structural)]
pub enum OptionsError {
    /// The window size is not of the form (width)x(height).
    WindowSizeFormat,
    /// A window dimension lies below the named minimum.
    ResolutionTooSmall(SizeField, u32),
    /// A colour is not six characters long; the actual length is carried.
    ColorLength(usize),
    /// A colour holds something besides hexadecimal digits.
    ColorDigit,
}

/// A decimal digit.
pub open spec fn is_dec_digit(c: u8) -> bool {
    0x30 <= c <= 0x39
}

/// Nothing but decimal digits.
pub open spec fn dec_digits(s: Seq<u8>) -> bool {
    forall|i: int| 0 <= i < s.len() ==> is_dec_digit(#[trigger] s[i])
}

/// The number a digit string denotes, leading zeroes allowed.
pub open spec fn dec_value(s: Seq<u8>) -> int
    decreases s.len(),
{
    if s.len() == 0 {
        0
    } else {
        dec_value(s.drop_last()) * 10 + (s.last() - 0x30)
    }
}

/// A hexadecimal digit, either case.
pub open spec fn is_hex_digit(c: u8) -> bool {
    is_dec_digit(c) || 0x41 <= c <= 0x46 || 0x61 <= c <= 0x66
}

/// Nothing but hexadecimal digits.
pub open spec fn hex_digits(s: Seq<u8>) -> bool {
    forall|i: int| 0 <= i < s.len() ==> is_hex_digit(#[trigger] s[i])
}

/// What one hexadecimal digit denotes.
pub open spec fn hex_digit_value(c: u8) -> int {
    if is_dec_digit(c) {
        c - 0x30
    } else if 0x41 <= c <= 0x46 {
        c - 0x41 + 10
    } else {
        c - 0x61 + 10
    }
}

/// The number a hexadecimal digit string denotes.
pub open spec fn hex_value(s: Seq<u8>) -> int
    decreases s.len(),
{
    if s.len() == 0 {
        0
    } else {
        hex_value(s.drop_last()) * 16 + hex_digit_value(s.last())
    }
}

/// The digits of a number argument: a single leading plus sign is allowed
/// and carries no value.
pub open spec fn number_body(s: Seq<u8>) -> Seq<u8> {
    if s.len() > 0 && s[0] == 0x2B {
        s.skip(1)
    } else {
        s
    }
}

/// What parsing an unsigned 32-bit decimal number from the bytes yields:
/// a value exactly on a non-empty digit string, an optional plus sign
/// allowed, whose value fits; nothing otherwise.
pub open spec fn parsed_u32(s: Seq<u8>) -> Option<u32> {
    let body = number_body(s);
    if body.len() > 0 && dec_digits(body) && dec_value(body) <= u32::MAX {
        Some(dec_value(body) as u32)
    } else {
        None
    }
}

/// What parsing an unsigned 32-bit hexadecimal number yields, under the
/// same rules.
pub open spec fn parsed_hex_u32(s: Seq<u8>) -> Option<u32> {
    let body = number_body(s);
    if body.len() > 0 && hex_digits(body) && hex_value(body) <= u32::MAX {
        Some(hex_value(body) as u32)
    } else {
        None
    }
}

/// A digit string never denotes a negative number.
proof fn lemma_dec_value_nonneg(s: Seq<u8>)
    requires
        dec_digits(s),
    ensures
        dec_value(s) >= 0,
    decreases s.len(),
{
    if s.len() > 0 {
        assert(dec_digits(s.drop_last()));
        lemma_dec_value_nonneg(s.drop_last());
    }
}

/// Every prefix of a digit string denotes at most the whole string's value.
proof fn lemma_dec_value_prefix(s: Seq<u8>, k: int)
    requires
        dec_digits(s),
        0 <= k <= s.len(),
    ensures
        dec_value(s.take(k)) <= dec_value(s),
    decreases s.len() - k,
{
    if k == s.len() {
        assert(s.take(k) =~= s);
    } else {
        assert(s.take(k + 1).drop_last() =~= s.take(k));
        assert(s.take(k + 1).last() == s[k]);
        assert(dec_digits(s.take(k)));
        lemma_dec_value_nonneg(s.take(k));
        lemma_dec_value_prefix(s, k + 1);
    }
}

/// A hexadecimal digit string never denotes a negative number.
proof fn lemma_hex_value_nonneg(s: Seq<u8>)
    requires
        hex_digits(s),
    ensures
        hex_value(s) >= 0,
    decreases s.len(),
{
    if s.len() > 0 {
        assert(hex_digits(s.drop_last()));
        lemma_hex_value_nonneg(s.drop_last());
    }
}

/// Every prefix of a hexadecimal digit string denotes at most the whole
/// string's value.
proof fn lemma_hex_value_prefix(s: Seq<u8>, k: int)
    requires
        hex_digits(s),
        0 <= k <= s.len(),
    ensures
        hex_value(s.take(k)) <= hex_value(s),
    decreases s.len() - k,
{
    if k == s.len() {
        assert(s.take(k) =~= s);
    } else {
        assert(s.take(k + 1).drop_last() =~= s.take(k));
        assert(s.take(k + 1).last() == s[k]);
        assert(hex_digits(s.take(k)));
        lemma_hex_value_nonneg(s.take(k));
        lemma_hex_value_prefix(s, k + 1);
    }
}

/// Sixteen to a small power, for bounding short hexadecimal strings.
spec fn pow16(n: nat) -> int
    decreases n,
{
    if n == 0 {
        1int
    } else {
        16 * pow16((n - 1) as nat)
    }
}

/// A hexadecimal string of `n` digits denotes less than 16^n.
proof fn lemma_hex_value_bound(s: Seq<u8>)
    requires
        hex_digits(s),
    ensures
        hex_value(s) < pow16(s.len()),
    decreases s.len(),
{
    if s.len() > 0 {
        assert(hex_digits(s.drop_last()));
        lemma_hex_value_bound(s.drop_last());
    }
}

/// Parse an unsigned 32-bit decimal number from the bytes of an argument,
/// exactly as the standard numeric parser would.
#[verifier::loop_isolation(false)]
pub fn parse_u32(s: &[u8]) -> (r: Option<u32>)
    ensures
        r == parsed_u32(s@),
{
    let ghost body = number_body(s@);
    let start: usize = if s.len() > 0 && s[0] == 0x2B {
        1
    } else {
        0
    };
    proof {
        assert(body =~= s@.skip(start as int));
    }
    if s.len() == start {
        return None;
    }
    let mut acc: u32 = 0;
    let mut k: usize = start;
    while k < s.len()
        invariant
            start <= k <= s@.len(),
            dec_digits(body.take(k - start)),
            acc == dec_value(body.take(k - start)),
        decreases s@.len() - k,
    {
        let c = s[k];
        if c < 0x30 || c > 0x39 {
            proof {
                assert(!is_dec_digit(body[k - start]));
            }
            return None;
        }
        let d = (c - 0x30) as u32;
        proof {
            assert(body.take(k - start + 1).drop_last() =~= body.take(k - start));
            assert(body.take(k - start + 1).last() == body[k - start]);
        }
        if acc > (u32::MAX - d) / 10 {
            proof {
                assert(dec_value(body.take(k - start + 1)) == acc * 10 + d);
                assert(acc * 10 + d > u32::MAX);
                if dec_digits(body) {
                    lemma_dec_value_prefix(body, k - start + 1);
                }
            }
            return None;
        }
        acc = acc * 10 + d;
        k += 1;
    }
    proof {
        assert(body.take(k - start) =~= body);
    }
    Some(acc)
}

/// Parse an unsigned 32-bit hexadecimal number from the bytes of an
/// argument, exactly as the standard radix parser would.
#[verifier::loop_isolation(false)]
fn parse_hex_u32(s: &[u8], start0: usize) -> (r: Option<u32>)
    requires
        start0 <= s@.len(),
    ensures
        r == parsed_hex_u32(s@.skip(start0 as int)),
{
    let ghost arg = s@.skip(start0 as int);
    let ghost body = number_body(arg);
    let start: usize = if s.len() > start0 && s[start0] == 0x2B {
        start0 + 1
    } else {
        start0
    };
    proof {
        assert(body =~= s@.skip(start as int));
    }
    if s.len() == start {
        return None;
    }
    let mut acc: u32 = 0;
    let mut k: usize = start;
    while k < s.len()
        invariant
            start <= k <= s@.len(),
            hex_digits(body.take(k - start)),
            acc == hex_value(body.take(k - start)),
        decreases s@.len() - k,
    {
        let c = s[k];
        let d: u32 = if c >= 0x30 && c <= 0x39 {
            (c - 0x30) as u32
        } else if c >= 0x41 && c <= 0x46 {
            (c - 0x41) as u32 + 10
        } else if c >= 0x61 && c <= 0x66 {
            (c - 0x61) as u32 + 10
        } else {
            proof {
                assert(!is_hex_digit(body[k - start]));
            }
            return None;
        };
        proof {
            assert(body.take(k - start + 1).drop_last() =~= body.take(k - start));
            assert(body.take(k - start + 1).last() == body[k - start]);
        }
        if acc > (u32::MAX - d) / 16 {
            proof {
                assert(hex_value(body.take(k - start + 1)) == acc * 16 + d);
                assert(acc * 16 + d > u32::MAX);
                if hex_digits(body) {
                    lemma_hex_value_prefix(body, k - start + 1);
                }
            }
            return None;
        }
        acc = acc * 16 + d;
        k += 1;
    }
    proof {
        assert(body.take(k - start) =~= body);
    }
    Some(acc)
}

/// The colour characters of a colour argument: a single leading hash mark
/// is stripped.
pub open spec fn color_body(s: Seq<u8>) -> Seq<u8> {
    if s.len() > 0 && s[0] == 0x23 {
        s.skip(1)
    } else {
        s
    }
}

/// What a colour argument denotes: after an optional hash mark, exactly six
/// characters that parse as a hexadecimal number, whose value is shifted
/// into the high three bytes; else the first complaint that applies.
pub open spec fn rgb_outcome(s: Seq<u8>) -> Result<u32, OptionsError> {
    let body = color_body(s);
    if body.len() != 6 {
        Err(OptionsError::ColorLength(body.len() as usize))
    } else {
        match parsed_hex_u32(body) {
            Some(v) => Ok((v * 0x100) as u32),
            None => Err(OptionsError::ColorDigit),
        }
    }
}

/// Read a colour argument: strip one leading
/// hash mark, insist on six characters, read them as hexadecimal, and shift
/// the value into the high three bytes.
pub fn parse_rgb(s: &[u8]) -> (r: Result<u32, OptionsError>)
    ensures
        r == rgb_outcome(s@),
        r matches Ok(v) ==> v <= 0xFFFFFF00u32,
{
    let start: usize = if s.len() > 0 && s[0] == 0x23 {
        1
    } else {
        0
    };
    let len = s.len() - start;
    proof {
        assert(color_body(s@) =~= s@.skip(start as int));
    }
    if len != 6 {
        return Err(OptionsError::ColorLength(len));
    }
    match parse_hex_u32(s, start) {
        Some(v) => {
            proof {
                let body = number_body(color_body(s@));
                lemma_hex_value_nonneg(body);
                lemma_hex_value_bound(body);
                reveal_with_fuel(pow16, 8);
                assert(pow16(6) == 0x1000000);
                assert(pow16(5) == 0x100000);
                assert(v < 0x1000000);
                assert(v << 8u32 == v * 0x100) by (bit_vector)
                    requires
                        v < 0x1000000u32,
                ;
            }
            Ok(v << 8)
        },
        None => Err(OptionsError::ColorDigit),
    }
}

/// Exactly one separator stands at `i`: the byte there is the letter x and
/// no other byte is.
pub open spec fn lone_separator(s: Seq<u8>, i: int) -> bool {
    &&& 0 <= i < s.len()
    &&& s[i] == 0x78
    &&& forall|j: int| 0 <= j < s.len() && j != i ==> s[j] != 0x78
}

/// The number a window dimension denotes: zero when it does not parse, as
/// an unreadable dimension counts as zero and is then rejected as too
/// small.
pub open spec fn resolution_value(s: Seq<u8>) -> u32 {
    match parsed_u32(s) {
        Some(v) => v,
        None => 0u32,
    }
}

/// What a window-size argument denotes: two dimensions around a single
/// letter x, each at least its minimum; else the first complaint that
/// applies.
pub open spec fn window_outcome(s: Seq<u8>, min_w: u32, min_h: u32) -> Result<
    (u32, u32),
    OptionsError,
> {
    if exists|i: int| lone_separator(s, i) {
        let i = choose|i: int| lone_separator(s, i);
        let wv = resolution_value(s.take(i));
        let hv = resolution_value(s.skip(i + 1));
        if wv < min_w {
            Err(OptionsError::ResolutionTooSmall(SizeField::Width, min_w))
        } else if hv < min_h {
            Err(OptionsError::ResolutionTooSmall(SizeField::Height, min_h))
        } else {
            Ok((wv, hv))
        }
    } else {
        Err(OptionsError::WindowSizeFormat)
    }
}

/// Parse one dimension out of a window-size argument.
#[verifier::loop_isolation(false)]
fn parse_u32_range(s: &[u8], from: usize, to: usize) -> (r: Option<u32>)
    requires
        from <= to <= s@.len(),
    ensures
        r == parsed_u32(s@.subrange(from as int, to as int)),
{
    let ghost arg = s@.subrange(from as int, to as int);
    let ghost body = number_body(arg);
    let start: usize = if to > from && s[from] == 0x2B {
        from + 1
    } else {
        from
    };
    proof {
        assert(body =~= s@.subrange(start as int, to as int));
    }
    if to == start {
        return None;
    }
    let mut acc: u32 = 0;
    let mut k: usize = start;
    while k < to
        invariant
            start <= k <= to,
            dec_digits(body.take(k - start)),
            acc == dec_value(body.take(k - start)),
        decreases to - k,
    {
        let c = s[k];
        if c < 0x30 || c > 0x39 {
            proof {
                assert(!is_dec_digit(body[k - start]));
            }
            return None;
        }
        let d = (c - 0x30) as u32;
        proof {
            assert(body.take(k - start + 1).drop_last() =~= body.take(k - start));
            assert(body.take(k - start + 1).last() == body[k - start]);
        }
        if acc > (u32::MAX - d) / 10 {
            proof {
                assert(dec_value(body.take(k - start + 1)) == acc * 10 + d);
                assert(acc * 10 + d > u32::MAX);
                if dec_digits(body) {
                    lemma_dec_value_prefix(body, k - start + 1);
                }
            }
            return None;
        }
        acc = acc * 10 + d;
        k += 1;
    }
    proof {
        assert(body.take(k - start) =~= body);
    }
    Some(acc)
}

/// Read a window-size argument: the dimensions
/// around a single letter x, an unreadable dimension counting as zero, each
/// dimension checked against its minimum — width first.
pub fn parse_window_size(s: &[u8], min_w: u32, min_h: u32) -> (r: Result<
    (u32, u32),
    OptionsError,
>)
    ensures
        r == window_outcome(s@, min_w, min_h),
{
    let mut sep: usize = 0;
    let mut seps: usize = 0;
    let mut k: usize = 0;
    while k < s.len()
        invariant
            k <= s@.len(),
            seps <= k,
            seps > 0 ==> sep < k && s@[sep as int] == 0x78,
            seps == 1 ==> forall|j: int| 0 <= j < k && j != sep ==> s@[j] != 0x78,
            seps == 0 ==> forall|j: int| 0 <= j < k ==> s@[j] != 0x78,
            seps >= 2 ==> !(exists|i: int| lone_separator(s@, i)),
        decreases s@.len() - k,
    {
        if s[k] == 0x78 {
            proof {
                if seps == 1 {
                    assert forall|i: int| !lone_separator(s@, i) by {
                        if lone_separator(s@, i) {
                            assert(s@[sep as int] == 0x78 && s@[k as int] == 0x78);
                        }
                    }
                }
            }
            sep = k;
            seps += 1;
        }
        k += 1;
    }
    if seps != 1 {
        proof {
            if seps == 0 {
                assert forall|i: int| !lone_separator(s@, i) by {}
            }
        }
        return Err(OptionsError::WindowSizeFormat);
    }
    proof {
        assert(lone_separator(s@, sep as int));
        let i = choose|i: int| lone_separator(s@, i);
        assert(i == sep as int);
    }
    let wv = match parse_u32_range(s, 0, sep) {
        Some(v) => v,
        None => 0,
    };
    let hv = match parse_u32_range(s, sep + 1, s.len()) {
        Some(v) => v,
        None => 0,
    };
    proof {
        assert(s@.subrange(0, sep as int) =~= s@.take(sep as int));
        assert(s@.subrange(sep + 1, s@.len() as int) =~= s@.skip(sep + 1));
    }
    if wv < min_w {
        return Err(OptionsError::ResolutionTooSmall(SizeField::Width, min_w));
    }
    if hv < min_h {
        return Err(OptionsError::ResolutionTooSmall(SizeField::Height, min_h));
    }
    Ok((wv, hv))
}

/// What the whole option set denotes.  A missing window size falls back to
/// the minimum; a missing colour is the complement of the one given, black
/// on white when neither is; complaints about the window size come first,
/// then about the background, then about the foreground.
pub open spec fn options_outcome(
    ws: Option<Seq<u8>>,
    fullscreen: bool,
    bg: Option<Seq<u8>>,
    fg: Option<Seq<u8>>,
    min_w: u32,
    min_h: u32,
) -> Result<Options, OptionsError> {
    let wh = match ws {
        Some(s) => window_outcome(s, min_w, min_h),
        None => Ok((min_w, min_h)),
    };
    match wh {
        Err(e) => Err(e),
        Ok((w, h)) => {
            let colors = match (bg, fg) {
                (Some(bs), Some(fs)) => match (rgb_outcome(bs), rgb_outcome(fs)) {
                    (Err(e), _) => Err(e),
                    (Ok(_), Err(e)) => Err(e),
                    (Ok(bc), Ok(fc)) => Ok((bc, fc)),
                },
                (Some(bs), None) => match rgb_outcome(bs) {
                    Err(e) => Err(e),
                    Ok(bc) => Ok((bc, (0xffffff00 - bc) as u32)),
                },
                (None, Some(fs)) => match rgb_outcome(fs) {
                    Err(e) => Err(e),
                    Ok(fc) => Ok(((0xffffff00 - fc) as u32, fc)),
                },
                (None, None) => Ok((0u32, 0xffffff00u32)),
            };
            match colors {
                Err(e) => Err(e),
                Ok((bc, fc)) => Ok(
                    Options { width: w, height: h, fullscreen, bgcolor: bc, fgcolor: fc },
                ),
            }
        },
    }
}

/// Combine the raw option arguments into the settings the shell runs with,
/// exactly as `options_outcome` lays down.
pub fn build_options(
    ws: Option<&[u8]>,
    fullscreen: bool,
    bg: Option<&[u8]>,
    fg: Option<&[u8]>,
    min_w: u32,
    min_h: u32,
) -> (r: Result<Options, OptionsError>)
    ensures
        r == options_outcome(
            match ws {
                Some(s) => Some(s@),
                None => None,
            },
            fullscreen,
            match bg {
                Some(s) => Some(s@),
                None => None,
            },
            match fg {
                Some(s) => Some(s@),
                None => None,
            },
            min_w,
            min_h,
        ),
{
    let (width, height) = match ws {
        Some(s) => match parse_window_size(s, min_w, min_h) {
            Ok(wh) => wh,
            Err(e) => {
                return Err(e);
            },
        },
        None => (min_w, min_h),
    };
    let (bgcolor, fgcolor) = match (bg, fg) {
        (Some(bs), Some(fs)) => {
            let bc = match parse_rgb(bs) {
                Ok(v) => v,
                Err(e) => {
                    return Err(e);
                },
            };
            let fc = match parse_rgb(fs) {
                Ok(v) => v,
                Err(e) => {
                    return Err(e);
                },
            };
            (bc, fc)
        },
        (Some(bs), None) => {
            let bc = match parse_rgb(bs) {
                Ok(v) => v,
                Err(e) => {
                    return Err(e);
                },
            };
            (bc, 0xffffff00 - bc)
        },
        (None, Some(fs)) => {
            let fc = match parse_rgb(fs) {
                Ok(v) => v,
                Err(e) => {
                    return Err(e);
                },
            };
            (0xffffff00 - fc, fc)
        },
        (None, None) => (0, 0xffffff00),
    };
    Ok(Options { width, height, fullscreen, bgcolor, fgcolor })
}

} // verus!
